//! A swiss-table style hashtable: control bytes scanned a group at a time, triangular probing,
//! tombstones and a load factor of seven eighths.

pub mod bitmask;
pub mod bucket;
pub mod capacity;
pub mod control_bytes;
pub mod ctrl;
pub mod group;
pub mod hash;
pub mod hint;
pub mod iter;
pub mod laws;
pub mod low_table;
pub mod mapalloc;
pub mod math;
pub mod probe;
pub mod raw_laws;
pub mod raw_table;
pub mod reserve;
pub mod scopeguard;
pub mod table_layout;
