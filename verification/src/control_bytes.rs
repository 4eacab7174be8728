//! The control byte that every bucket has.
//!
//! A byte with the top bit unset belongs to a full bucket and holds seven bits of the hash.
//! The two special bytes have the top bit set; the lowest bit tells them apart.

use vstd::prelude::*;

verus! {

/// The control byte of a bucket that never held an item since the last sweep.
pub const EMPTY: u8 = 0b1111_1111;

/// The control byte of a bucket whose item was removed, but which lookups must walk past.
pub const DELETED: u8 = 0b1000_0000;

/// The top bit is unset.
pub open spec fn is_full(ctrl: u8) -> bool {
    ctrl < 0x80
}

/// The top bit is set: empty or deleted.
pub open spec fn is_special(ctrl: u8) -> bool {
    !is_full(ctrl)
}

/// The bytes that a table ever stores.
pub open spec fn is_valid(ctrl: u8) -> bool {
    is_full(ctrl) || ctrl == EMPTY || ctrl == DELETED
}

/// Whether the top bit is unset.
pub fn is_control_byte_full(ctrl: u8) -> (r: bool)
    ensures
        r == is_full(ctrl),
        r == (ctrl < 0x80),
{
    assert((ctrl & 0x80 == 0) == (ctrl < 0x80)) by (bit_vector);
    ctrl & 0x80 == 0
}

/// Whether the top bit is set, that is, the byte is either empty or deleted.
pub fn is_control_byte_special(ctrl: u8) -> (r: bool)
    ensures
        r == is_special(ctrl),
        r == (ctrl >= 0x80),
{
    assert((ctrl & 0x80 != 0) == !(ctrl < 0x80)) by (bit_vector);
    ctrl & 0x80 != 0
}

/// Whether a special control byte is the empty one. Only the lowest bit is looked at.
pub fn is_special_empty(ctrl: u8) -> (r: bool)
    ensures
        r == (ctrl % 2 == 1),
        is_special(ctrl) && is_valid(ctrl) ==> r == (ctrl == EMPTY),
        ctrl == 0xff ==> r,
        ctrl == 0x80 ==> !r,
{
    assert((ctrl & 0x01 != 0) == (ctrl % 2 == 1)) by (bit_vector);
    ctrl & 0x01 != 0
}

/// A byte below `0x80` is that of a full bucket and every other one is special. Of the two special
/// bytes that there are, `0xff` is empty and `0x80` is not.
pub proof fn law_control_bytes(ctrl: u8, full: bool, special: bool, empty: bool)
    requires
        call_ensures(is_control_byte_full, (ctrl,), full),
        call_ensures(is_control_byte_special, (ctrl,), special),
        call_ensures(is_special_empty, (ctrl,), empty),
    ensures
        full <==> ctrl < 0x80,
        special <==> !full,
        ctrl == 0xff ==> special && empty,
        ctrl == 0x80 ==> special && !empty,
        EMPTY == 0xff,
        DELETED == 0x80,
{
}

} // verus!
