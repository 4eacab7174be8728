# skymap

A hashtable in the manner of the swiss tables: a control byte for each bucket, scanned a group
of sixteen at a time; quadratic probing by triangular numbers; tombstones; a load factor of
seven eighths. What it does is stated in contracts and proved with Verus.

The table does not hash and does not compare. It finds a place for a hash value, keeps the
books, and walks over what is there.

## Layout

- `control_bytes`, `hash`: the bytes, and which part of a hash goes where
- `bitmask`, `group`: scanning a group
- `probe`: the order in which the groups are visited, and why it visits each of them once
- `capacity`: buckets for items, items for buckets
- `ctrl`: the control bytes as a sequence; what finding a place, removing and looking up mean,
  and what they do to each other
- `table_layout`, `mapalloc`, `reserve`: the allocation, its layout, and what goes wrong
- `low_table`: the table without the type of its items
- `bucket`: positions and items
- `raw_table`: the table
- `iter`: walking over the full buckets
- `scopeguard`: a table that is not finished
- `math`, `hint`: helpers

Positions are byte offsets into the allocation. The control bytes are in the allocation. The
items are kept beside it, in one typed slot for each bucket, since a block of bytes does not
hold values of an arbitrary type; the room for them in the layout is left as it is. Slots never
drop an item by themselves. A table of capacity zero has no memory at all: it reads one group of
empty control bytes instead.

An allocator may refuse. `with_capacity` says so in its result; `app/` has the variants that
end the process instead, a guard that gives an unfinished table's allocation back when it is
dropped, and the standard iterator traits.
