//! A group: the run of control bytes that is examined in one step.

use vstd::prelude::*;
use crate::bitmask::Bitmask;
use crate::control_bytes::{DELETED, EMPTY};

verus! {

/// The control bytes of `Group::WIDTH` neighbouring buckets.
#[derive(Clone, Copy)]
pub struct Group {
    pub bytes: [u8; 16],
}

/// What a control byte becomes when a table is prepared for rehashing: full buckets turn into
/// deleted ones, special ones into empty ones.
pub open spec fn converted(ctrl: u8) -> u8 {
    if crate::control_bytes::is_full(ctrl) {
        DELETED
    } else {
        EMPTY
    }
}

impl Group {
    /// The number of control bytes in a group.
    pub const WIDTH: usize = 16;

    /// The control bytes of a table without memory: a single group of empty bytes.
    pub fn empty_static() -> (r: [u8; 16])
        ensures
            r@ == Seq::new(Group::WIDTH as nat, |i: int| EMPTY),
    {
        let bytes: [u8; 16] = [EMPTY; 16];
        assert(bytes@ =~= Seq::new(Group::WIDTH as nat, |i: int| EMPTY));
        bytes
    }

    /// The group that starts at position `pos` of a block of memory.
    pub fn load_unaligned(block: &Vec<u8>, pos: usize) -> (g: Group)
        requires
            pos + Group::WIDTH <= block@.len(),
        ensures
            g.bytes@ == block@.subrange(pos as int, pos + Group::WIDTH),
    {
        let mut bytes: [u8; 16] = [EMPTY; 16];
        let mut i: usize = 0;
        while i < Group::WIDTH
            invariant
                pos + Group::WIDTH <= block.len(),
                i <= Group::WIDTH,
                forall|j: int| 0 <= j < i ==> bytes@[j] == block@[pos + j],
            decreases Group::WIDTH - i,
        {
            bytes[i] = block[pos + i];
            i = i + 1;
        }
        assert(bytes@ =~= block@.subrange(pos as int, pos + Group::WIDTH));
        Group { bytes }
    }

    /// The group that starts at the aligned position `pos` of a block of memory.
    pub fn load_aligned(block: &Vec<u8>, pos: usize) -> (g: Group)
        requires
            pos + Group::WIDTH <= block@.len(),
            pos % Group::WIDTH == 0,
        ensures
            g.bytes@ == block@.subrange(pos as int, pos + Group::WIDTH),
    {
        Group::load_unaligned(block, pos)
    }

    /// Writes the group back to the aligned position `pos` of a block of memory.
    pub fn store_aligned(self, block: &mut Vec<u8>, pos: usize)
        requires
            pos + Group::WIDTH <= old(block)@.len(),
            pos % Group::WIDTH == 0,
        ensures
            final(block)@.len() == old(block)@.len(),
            forall|j: int|
                0 <= j < old(block)@.len() ==> #[trigger] final(block)@[j] == if pos <= j < pos
                    + Group::WIDTH {
                    self.bytes@[j - pos]
                } else {
                    old(block)@[j]
                },
    {
        let mut i: usize = 0;
        let ghost before = block@;
        while i < Group::WIDTH
            invariant
                pos + Group::WIDTH <= block.len(),
                block@.len() == before.len(),
                i <= Group::WIDTH,
                forall|j: int|
                    0 <= j < before.len() ==> #[trigger] block@[j] == if pos <= j < pos + i {
                        self.bytes@[j - pos]
                    } else {
                        before[j]
                    },
            decreases Group::WIDTH - i,
        {
            block[pos + i] = self.bytes[i];
            i = i + 1;
        }
    }

    /// The bytes of the group that equal `byte`.
    pub fn match_byte(self, byte: u8) -> (r: Bitmask)
        ensures
            forall|j: int| 0 <= j < 16 ==> (#[trigger] r.has(j) <==> self.bytes@[j] == byte),
    {
        let mut r: Bitmask = Bitmask { mask: 0 };
        let mut i: usize = 0;
        proof {
            r.lemma_clear_is_zero();
        }
        while i < Group::WIDTH
            invariant
                i <= 16,
                forall|j: int|
                    0 <= j < 16 ==> (#[trigger] r.has(j) <==> j < i && self.bytes@[j] == byte),
            decreases Group::WIDTH - i,
        {
            if self.bytes[i] == byte {
                r = set_bit(r, i);
            }
            i = i + 1;
        }
        r
    }

    /// The empty buckets of the group.
    pub fn match_empty(self) -> (r: Bitmask)
        ensures
            forall|j: int| 0 <= j < 16 ==> (#[trigger] r.has(j) <==> self.bytes@[j] == EMPTY),
    {
        self.match_byte(EMPTY)
    }

    /// The buckets of the group that are either empty or deleted.
    pub fn match_empty_or_deleted(self) -> (r: Bitmask)
        ensures
            forall|j: int|
                0 <= j < 16 ==> (#[trigger] r.has(j) <==> crate::control_bytes::is_special(
                    self.bytes@[j],
                )),
    {
        let mut r: Bitmask = Bitmask { mask: 0 };
        let mut i: usize = 0;
        proof {
            r.lemma_clear_is_zero();
        }
        while i < Group::WIDTH
            invariant
                i <= 16,
                forall|j: int|
                    0 <= j < 16 ==> (#[trigger] r.has(j) <==> j < i
                        && crate::control_bytes::is_special(self.bytes@[j])),
            decreases Group::WIDTH - i,
        {
            if crate::control_bytes::is_control_byte_special(self.bytes[i]) {
                r = set_bit(r, i);
            }
            i = i + 1;
        }
        r
    }

    /// The full buckets of the group.
    pub fn match_full(self) -> (r: Bitmask)
        ensures
            forall|j: int|
                0 <= j < 16 ==> (#[trigger] r.has(j) <==> crate::control_bytes::is_full(
                    self.bytes@[j],
                )),
    {
        let special: Bitmask = self.match_empty_or_deleted();
        let r: Bitmask = Bitmask { mask: !special.mask };
        proof {
            let m = special.mask;
            assert forall|j: int| 0 <= j < 16 implies (#[trigger] r.has(j)
                <==> crate::control_bytes::is_full(self.bytes@[j])) by {
                let k = j as u16;
                assert(((!m >> k) & 1 == 1) == !((m >> k) & 1 == 1)) by (bit_vector)
                    requires
                        k < 16,
                ;
                assert(special.has(j) <==> crate::control_bytes::is_special(self.bytes@[j]));
            }
        }
        r
    }

    /// Turns full bytes into deleted ones and special bytes into empty ones.
    pub fn transform_full_to_deleted_and_special_to_empty(self) -> (r: Group)
        ensures
            forall|j: int| 0 <= j < 16 ==> #[trigger] r.bytes@[j] == converted(self.bytes@[j]),
    {
        let mut bytes: [u8; 16] = self.bytes;
        let mut i: usize = 0;
        while i < Group::WIDTH
            invariant
                i <= 16,
                forall|j: int|
                    0 <= j < 16 ==> #[trigger] bytes@[j] == if j < i {
                        converted(self.bytes@[j])
                    } else {
                        self.bytes@[j]
                    },
            decreases Group::WIDTH - i,
        {
            if crate::control_bytes::is_control_byte_full(bytes[i]) {
                bytes[i] = DELETED;
            } else {
                bytes[i] = EMPTY;
            }
            i = i + 1;
        }
        Group { bytes }
    }
}

/// The mask with the bit at `i` set as well.
fn set_bit(m: Bitmask, i: usize) -> (r: Bitmask)
    requires
        i < 16,
    ensures
        forall|j: int| 0 <= j < 16 ==> (#[trigger] r.has(j) <==> m.has(j) || j == i),
{
    let b: u16 = i as u16;
    let r: Bitmask = Bitmask { mask: m.mask | (1u16 << b) };
    proof {
        let x = m.mask;
        assert forall|j: int| 0 <= j < 16 implies (#[trigger] r.has(j) <==> m.has(j) || j == i) by {
            let k = j as u16;
            assert((((x | (1u16 << b)) >> k) & 1 == 1) == ((x >> k) & 1 == 1 || k == b))
                by (bit_vector)
                requires
                    k < 16,
                    b < 16,
            ;
        }
    }
    r
}

/// A scan sets the bit of a byte exactly where the byte is what was asked for: the given one;
/// `0xff`; `0x80` or more; less than that.
pub proof fn law_scans(
    group: Group,
    byte: u8,
    same: Bitmask,
    empty: Bitmask,
    special: Bitmask,
    full: Bitmask,
    j: u16,
)
    requires
        j < 16,
        call_ensures(Group::match_byte, (group, byte), same),
        call_ensures(Group::match_empty, (group,), empty),
        call_ensures(Group::match_empty_or_deleted, (group,), special),
        call_ensures(Group::match_full, (group,), full),
    ensures
        (same.mask >> j) & 1 == 1 <==> group.bytes@[j as int] == byte,
        (empty.mask >> j) & 1 == 1 <==> group.bytes@[j as int] == 0xff,
        (special.mask >> j) & 1 == 1 <==> group.bytes@[j as int] >= 0x80,
        (full.mask >> j) & 1 == 1 <==> group.bytes@[j as int] < 0x80,
{
    let i = j as int;
    assert(i as u16 == j);
    assert(same.has(i) <==> group.bytes@[i] == byte);
    assert(empty.has(i) <==> group.bytes@[i] == EMPTY);
    assert(special.has(i) <==> crate::control_bytes::is_special(group.bytes@[i]));
    assert(full.has(i) <==> crate::control_bytes::is_full(group.bytes@[i]));
}

/// The bytes of full buckets become `0x80`, all others `0xff`.
pub proof fn law_conversion(group: Group, r: Group)
    requires
        call_ensures(
            Group::transform_full_to_deleted_and_special_to_empty,
            (group,),
            r,
        ),
    ensures
        forall|j: int|
            0 <= j < 16 ==> #[trigger] r.bytes@[j] == (if group.bytes@[j] < 0x80 {
                0x80u8
            } else {
                0xffu8
            }),
{
}

/// A table without memory reads sixteen bytes `0xff`.
pub proof fn law_group_of_no_memory(r: [u8; 16])
    requires
        call_ensures(Group::empty_static, (), r),
    ensures
        forall|j: int| 0 <= j < 16 ==> #[trigger] r@[j] == 0xff,
{
}

} // verus!
