//! The outcome of a group scan: one bit per control byte.

use vstd::prelude::*;

verus! {

/// One bit for each of the control bytes of a group, the first byte in the lowest bit.
#[derive(Clone, Copy)]
pub struct Bitmask {
    pub mask: u16,
}

impl Bitmask {
    /// Whether the bit for the `i`th byte is set.
    pub open spec fn has(self, i: int) -> bool {
        0 <= i < 16 && (self.mask >> (i as u16)) & 1 == 1
    }

    /// Whether `b` is the lowest set bit.
    pub open spec fn is_lowest(self, b: int) -> bool {
        &&& self.has(b)
        &&& forall|j: int| 0 <= j < b ==> !self.has(j)
    }

    /// Whether no bit is set.
    pub open spec fn is_clear(self) -> bool {
        forall|j: int| !self.has(j)
    }

    /// A mask is zero exactly when no bit is set.
    pub proof fn lemma_clear_is_zero(self)
        ensures
            self.is_clear() <==> self.mask == 0,
    {
        let m = self.mask;
        vstd::std_specs::bits::axiom_u16_trailing_zeros(m);
        if m == 0 {
            assert forall|j: int| !self.has(j) by {
                let k = j as u16;
                assert((0u16 >> k) & 1 == 0) by (bit_vector);
            }
        } else {
            let t = vstd::std_specs::bits::u16_trailing_zeros(m) as int;
            assert(self.has(t));
        }
    }

    /// The position of the lowest set bit, if any bit is set.
    pub fn lowest_set_bit(self) -> (r: Option<usize>)
        ensures
            r matches Some(b) ==> self.is_lowest(b as int),
            r is None <==> self.is_clear(),
    {
        proof {
            self.lemma_clear_is_zero();
        }
        if self.mask == 0 {
            None
        } else {
            Some(self.lowest_set_bit_nonzero())
        }
    }

    /// The position of the lowest set bit of a mask that has one.
    pub fn lowest_set_bit_nonzero(self) -> (r: usize)
        requires
            !self.is_clear(),
        ensures
            self.is_lowest(r as int),
    {
        proof {
            self.lemma_clear_is_zero();
        }
        self.trailing_zeros()
    }

    /// The mask without its lowest set bit.
    pub fn remove_lowest_bit(self) -> (r: Bitmask)
        requires
            !self.is_clear(),
        ensures
            forall|b: int, i: int|
                #![trigger self.is_lowest(b), r.has(i)]
                self.is_lowest(b) ==> (r.has(i) <==> self.has(i) && i != b),
    {
        proof {
            self.lemma_clear_is_zero();
            let m = self.mask;
            let n = (m & ((m - 1) as u16)) as u16;
            let r = Bitmask { mask: n };
            vstd::std_specs::bits::axiom_u16_trailing_zeros(m);
            let t = vstd::std_specs::bits::u16_trailing_zeros(m) as u16;
            assert(self.is_lowest(t as int));
            assert forall|b: int, i: int|
                #![trigger self.is_lowest(b), r.has(i)]
                self.is_lowest(b) implies (r.has(i) <==> self.has(i) && i != b) by {
                assert(b == t) by {
                    if b < t {
                        assert(!self.has(b));
                    }
                    if t < b {
                        assert(!self.has(t as int));
                    }
                }
                if 0 <= i < 16 {
                    let k = i as u16;
                    assert(((n >> k) & 1 == 1) == ((m >> k) & 1 == 1 && k != t)) by (bit_vector)
                        requires
                            m != 0,
                            k < 16,
                            t < 16,
                            n == m & ((m - 1) as u16),
                            (m >> t) & 1 == 1,
                            m << ((16 - t) as u16) == 0,
                    ;
                }
            }
        }
        Bitmask { mask: self.mask & (self.mask - 1) }
    }

    /// The number of bytes at the end of the group whose bits are unset.
    pub fn leading_zeros(self) -> (r: usize)
        ensures
            r <= 16,
            forall|j: int| 16 - r <= j < 16 ==> !self.has(j),
            r < 16 ==> self.has(15 - r),
    {
        let r: u32 = self.mask.leading_zeros();
        proof {
            let m = self.mask;
            vstd::std_specs::bits::axiom_u16_leading_zeros(m);
            assert forall|j: int| 16 - r <= j < 16 implies !self.has(j) by {
                let k = j as u16;
                assert((m >> k) & 1u16 == 0u16);
            }
            if r < 16 {
                let k = (15 - r) as u16;
                assert((m >> k) & 1 != 0 ==> (m >> k) & 1 == 1) by (bit_vector);
                
            }
        }
        r as usize
    }

    /// The number of bytes at the start of the group whose bits are unset.
    pub fn trailing_zeros(self) -> (r: usize)
        ensures
            r <= 16,
            forall|j: int| 0 <= j < r ==> !self.has(j),
            r < 16 ==> self.has(r as int),
            r == 16 <==> self.mask == 0,
    {
        let r: u32 = self.mask.trailing_zeros();
        proof {
            let m = self.mask;
            vstd::std_specs::bits::axiom_u16_trailing_zeros(m);
            assert forall|j: int| 0 <= j < r implies !self.has(j) by {
                let k = j as u16;
                assert((m >> k) & 1u16 == 0u16);
            }
        }
        r as usize
    }
}

/// The lowest set bit is set and has no set bit below it; there is none exactly in the mask zero.
/// The mask without it has all the other bits.
pub proof fn law_lowest_bit(mask: Bitmask, r: Option<usize>, rest: Bitmask, j: u16)
    requires
        j < 16,
        call_ensures(Bitmask::lowest_set_bit, (mask,), r),
        mask.mask != 0 ==> call_ensures(Bitmask::remove_lowest_bit, (mask,), rest),
    ensures
        r is None <==> mask.mask == 0,
        r matches Some(b) ==> {
            &&& b < 16
            &&& (mask.mask >> (b as u16)) & 1 == 1
            &&& j < b ==> (mask.mask >> j) & 1 != 1
            &&& (rest.mask >> j) & 1 == 1 <==> (mask.mask >> j) & 1 == 1 && j != b
        },
{
    mask.lemma_clear_is_zero();
    let i = j as int;
    assert(i as u16 == j);
    if let Some(b) = r {
        assert(mask.is_lowest(b as int));
        assert(mask.has(b as int));
        assert(rest.has(i) <==> mask.has(i) && i != b);
        if i < b {
            assert(!mask.has(i));
        }
    }
}

/// The bits that are unset at either end are counted, up to the first that is set.
pub proof fn law_zeros(mask: Bitmask, leading: usize, trailing: usize, j: u16)
    requires
        j < 16,
        call_ensures(Bitmask::leading_zeros, (mask,), leading),
        call_ensures(Bitmask::trailing_zeros, (mask,), trailing),
    ensures
        leading <= 16,
        trailing <= 16,
        j >= 16 - leading ==> (mask.mask >> j) & 1 != 1,
        j == 15 - leading ==> (mask.mask >> j) & 1 == 1,
        j < trailing ==> (mask.mask >> j) & 1 != 1,
        j == trailing ==> (mask.mask >> j) & 1 == 1,
{
    let i = j as int;
    assert(i as u16 == j);
    if i >= 16 - leading {
        assert(!mask.has(i));
    }
    if i < trailing {
        assert(!mask.has(i));
    }
}

} // verus!
