//! The two parts of a hash value.

use vstd::prelude::*;

verus! {

/// The top seven bits of a hash value, as far as a `usize` is wide.
pub open spec fn top_seven(hash: u64) -> u8 {
    ((hash >> ((usize::BITS - 7) as u64)) & 0x7f) as u8
}

/// The low 57 bits of a hash value, as far as a `usize` is wide.
pub open spec fn low_bits(hash: u64) -> usize {
    (hash & 0x01ff_ffff_ffff_ffff) as usize
}

/// The part of the hash that says where in the table to begin looking: the low 57 bits.
pub fn h1(hash: u64) -> (r: usize)
    ensures
        r == low_bits(hash),
        r == (hash as int % 0x0200_0000_0000_0000) % (usize::MAX + 1),
{
    proof {
        lemma_low_bits_value(hash);
    }
    #[verifier::truncate]
    ((hash & 0x01ff_ffff_ffff_ffff) as usize)
}

/// The part of the hash that is kept in the control byte of a full bucket: the top seven bits.
///
/// Hash functions may yield a `usize`, whose higher bits are zero on narrow targets, so the
/// top is that of a `usize`.
pub fn h2(hash: u64) -> (r: u8)
    ensures
        r == top_seven(hash),
        crate::control_bytes::is_full(r),
        r < 0x80,
        usize::BITS == 64 ==> r == hash as int / 0x0200_0000_0000_0000,
        usize::BITS == 32 ==> r == (hash as int / 0x0200_0000) % 0x80,
{
    proof {
        lemma_top_seven_value(hash);
        broadcast use vstd::layout::layout_of_primitives;

    }
    let word: usize = core::mem::size_of::<isize>();
    let long: usize = core::mem::size_of::<u64>();
    let hash_len: usize = if word < long {
        word
    } else {
        long
    };
    let top_seven_bits: u64 = hash >> ((hash_len * 8 - 7) as u64);
    assert((top_seven_bits & 0x7f) < 0x80) by (bit_vector);
    (top_seven_bits & 0x7f) as u8
}

/// The low bits as a number.
pub proof fn lemma_low_bits_value(hash: u64)
    ensures
        low_bits(hash) == (hash as int % 0x0200_0000_0000_0000) % (usize::MAX + 1),
{
    let low = hash & 0x01ff_ffff_ffff_ffff;
    assert(low == hash % 0x0200_0000_0000_0000) by (bit_vector)
        requires
            low == hash & 0x01ff_ffff_ffff_ffff,
    ;
    if usize::BITS == 32 {
        assert(usize::MAX == 0xffff_ffff);
        assert(usize::BITS == 32 ==> (low as usize) as u64 == low % 0x1_0000_0000) by (bit_vector);
    } else {
        assert(usize::MAX == 0xffff_ffff_ffff_ffff);
        vstd::arithmetic::div_mod::lemma_small_mod(low as nat, (usize::MAX + 1) as nat);
    }
}

/// The top bits as a number.
pub proof fn lemma_top_seven_value(hash: u64)
    ensures
        top_seven(hash) < 0x80,
        usize::BITS == 64 ==> top_seven(hash) == hash as int / 0x0200_0000_0000_0000,
        usize::BITS == 32 ==> top_seven(hash) == (hash as int / 0x0200_0000) % 0x80,
{
    let a = (hash >> 57u64) & 0x7f;
    let b = (hash >> 25u64) & 0x7f;
    assert(a < 0x80 && a == hash / 0x0200_0000_0000_0000) by (bit_vector)
        requires
            a == (hash >> 57u64) & 0x7f,
    ;
    assert(b < 0x80 && b == (hash / 0x0200_0000) % 0x80) by (bit_vector)
        requires
            b == (hash >> 25u64) & 0x7f,
    ;
}

/// Where the search begins is told by the low 57 bits of a hash, as far as a `usize` goes; what
/// is kept in the control byte are the seven highest of the bits that a `usize` has.
pub proof fn law_parts_of_a_hash(hash: u64, first: usize, second: u8)
    requires
        call_ensures(h1, (hash,), first),
        call_ensures(h2, (hash,), second),
    ensures
        first == (hash as int % 0x0200_0000_0000_0000) % (usize::MAX + 1),
        second < 0x80,
        usize::BITS == 64 ==> second == hash as int / 0x0200_0000_0000_0000,
        usize::BITS == 32 ==> second == (hash as int / 0x0200_0000) % 0x80,
{
}

/// On a target whose `usize` has 64 bits, the two parts make up the whole hash and have no bit in
/// common.
pub proof fn law_parts_make_up_the_hash(hash: u64)
    requires
        usize::BITS == 64,
    ensures
        hash == low_bits(hash) + top_seven(hash) * 0x0200_0000_0000_0000,
        low_bits(hash) < 0x0200_0000_0000_0000,
        top_seven(hash) < 0x80,
{
    let low = hash & 0x01ff_ffff_ffff_ffff;
    let top = (hash >> 57u64) & 0x7f;
    assert(hash == low + top * 0x0200_0000_0000_0000 && low < 0x0200_0000_0000_0000 && top < 0x80)
        by (bit_vector)
        requires
            low == hash & 0x01ff_ffff_ffff_ffff,
            top == (hash >> 57u64) & 0x7f,
    ;
    assert(usize::BITS - 7 == 57);
}

} // verus!
