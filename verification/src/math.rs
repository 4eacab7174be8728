//! Facts about powers of two, masks and remainders.

use vstd::prelude::*;

verus! {

/// The least power of two that is at least `x`.
pub open spec fn is_next_power_of_two(x: int, p: int) -> bool {
    &&& vstd::arithmetic::power2::is_pow2(p)
    &&& x <= p
    &&& forall|q: int| #[trigger] vstd::arithmetic::power2::is_pow2(q) && x <= q ==> p <= q
}

/// A power of two has an exponent.
pub proof fn lemma_pow2_exponent(n: int) -> (e: nat)
    requires
        vstd::arithmetic::power2::is_pow2(n),
    ensures
        vstd::arithmetic::power2::pow2(e) == n,
        n >= 1,
{
    vstd::arithmetic::power2::is_pow2_equiv(n);
    let e = choose|i: nat| vstd::arithmetic::power::pow(2, i) == n;
    vstd::arithmetic::power2::lemma_pow2_pos(e);
    vstd::arithmetic::power2::lemma_pow2(e);
    e
}

/// `2^e` is a power of two.
pub proof fn lemma_pow2_is_pow2(e: nat)
    ensures
        vstd::arithmetic::power2::is_pow2(vstd::arithmetic::power2::pow2(e) as int),
{
    vstd::arithmetic::power2::lemma_pow2(e);
    vstd::arithmetic::power2::lemma_pow2_pos(e);
    assert(vstd::arithmetic::power2::is_pow2_exists(vstd::arithmetic::power2::pow2(e) as int));
    vstd::arithmetic::power2::is_pow2_equiv(vstd::arithmetic::power2::pow2(e) as int);
}

/// Between two powers of two, the smaller divides the larger.
pub proof fn lemma_pow2_divides(a: int, b: int)
    requires
        vstd::arithmetic::power2::is_pow2(a),
        vstd::arithmetic::power2::is_pow2(b),
        a <= b,
    ensures
        b % a == 0,
        vstd::arithmetic::power2::is_pow2(b / a),
        b == a * (b / a),
        a >= 1,
{
    let i = lemma_pow2_exponent(a);
    let j = lemma_pow2_exponent(b);
    if j < i {
        vstd::arithmetic::power2::lemma_pow2_strictly_increases(j, i);
    }
    let d = (j - i) as nat;
    let p = vstd::arithmetic::power2::pow2(d) as int;
    vstd::arithmetic::power2::lemma_pow2_adds(i, d);
    vstd::arithmetic::div_mod::lemma_div_multiples_vanish(p, a);
    vstd::arithmetic::div_mod::lemma_mod_multiples_basic(p, a);
    assert(a * p == p * a) by (nonlinear_arith);
    lemma_pow2_is_pow2(d);
}

/// A power of two that fits in a `usize` is at most half of the range.
pub proof fn lemma_pow2_at_most_half(n: int)
    requires
        vstd::arithmetic::power2::is_pow2(n),
        n <= usize::MAX,
    ensures
        2 * n <= usize::MAX + 1,
{
    let e = lemma_pow2_exponent(n);
    lemma_pow2_exponent_bound(n, e);
    vstd::arithmetic::power2::lemma2_to64();
    vstd::arithmetic::power2::lemma2_to64_rest();
    if e < usize::BITS - 1 {
        vstd::arithmetic::power2::lemma_pow2_strictly_increases(e, (usize::BITS - 1) as nat);
    }
}

/// The exponent of a power of two that fits in a `usize` is below the width of a `usize`.
pub proof fn lemma_pow2_exponent_bound(n: int, e: nat)
    requires
        vstd::arithmetic::power2::pow2(e) == n,
        n <= usize::MAX,
    ensures
        e < usize::BITS,
{
    vstd::arithmetic::power2::lemma2_to64();
    vstd::arithmetic::power2::lemma2_to64_rest();
    if e >= usize::BITS {
        if e > usize::BITS {
            vstd::arithmetic::power2::lemma_pow2_strictly_increases(usize::BITS as nat, e);
        }
        assert(false);
    }
}

/// Masking with one less than a power of two takes the remainder.
pub proof fn lemma_mask_is_mod(x: usize, mask: usize)
    requires
        vstd::arithmetic::power2::is_pow2(mask + 1),
        mask < usize::MAX,
    ensures
        (x & mask) as int == x as int % (mask + 1),
        (x & mask) <= mask,
{
    let e = lemma_pow2_exponent(mask + 1);
    lemma_pow2_exponent_bound(mask + 1, e);
    vstd::bits::lemma_usize_low_bits_mask_is_mod(x, e);
    assert(vstd::bits::low_bits_mask(e) as usize == mask);
    assert((x & mask) <= mask) by (bit_vector);
}

/// Clearing the bits below a power of two rounds down to a multiple of it.
pub proof fn lemma_clear_low_bits(x: usize, align: usize)
    requires
        vstd::arithmetic::power2::is_pow2(align as int),
    ensures
        align >= 1,
        (x & !((align - 1) as usize)) as int == x - x as int % align as int,
{
    let e = lemma_pow2_exponent(align as int);
    let m = (align - 1) as usize;
    lemma_mask_is_mod(x, m);
    assert(x & m <= x && x & !m == x - (x & m)) by (bit_vector);
}

/// The number of values of a `usize` is a power of two.
proof fn lemma_usize_range_is_pow2()
    ensures
        vstd::arithmetic::power2::is_pow2(usize::MAX + 1),
{
    vstd::arithmetic::power2::lemma2_to64();
    vstd::arithmetic::power2::lemma2_to64_rest();
    lemma_pow2_is_pow2(usize::BITS as nat);
}

/// Masking a wrapped difference takes the remainder of the difference.
pub proof fn lemma_wrapping_sub_mask(x: usize, y: usize, mask: usize)
    requires
        vstd::arithmetic::power2::is_pow2(mask + 1),
        mask < usize::MAX,
    ensures
        (x.wrapping_sub(y) & mask) as int == (x - y) % (mask + 1),
{
    let n = mask + 1;
    lemma_mask_is_mod(x.wrapping_sub(y), mask);
    if x < y {
        lemma_usize_range_is_pow2();
        lemma_pow2_divides(n, usize::MAX + 1);
        let q = (usize::MAX + 1) / n;
        vstd::arithmetic::div_mod::lemma_mod_multiples_vanish(q, x - y, n);
        assert(x.wrapping_sub(y) == n * q + (x - y));
    }
}

/// Concrete small powers of two.
pub proof fn lemma_small_powers()
    ensures
        vstd::arithmetic::power2::is_pow2(1),
        vstd::arithmetic::power2::is_pow2(2),
        vstd::arithmetic::power2::is_pow2(4),
        vstd::arithmetic::power2::is_pow2(8),
        vstd::arithmetic::power2::is_pow2(16),
{
    reveal_with_fuel(vstd::arithmetic::power2::is_pow2, 6);
}

/// Twice a power of two is a power of two.
pub proof fn lemma_double_is_pow2(n: int)
    requires
        vstd::arithmetic::power2::is_pow2(n),
    ensures
        vstd::arithmetic::power2::is_pow2(2 * n),
{
    let e = lemma_pow2_exponent(n);
    vstd::arithmetic::power2::lemma_pow2_unfold(e + 1);
    lemma_pow2_is_pow2(e + 1);
}

/// No power of two lies strictly between `n` and `2 * n` for a power of two `n`.
pub proof fn lemma_no_power_between(n: int, q: int)
    requires
        vstd::arithmetic::power2::is_pow2(n),
        vstd::arithmetic::power2::is_pow2(q),
        n < q,
    ensures
        2 * n <= q,
{
    lemma_pow2_divides(n, q);
    assert(n * (q / n) == q);
    if q / n < 2 {
        assert(n * (q / n) <= n) by (nonlinear_arith)
            requires
                q / n < 2,
                n >= 1,
        ;
    }
    assert(n * (q / n) >= 2 * n) by (nonlinear_arith)
        requires
            q / n >= 2,
            n >= 1,
    ;
}

/// Doubles `p` until it is at least `x`.
pub open spec fn doubled_until(p: int, x: int) -> int
    decreases 2 * x - p,
{
    if p <= 0 || p >= x {
        p
    } else {
        doubled_until(2 * p, x)
    }
}

/// The least power of two that is at least `x`.
pub open spec fn power_of_two_at_least(x: int) -> int {
    doubled_until(1, x)
}

/// Doubling a power of two reaches the least power of two that is large enough.
proof fn lemma_doubled_until(p: int, x: int)
    requires
        vstd::arithmetic::power2::is_pow2(p),
        p < x ==> p >= 1,
        forall|q: int| #[trigger] vstd::arithmetic::power2::is_pow2(q) && x <= q ==> p <= q,
    ensures
        is_next_power_of_two(x, doubled_until(p, x)),
        p < 2 * x ==> doubled_until(p, x) < 2 * x,
    decreases 2 * x - p,
{
    let e = lemma_pow2_exponent(p);
    if p < x {
        lemma_double_is_pow2(p);
        assert forall|q: int| #[trigger]
            vstd::arithmetic::power2::is_pow2(q) && x <= q implies 2 * p <= q by {
            lemma_no_power_between(p, q);
        }
        lemma_doubled_until(2 * p, x);
    }
}

/// `power_of_two_at_least` is what its name says.
pub proof fn lemma_power_of_two_at_least(x: int)
    ensures
        is_next_power_of_two(x, power_of_two_at_least(x)),
        x >= 1 ==> power_of_two_at_least(x) < 2 * x,
{
    lemma_small_powers();
    assert forall|q: int| #[trigger] vstd::arithmetic::power2::is_pow2(q) && x <= q implies 1
        <= q by {
        let e = lemma_pow2_exponent(q);
    }
    lemma_doubled_until(1, x);
}

/// The least power of two that is at least `x`.
pub fn next_power_of_two(x: usize) -> (p: usize)
    requires
        x <= usize::MAX / 2,
    ensures
        p == power_of_two_at_least(x as int),
        is_next_power_of_two(x as int, p as int),
{
    let mut p: usize = 1;
    while p < x
        invariant
            x <= usize::MAX / 2,
            p >= 1,
            x >= 1 ==> p < 2 * x,
            doubled_until(p as int, x as int) == power_of_two_at_least(x as int),
        decreases 2 * x - p,
    {
        p = p * 2;
    }
    proof {
        lemma_power_of_two_at_least(x as int);
    }
    p
}

/// The next power of two is at least as large, and less than twice as large.
pub proof fn law_next_power_of_two(x: usize, p: usize)
    requires
        call_ensures(next_power_of_two, (x,), p),
    ensures
        vstd::arithmetic::power2::is_pow2(p as int),
        x <= p,
        x >= 1 ==> p < 2 * x,
        x == 0 ==> p == 1,
{
    lemma_power_of_two_at_least(x as int);
    lemma_small_powers();
    lemma_pow2_exponent(p as int);
}

} // verus!
