//! How many buckets a number of items needs, and how many items a number of buckets may hold.

use vstd::prelude::*;

verus! {

// The aim is a load factor of 87.5%. Rounding up to a power of two mostly leaves the table
// emptier than that.

/// The load factor's numerator.
pub const LOAD_FACTOR_NUMERATOR: usize = 7;

/// The load factor's denominator.
pub const LOAD_FACTOR_DENOMINATOR: usize = 8;

/// The number of buckets for a table that is to hold `cap` items.
pub open spec fn buckets_for(cap: int) -> int {
    if cap < 4 {
        4
    } else if cap < 8 {
        8
    } else {
        crate::math::power_of_two_at_least(
            cap * LOAD_FACTOR_DENOMINATOR / (LOAD_FACTOR_NUMERATOR as int),
        )
    }
}

/// The number of items that a table may hold whose number of buckets is `bucket_mask + 1`.
pub open spec fn max_items(bucket_mask: int) -> int {
    if bucket_mask < 8 {
        bucket_mask
    } else {
        (bucket_mask + 1) / (LOAD_FACTOR_DENOMINATOR as int) * LOAD_FACTOR_NUMERATOR
    }
}

/// The number of buckets needed to hold at least `cap` items, with the load factor taken into
/// account, or `None` where that does not fit in a `usize`.
pub fn capacity_to_buckets(cap: usize) -> (r: Option<usize>)
    ensures
        r is None <==> cap >= 8 && cap * LOAD_FACTOR_DENOMINATOR > usize::MAX,
        r matches Some(n) ==> {
            &&& n == buckets_for(cap as int)
            &&& vstd::arithmetic::power2::is_pow2(n as int)
            &&& n >= 4
            &&& n <= usize::MAX / 2
            &&& max_items(n - 1) >= cap
            &&& cap < 4 ==> n == 4
            &&& 4 <= cap < 8 ==> n == 8
            &&& cap >= 8 ==> n / 2 < cap * 8 / 7 <= n
        },
        r is None <==> cap >= 8 && cap * 8 > usize::MAX,
{
    proof {
        law_buckets_hold_capacity(cap as int);
    }
    if cap < 8 {
        // A small table needs at least one empty bucket, so that a lookup can stop.
        // Two buckets could hold only one item; four hold three.
        return Some(
            if cap < 4 {
                4
            } else {
                8
            },
        );
    }
    match cap.checked_mul(LOAD_FACTOR_DENOMINATOR) {
        None => None,
        Some(scaled) => {
            let target: usize = scaled / LOAD_FACTOR_NUMERATOR;
            proof {
                crate::math::lemma_power_of_two_at_least(target as int);
            }
            proof {
                law_buckets_are_near(cap as int);
            }
            Some(crate::math::next_power_of_two(target))
        },
    }
}

/// The number of items that a table with the given bucket mask may hold.
pub fn bucket_mask_to_capacity(bucket_mask: usize) -> (r: usize)
    requires
        bucket_mask < usize::MAX,
    ensures
        r == max_items(bucket_mask as int),
        bucket_mask < 8 ==> r == bucket_mask,
        bucket_mask >= 8 ==> r == 7 * ((bucket_mask + 1) / 8),
{
    if bucket_mask < 8 {
        // a small table with 1, 2, 4 or 8 buckets
        bucket_mask
    } else {
        ((bucket_mask + 1) / LOAD_FACTOR_DENOMINATOR) * LOAD_FACTOR_NUMERATOR
    }
}

/// A table that was sized for `cap` items may hold `cap` items.
pub proof fn law_buckets_hold_capacity(cap: int)
    requires
        cap >= 0,
    ensures
        vstd::arithmetic::power2::is_pow2(buckets_for(cap)),
        buckets_for(cap) >= 4,
        max_items(buckets_for(cap) - 1) >= cap,
{
    crate::math::lemma_small_powers();
    if cap >= 8 {
        let target = cap * 8 / 7;
        crate::math::lemma_power_of_two_at_least(target);
        let n = buckets_for(cap);
        if n < 16 {
            crate::math::lemma_no_power_between(8, n);
        }
        crate::math::lemma_pow2_divides(8, n);
        assert(n % 8 == 0);
    }
}

/// Half as many buckets would be too few, for all but the small tables.
pub proof fn law_buckets_are_needed(cap: int)
    requires
        cap >= 8,
    ensures
        buckets_for(cap) % 2 == 0,
        max_items(buckets_for(cap) / 2 - 1) < cap,
{
    let target = cap * 8 / 7;
    crate::math::lemma_small_powers();
    crate::math::lemma_power_of_two_at_least(target);
    let n = buckets_for(cap);
    crate::math::lemma_no_power_between(8, n);
    crate::math::lemma_pow2_divides(2, n);
    if n / 2 >= target {
        assert(n <= n / 2);
    }
}

/// A table that holds as many items as it may still has a bucket that no item is in.
pub proof fn law_capacity_leaves_a_bucket_free(n: int)
    requires
        n >= 1,
    ensures
        0 <= max_items(n - 1) < n,
{
}

/// From sixteen buckets on, a table may hold exactly seven eighths of its number of buckets.
pub proof fn law_load_factor(n: int)
    requires
        vstd::arithmetic::power2::is_pow2(n),
        n >= 16,
    ensures
        max_items(n - 1) * LOAD_FACTOR_DENOMINATOR == n * LOAD_FACTOR_NUMERATOR,
{
    crate::math::lemma_small_powers();
    crate::math::lemma_pow2_divides(8, n);
}

/// A small table has four or eight buckets. A larger one has the power of two which is at least
/// eight sevenths of the number of items, rounded down, while half of it is less.
pub proof fn law_buckets_are_near(cap: int)
    requires
        cap >= 0,
    ensures
        vstd::arithmetic::power2::is_pow2(buckets_for(cap)),
        cap < 4 ==> buckets_for(cap) == 4,
        4 <= cap < 8 ==> buckets_for(cap) == 8,
        cap >= 8 ==> buckets_for(cap) / 2 < cap * 8 / 7 <= buckets_for(cap),
{
    law_buckets_hold_capacity(cap);
    if cap >= 8 {
        crate::math::lemma_power_of_two_at_least(cap * 8 / 7);
    }
}

/// The number of buckets for a number of items, or `None`, which comes only where eight times the
/// number of items does not fit in a `usize`.
pub proof fn law_capacity_to_buckets(cap: usize, r: Option<usize>)
    requires
        call_ensures(capacity_to_buckets, (cap,), r),
    ensures
        r is None <==> cap >= 8 && cap * 8 > usize::MAX,
        r matches Some(n) ==> {
            &&& vstd::arithmetic::power2::is_pow2(n as int)
            &&& cap < 4 ==> n == 4
            &&& 4 <= cap < 8 ==> n == 8
            &&& cap >= 8 ==> n / 2 < cap * 8 / 7 <= n
        },
{
}

/// A table of up to eight buckets may hold one item less than it has buckets; a larger one leaves
/// an eighth of its buckets free.
pub proof fn law_capacity_of_buckets(n: usize, r: usize)
    requires
        vstd::arithmetic::power2::is_pow2(n as int),
        call_ensures(bucket_mask_to_capacity, ((n - 1) as usize,), r),
    ensures
        n <= 8 ==> r == n - 1,
        n > 8 ==> r == n - n / 8,
        max_items(n - 1) == r,
{
    let e = crate::math::lemma_pow2_exponent(n as int);
    crate::math::lemma_small_powers();
    if n > 8 {
        crate::math::lemma_pow2_divides(8, n as int);
    }
}

/// Room for a number of items is there in the table that is made for them, and from eight items
/// on half of the buckets would not be enough.
pub proof fn law_capacity_is_kept(cap: usize, n: usize, most: usize, half: usize)
    requires
        call_ensures(capacity_to_buckets, (cap,), Some(n)),
        call_ensures(bucket_mask_to_capacity, ((n - 1) as usize,), most),
        call_ensures(bucket_mask_to_capacity, ((n / 2 - 1) as usize,), half),
    ensures
        most >= cap,
        cap >= 8 ==> half < cap,
{
    if cap >= 8 {
        law_buckets_are_needed(cap as int);
    }
}

} // verus!
