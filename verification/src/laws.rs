//! What the operations promise, said with the bytes and the numbers of a table alone.
//!
//! A table has `bucket_mask + 1` buckets. The control byte of bucket `i` is the byte of its
//! memory at `ctrl + i`: below `0x80` for a full bucket, `0xff` for an empty one, `0x80` for one
//! whose item was removed.

use vstd::prelude::*;
use crate::low_table::LowTable;
use crate::mapalloc::{AllocError, Allocator, Layout};
use crate::reserve::{Fallibility, TryReserveError};
use crate::scopeguard::ScopeGuard;
use crate::table_layout::TableLayout;

verus! {

/// The control bytes of a table with memory are in order exactly when there are as many of them
/// as there are buckets, and sixteen more; each is that of a full, an empty or a deleted bucket;
/// and those behind the buckets repeat the first ones, in a table of less than sixteen buckets
/// after as many empty ones as make up a group.
pub proof fn law_order_of_control_bytes<A>(t: LowTable<A>)
    requires
        t.bucket_mask > 0,
    ensures
        t.ctrl_wf() <==> {
            let n = t.bucket_mask + 1;
            &&& vstd::arithmetic::power2::is_pow2(n)
            &&& t.ctrl % 16 == 0
            &&& t.block@.len() == t.ctrl + n + 16
            &&& forall|p: int|
                t.ctrl <= p < t.block@.len() ==> #[trigger] t.block@[p] < 0x80 || t.block@[p]
                    == 0x80 || t.block@[p] == 0xff
            &&& forall|i: int| n <= i < 16 ==> #[trigger] t.block@[t.ctrl + i] == 0xff
            &&& n >= 16 ==> forall|i: int|
                0 <= i < 16 ==> #[trigger] t.block@[t.ctrl + i] == t.block@[t.ctrl + n + i]
            &&& n < 16 ==> forall|i: int|
                0 <= i < n ==> #[trigger] t.block@[t.ctrl + i] == t.block@[t.ctrl + 16 + i]
        },
{
    let n = t.bucket_mask + 1;
    let c = t.ctrl as int;
    let bytes = t.ctrl_bytes();
    if t.ctrl_wf() {
        assert forall|p: int| c <= p < t.block@.len() implies #[trigger] t.block@[p] < 0x80
            || t.block@[p] == 0x80 || t.block@[p] == 0xff by {
            assert(crate::control_bytes::is_valid(bytes[p - c]));
        }
        assert forall|i: int| n <= i < 16 implies #[trigger] t.block@[c + i] == 0xff by {
            assert(crate::ctrl::is_padding(n, i));
            assert(bytes[i] == crate::control_bytes::EMPTY);
        }
        assert forall|i: int| n >= 16 && 0 <= i < 16 implies #[trigger] t.block@[c + i]
            == t.block@[c + n + i] by {
            crate::ctrl::lemma_mirror(n, i);
            assert(bytes[crate::ctrl::mirror(n, i)] == bytes[i]);
            assert(bytes[n + i] == t.block@[c + (n + i)]);
        }
        assert forall|i: int| n < 16 && 0 <= i < n implies #[trigger] t.block@[c + i]
            == t.block@[c + 16 + i] by {
            crate::ctrl::lemma_mirror(n, i);
            assert(bytes[crate::ctrl::mirror(n, i)] == bytes[i]);
            assert(bytes[16 + i] == t.block@[c + (16 + i)]);
        }
    } else if {
        &&& vstd::arithmetic::power2::is_pow2(n)
        &&& t.ctrl % 16 == 0
        &&& t.block@.len() == c + n + 16
        &&& forall|p: int|
            c <= p < t.block@.len() ==> #[trigger] t.block@[p] < 0x80 || t.block@[p] == 0x80
                || t.block@[p] == 0xff
        &&& forall|i: int| n <= i < 16 ==> #[trigger] t.block@[c + i] == 0xff
        &&& n >= 16 ==> forall|i: int|
            0 <= i < 16 ==> #[trigger] t.block@[c + i] == t.block@[c + n + i]
        &&& n < 16 ==> forall|i: int|
            0 <= i < n ==> #[trigger] t.block@[c + i] == t.block@[c + 16 + i]
    } {
        assert forall|p: int| 0 <= p < bytes.len() implies crate::control_bytes::is_valid(
            #[trigger] bytes[p],
        ) by {
            assert(bytes[p] == t.block@[c + p]);
        }
        assert forall|p: int| crate::ctrl::is_padding(n, p) implies #[trigger] bytes[p]
            == crate::control_bytes::EMPTY by {
            assert(bytes[p] == t.block@[c + p]);
        }
        assert forall|i: int| 0 <= i < n implies bytes[#[trigger] crate::ctrl::mirror(n, i)]
            == bytes[i] by {
            crate::ctrl::lemma_mirror(n, i);
            assert(bytes[i] == t.block@[c + i]);
        }
        assert(t.ctrl_wf());
    }
}

/// A table with memory has the right shape exactly when the number of its buckets is a power of
/// two, and its control bytes, of which there are sixteen more, begin at an aligned position.
pub proof fn law_shape_of_table<A>(t: LowTable<A>)
    requires
        t.bucket_mask > 0,
    ensures
        t.shape() <==> {
            &&& vstd::arithmetic::power2::is_pow2(t.bucket_mask + 1)
            &&& t.ctrl % 16 == 0
            &&& t.block@.len() == t.ctrl + t.bucket_mask + 17
        },
{
}

/// A table's memory can be given back exactly when it is laid out for the items: the control bytes
/// begin at the first aligned position behind the room for them, and the memory ends sixteen bytes
/// behind those of the buckets.
pub proof fn law_owned_memory<A>(t: LowTable<A>, table_layout: TableLayout)
    requires
        t.bucket_mask < usize::MAX,
    ensures
        t.owns_allocation(table_layout) <==> {
            let n = t.bucket_mask + 1;
            &&& vstd::arithmetic::power2::is_pow2(table_layout.ctrl_byte_align as int)
            &&& table_layout.ctrl_byte_align >= 16
            &&& table_layout.size * n + table_layout.ctrl_byte_align - 1 <= usize::MAX
            &&& t.ctrl % table_layout.ctrl_byte_align == 0
            &&& table_layout.size * n <= t.ctrl < table_layout.size * n
                + table_layout.ctrl_byte_align
            &&& t.block@.len() == t.ctrl + n + 16
        },
{
    let n = t.bucket_mask + 1;
    assert(t.block.len() == t.block@.len());
    if t.owns_allocation(table_layout) {
        crate::table_layout::law_ctrl_bytes_follow_items(table_layout, n);
    }
    if {
        &&& vstd::arithmetic::power2::is_pow2(table_layout.ctrl_byte_align as int)
        &&& table_layout.ctrl_byte_align >= 16
        &&& t.ctrl % table_layout.ctrl_byte_align == 0
        &&& table_layout.size * n <= t.ctrl < table_layout.size * n + table_layout.ctrl_byte_align
    } {
        lemma_layout(table_layout, n, t.ctrl as int);
    }
}

/// A table with memory is in order exactly when its control bytes are, it counts its full buckets,
/// and what may be put in besides makes up, with the full and the deleted buckets, what a table of
/// that size holds: one item less than there are buckets, up to eight buckets, and seven for every
/// eight buckets beyond.
pub proof fn law_order_of_counters<A>(t: LowTable<A>)
    requires
        t.bucket_mask > 0,
    ensures
        t.wf() <==> {
            let n = t.bucket_mask + 1;
            let full = vstd::set_lib::set_int_range(0, n).filter(
                |i: int| t.block@[t.ctrl + i] < 0x80,
            ).len();
            let deleted = vstd::set_lib::set_int_range(0, n).filter(
                |i: int| t.block@[t.ctrl + i] == 0x80,
            ).len();
            &&& t.ctrl_wf()
            &&& t.items == full
            &&& t.growth_left + full + deleted == if n <= 8 {
                n - 1
            } else {
                n - n / 8
            }
        },
{
    let n = t.bucket_mask + 1;
    let c = t.ctrl as int;
    if t.ctrl_wf() {
        let bytes = t.ctrl_bytes();
        let s = bytes.take(n);
        let is_full = |b: u8| crate::control_bytes::is_full(b);
        let is_deleted = |b: u8| b == crate::control_bytes::DELETED;
        crate::ctrl::law_count_is_number_of_positions(s, is_full);
        crate::ctrl::law_count_is_number_of_positions(s, is_deleted);
        let range = vstd::set_lib::set_int_range(0, n);
        let f = |i: int| t.block@[t.ctrl + i] < 0x80;
        let d = |i: int| t.block@[t.ctrl + i] == 0x80;
        let g = |i: int| is_full(s[i]);
        let h = |i: int| is_deleted(s[i]);
        assert(range.filter(f) =~= range.filter(g));
        assert(range.filter(d) =~= range.filter(h));
        lemma_capacity(n);
    }
}

/// A table of one bucket is in order exactly when it has nothing: no memory, no items, no room.
pub proof fn law_order_of_empty_table<A>(t: LowTable<A>)
    requires
        t.bucket_mask == 0,
    ensures
        t.wf() <==> t.block@.len() == 0 && t.ctrl == 0 && t.items == 0 && t.growth_left == 0,
{
    crate::math::lemma_small_powers();
    let bytes = t.ctrl_bytes();
    if t.block@.len() == 0 && t.ctrl == 0 {
        assert(bytes =~= Seq::new(16, |i: int| crate::control_bytes::EMPTY));
        crate::ctrl::lemma_all_empty(bytes, 1);
    }
}

/// What a table of `n` buckets may hold.
pub(crate) proof fn lemma_capacity(n: int)
    requires
        vstd::arithmetic::power2::is_pow2(n),
    ensures
        crate::capacity::max_items(n - 1) == if n <= 8 {
            n - 1
        } else {
            n - n / 8
        },
{
    crate::math::lemma_small_powers();
    if n > 8 {
        crate::math::lemma_pow2_divides(8, n);
    }
}

/// The control byte of a bucket in the memory of a table.
pub(crate) proof fn lemma_byte<A>(t: LowTable<A>, i: int)
    requires
        t.shape(),
        t.bucket_mask > 0,
        0 <= i <= t.bucket_mask,
    ensures
        t.ctrl_bytes()[i] == t.block@[t.ctrl + i],
{
}

/// Where in the memory of a table one bucket's new control byte is.
proof fn lemma_written<A>(before: LowTable<A>, after: LowTable<A>, i: int, c: u8)
    requires
        before.shape(),
        before.bucket_mask > 0,
        0 <= i <= before.bucket_mask,
        after.same_block(before),
        after.ctrl_bytes() == crate::ctrl::with_byte(before.ctrl_bytes(), before.n(), i, c),
    ensures
        after.bucket_mask == before.bucket_mask,
        after.ctrl == before.ctrl,
        after.allocator == before.allocator,
        after.block@.len() == before.block@.len(),
        forall|p: int|
            0 <= p < before.block@.len() ==> #[trigger] after.block@[p] == if p == before.ctrl
                + i || p == before.ctrl + (if before.bucket_mask < 15 {
                16 + i
            } else if i < 16 {
                before.bucket_mask + 1 + i
            } else {
                i as int
            }) {
                c
            } else {
                before.block@[p]
            },
{
    let n = before.n();
    crate::ctrl::lemma_mirror(n, i);
    assert forall|p: int| 0 <= p < before.block@.len() implies #[trigger] after.block@[p] == if p
        == before.ctrl + i || p == before.ctrl + (if before.bucket_mask < 15 {
        16 + i
    } else if i < 16 {
        before.bucket_mask + 1 + i
    } else {
        i
    }) {
        c
    } else {
        before.block@[p]
    } by {
        if p < before.ctrl {
            assert(after.block@.take(after.ctrl as int)[p] == after.block@[p]);
            assert(before.block@.take(before.ctrl as int)[p] == before.block@[p]);
        } else {
            let q = p - before.ctrl;
            assert(after.block@[p] == after.ctrl_bytes()[q]);
            assert(before.block@[p] == before.ctrl_bytes()[q]);
        }
    }
}

/// A new item gets the first bucket, along the walk for its hash, that is not full. The walk begins
/// at the low 57 bits of the hash; its step `k` comes to the sixteen buckets that begin
/// `16 * (0 + 1 + .. + k)` further on, round the end of the table. The result is the step in which
/// the bucket is met, and its offset in that step.
pub proof fn law_insert_slot_comes_first<A: Allocator + Clone>(
    t: LowTable<A>,
    hash: u64,
    r: usize,
) -> (place: (int, int))
    requires
        t.ctrl_wf(),
        t.bucket_mask > 0,
        exists|i: int| 0 <= i <= t.bucket_mask && #[trigger] t.block@[t.ctrl + i] >= 0x80,
        call_ensures(LowTable::<A>::find_insert_slot, (&t, hash), r),
    ensures
        ({
            let n = t.bucket_mask + 1;
            let start = (hash as int % 0x0200_0000_0000_0000) % (usize::MAX + 1);
            let k = place.0;
            let o = place.1;
            &&& 0 <= k
            &&& 0 <= o < 16
            &&& r == ((start + 16 * (k * (k + 1) / 2)) % n + o) % n
            &&& t.block@[t.ctrl + r] >= 0x80
            &&& forall|j: int, u: int|
                0 <= j < k && 0 <= u < 16 ==> #[trigger] t.block@[t.ctrl + ((start + 16 * (j * (j
                    + 1) / 2)) % n + u) % n] < 0x80
            &&& forall|u: int|
                0 <= u < o ==> #[trigger] t.block@[t.ctrl + ((start + 16 * (k * (k + 1) / 2)) % n
                    + u) % n] < 0x80
        }),
{
    let n = t.bucket_mask + 1;
    let start = (hash as int % 0x0200_0000_0000_0000) % (usize::MAX + 1);
    crate::hash::lemma_low_bits_value(hash);
    lemma_first_place(t, start, r as int)
}

/// The first place along the walk, in the memory of a table.
proof fn lemma_first_place<A>(t: LowTable<A>, start: int, r: int) -> (place: (int, int))
    requires
        t.ctrl_wf(),
        t.bucket_mask > 0,
        exists|i: int| 0 <= i <= t.bucket_mask && #[trigger] t.block@[t.ctrl + i] >= 0x80,
        crate::ctrl::is_insert_slot(t.ctrl_bytes(), t.n(), start, r),
    ensures
        ({
            let n = t.bucket_mask + 1;
            let k = place.0;
            let o = place.1;
            &&& 0 <= k
            &&& 0 <= o < 16
            &&& r == ((start + 16 * (k * (k + 1) / 2)) % n + o) % n
            &&& t.block@[t.ctrl + r] >= 0x80
            &&& forall|j: int, u: int|
                0 <= j < k && 0 <= u < 16 ==> #[trigger] t.block@[t.ctrl + ((start + 16 * (j * (j
                    + 1) / 2)) % n + u) % n] < 0x80
            &&& forall|u: int|
                0 <= u < o ==> #[trigger] t.block@[t.ctrl + ((start + 16 * (k * (k + 1) / 2)) % n
                    + u) % n] < 0x80
        }),
{
    let n = t.bucket_mask + 1;
    let bytes = t.ctrl_bytes();
    let i = choose|i: int| 0 <= i <= t.bucket_mask && #[trigger] t.block@[t.ctrl + i] >= 0x80;
    assert(bytes[i] >= 0x80);
    let place = crate::ctrl::law_new_item_takes_first_free_bucket(bytes, n, start, r);
    let k = place.0;
    let o = place.1;
    vstd::arithmetic::div_mod::lemma_mod_bound((start + 16 * (k * (k + 1) / 2)) % n + o, n);
    assert forall|j: int, u: int| 0 <= j < k && 0 <= u < 16 implies #[trigger] t.block@[t.ctrl + ((
    start + 16 * (j * (j + 1) / 2)) % n + u) % n] < 0x80 by {
        let q = ((start + 16 * (j * (j + 1) / 2)) % n + u) % n;
        vstd::arithmetic::div_mod::lemma_mod_bound((start + 16 * (j * (j + 1) / 2)) % n + u, n);
        assert(bytes[((start + 16 * (j * (j + 1) / 2)) % n + u) % n] < 0x80);
        assert(bytes[q] == t.block@[t.ctrl + q]);
    }
    assert forall|u: int| 0 <= u < o implies #[trigger] t.block@[t.ctrl + ((start + 16 * (k * (k + 1)
        / 2)) % n + u) % n] < 0x80 by {
        let q = ((start + 16 * (k * (k + 1) / 2)) % n + u) % n;
        vstd::arithmetic::div_mod::lemma_mod_bound((start + 16 * (k * (k + 1) / 2)) % n + u, n);
        assert(bytes[((start + 16 * (k * (k + 1) / 2)) % n + u) % n] < 0x80);
        assert(bytes[q] == t.block@[t.ctrl + q]);
    }
    place
}

/// In a table of one bucket, that one is the place.
pub proof fn law_place_in_empty_table<A: Allocator + Clone>(t: LowTable<A>, hash: u64, r: usize)
    requires
        t.bucket_mask == 0,
        call_ensures(LowTable::<A>::find_insert_slot, (&t, hash), r),
    ensures
        r == 0,
{
}

/// A table with an empty bucket can always be asked for the place of a new item, and so can every
/// table in order.
pub proof fn law_place_can_be_asked_for<A: Allocator + Clone>(t: LowTable<A>, i: int)
    requires
        t.ctrl_wf(),
        t.wf() || t.bucket_mask > 0 && 0 <= i <= t.bucket_mask && t.block@[t.ctrl + i] >= 0x80,
    ensures
        forall|hash: u64| #[trigger]
            call_requires(LowTable::<A>::find_insert_slot, (&t, hash)),
{
    if t.wf() {
        t.law_some_bucket_is_empty();
    } else {
        assert(crate::control_bytes::is_special(t.ctrl_bytes()[i]));
    }
    assert(t.has_room());
}

/// Preparing the place for a new item writes the top seven bits of its hash into the first bucket
/// along its walk that is not full, and into the copy of that bucket's byte. Nothing else changes.
pub proof fn law_prepared_slot<A: Allocator + Clone>(
    t: &mut LowTable<A>,
    hash: u64,
    r: (usize, u8),
    byte: u8,
) -> (place: (int, int))
    requires
        old(t).ctrl_wf(),
        old(t).bucket_mask > 0,
        exists|i: int|
            0 <= i <= old(t).bucket_mask && #[trigger] old(t).block@[old(t).ctrl + i] >= 0x80,
        call_ensures(LowTable::<A>::prepare_insert_slot, (t, hash), r),
        call_ensures(crate::hash::h2, (hash,), byte),
    ensures
        r.0 <= old(t).bucket_mask,
        r.1 == old(t).block@[old(t).ctrl + r.0],
        r.1 >= 0x80,
        final(t).items == old(t).items,
        final(t).growth_left == old(t).growth_left,
        final(t).bucket_mask == old(t).bucket_mask,
        final(t).ctrl == old(t).ctrl,
        final(t).allocator == old(t).allocator,
        final(t).block@.len() == old(t).block@.len(),
        forall|p: int|
            0 <= p < old(t).block@.len() ==> #[trigger] final(t).block@[p] == if p == old(t).ctrl
                + r.0 || p == old(t).ctrl + (if old(t).bucket_mask < 15 {
                16 + r.0
            } else if r.0 < 16 {
                old(t).bucket_mask + 1 + r.0
            } else {
                r.0 as int
            }) {
                byte
            } else {
                old(t).block@[p]
            },
        ({
            let n = old(t).bucket_mask + 1;
            let start = (hash as int % 0x0200_0000_0000_0000) % (usize::MAX + 1);
            let k = place.0;
            let o = place.1;
            &&& 0 <= k
            &&& 0 <= o < 16
            &&& r.0 == ((start + 16 * (k * (k + 1) / 2)) % n + o) % n
            &&& forall|j: int, u: int|
                0 <= j < k && 0 <= u < 16 ==> #[trigger] old(t).block@[old(t).ctrl + ((start + 16
                    * (j * (j + 1) / 2)) % n + u) % n] < 0x80
            &&& forall|u: int|
                0 <= u < o ==> #[trigger] old(t).block@[old(t).ctrl + ((start + 16 * (k * (k + 1)
                    / 2)) % n + u) % n] < 0x80
        }),
{
    let start = (hash as int % 0x0200_0000_0000_0000) % (usize::MAX + 1);
    crate::hash::lemma_low_bits_value(hash);
    lemma_written(*old(t), *final(t), r.0 as int, byte);
    lemma_byte(*old(t), r.0 as int);
    lemma_first_place(*old(t), start, r.0 as int)
}

/// Counting a new item takes from the room that is left exactly where the bucket was empty, not
/// where it was a tombstone, and writes the top seven bits of the hash into the bucket's byte and
/// its copy. Nothing else changes.
pub proof fn law_recorded_item<A: Allocator + Clone>(
    t: &mut LowTable<A>,
    index: usize,
    old_ctrl: u8,
    hash: u64,
    byte: u8,
)
    requires
        old(t).shape(),
        0 < old(t).bucket_mask,
        index <= old(t).bucket_mask,
        call_ensures(LowTable::<A>::record_item_insert_at, (t, index, old_ctrl, hash), ()),
        call_ensures(crate::hash::h2, (hash,), byte),
    ensures
        final(t).items == old(t).items + 1,
        old_ctrl == 0xff ==> final(t).growth_left == old(t).growth_left - 1,
        old_ctrl == 0x80 ==> final(t).growth_left == old(t).growth_left,
        final(t).bucket_mask == old(t).bucket_mask,
        final(t).ctrl == old(t).ctrl,
        final(t).allocator == old(t).allocator,
        final(t).block@.len() == old(t).block@.len(),
        forall|p: int|
            0 <= p < old(t).block@.len() ==> #[trigger] final(t).block@[p] == if p == old(t).ctrl
                + index || p == old(t).ctrl + (if old(t).bucket_mask < 15 {
                16 + index
            } else if index < 16 {
                old(t).bucket_mask + 1 + index
            } else {
                index as int
            }) {
                byte
            } else {
                old(t).block@[p]
            },
{
    lemma_written(*old(t), *final(t), index as int, byte);
}

/// Setting a bucket's byte writes it, and its copy, and nothing else.
pub proof fn law_set_byte<A>(t: &mut LowTable<A>, index: usize, byte: u8)
    requires
        old(t).shape(),
        0 < old(t).bucket_mask,
        index <= old(t).bucket_mask,
        call_ensures(LowTable::<A>::set_ctrlof, (t, index, byte), ()),
    ensures
        final(t).items == old(t).items,
        final(t).growth_left == old(t).growth_left,
        final(t).bucket_mask == old(t).bucket_mask,
        final(t).ctrl == old(t).ctrl,
        final(t).allocator == old(t).allocator,
        final(t).block@.len() == old(t).block@.len(),
        forall|p: int|
            0 <= p < old(t).block@.len() ==> #[trigger] final(t).block@[p] == if p == old(t).ctrl
                + index || p == old(t).ctrl + (if old(t).bucket_mask < 15 {
                16 + index
            } else if index < 16 {
                old(t).bucket_mask + 1 + index
            } else {
                index as int
            }) {
                byte
            } else {
                old(t).block@[p]
            },
{
    lemma_written(*old(t), *final(t), index as int, byte);
}

/// Setting a bucket's byte for a hash writes the top seven bits of the hash.
pub proof fn law_set_byte_for_hash<A>(t: &mut LowTable<A>, index: usize, hash: u64, byte: u8)
    requires
        old(t).shape(),
        0 < old(t).bucket_mask,
        index <= old(t).bucket_mask,
        call_ensures(LowTable::<A>::set_ctrl_h2_of, (t, index, hash), ()),
        call_ensures(crate::hash::h2, (hash,), byte),
    ensures
        final(t).items == old(t).items,
        final(t).growth_left == old(t).growth_left,
        final(t).bucket_mask == old(t).bucket_mask,
        final(t).ctrl == old(t).ctrl,
        final(t).allocator == old(t).allocator,
        final(t).block@.len() == old(t).block@.len(),
        forall|p: int|
            0 <= p < old(t).block@.len() ==> #[trigger] final(t).block@[p] == if p == old(t).ctrl
                + index || p == old(t).ctrl + (if old(t).bucket_mask < 15 {
                16 + index
            } else if index < 16 {
                old(t).bucket_mask + 1 + index
            } else {
                index as int
            }) {
                byte
            } else {
                old(t).block@[p]
            },
{
    lemma_written(*old(t), *final(t), index as int, byte);
}

/// Replacing a bucket's byte by that for a hash gives back the byte that it was.
pub proof fn law_replaced_byte<A: Allocator + Clone>(
    t: &mut LowTable<A>,
    index: usize,
    hash: u64,
    r: u8,
    byte: u8,
)
    requires
        old(t).shape(),
        0 < old(t).bucket_mask,
        index <= old(t).bucket_mask,
        call_ensures(LowTable::<A>::update_ctrl_h2_of, (t, index, hash), r),
        call_ensures(crate::hash::h2, (hash,), byte),
    ensures
        r == old(t).block@[old(t).ctrl + index],
        final(t).items == old(t).items,
        final(t).growth_left == old(t).growth_left,
        final(t).bucket_mask == old(t).bucket_mask,
        final(t).ctrl == old(t).ctrl,
        final(t).allocator == old(t).allocator,
        final(t).block@.len() == old(t).block@.len(),
        forall|p: int|
            0 <= p < old(t).block@.len() ==> #[trigger] final(t).block@[p] == if p == old(t).ctrl
                + index || p == old(t).ctrl + (if old(t).bucket_mask < 15 {
                16 + index
            } else if index < 16 {
                old(t).bucket_mask + 1 + index
            } else {
                index as int
            }) {
                byte
            } else {
                old(t).block@[p]
            },
{
    lemma_byte(*old(t), index as int);
    lemma_written(*old(t), *final(t), index as int, byte);
}

/// What the removal of the item in bucket `i` does.
pub(crate) proof fn lemma_erased<A>(before: LowTable<A>, after: LowTable<A>, i: int, s: int)
    requires
        before.ctrl_wf(),
        0 < before.bucket_mask,
        0 <= i <= before.bucket_mask,
        before.block@[before.ctrl + i] < 0x80,
        after.same_block(before),
        after.items == before.items - 1,
        after.growth_left == before.growth_left + if crate::ctrl::crowded(
            before.ctrl_bytes(),
            before.n(),
            i,
        ) {
            0int
        } else {
            1
        },
        after.ctrl_bytes() == crate::ctrl::with_byte(
            before.ctrl_bytes(),
            before.n(),
            i,
            crate::ctrl::byte_after_erase(before.ctrl_bytes(), before.n(), i),
        ),
        ({
            let byte = crate::ctrl::byte_after_erase(before.ctrl_bytes(), before.n(), i);
            &&& byte == 0x80 || byte == 0xff
            &&& crate::ctrl::crowded(before.ctrl_bytes(), before.n(), i) <==> byte == 0x80
            &&& byte == 0x80 ==> {
                &&& before.n() >= 16
                &&& 0 <= s < 16
                &&& forall|u: int|
                    0 <= u < 16 ==> #[trigger] before.ctrl_bytes()[(i - s + u) % before.n()] != 0xff
            }
        }),
    ensures
        after.items == before.items - 1,
        ({
            let n = before.bucket_mask + 1;
            let byte = after.block@[before.ctrl + i];
            &&& byte == 0x80 || byte == 0xff
            &&& byte == 0xff ==> after.growth_left == before.growth_left + 1
            &&& byte == 0x80 ==> {
                &&& after.growth_left == before.growth_left
                &&& n >= 16
                &&& 0 <= s < 16
                &&& forall|u: int|
                    0 <= u < 16 ==> #[trigger] before.block@[before.ctrl + (i - s + u) % n]
                        != 0xff
            }
        }),
        after.bucket_mask == before.bucket_mask,
        after.ctrl == before.ctrl,
        after.allocator == before.allocator,
        after.block@.len() == before.block@.len(),
        forall|p: int|
            0 <= p < before.block@.len() ==> #[trigger] after.block@[p] == if p == before.ctrl
                + i || p == before.ctrl + (if before.bucket_mask < 15 {
                16 + i
            } else if i < 16 {
                before.bucket_mask + 1 + i
            } else {
                i
            }) {
                after.block@[before.ctrl + i]
            } else {
                before.block@[p]
            },
{
    let n = before.bucket_mask + 1;
    let bytes = before.ctrl_bytes();
    lemma_byte(before, i);
    let c = crate::ctrl::byte_after_erase(bytes, n, i);
    lemma_written(before, after, i, c);
    assert(after.block@[before.ctrl + i] == c);
    if c == 0x80 {
        assert forall|u: int| 0 <= u < 16 implies #[trigger] before.block@[before.ctrl + (i - s + u)
            % n] != 0xff by {
            vstd::arithmetic::div_mod::lemma_mod_bound(i - s + u, n);
            assert(bytes[(i - s + u) % n] != 0xff);
            lemma_byte(before, (i - s + u) % n);
        }
    }
}

/// Removing an item makes its bucket empty and gives its room back, unless sixteen neighbouring
/// buckets, its own among them, have no empty one: then it leaves a tombstone, and the room is not
/// given back. Of such a run the first bucket lies as far before the item's as the result says.
/// Nothing else changes.
pub proof fn law_erased_item<A: Allocator + Clone>(t: &mut LowTable<A>, index: usize) -> (s: int)
    requires
        old(t).ctrl_wf(),
        0 < old(t).bucket_mask,
        index <= old(t).bucket_mask,
        old(t).block@[old(t).ctrl + index] < 0x80,
        call_ensures(LowTable::<A>::erase, (t, index), ()),
    ensures
        final(t).items == old(t).items - 1,
        ({
            let n = old(t).bucket_mask + 1;
            let byte = final(t).block@[old(t).ctrl + index];
            &&& byte == 0x80 || byte == 0xff
            &&& byte == 0xff ==> final(t).growth_left == old(t).growth_left + 1
            &&& byte == 0x80 ==> {
                &&& final(t).growth_left == old(t).growth_left
                &&& n >= 16
                &&& 0 <= s < 16
                &&& forall|u: int|
                    0 <= u < 16 ==> #[trigger] old(t).block@[old(t).ctrl + (index - s + u) % n]
                        != 0xff
            }
        }),
        final(t).bucket_mask == old(t).bucket_mask,
        final(t).ctrl == old(t).ctrl,
        final(t).allocator == old(t).allocator,
        final(t).block@.len() == old(t).block@.len(),
        forall|p: int|
            0 <= p < old(t).block@.len() ==> #[trigger] final(t).block@[p] == if p == old(t).ctrl
                + index || p == old(t).ctrl + (if old(t).bucket_mask < 15 {
                16 + index
            } else if index < 16 {
                old(t).bucket_mask + 1 + index
            } else {
                index as int
            }) {
                final(t).block@[old(t).ctrl + index]
            } else {
                old(t).block@[p]
            },
{
    let i = index as int;
    lemma_byte(*old(t), i);
    let s = crate::ctrl::law_tombstone_only_in_a_crowd(old(t).ctrl_bytes(), old(t).n(), i);
    lemma_erased(*old(t), *final(t), i, s);
    s
}

/// Where sixteen neighbouring buckets, that of a removed item among them, had no empty one, the
/// bucket becomes a tombstone.
pub proof fn law_erased_item_in_a_crowd<A: Allocator + Clone>(
    t: &mut LowTable<A>,
    index: usize,
    s: int,
)
    requires
        old(t).ctrl_wf(),
        15 <= old(t).bucket_mask,
        index <= old(t).bucket_mask,
        0 <= s < 16,
        forall|u: int|
            0 <= u < 16 ==> #[trigger] old(t).block@[old(t).ctrl + (index - s + u) % (
            old(t).bucket_mask + 1)] != 0xff,
        call_ensures(LowTable::<A>::erase, (t, index), ()),
    ensures
        final(t).block@[old(t).ctrl + index] == 0x80,
        final(t).growth_left == old(t).growth_left,
{
    let n = old(t).bucket_mask + 1;
    let bytes = old(t).ctrl_bytes();
    let i = index as int;
    assert forall|u: int| 0 <= u < 16 implies #[trigger] bytes[(i - s + u) % n] != 0xff by {
        vstd::arithmetic::div_mod::lemma_mod_bound(i - s + u, n);
        assert(old(t).block@[old(t).ctrl + (index - s + u) % n] != 0xff);
        lemma_byte(*old(t), (i - s + u) % n);
    }
    crate::ctrl::law_crowd_leaves_tombstone(bytes, n, i, s);
    lemma_written(*old(t), *final(t), i, 0x80);
}

/// The item in a full bucket of a table in order can always be removed, as it can be where items
/// are still on their way into the table.
pub proof fn law_full_bucket_can_be_erased<A: Allocator + Clone>(t: &mut LowTable<A>, index: usize)
    requires
        old(t).wf() || old(t).ctrl_wf() && old(t).items >= 1 && old(t).growth_left < usize::MAX,
        0 < old(t).bucket_mask,
        index <= old(t).bucket_mask,
        old(t).block@[old(t).ctrl + index] < 0x80,
    ensures
        call_requires(LowTable::<A>::erase, (t, index)),
{
    lemma_byte(*old(t), index as int);
}

/// A table that is emptied has only empty buckets and all the room that it can have; its memory
/// in front of the control bytes stays.
pub proof fn law_cleared_table<A: Allocator + Clone>(t: &mut LowTable<A>)
    requires
        old(t).shape(),
        call_ensures(LowTable::<A>::clear_no_drop, (t,), ()),
    ensures
        final(t).bucket_mask == old(t).bucket_mask,
        final(t).ctrl == old(t).ctrl,
        final(t).allocator == old(t).allocator,
        final(t).items == 0,
        final(t).growth_left == if old(t).bucket_mask < 8 {
            old(t).bucket_mask as int
        } else {
            old(t).bucket_mask + 1 - (old(t).bucket_mask + 1) / 8
        },
        final(t).block@.len() == old(t).block@.len(),
        forall|p: int|
            0 <= p < old(t).block@.len() ==> #[trigger] final(t).block@[p] == if p < old(t).ctrl {
                old(t).block@[p]
            } else {
                0xff
            },
{
    lemma_capacity(old(t).bucket_mask + 1);
    assert forall|p: int| 0 <= p < old(t).block@.len() implies #[trigger] final(t).block@[p] == if p
        < old(t).ctrl {
        old(t).block@[p]
    } else {
        0xff
    } by {
        if p < old(t).ctrl {
            assert(final(t).block@.take(old(t).ctrl as int)[p] == final(t).block@[p]);
            assert(old(t).block@.take(old(t).ctrl as int)[p] == old(t).block@[p]);
        } else {
            assert(final(t).ctrl_bytes()[p - old(t).ctrl] == final(t).block@[p]);
        }
    }
}

/// Before the items of a table get new places, every full bucket becomes a deleted one and every
/// other an empty one. The counters stay, and the control bytes stay in order.
pub proof fn law_table_ready_for_rehash<A: Allocator + Clone>(t: &mut LowTable<A>)
    requires
        old(t).ctrl_wf(),
        0 < old(t).bucket_mask,
        call_ensures(LowTable::<A>::prepare_rehash_in_place, (t,), ()),
    ensures
        final(t).bucket_mask == old(t).bucket_mask,
        final(t).ctrl == old(t).ctrl,
        final(t).allocator == old(t).allocator,
        final(t).items == old(t).items,
        final(t).growth_left == old(t).growth_left,
        final(t).block@.len() == old(t).block@.len(),
        final(t).ctrl_wf(),
        forall|p: int|
            0 <= p < old(t).ctrl ==> #[trigger] final(t).block@[p] == old(t).block@[p],
        forall|i: int|
            0 <= i <= old(t).bucket_mask ==> #[trigger] final(t).block@[old(t).ctrl + i] == (
            if old(t).block@[old(t).ctrl + i] < 0x80 {
                0x80u8
            } else {
                0xffu8
            }),
{
    assert forall|p: int| 0 <= p < old(t).ctrl implies #[trigger] final(t).block@[p]
        == old(t).block@[p] by {
        assert(final(t).block@.take(old(t).ctrl as int)[p] == final(t).block@[p]);
        assert(old(t).block@.take(old(t).ctrl as int)[p] == old(t).block@[p]);
    }
    assert forall|i: int| 0 <= i <= old(t).bucket_mask implies #[trigger] final(t).block@[old(t).ctrl
        + i] == (if old(t).block@[old(t).ctrl + i] < 0x80 {
        0x80u8
    } else {
        0xffu8
    }) by {
        lemma_byte(*old(t), i);
        lemma_byte(*final(t), i);
        assert(final(t).ctrl_bytes()[i] == crate::group::converted(old(t).ctrl_bytes()[i]));
    }
}

/// The layout for a number of buckets, told from the first aligned position behind the items.
pub(crate) proof fn lemma_layout(table_layout: TableLayout, n: int, offset: int)
    requires
        table_layout.wf(),
        n >= 1,
        offset % (table_layout.ctrl_byte_align as int) == 0,
        table_layout.size * n <= offset < table_layout.size * n + table_layout.ctrl_byte_align,
    ensures
        table_layout.ctrl_offset(n) == offset,
        table_layout.fits(n) <==> table_layout.size * n + table_layout.ctrl_byte_align - 1
            <= usize::MAX && offset + n + 16 <= usize::MAX,
        offset + n + 16 <= usize::MAX ==> table_layout.layout(n) == (Layout {
            size: (offset + n + 16) as usize,
            align: table_layout.ctrl_byte_align,
        }),
{
    crate::table_layout::law_ctrl_bytes_follow_items(table_layout, n);
    crate::table_layout::lemma_multiple_is_unique(
        offset,
        table_layout.ctrl_offset(n),
        table_layout.size * n,
        table_layout.ctrl_byte_align as int,
    );
}

/// There is only one number of buckets for a number of items.
pub(crate) proof fn lemma_buckets(capacity: int, n: int)
    requires
        capacity >= 0,
        vstd::arithmetic::power2::is_pow2(n),
        capacity < 4 ==> n == 4,
        4 <= capacity < 8 ==> n == 8,
        capacity >= 8 ==> n / 2 < capacity * 8 / 7 <= n,
    ensures
        n == crate::capacity::buckets_for(capacity),
        n >= 4,
        crate::capacity::max_items(n - 1) == if n <= 8 {
            n - 1
        } else {
            n - n / 8
        },
{
    crate::capacity::law_buckets_are_near(capacity);
    crate::capacity::law_buckets_hold_capacity(capacity);
    let m = crate::capacity::buckets_for(capacity);
    if m < n {
        crate::math::lemma_no_power_between(m, n);
    }
    if n < m {
        crate::math::lemma_no_power_between(n, m);
    }
    lemma_capacity(n);
}

/// A table is refused for one of two reasons. Its size does not fit in a `usize`: that is a
/// capacity overflow, whatever the allocator has. Or the allocator was asked for the memory and
/// answered with an error; only on targets narrower than 64 bits is more than half of the address
/// space not even asked for. Otherwise the table is over the very block that the allocator gave.
pub proof fn law_new_table_needs_only_memory<A: Allocator + Clone>(
    allocator: A,
    table_layout: TableLayout,
    buckets: usize,
    fallibility: Fallibility,
    offset: int,
    r: Result<LowTable<A>, TryReserveError>,
)
    requires
        vstd::arithmetic::power2::is_pow2(table_layout.ctrl_byte_align as int),
        table_layout.ctrl_byte_align >= 16,
        buckets >= 1,
        offset % (table_layout.ctrl_byte_align as int) == 0,
        table_layout.size * buckets <= offset < table_layout.size * buckets
            + table_layout.ctrl_byte_align,
        call_ensures(
            LowTable::<A>::new_uinit,
            (allocator, table_layout, buckets, fallibility),
            r,
        ),
    ensures
        r == Err::<LowTable<A>, TryReserveError>(TryReserveError::CapacityOverflow) <==> {
            ||| table_layout.size * buckets + table_layout.ctrl_byte_align - 1 > usize::MAX
            ||| offset + buckets + 16 > usize::MAX
        },
        r matches Err(TryReserveError::AllocatorError { layout }) ==> {
            &&& layout.size == offset + buckets + 16
            &&& layout.align == table_layout.ctrl_byte_align
            &&& usize::BITS == 64 || layout.size <= isize::MAX ==> call_ensures(
                A::allocate,
                (&allocator, layout),
                Err::<Vec<u8>, AllocError>(AllocError),
            )
        },
        r matches Ok(t) ==> {
            &&& t.bucket_mask == buckets - 1
            &&& t.ctrl == offset
            &&& t.block@.len() == offset + buckets + 16
            &&& t.items == 0
            &&& t.growth_left == if buckets <= 8 {
                buckets - 1
            } else {
                7 * (buckets as int / 8)
            }
            &&& t.allocator == allocator
            &&& call_ensures(
                A::allocate,
                (
                    &allocator,
                    Layout { size: t.block.len(), align: table_layout.ctrl_byte_align },
                ),
                Ok::<Vec<u8>, AllocError>(t.block),
            )
        },
{
    lemma_layout(table_layout, buckets as int, offset);
}

/// A table for no items has no memory and asks for none.
pub proof fn law_table_for_no_items<A: Allocator + Clone>(
    allocator: A,
    table_layout: TableLayout,
    fallibility: Fallibility,
    r: Result<LowTable<A>, TryReserveError>,
)
    requires
        call_ensures(
            LowTable::<A>::fallible_with_capacity,
            (allocator, table_layout, 0, fallibility),
            r,
        ),
    ensures
        r matches Ok(t) && t.bucket_mask == 0 && t.block@.len() == 0 && t.ctrl == 0 && t.items == 0
            && t.growth_left == 0 && t.allocator == allocator,
{
    if let Ok(t) = r {
        law_order_of_empty_table(t);
    }
}

/// A table for a number of items has `n` buckets: four, eight, or the least power of two that is
/// eight sevenths of the number. All of them are empty, and all the room that such a table can
/// have is left. It stands on memory of the allocator, which is the result where there is a table.
/// There is none where the size does not fit in a `usize`, and where the allocator has refused.
pub proof fn law_table_for_items<A: Allocator + Clone>(
    allocator: A,
    table_layout: TableLayout,
    capacity: usize,
    fallibility: Fallibility,
    n: int,
    offset: int,
    r: Result<LowTable<A>, TryReserveError>,
) -> (given: Vec<u8>)
    requires
        vstd::arithmetic::power2::is_pow2(table_layout.ctrl_byte_align as int),
        table_layout.ctrl_byte_align >= 16,
        capacity > 0,
        vstd::arithmetic::power2::is_pow2(n),
        capacity < 4 ==> n == 4,
        4 <= capacity < 8 ==> n == 8,
        capacity >= 8 ==> n / 2 < capacity * 8 / 7 <= n,
        offset % (table_layout.ctrl_byte_align as int) == 0,
        table_layout.size * n <= offset < table_layout.size * n + table_layout.ctrl_byte_align,
        call_ensures(
            LowTable::<A>::fallible_with_capacity,
            (allocator, table_layout, capacity, fallibility),
            r,
        ),
    ensures
        r == Err::<LowTable<A>, TryReserveError>(TryReserveError::CapacityOverflow) <==> {
            ||| capacity >= 8 && capacity * 8 > usize::MAX
            ||| table_layout.size * n + table_layout.ctrl_byte_align - 1 > usize::MAX
            ||| offset + n + 16 > usize::MAX
        },
        r matches Err(TryReserveError::AllocatorError { layout }) ==> {
            &&& layout.size == offset + n + 16
            &&& layout.align == table_layout.ctrl_byte_align
            &&& usize::BITS == 64 || layout.size <= isize::MAX ==> call_ensures(
                A::allocate,
                (&allocator, layout),
                Err::<Vec<u8>, AllocError>(AllocError),
            )
        },
        r matches Ok(t) ==> {
            &&& t.allocator == allocator
            &&& t.growth_left >= capacity
            &&& t.bucket_mask == n - 1
            &&& t.ctrl == offset
            &&& t.block@.len() == offset + n + 16
            &&& t.items == 0
            &&& t.growth_left + 0 == if n <= 8 {
                n - 1
            } else {
                n - n / 8
            }
            &&& forall|p: int|
                t.ctrl <= p < t.block@.len() ==> #[trigger] t.block@[p] == 0xff
            &&& call_ensures(
                A::allocate,
                (
                    &allocator,
                    Layout { size: t.block.len(), align: table_layout.ctrl_byte_align },
                ),
                Ok::<Vec<u8>, AllocError>(given),
            )
            &&& given@.len() == t.block@.len()
            &&& forall|p: int| 0 <= p < t.ctrl ==> #[trigger] t.block@[p] == given@[p]
        },
{
    lemma_buckets(capacity as int, n);
    lemma_layout(table_layout, n, offset);
    if let Ok(t) = r {
        lemma_block_of(t, allocator, table_layout)
    } else {
        arbitrary()
    }
}

/// The block that a table stands on, and the empty control bytes behind it.
pub(crate) proof fn lemma_block_of<A: Allocator>(
    t: LowTable<A>,
    allocator: A,
    table_layout: TableLayout,
) -> (given: Vec<u8>)
    requires
        t.shape(),
        t.bucket_mask > 0,
        t.owns_allocation(table_layout),
        t.stands_on_block(allocator, table_layout),
        forall|p: int|
            0 <= p < t.ctrl_bytes().len() ==> #[trigger] t.ctrl_bytes()[p]
                == crate::control_bytes::EMPTY,
    ensures
        t.block@.len() == t.ctrl + t.n() + 16,
        forall|p: int| t.ctrl <= p < t.block@.len() ==> #[trigger] t.block@[p] == 0xff,
        call_ensures(
            A::allocate,
            (
                &allocator,
                Layout { size: t.block.len(), align: table_layout.ctrl_byte_align },
            ),
            Ok::<Vec<u8>, AllocError>(given),
        ),
        given@.len() == t.block@.len(),
        forall|p: int| 0 <= p < t.ctrl ==> #[trigger] t.block@[p] == given@[p],
{
    let given = choose|block: Vec<u8>| #[trigger]
        call_ensures(
            A::allocate,
            (&allocator, table_layout.layout(t.n())),
            Ok::<Vec<u8>, AllocError>(block),
        ) && t.block.len() == block.len() && t.block@.take(t.ctrl as int) == block@.take(
            t.ctrl as int,
        );
    assert forall|p: int| t.ctrl <= p < t.block@.len() implies #[trigger] t.block@[p] == 0xff by {
        assert(t.ctrl_bytes()[p - t.ctrl] == t.block@[p]);
    }
    assert forall|p: int| 0 <= p < t.ctrl implies #[trigger] t.block@[p] == given@[p] by {
        assert(t.block@.take(t.ctrl as int)[p] == t.block@[p]);
        assert(given@.take(t.ctrl as int)[p] == given@[p]);
    }
    given
}

/// The table that the items of another are to move to has `n` buckets, all empty. It counts those
/// items already: what is left is what a table of that size holds, less their number. There is no
/// such table where the size does not fit in a `usize`, and where a copy of the table's allocator
/// has refused. The result is the memory that was given for it.
pub proof fn law_table_to_move_to<A: Allocator + Clone>(
    old_table: LowTable<A>,
    table_layout: TableLayout,
    capacity: usize,
    fallibility: Fallibility,
    n: int,
    offset: int,
    r: Result<ScopeGuard<A>, TryReserveError>,
) -> (given: Vec<u8>)
    requires
        vstd::arithmetic::power2::is_pow2(table_layout.ctrl_byte_align as int),
        table_layout.ctrl_byte_align >= 16,
        capacity > 0,
        vstd::arithmetic::power2::is_pow2(n),
        capacity < 4 ==> n == 4,
        4 <= capacity < 8 ==> n == 8,
        capacity >= 8 ==> n / 2 < capacity * 8 / 7 <= n,
        offset % (table_layout.ctrl_byte_align as int) == 0,
        table_layout.size * n <= offset < table_layout.size * n + table_layout.ctrl_byte_align,
        call_ensures(
            LowTable::<A>::prepare_resize,
            (&old_table, table_layout, capacity, fallibility),
            r,
        ),
    ensures
        r == Err::<ScopeGuard<A>, TryReserveError>(TryReserveError::CapacityOverflow) <==> {
            ||| capacity >= 8 && capacity * 8 > usize::MAX
            ||| table_layout.size * n + table_layout.ctrl_byte_align - 1 > usize::MAX
            ||| offset + n + 16 > usize::MAX
        },
        r matches Err(TryReserveError::AllocatorError { layout }) ==> {
            &&& layout.size == offset + n + 16
            &&& layout.align == table_layout.ctrl_byte_align
            &&& usize::BITS == 64 || layout.size <= isize::MAX ==> exists|allocator: A| #[trigger]
                cloned(old_table.allocator, allocator) && call_ensures(
                    A::allocate,
                    (&allocator, layout),
                    Err::<Vec<u8>, AllocError>(AllocError),
                )
        },
        r matches Ok(guard) ==> {
            &&& guard.table_layout == table_layout
            &&& cloned(old_table.allocator, guard.value.allocator)
            &&& guard.value.bucket_mask == n - 1
            &&& guard.value.ctrl == offset
            &&& guard.value.block@.len() == offset + n + 16
            &&& guard.value.items == old_table.items
            &&& guard.value.growth_left + old_table.items == if n <= 8 {
                n - 1
            } else {
                n - n / 8
            }
            &&& forall|p: int|
                guard.value.ctrl <= p < guard.value.block@.len()
                    ==> #[trigger] guard.value.block@[p] == 0xff
            &&& call_ensures(
                A::allocate,
                (
                    &guard.value.allocator,
                    Layout { size: guard.value.block.len(), align: table_layout.ctrl_byte_align },
                ),
                Ok::<Vec<u8>, AllocError>(given),
            )
            &&& given@.len() == guard.value.block@.len()
            &&& forall|p: int|
                0 <= p < guard.value.ctrl ==> #[trigger] guard.value.block@[p] == given@[p]
        },
{
    lemma_buckets(capacity as int, n);
    lemma_layout(table_layout, n, offset);
    if let Ok(guard) = r {
        lemma_block_of(guard.value, guard.value.allocator, table_layout)
    } else {
        arbitrary()
    }
}

/// Giving a table's memory back hands the allocator the whole block, with the layout that is made
/// of the block's size and the alignment of the control bytes.
pub proof fn law_memory_given_back<A: Allocator + Clone>(
    t: LowTable<A>,
    table_layout: TableLayout,
    r: A,
)
    requires
        t.owns_allocation(table_layout),
        call_ensures(LowTable::<A>::free_buckets, (t, table_layout), r),
    ensures
        r == t.allocator,
        call_ensures(
            A::deallocate,
            (
                &t.allocator,
                t.block,
                Layout { size: t.block.len(), align: table_layout.ctrl_byte_align },
            ),
            (),
        ),
{
}

/// A guard that is given up hands its table's memory back, where the table has any.
pub proof fn law_guard_given_up<A: Allocator + Clone>(guard: ScopeGuard<A>, r: A)
    requires
        guard.value.bucket_mask > 0,
        guard.value.allocated_for(guard.table_layout),
        call_ensures(ScopeGuard::<A>::free, (guard,), r),
    ensures
        r == guard.value.allocator,
        call_ensures(
            A::deallocate,
            (
                &guard.value.allocator,
                guard.value.block,
                Layout {
                    size: guard.value.block.len(),
                    align: guard.table_layout.ctrl_byte_align,
                },
            ),
            (),
        ),
{
}

/// Two buckets belong to the same group for a hash exactly when, counted from where the walk for
/// the hash begins and round the end of the table, they are the same number of whole groups away.
pub proof fn law_same_group<A: Allocator + Clone>(
    t: LowTable<A>,
    a: usize,
    b: usize,
    hash: u64,
    r: bool,
)
    requires
        vstd::arithmetic::power2::is_pow2(t.bucket_mask + 1),
        t.bucket_mask < usize::MAX,
        call_ensures(LowTable::<A>::is_in_same_group, (&t, a, b, hash), r),
    ensures
        ({
            let n = t.bucket_mask + 1;
            let start = (hash as int % 0x0200_0000_0000_0000) % (usize::MAX + 1);
            r == (((a - start) % n) / 16 == ((b - start) % n) / 16)
        }),
{
    crate::hash::lemma_low_bits_value(hash);
}

/// The walk for a hash begins at the bucket that the low 57 bits of the hash name, round the end of
/// the table.
pub proof fn law_start_of_walk<A>(t: LowTable<A>, hash: u64, r: crate::probe::ProbeSequence)
    requires
        vstd::arithmetic::power2::is_pow2(t.bucket_mask + 1),
        t.bucket_mask < usize::MAX,
        call_ensures(LowTable::<A>::probe_seq, (&t, hash), r),
    ensures
        r.pos == ((hash as int % 0x0200_0000_0000_0000) % (usize::MAX + 1)) % (t.bucket_mask + 1),
        r.stride == 0,
{
    crate::hash::lemma_low_bits_value(hash);
    crate::math::lemma_mask_is_mod(crate::hash::low_bits(hash), t.bucket_mask);
}

/// The numbers that a table tells: its buckets, its control bytes, where they begin, where that of
/// a bucket is, and whether there is only one bucket.
pub proof fn law_numbers_of_table<A: Allocator + Clone>(
    t: LowTable<A>,
    index: usize,
    buckets: usize,
    bytes: usize,
    terminal: usize,
    position: usize,
    single: bool,
)
    requires
        call_ensures(LowTable::<A>::buckets, (&t,), buckets),
        call_ensures(LowTable::<A>::count_ctrl_bytes, (&t,), bytes),
        call_ensures(LowTable::<A>::data_terminal_ptr, (&t,), terminal),
        call_ensures(LowTable::<A>::ctrlof, (&t, index), position),
        call_ensures(LowTable::<A>::is_empty_singleton, (&t,), single),
    ensures
        buckets == t.bucket_mask + 1,
        bytes == t.bucket_mask + 17,
        terminal == t.ctrl,
        position == t.ctrl + index,
        single <==> t.bucket_mask == 0,
{
}

/// What is read of a table with memory are its bytes: a bucket's own, and the sixteen from it on.
/// Of a table without memory, `0xff` is read.
pub proof fn law_bytes_read<A>(
    t: LowTable<A>,
    index: usize,
    byte: u8,
    group: crate::group::Group,
)
    requires
        t.block@.len() > 0 ==> t.ctrl + index + 16 <= t.block@.len(),
        t.block@.len() == 0 ==> t.ctrl == 0 && index == 0,
        call_ensures(LowTable::<A>::ctrl_byte, (&t, index), byte),
        call_ensures(LowTable::<A>::load_group, (&t, index), group),
    ensures
        byte == if t.block@.len() == 0 {
            0xff
        } else {
            t.block@[t.ctrl + index]
        },
        forall|j: int|
            0 <= j < 16 ==> #[trigger] group.bytes@[j] == if t.block@.len() == 0 {
                0xff
            } else {
                t.block@[t.ctrl + index + j]
            },
{
    assert forall|j: int| 0 <= j < 16 implies #[trigger] group.bytes@[j] == if t.block@.len() == 0 {
        0xff
    } else {
        t.block@[t.ctrl + index + j]
    } by {
        assert(group.bytes@[j] == t.ctrl_bytes()[index + j]);
        assert(t.ctrl_bytes()[index + j] == t.memory()[t.ctrl + (index + j)]);
    }
    assert(t.ctrl_bytes()[index as int] == t.memory()[t.ctrl + index]);
}

/// A table of the right shape can be given any byte for any bucket, and can be emptied.
pub proof fn law_bytes_can_be_set<A: Allocator + Clone>(
    t: &mut LowTable<A>,
    index: usize,
    byte: u8,
    hash: u64,
)
    requires
        old(t).shape(),
        old(t).bucket_mask > 0,
        index <= old(t).bucket_mask,
    ensures
        call_requires(LowTable::<A>::set_ctrlof, (t, index, byte)),
        call_requires(LowTable::<A>::set_ctrl_h2_of, (t, index, hash)),
        call_requires(LowTable::<A>::update_ctrl_h2_of, (t, index, hash)),
        call_requires(LowTable::<A>::clear_no_drop, (t,)),
        old(t).items < usize::MAX && old(t).growth_left > 0 ==> call_requires(
            LowTable::<A>::record_item_insert_at,
            (t, index, byte, hash),
        ),
        old(t).items < usize::MAX && byte == 0x80 ==> call_requires(
            LowTable::<A>::record_item_insert_at,
            (t, index, byte, hash),
        ),
{
}

/// A table whose control bytes are in order can be prepared for new places of its items, and for
/// a new item wherever a bucket `i` is not full.
pub proof fn law_table_can_be_prepared<A: Allocator + Clone>(t: &mut LowTable<A>, i: int, hash: u64)
    requires
        old(t).ctrl_wf(),
        old(t).bucket_mask > 0,
    ensures
        call_requires(LowTable::<A>::prepare_rehash_in_place, (t,)),
        0 <= i <= old(t).bucket_mask && old(t).block@[old(t).ctrl + i] >= 0x80 ==> call_requires(
            LowTable::<A>::prepare_insert_slot,
            (t, hash),
        ),
{
    if 0 <= i <= old(t).bucket_mask && old(t).block@[old(t).ctrl + i] >= 0x80 {
        assert(crate::control_bytes::is_special(old(t).ctrl_bytes()[i]));
        assert(old(t).has_room());
    }
}

/// Any number of buckets can be asked for, and a table to move to wherever the items fit in what a
/// table of its `n` buckets holds.
pub proof fn law_memory_can_be_asked_for<A: Allocator + Clone>(
    t: LowTable<A>,
    allocator: A,
    table_layout: TableLayout,
    capacity: usize,
    n: int,
)
    requires
        vstd::arithmetic::power2::is_pow2(table_layout.ctrl_byte_align as int),
        table_layout.ctrl_byte_align >= 16,
        vstd::arithmetic::power2::is_pow2(n),
        capacity < 4 ==> n == 4,
        4 <= capacity < 8 ==> n == 8,
        capacity >= 8 ==> n / 2 < capacity * 8 / 7 <= n,
    ensures
        capacity >= 1 ==> call_requires(
            LowTable::<A>::new_uinit,
            (allocator, table_layout, capacity, Fallibility::Fallible),
        ),
        call_requires(
            LowTable::<A>::fallible_with_capacity,
            (allocator, table_layout, capacity, Fallibility::Fallible),
        ),
        t.items <= (if capacity == 0 {
            0
        } else if n <= 8 {
            n - 1
        } else {
            n - n / 8
        }) ==> call_requires(
            LowTable::<A>::prepare_resize,
            (&t, table_layout, capacity, Fallibility::Fallible),
        ),
{
    lemma_buckets(capacity as int, n);
}

/// A table to move no items to has no memory.
pub proof fn law_table_to_move_nothing_to<A: Allocator + Clone>(
    old_table: LowTable<A>,
    table_layout: TableLayout,
    fallibility: Fallibility,
    r: Result<ScopeGuard<A>, TryReserveError>,
)
    requires
        old_table.items == 0,
        call_ensures(
            LowTable::<A>::prepare_resize,
            (&old_table, table_layout, 0, fallibility),
            r,
        ),
    ensures
        r matches Ok(guard) && guard.value.bucket_mask == 0 && guard.value.block@.len() == 0
            && guard.value.items == 0 && guard.value.growth_left == 0 && cloned(
            old_table.allocator,
            guard.value.allocator,
        ),
{
    if let Ok(guard) = r {
        guard.value.law_filled_table_is_in_order();
        law_order_of_empty_table(guard.value);
    }
}

/// The allocator's answer makes the table or the error.
pub proof fn law_answer_decides<A: Allocator + Clone>(
    allocator: A,
    answer: Result<Vec<u8>, AllocError>,
    layout: Layout,
    ctrl_offset: usize,
    buckets: usize,
    fallibility: Fallibility,
    r: Result<LowTable<A>, TryReserveError>,
)
    requires
        buckets >= 1,
        call_ensures(
            LowTable::<A>::over_allocation,
            (allocator, answer, layout, ctrl_offset, buckets, fallibility),
            r,
        ),
    ensures
        answer is Err ==> (r matches Err(TryReserveError::AllocatorError { layout: l }) && l
            == layout),
        answer matches Ok(block) ==> {
            &&& r matches Ok(t)
            &&& t.block == block
            &&& t.ctrl == ctrl_offset
            &&& t.bucket_mask == buckets - 1
            &&& t.items == 0
            &&& t.allocator == allocator
            &&& t.growth_left == if buckets <= 8 {
                buckets - 1
            } else {
                7 * (buckets as int / 8)
            }
        },
{
}

/// What a table owes its allocator is the whole block, and a layout of its size.
pub proof fn law_debt_to_allocator<A: Allocator + Clone>(
    t: LowTable<A>,
    table_layout: TableLayout,
    r: (A, Vec<u8>, Layout),
)
    requires
        t.owns_allocation(table_layout),
        call_ensures(LowTable::<A>::into_allocation, (t, table_layout), r),
    ensures
        r.0 == t.allocator,
        r.1 == t.block,
        r.2.size == t.block@.len(),
        r.2.align == table_layout.ctrl_byte_align,
{
}

/// The bucket with a number is named by the position that lies as many items before the control
/// bytes or, where items have no size, by the number, counted from one.
pub proof fn law_bucket_of_number<T, A: Allocator + Clone>(
    t: LowTable<A>,
    index: usize,
    bucket: crate::bucket::Bucket<T>,
)
    requires
        call_ensures(LowTable::<A>::get_bucket::<T>, (&t, index), bucket),
    ensures
        vstd::layout::size_of::<T>() == 0 ==> bucket.ptr == index + 1,
        vstd::layout::size_of::<T>() > 0 ==> bucket.ptr == t.ctrl - index
            * vstd::layout::size_of::<T>(),
{
}

/// An item whose place was prepared is met by the walk for its hash, at the place that is the
/// result, before a lookup has cause to stop: no bucket that the walk comes to in an earlier step is
/// empty.
pub proof fn law_new_item_is_met<A: Allocator + Clone>(
    t: &mut LowTable<A>,
    hash: u64,
    r: (usize, u8),
    byte: u8,
) -> (place: (int, int))
    requires
        old(t).ctrl_wf(),
        old(t).bucket_mask > 0,
        exists|i: int|
            0 <= i <= old(t).bucket_mask && #[trigger] old(t).block@[old(t).ctrl + i] >= 0x80,
        call_ensures(LowTable::<A>::prepare_insert_slot, (t, hash), r),
        call_ensures(crate::hash::h2, (hash,), byte),
    ensures
        ({
            let n = old(t).bucket_mask + 1;
            let start = (hash as int % 0x0200_0000_0000_0000) % (usize::MAX + 1);
            let k = place.0;
            let o = place.1;
            &&& 0 <= k
            &&& 0 <= o < 16
            &&& r.0 == ((start + 16 * (k * (k + 1) / 2)) % n + o) % n
            &&& final(t).block@[old(t).ctrl + r.0] == byte
            &&& forall|j: int, u: int|
                0 <= j < k && 0 <= u < 16 ==> #[trigger] final(t).block@[old(t).ctrl + ((start + 16
                    * (j * (j + 1) / 2)) % n + u) % n] != 0xff
        }),
{
    let n = old(t).bucket_mask + 1;
    let start = (hash as int % 0x0200_0000_0000_0000) % (usize::MAX + 1);
    let c = old(t).ctrl as int;
    crate::hash::lemma_low_bits_value(hash);
    lemma_written(*old(t), *final(t), r.0 as int, byte);
    let place = lemma_first_place(*old(t), start, r.0 as int);
    assert forall|j: int, u: int| 0 <= j < place.0 && 0 <= u < 16 implies #[trigger] final(t).block@[
    old(t).ctrl + ((start + 16 * (j * (j + 1) / 2)) % n + u) % n] != 0xff by {
        let q = ((start + 16 * (j * (j + 1) / 2)) % n + u) % n;
        vstd::arithmetic::div_mod::lemma_mod_bound((start + 16 * (j * (j + 1) / 2)) % n + u, n);
        assert(old(t).block@[old(t).ctrl + ((start + 16 * (j * (j + 1) / 2)) % n + u) % n] < 0x80);
    }
    place
}

/// Removing an item does not make a lookup stop earlier: sixteen neighbouring buckets, from `pos`
/// on, that had no empty one among them have none afterwards.
pub proof fn law_erase_lets_lookups_pass<A: Allocator + Clone>(
    t: &mut LowTable<A>,
    index: usize,
    pos: int,
)
    requires
        old(t).ctrl_wf(),
        15 <= old(t).bucket_mask,
        index <= old(t).bucket_mask,
        call_ensures(LowTable::<A>::erase, (t, index), ()),
        forall|u: int|
            0 <= u < 16 ==> #[trigger] old(t).block@[old(t).ctrl + (pos + u) % (old(t).bucket_mask
                + 1)] != 0xff,
    ensures
        forall|u: int|
            0 <= u < 16 ==> #[trigger] final(t).block@[old(t).ctrl + (pos + u) % (
            old(t).bucket_mask + 1)] != 0xff,
{
    let n = old(t).bucket_mask + 1;
    let i = index as int;
    lemma_written(
        *old(t),
        *final(t),
        i,
        crate::ctrl::byte_after_erase(old(t).ctrl_bytes(), n, i),
    );
    assert forall|u: int| 0 <= u < 16 implies #[trigger] final(t).block@[old(t).ctrl + (pos + u) % (
    old(t).bucket_mask + 1)] != 0xff by {
        let q = (pos + u) % n;
        vstd::arithmetic::div_mod::lemma_mod_bound(pos + u, n);
        assert(old(t).block@[old(t).ctrl + (pos + u) % n] != 0xff);
        if q == i {
            assert forall|v: int| 0 <= v < 16 implies #[trigger] old(t).block@[old(t).ctrl + (index
                - u + v) % (old(t).bucket_mask + 1)] != 0xff by {
                assert(old(t).block@[old(t).ctrl + (pos + v) % n] != 0xff);
                vstd::arithmetic::div_mod::lemma_add_mod_noop(pos + u, v - u, n);
                vstd::arithmetic::div_mod::lemma_add_mod_noop(i, v - u, n);
                vstd::arithmetic::div_mod::lemma_small_mod(i as nat, n as nat);
            }
            law_erased_item_in_a_crowd(t, index, u);
        }
    }
}

} // verus!
