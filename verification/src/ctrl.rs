//! The control bytes of a table as a mathematical sequence.
//!
//! A table of `n` buckets, for a power of two `n`, has `n + Group::WIDTH` control bytes. The
//! first `n` belong to the buckets. The others repeat the first ones, so that a group may be
//! read from any bucket on without going round the end:
//!
//! ```text
//! n >= Group::WIDTH:  | buckets 0 .. n | buckets 0 .. Group::WIDTH          |
//! n <  Group::WIDTH:  | buckets 0 .. n | empty, up to a group | buckets 0 .. n |
//! ```
//!
//! A table without allocation counts as one bucket and has a single group of empty bytes.

use vstd::prelude::*;
use crate::control_bytes::{DELETED, EMPTY};
use crate::group::Group;

verus! {

/// The number of control bytes of a table of `n` buckets.
pub open spec fn ctrl_len(n: int) -> int {
    if n == 1 {
        Group::WIDTH as int
    } else {
        n + Group::WIDTH
    }
}

/// Where the control byte of bucket `i` is repeated. From the second group on, that is the
/// byte's own position.
pub open spec fn mirror(n: int, i: int) -> int {
    (i - Group::WIDTH) % n + Group::WIDTH
}

/// The positions, in a table smaller than a group, that belong to no bucket.
pub open spec fn is_padding(n: int, p: int) -> bool {
    n <= p < Group::WIDTH
}

/// The control bytes are those of a table of `n` buckets.
pub open spec fn ctrl_wf(ctrl: Seq<u8>, n: int) -> bool {
    &&& vstd::arithmetic::power2::is_pow2(n)
    &&& ctrl.len() == ctrl_len(n)
    &&& forall|p: int| 0 <= p < ctrl.len() ==> crate::control_bytes::is_valid(#[trigger] ctrl[p])
    &&& forall|p: int| is_padding(n, p) ==> #[trigger] ctrl[p] == EMPTY
    &&& n == 1 ==> ctrl[0] == EMPTY
    &&& n > 1 ==> forall|i: int| 0 <= i < n ==> ctrl[#[trigger] mirror(n, i)] == ctrl[i]
}

/// The control bytes after bucket `i` was given the byte `c`.
pub open spec fn with_byte(ctrl: Seq<u8>, n: int, i: int, c: u8) -> Seq<u8> {
    ctrl.update(i, c).update(mirror(n, i), c)
}

/// The number of bytes among `s` that satisfy `p`.
pub open spec fn count(s: Seq<u8>, p: spec_fn(u8) -> bool) -> nat
    decreases s.len(),
{
    if s.len() == 0 {
        0
    } else {
        count(s.drop_last(), p) + if p(s.last()) {
            1nat
        } else {
            0nat
        }
    }
}

/// The number of full buckets.
pub open spec fn count_full(ctrl: Seq<u8>, n: int) -> nat {
    count(ctrl.take(n), |c: u8| crate::control_bytes::is_full(c))
}

/// The number of deleted buckets.
pub open spec fn count_deleted(ctrl: Seq<u8>, n: int) -> nat {
    count(ctrl.take(n), |c: u8| c == DELETED)
}

/// The number of empty buckets.
pub open spec fn count_empty(ctrl: Seq<u8>, n: int) -> nat {
    count(ctrl.take(n), |c: u8| c == EMPTY)
}

/// Every byte of the group at `pos` is that of a full bucket.
pub open spec fn no_special(ctrl: Seq<u8>, pos: int) -> bool {
    forall|o: int| 0 <= o < Group::WIDTH ==> crate::control_bytes::is_full(#[trigger] ctrl[pos + o])
}

/// No byte of the group at `pos` is empty, so a lookup that comes to this group goes on.
pub open spec fn no_empty(ctrl: Seq<u8>, pos: int) -> bool {
    forall|o: int| 0 <= o < Group::WIDTH ==> #[trigger] ctrl[pos + o] != EMPTY
}

/// The byte at offset `o` of the group at `pos` is that of bucket `i`.
pub open spec fn holds_at(n: int, pos: int, o: int, i: int) -> bool {
    &&& 0 <= o < Group::WIDTH
    &&& (pos + o) % n == i
    &&& !is_padding(n, pos + o)
}

/// The group at `pos` has the byte of bucket `i` in it.
pub open spec fn covers(n: int, pos: int, i: int) -> bool {
    exists|o: int| holds_at(n, pos, o, i)
}

/// Offset `o` is the first in the group at `pos` whose byte is empty or deleted.
pub open spec fn first_special(ctrl: Seq<u8>, pos: int, o: int) -> bool {
    &&& 0 <= o < Group::WIDTH
    &&& crate::control_bytes::is_special(ctrl[pos + o])
    &&& forall|j: int| 0 <= j < o ==> crate::control_bytes::is_full(#[trigger] ctrl[pos + j])
}

/// Bucket `r` is what the group at `pos` offers to a new item: the bucket of its first special
/// byte or, where that byte is one behind the end of a small table and its place in the table
/// is taken, the first special bucket of the table.
pub open spec fn offers(ctrl: Seq<u8>, n: int, pos: int, r: int) -> bool {
    exists|o: int| #[trigger]
        first_special(ctrl, pos, o) && if crate::control_bytes::is_full(ctrl[(pos + o) % n]) {
            first_special(ctrl, 0, r)
        } else {
            r == (pos + o) % n
        }
}

/// The first `k` groups of the walk from `start` have neither an empty nor a deleted bucket.
pub open spec fn groups_full(ctrl: Seq<u8>, n: int, start: int, k: int) -> bool {
    forall|j: int|
        0 <= j < k ==> no_special(ctrl, #[trigger] crate::probe::probe_pos(start, n, j))
}

/// The first `k` groups of the walk from `start` have no empty bucket.
pub open spec fn groups_without_empty(ctrl: Seq<u8>, n: int, start: int, k: int) -> bool {
    forall|j: int|
        0 <= j < k ==> no_empty(ctrl, #[trigger] crate::probe::probe_pos(start, n, j))
}

/// Bucket `r` is the place for a new item whose walk begins at `start`: the first group of the
/// walk with a special byte offers it.
pub open spec fn is_insert_slot(ctrl: Seq<u8>, n: int, start: int, r: int) -> bool {
    exists|k: int|
        0 <= k && groups_full(ctrl, n, start, k) && #[trigger] offers(
            ctrl,
            n,
            crate::probe::probe_pos(start, n, k),
            r,
        )
}

/// A lookup whose walk begins at `start`, and which stops at the first group with an empty
/// byte, gets to see bucket `i`.
pub open spec fn reachable(ctrl: Seq<u8>, n: int, start: int, i: int) -> bool {
    exists|k: int|
        0 <= k && groups_without_empty(ctrl, n, start, k) && #[trigger] covers(
            n,
            crate::probe::probe_pos(start, n, k),
            i,
        )
}

/// Some group's length of neighbouring buckets around bucket `i` has no empty one in it: of the
/// group that ends just before `i`, the last `s` bytes, and of the group that begins at `i`, the
/// first ones that make up a group's length with them.
pub open spec fn crowded(ctrl: Seq<u8>, n: int, i: int) -> bool {
    exists|s: int| #[trigger] crowded_by(ctrl, n, i, s)
}

/// The run of `crowded` that has `s` bytes before bucket `i`.
pub open spec fn crowded_by(ctrl: Seq<u8>, n: int, i: int, s: int) -> bool {
    let before = (i - Group::WIDTH) % n;
    &&& 0 <= s <= Group::WIDTH
    &&& forall|t: int|
        Group::WIDTH - s <= t < Group::WIDTH ==> #[trigger] ctrl[before + t] != EMPTY
    &&& forall|t: int| 0 <= t < Group::WIDTH - s ==> #[trigger] ctrl[i + t] != EMPTY
}

/// The byte that bucket `i` gets when its item is removed. The bucket becomes empty unless some
/// lookup may have gone past it.
pub open spec fn byte_after_erase(ctrl: Seq<u8>, n: int, i: int) -> u8 {
    if crowded(ctrl, n, i) {
        DELETED
    } else {
        EMPTY
    }
}

/// The mirror position lies behind the first group and inside the control bytes.
pub proof fn lemma_mirror(n: int, i: int)
    requires
        vstd::arithmetic::power2::is_pow2(n),
        0 <= i < n,
    ensures
        Group::WIDTH <= mirror(n, i) < n + Group::WIDTH,
        mirror(n, i) % n == i,
        n >= Group::WIDTH ==> mirror(n, i) == if i < Group::WIDTH {
            n + i
        } else {
            i
        },
        n < Group::WIDTH ==> mirror(n, i) == Group::WIDTH + i && (Group::WIDTH as int) % n == 0,
{
    vstd::arithmetic::div_mod::lemma_mod_bound(i - 16, n);
    crate::math::lemma_small_powers();
    if n >= 16 {
        if i >= 16 {
            vstd::arithmetic::div_mod::lemma_small_mod((i - 16) as nat, n as nat);
            vstd::arithmetic::div_mod::lemma_small_mod(i as nat, n as nat);
        } else {
            vstd::arithmetic::div_mod::lemma_mod_multiples_vanish(1, i - 16, n);
            vstd::arithmetic::div_mod::lemma_small_mod((n + i - 16) as nat, n as nat);
            vstd::arithmetic::div_mod::lemma_mod_multiples_vanish(1, i, n);
            vstd::arithmetic::div_mod::lemma_small_mod(i as nat, n as nat);
        }
    } else {
        crate::math::lemma_pow2_divides(n, 16);
        let q = 16int / n;
        vstd::arithmetic::div_mod::lemma_mod_multiples_vanish(-q, i, n);
        assert(n * (-q) == -16) by (nonlinear_arith)
            requires
                16 == n * q,
        ;
        vstd::arithmetic::div_mod::lemma_mod_multiples_vanish(q, i, n);
        vstd::arithmetic::div_mod::lemma_small_mod(i as nat, n as nat);
    }
}

/// A position that belongs to a bucket is either the bucket's own or its mirror.
pub proof fn lemma_position(n: int, p: int)
    requires
        vstd::arithmetic::power2::is_pow2(n),
        n > 1,
        0 <= p < n + Group::WIDTH,
        !is_padding(n, p),
    ensures
        0 <= p % n < n,
        p == p % n || p == mirror(n, p % n),
        p < n ==> p % n == p,
{
    vstd::arithmetic::div_mod::lemma_mod_bound(p, n);
    if p < n {
        vstd::arithmetic::div_mod::lemma_small_mod(p as nat, n as nat);
        lemma_mirror(n, p);
    } else if n >= 16 {
        vstd::arithmetic::div_mod::lemma_mod_multiples_vanish(1, p - n, n);
        vstd::arithmetic::div_mod::lemma_small_mod((p - n) as nat, n as nat);
        lemma_mirror(n, p - n);
    } else {
        lemma_mirror(n, p - 16);
    }
}

/// A position that belongs to a bucket holds the bucket's byte.
pub proof fn lemma_byte_at(ctrl: Seq<u8>, n: int, p: int)
    requires
        ctrl_wf(ctrl, n),
        n > 1,
        0 <= p < n + Group::WIDTH,
        !is_padding(n, p),
    ensures
        0 <= p % n < n,
        ctrl[p] == ctrl[p % n],
{
    lemma_position(n, p);
}

/// What `with_byte` leaves at each position.
pub proof fn lemma_with_byte_at(ctrl: Seq<u8>, n: int, i: int, c: u8, p: int)
    requires
        vstd::arithmetic::power2::is_pow2(n),
        n > 1,
        ctrl.len() == ctrl_len(n),
        0 <= i < n,
        0 <= p < n + Group::WIDTH,
    ensures
        with_byte(ctrl, n, i, c)[p] == if !is_padding(n, p) && p % n == i {
            c
        } else {
            ctrl[p]
        },
{
    lemma_mirror(n, i);
    vstd::arithmetic::div_mod::lemma_small_mod(i as nat, n as nat);
    if !is_padding(n, p) {
        lemma_position(n, p);
    }
}

/// Giving a bucket a valid byte keeps the control bytes in order.
pub proof fn lemma_with_byte_wf(ctrl: Seq<u8>, n: int, i: int, c: u8)
    requires
        ctrl_wf(ctrl, n),
        n > 1,
        0 <= i < n,
        crate::control_bytes::is_valid(c),
    ensures
        ctrl_wf(with_byte(ctrl, n, i, c), n),
{
    let after = with_byte(ctrl, n, i, c);
    assert forall|p: int| 0 <= p < after.len() implies crate::control_bytes::is_valid(
        #[trigger] after[p],
    ) by {
        lemma_with_byte_at(ctrl, n, i, c, p);
    }
    assert forall|p: int| is_padding(n, p) implies #[trigger] after[p] == EMPTY by {
        lemma_with_byte_at(ctrl, n, i, c, p);
    }
    assert forall|j: int| 0 <= j < n implies after[#[trigger] mirror(n, j)] == after[j] by {
        lemma_mirror(n, j);
        lemma_with_byte_at(ctrl, n, i, c, j);
        lemma_with_byte_at(ctrl, n, i, c, mirror(n, j));
        vstd::arithmetic::div_mod::lemma_small_mod(j as nat, n as nat);
    }
}

/// A count does not exceed the length, and is zero exactly when nothing is counted.
pub proof fn lemma_count_bounds(s: Seq<u8>, p: spec_fn(u8) -> bool)
    ensures
        count(s, p) <= s.len(),
        count(s, p) == 0 <==> forall|j: int| 0 <= j < s.len() ==> !p(#[trigger] s[j]),
    decreases s.len(),
{
    if s.len() > 0 {
        let t = s.drop_last();
        lemma_count_bounds(t, p);
        if count(s, p) == 0 {
            assert forall|j: int| 0 <= j < s.len() implies !p(#[trigger] s[j]) by {
                if j < t.len() {
                    assert(!p(t[j]));
                }
            }
        } else if p(s.last()) {
            assert(p(s[s.len() - 1]));
        } else {
            let j = choose|j: int| 0 <= j < t.len() && p(#[trigger] t[j]);
            assert(p(s[j]));
        }
    }
}

/// How a count changes with one byte.
pub proof fn lemma_count_update(s: Seq<u8>, p: spec_fn(u8) -> bool, i: int, c: u8)
    requires
        0 <= i < s.len(),
    ensures
        count(s.update(i, c), p) + (if p(s[i]) {
            1int
        } else {
            0
        }) == count(s, p) + (if p(c) {
            1int
        } else {
            0
        }),
    decreases s.len(),
{
    let t = s.drop_last();
    let u = s.update(i, c);
    if i == s.len() - 1 {
        assert(u.drop_last() =~= t);
    } else {
        lemma_count_update(t, p, i, c);
        assert(u.drop_last() =~= t.update(i, c));
    }
}

/// Counts of bytes that agree under a predicate agree.
pub proof fn lemma_count_same(
    s: Seq<u8>,
    t: Seq<u8>,
    p: spec_fn(u8) -> bool,
    q: spec_fn(u8) -> bool,
)
    requires
        s.len() == t.len(),
        forall|j: int| 0 <= j < s.len() ==> p(#[trigger] s[j]) == q(t[j]),
    ensures
        count(s, p) == count(t, q),
    decreases s.len(),
{
    if s.len() > 0 {
        assert(p(s[s.len() - 1]) == q(t[s.len() - 1]));
        assert forall|j: int| 0 <= j < s.len() - 1 implies p(#[trigger] s.drop_last()[j]) == q(
            t.drop_last()[j],
        ) by {
            assert(p(s[j]) == q(t[j]));
        }
        lemma_count_same(s.drop_last(), t.drop_last(), p, q);
    }
}

/// Empty bytes are the control bytes of a table without items.
pub proof fn lemma_all_empty(ctrl: Seq<u8>, n: int)
    requires
        vstd::arithmetic::power2::is_pow2(n),
        ctrl.len() == ctrl_len(n),
        forall|p: int| 0 <= p < ctrl.len() ==> #[trigger] ctrl[p] == EMPTY,
    ensures
        ctrl_wf(ctrl, n),
        count_full(ctrl, n) == 0,
        count_deleted(ctrl, n) == 0,
{
    let e = crate::math::lemma_pow2_exponent(n);
    assert forall|i: int| n > 1 && 0 <= i < n implies ctrl[#[trigger] mirror(n, i)] == ctrl[i] by {
        lemma_mirror(n, i);
    }
    lemma_count_bounds(ctrl.take(n), |c: u8| crate::control_bytes::is_full(c));
    lemma_count_bounds(ctrl.take(n), |c: u8| c == DELETED);
}

/// A count is the number of positions whose bytes are counted.
pub proof fn law_count_is_number_of_positions(s: Seq<u8>, p: spec_fn(u8) -> bool)
    ensures
        count(s, p) == vstd::set_lib::set_int_range(0, s.len() as int).filter(
            |i: int| p(s[i]),
        ).len(),
    decreases s.len(),
{
    let f = |i: int| p(s[i]);
    let all = vstd::set_lib::set_int_range(0, s.len() as int).filter(f);
    vstd::set_lib::lemma_int_range(0, s.len() as int);
    if s.len() == 0 {
        assert(all =~= Set::empty());
    } else {
        let t = s.drop_last();
        let last = s.len() - 1;
        let g = |i: int| p(t[i]);
        let rest = vstd::set_lib::set_int_range(0, last).filter(g);
        vstd::set_lib::lemma_int_range(0, last);
        law_count_is_number_of_positions(t, p);
        assert(rest.finite());
        if p(s.last()) {
            assert(all =~= rest.insert(last));
        } else {
            assert(all =~= rest);
        }
    }
}

/// Every valid byte is full, deleted or empty.
proof fn lemma_count_partition(s: Seq<u8>)
    requires
        forall|j: int| 0 <= j < s.len() ==> crate::control_bytes::is_valid(#[trigger] s[j]),
    ensures
        count(s, |c: u8| crate::control_bytes::is_full(c)) + count(s, |c: u8| c == DELETED) + count(
            s,
            |c: u8| c == EMPTY,
        ) == s.len(),
    decreases s.len(),
{
    if s.len() > 0 {
        assert(crate::control_bytes::is_valid(s[s.len() - 1]));
        assert forall|j: int| 0 <= j < s.len() - 1 implies crate::control_bytes::is_valid(
            #[trigger] s.drop_last()[j],
        ) by {
            assert(crate::control_bytes::is_valid(s[j]));
        }
        lemma_count_partition(s.drop_last());
    }
}

/// Every bucket is full, deleted or empty.
pub proof fn lemma_counts(ctrl: Seq<u8>, n: int)
    requires
        ctrl_wf(ctrl, n),
    ensures
        count_full(ctrl, n) + count_deleted(ctrl, n) + count_empty(ctrl, n) == n,
        count_empty(ctrl, n) > 0 <==> exists|i: int| 0 <= i < n && #[trigger] ctrl[i] == EMPTY,
        count_full(ctrl, n) > 0 <==> exists|i: int|
            0 <= i < n && crate::control_bytes::is_full(#[trigger] ctrl[i]),
        count_full(ctrl, n) < n <==> exists|i: int|
            0 <= i < n && crate::control_bytes::is_special(#[trigger] ctrl[i]),
{
    let e = crate::math::lemma_pow2_exponent(n);
    let s = ctrl.take(n);
    assert(s.len() == n);
    assert forall|j: int| 0 <= j < s.len() implies crate::control_bytes::is_valid(
        #[trigger] s[j],
    ) by {
        assert(s[j] == ctrl[j]);
    }
    lemma_count_partition(s);
    let full = |c: u8| crate::control_bytes::is_full(c);
    let empty = |c: u8| c == EMPTY;
    let deleted = |c: u8| c == DELETED;
    lemma_count_bounds(s, full);
    lemma_count_bounds(s, empty);
    lemma_count_bounds(s, deleted);
    if exists|i: int| 0 <= i < n && #[trigger] ctrl[i] == EMPTY {
        let i = choose|i: int| 0 <= i < n && #[trigger] ctrl[i] == EMPTY;
        assert(empty(s[i]));
    }
    if count_empty(ctrl, n) > 0 {
        let i = choose|i: int| 0 <= i < s.len() && empty(#[trigger] s[i]);
        assert(ctrl[i] == EMPTY);
    }
    if exists|i: int| 0 <= i < n && crate::control_bytes::is_full(#[trigger] ctrl[i]) {
        let i = choose|i: int| 0 <= i < n && crate::control_bytes::is_full(#[trigger] ctrl[i]);
        assert(full(s[i]));
    }
    if count_full(ctrl, n) > 0 {
        let i = choose|i: int| 0 <= i < s.len() && full(#[trigger] s[i]);
        assert(crate::control_bytes::is_full(ctrl[i]));
    }
    if exists|i: int| 0 <= i < n && crate::control_bytes::is_special(#[trigger] ctrl[i]) {
        let i = choose|i: int| 0 <= i < n && crate::control_bytes::is_special(#[trigger] ctrl[i]);
        assert(s[i] == ctrl[i]);
        assert(empty(s[i]) || deleted(s[i]));
    }
    if count_full(ctrl, n) < n {
        if count_empty(ctrl, n) > 0 {
            let i = choose|i: int| 0 <= i < s.len() && empty(#[trigger] s[i]);
            assert(crate::control_bytes::is_special(ctrl[i]));
        } else {
            let i = choose|i: int| 0 <= i < s.len() && deleted(#[trigger] s[i]);
            assert(crate::control_bytes::is_special(ctrl[i]));
        }
    }
}

/// How the numbers of full and of deleted buckets change with one bucket's byte.
pub proof fn lemma_counts_with_byte(ctrl: Seq<u8>, n: int, i: int, c: u8)
    requires
        ctrl_wf(ctrl, n),
        n > 1,
        0 <= i < n,
    ensures
        count_full(with_byte(ctrl, n, i, c), n) + (if crate::control_bytes::is_full(ctrl[i]) {
            1int
        } else {
            0
        }) == count_full(ctrl, n) + (if crate::control_bytes::is_full(c) {
            1int
        } else {
            0
        }),
        count_deleted(with_byte(ctrl, n, i, c), n) + (if ctrl[i] == DELETED {
            1int
        } else {
            0
        }) == count_deleted(ctrl, n) + (if c == DELETED {
            1int
        } else {
            0
        }),
{
    let after = with_byte(ctrl, n, i, c);
    lemma_mirror(n, i);
    assert(after.take(n) =~= ctrl.take(n).update(i, c));
    lemma_count_update(ctrl.take(n), |c: u8| crate::control_bytes::is_full(c), i, c);
    lemma_count_update(ctrl.take(n), |c: u8| c == DELETED, i, c);
}

/// In a table smaller than a group, every group covers every bucket.
pub proof fn lemma_small_covers(n: int, pos: int, i: int)
    requires
        vstd::arithmetic::power2::is_pow2(n),
        n < Group::WIDTH,
        0 <= pos < n,
        0 <= i < n,
    ensures
        covers(n, pos, i),
{
    vstd::arithmetic::div_mod::lemma_small_mod(i as nat, n as nat);
    if pos <= i {
        assert(holds_at(n, pos, i - pos, i));
    } else {
        lemma_mirror(n, i);
        assert(holds_at(n, pos, 16 + i - pos, i));
    }
}

/// In a table of at least one group, covering a bucket means having it in the window.
pub proof fn lemma_covers_is_window(n: int, pos: int, i: int)
    requires
        n >= Group::WIDTH,
        0 <= pos < n,
        0 <= i < n,
    ensures
        covers(n, pos, i) <==> crate::probe::in_window(n, pos, i),
{
    if covers(n, pos, i) {
        let o = choose|o: int| holds_at(n, pos, o, i);
        vstd::arithmetic::div_mod::lemma_sub_mod_noop(pos + o, pos, n);
        vstd::arithmetic::div_mod::lemma_small_mod(pos as nat, n as nat);
        vstd::arithmetic::div_mod::lemma_small_mod(o as nat, n as nat);
    }
    if crate::probe::in_window(n, pos, i) {
        let o = (i - pos) % n;
        vstd::arithmetic::div_mod::lemma_mod_bound(i - pos, n);
        vstd::arithmetic::div_mod::lemma_add_mod_noop(pos, i - pos, n);
        vstd::arithmetic::div_mod::lemma_small_mod(pos as nat, n as nat);
        vstd::arithmetic::div_mod::lemma_small_mod(i as nat, n as nat);
        assert(holds_at(n, pos, o, i));
    }
}

/// The place for a new item is a bucket that is empty or deleted.
pub proof fn lemma_insert_slot_is_special(ctrl: Seq<u8>, n: int, start: int, r: int)
    requires
        ctrl_wf(ctrl, n),
        is_insert_slot(ctrl, n, start, r),
        exists|i: int| 0 <= i < n && crate::control_bytes::is_special(#[trigger] ctrl[i]),
    ensures
        0 <= r < n,
        crate::control_bytes::is_special(ctrl[r]),
{
    let k = choose|k: int|
        0 <= k && groups_full(ctrl, n, start, k) && #[trigger] offers(
            ctrl,
            n,
            crate::probe::probe_pos(start, n, k),
            r,
        );
    let e = crate::math::lemma_pow2_exponent(n);
    let pos = crate::probe::probe_pos(start, n, k);
    crate::probe::lemma_probe_pos_bounds(start, n, k);
    let o = choose|o: int| #[trigger]
        first_special(ctrl, pos, o) && if crate::control_bytes::is_full(ctrl[(pos + o) % n]) {
            first_special(ctrl, 0, r)
        } else {
            r == (pos + o) % n
        };
    vstd::arithmetic::div_mod::lemma_mod_bound(pos + o, n);
    if crate::control_bytes::is_full(ctrl[(pos + o) % n]) {
        let i = choose|i: int| 0 <= i < n && crate::control_bytes::is_special(#[trigger] ctrl[i]);
        if n >= 16 {
            lemma_byte_at(ctrl, n, pos + o);
        } else if r >= n {
            assert(crate::control_bytes::is_full(ctrl[0 + i]));
        }
    }
}

/// There is only one place for a new item.
pub proof fn law_insert_slot_is_unique(ctrl: Seq<u8>, n: int, start: int, r: int, q: int)
    requires
        is_insert_slot(ctrl, n, start, r),
        is_insert_slot(ctrl, n, start, q),
    ensures
        r == q,
{
    let k = choose|k: int|
        0 <= k && groups_full(ctrl, n, start, k) && #[trigger] offers(
            ctrl,
            n,
            crate::probe::probe_pos(start, n, k),
            r,
        );
    let l = choose|l: int|
        0 <= l && groups_full(ctrl, n, start, l) && #[trigger] offers(
            ctrl,
            n,
            crate::probe::probe_pos(start, n, l),
            q,
        );
    let pk = crate::probe::probe_pos(start, n, k);
    let pl = crate::probe::probe_pos(start, n, l);
    let a = choose|o: int| #[trigger]
        first_special(ctrl, pk, o) && if crate::control_bytes::is_full(ctrl[(pk + o) % n]) {
            first_special(ctrl, 0, r)
        } else {
            r == (pk + o) % n
        };
    let b = choose|o: int| #[trigger]
        first_special(ctrl, pl, o) && if crate::control_bytes::is_full(ctrl[(pl + o) % n]) {
            first_special(ctrl, 0, q)
        } else {
            q == (pl + o) % n
        };
    if k < l {
        assert(no_special(ctrl, pk));
        assert(crate::control_bytes::is_full(ctrl[pk + a]));
    }
    if l < k {
        assert(no_special(ctrl, pl));
        assert(crate::control_bytes::is_full(ctrl[pl + b]));
    }
    if a < b {
        assert(crate::control_bytes::is_full(ctrl[pl + a]));
    }
    if b < a {
        assert(crate::control_bytes::is_full(ctrl[pk + b]));
    }
    if first_special(ctrl, 0, r) && first_special(ctrl, 0, q) {
        if r < q {
            assert(crate::control_bytes::is_full(ctrl[0 + r]));
        }
        if q < r {
            assert(crate::control_bytes::is_full(ctrl[0 + q]));
        }
    }
}

/// A lookup gets to see the bucket that was chosen for the item it looks for.
pub proof fn law_insert_slot_is_reachable(ctrl: Seq<u8>, n: int, start: int, r: int)
    requires
        ctrl_wf(ctrl, n),
        is_insert_slot(ctrl, n, start, r),
        exists|i: int| 0 <= i < n && crate::control_bytes::is_special(#[trigger] ctrl[i]),
    ensures
        reachable(ctrl, n, start, r),
{
    lemma_insert_slot_is_special(ctrl, n, start, r);
    let k = choose|k: int|
        0 <= k && groups_full(ctrl, n, start, k) && #[trigger] offers(
            ctrl,
            n,
            crate::probe::probe_pos(start, n, k),
            r,
        );
    let pos = crate::probe::probe_pos(start, n, k);
    crate::probe::lemma_probe_pos_bounds(start, n, k);
    assert forall|j: int| 0 <= j < k implies no_empty(
        ctrl,
        #[trigger] crate::probe::probe_pos(start, n, j),
    ) by {
        let p = crate::probe::probe_pos(start, n, j);
        assert(no_special(ctrl, p));
        assert forall|o: int| 0 <= o < Group::WIDTH implies #[trigger] ctrl[p + o] != EMPTY by {
            assert(crate::control_bytes::is_full(ctrl[p + o]));
        }
    }
    if n < 16 {
        lemma_small_covers(n, pos, r);
    } else {
        let o = choose|o: int| #[trigger]
            first_special(ctrl, pos, o) && if crate::control_bytes::is_full(ctrl[(pos + o) % n]) {
                first_special(ctrl, 0, r)
            } else {
                r == (pos + o) % n
            };
        lemma_byte_at(ctrl, n, pos + o);
        assert(holds_at(n, pos, o, r));
    }
    assert(covers(n, pos, r));
}

/// Giving a bucket a byte other than the empty one hides no bucket from a lookup.
pub proof fn law_fill_keeps_reachable(ctrl: Seq<u8>, n: int, i: int, c: u8, start: int, j: int)
    requires
        ctrl_wf(ctrl, n),
        n > 1,
        0 <= i < n,
        c != EMPTY,
        reachable(ctrl, n, start, j),
    ensures
        reachable(with_byte(ctrl, n, i, c), n, start, j),
{
    let after = with_byte(ctrl, n, i, c);
    let k = choose|k: int|
        0 <= k && groups_without_empty(ctrl, n, start, k) && #[trigger] covers(
            n,
            crate::probe::probe_pos(start, n, k),
            j,
        );
    assert forall|l: int| 0 <= l < k implies no_empty(
        after,
        #[trigger] crate::probe::probe_pos(start, n, l),
    ) by {
        let p = crate::probe::probe_pos(start, n, l);
        crate::probe::lemma_probe_pos_bounds(start, n, l);
        assert(no_empty(ctrl, p));
        assert forall|o: int| 0 <= o < Group::WIDTH implies #[trigger] after[p + o] != EMPTY by {
            assert(ctrl[p + o] != EMPTY);
            lemma_with_byte_at(ctrl, n, i, c, p + o);
        }
    }
    assert(covers(n, crate::probe::probe_pos(start, n, k), j));
}

/// A group without an empty byte that has the byte of bucket `i` in it makes the bucket
/// crowded.
proof fn lemma_window_crowds(ctrl: Seq<u8>, n: int, p: int, i: int)
    requires
        ctrl_wf(ctrl, n),
        n >= Group::WIDTH,
        0 <= p < n,
        0 <= i < n,
        no_empty(ctrl, p),
        covers(n, p, i),
    ensures
        crowded(ctrl, n, i),
{
    let o = choose|o: int| holds_at(n, p, o, i);
    let before = (i - 16) % n;
    vstd::arithmetic::div_mod::lemma_mod_bound(i - 16, n);
    assert forall|t: int| 16 - o <= t < 16 implies #[trigger] ctrl[before + t] != EMPTY by {
        let x = p + (o - 16 + t);
        assert(ctrl[p + (o - 16 + t)] != EMPTY);
        lemma_byte_at(ctrl, n, x);
        lemma_byte_at(ctrl, n, before + t);
        // both positions are those of one bucket
        vstd::arithmetic::div_mod::lemma_add_mod_noop(i - 16, t, n);
        vstd::arithmetic::div_mod::lemma_add_mod_noop(before, t, n);
        vstd::arithmetic::div_mod::lemma_mod_twice(i - 16, n);
        vstd::arithmetic::div_mod::lemma_add_mod_noop(p + o, t - 16, n);
        vstd::arithmetic::div_mod::lemma_add_mod_noop(i, t - 16, n);
        vstd::arithmetic::div_mod::lemma_small_mod(i as nat, n as nat);
        assert((before + t) % n == x % n);
    }
    assert forall|t: int| 0 <= t < 16 - o implies #[trigger] ctrl[i + t] != EMPTY by {
        let x = p + (o + t);
        assert(ctrl[p + (o + t)] != EMPTY);
        lemma_byte_at(ctrl, n, x);
        lemma_byte_at(ctrl, n, i + t);
        vstd::arithmetic::div_mod::lemma_add_mod_noop(p + o, t, n);
        vstd::arithmetic::div_mod::lemma_add_mod_noop(i, t, n);
        vstd::arithmetic::div_mod::lemma_small_mod(i as nat, n as nat);
        assert((i + t) % n == x % n);
    }
    assert(crowded_by(ctrl, n, i, o));
}

/// Removing an item hides no other bucket from a lookup.
pub proof fn law_erase_keeps_reachable(ctrl: Seq<u8>, n: int, i: int, start: int, j: int)
    requires
        ctrl_wf(ctrl, n),
        n > 1,
        0 <= i < n,
        reachable(ctrl, n, start, j),
    ensures
        reachable(with_byte(ctrl, n, i, byte_after_erase(ctrl, n, i)), n, start, j),
{
    let c = byte_after_erase(ctrl, n, i);
    if c != EMPTY {
        law_fill_keeps_reachable(ctrl, n, i, c, start, j);
    } else {
        let after = with_byte(ctrl, n, i, c);
        let k = choose|k: int|
            0 <= k && groups_without_empty(ctrl, n, start, k) && #[trigger] covers(
                n,
                crate::probe::probe_pos(start, n, k),
                j,
            );
        assert forall|l: int| 0 <= l < k implies no_empty(
            after,
            #[trigger] crate::probe::probe_pos(start, n, l),
        ) by {
            let p = crate::probe::probe_pos(start, n, l);
            crate::probe::lemma_probe_pos_bounds(start, n, l);
            assert(no_empty(ctrl, p));
            if n < 16 {
                assert(is_padding(n, p + (15 - p)));
                assert(ctrl[p + (15 - p)] == EMPTY);
            } else if covers(n, p, i) {
                lemma_window_crowds(ctrl, n, p, i);
            }
            assert forall|o: int| 0 <= o < Group::WIDTH implies #[trigger] after[p + o] != EMPTY by {
                assert(ctrl[p + o] != EMPTY);
                lemma_with_byte_at(ctrl, n, i, c, p + o);
                if (p + o) % n == i {
                    assert(holds_at(n, p, o, i));
                }
            }
        }
        assert(covers(n, crate::probe::probe_pos(start, n, k), j));
    }
}

/// A lookup for an item of the given hash gets to see bucket `i`, and finds there the part of
/// the hash that it looks for.
pub open spec fn findable(ctrl: Seq<u8>, n: int, hash: u64, i: int) -> bool {
    &&& 0 <= i < n
    &&& ctrl[i] == crate::hash::top_seven(hash)
    &&& reachable(ctrl, n, crate::hash::low_bits(hash) as int, i)
}

/// The control byte of a full bucket is never a special one.
pub proof fn lemma_top_seven_is_full(hash: u64)
    ensures
        crate::control_bytes::is_full(crate::hash::top_seven(hash)),
{
    let x = hash >> ((usize::BITS - 7) as u64);
    assert((x & 0x7f) < 0x80) by (bit_vector);
}

/// What was put into the bucket that was chosen for it is found.
pub proof fn law_inserted_item_is_found(ctrl: Seq<u8>, n: int, hash: u64, r: int)
    requires
        ctrl_wf(ctrl, n),
        n > 1,
        is_insert_slot(ctrl, n, crate::hash::low_bits(hash) as int, r),
        exists|i: int| 0 <= i < n && crate::control_bytes::is_special(#[trigger] ctrl[i]),
    ensures
        findable(with_byte(ctrl, n, r, crate::hash::top_seven(hash)), n, hash, r),
{
    let c = crate::hash::top_seven(hash);
    let start = crate::hash::low_bits(hash) as int;
    lemma_top_seven_is_full(hash);
    lemma_insert_slot_is_special(ctrl, n, start, r);
    law_insert_slot_is_reachable(ctrl, n, start, r);
    law_fill_keeps_reachable(ctrl, n, r, c, start, r);
    lemma_with_byte_at(ctrl, n, r, c, r);
    vstd::arithmetic::div_mod::lemma_small_mod(r as nat, n as nat);
}

/// Inserting an item does not keep another one from being found.
pub proof fn law_insert_keeps_others_found(
    ctrl: Seq<u8>,
    n: int,
    hash: u64,
    r: int,
    other: u64,
    j: int,
)
    requires
        ctrl_wf(ctrl, n),
        n > 1,
        0 <= r < n,
        crate::control_bytes::is_special(ctrl[r]),
        findable(ctrl, n, other, j),
    ensures
        findable(with_byte(ctrl, n, r, crate::hash::top_seven(hash)), n, other, j),
{
    let c = crate::hash::top_seven(hash);
    lemma_top_seven_is_full(hash);
    lemma_top_seven_is_full(other);
    law_fill_keeps_reachable(ctrl, n, r, c, crate::hash::low_bits(other) as int, j);
    lemma_with_byte_at(ctrl, n, r, c, j);
    vstd::arithmetic::div_mod::lemma_small_mod(j as nat, n as nat);
}

/// Items are put into a table one after the other: `states` are the control bytes, before the
/// first and after each, and the item with hash `hashes[k]` goes into bucket `slots[k]`.
pub open spec fn is_filling(
    states: Seq<Seq<u8>>,
    n: int,
    hashes: Seq<u64>,
    slots: Seq<int>,
) -> bool {
    &&& states.len() == hashes.len() + 1
    &&& slots.len() == hashes.len()
    &&& forall|k: int|
        0 <= k < hashes.len() ==> {
            &&& is_insert_slot(states[k], n, crate::hash::low_bits(#[trigger] hashes[k]) as int, slots[k])
            &&& states[k + 1] == with_byte(
                states[k],
                n,
                slots[k],
                crate::hash::top_seven(hashes[k]),
            )
        }
}

/// What holds after the first `k` items.
proof fn lemma_filling(
    states: Seq<Seq<u8>>,
    n: int,
    hashes: Seq<u64>,
    slots: Seq<int>,
    k: int,
)
    requires
        is_filling(states, n, hashes, slots),
        ctrl_wf(states[0], n),
        n > 1,
        count_full(states[0], n) + hashes.len() <= n,
        0 <= k <= hashes.len(),
    ensures
        ctrl_wf(states[k], n),
        count_full(states[k], n) == count_full(states[0], n) + k,
        forall|j: int| 0 <= j < k ==> findable(states[k], n, #[trigger] hashes[j], slots[j]),
        forall|hash: u64, i: int|
            findable(states[0], n, hash, i) ==> #[trigger] findable(states[k], n, hash, i),
    decreases k,
{
    if k > 0 {
        let l = k - 1;
        lemma_filling(states, n, hashes, slots, l);
        let ctrl = states[l];
        let hash = hashes[l];
        let r = slots[l];
        let c = crate::hash::top_seven(hash);
        assert(is_insert_slot(ctrl, n, crate::hash::low_bits(hash) as int, r));
        lemma_counts(ctrl, n);
        lemma_insert_slot_is_special(ctrl, n, crate::hash::low_bits(hash) as int, r);
        lemma_top_seven_is_full(hash);
        lemma_with_byte_wf(ctrl, n, r, c);
        lemma_counts_with_byte(ctrl, n, r, c);
        law_inserted_item_is_found(ctrl, n, hash, r);
        assert forall|j: int| 0 <= j < k implies findable(
            states[k],
            n,
            #[trigger] hashes[j],
            slots[j],
        ) by {
            if j < l {
                law_insert_keeps_others_found(ctrl, n, hash, r, hashes[j], slots[j]);
            }
        }
        assert forall|other: u64, i: int|
            findable(states[0], n, other, i) implies #[trigger] findable(states[k], n, other, i) by {
            assert(findable(ctrl, n, other, i));
            law_insert_keeps_others_found(ctrl, n, hash, r, other, i);
        }
    }
}

/// Putting items into a table one after the other, as when they move to a larger one, loses
/// none of them: all are found in the end, as is everything that was found before.
pub proof fn law_filling_loses_nothing(
    states: Seq<Seq<u8>>,
    n: int,
    hashes: Seq<u64>,
    slots: Seq<int>,
)
    requires
        is_filling(states, n, hashes, slots),
        ctrl_wf(states[0], n),
        n > 1,
        count_full(states[0], n) + hashes.len() <= n,
    ensures
        ctrl_wf(states.last(), n),
        count_full(states.last(), n) == count_full(states[0], n) + hashes.len(),
        forall|k: int|
            0 <= k < hashes.len() ==> findable(states.last(), n, #[trigger] hashes[k], slots[k]),
        forall|hash: u64, i: int|
            findable(states[0], n, hash, i) ==> #[trigger] findable(states.last(), n, hash, i),
{
    lemma_filling(states, n, hashes, slots, hashes.len() as int);
}

/// In a table without items, an item gets the bucket that its hash names.
pub proof fn law_blank_table_gives_first_choice(ctrl: Seq<u8>, n: int, start: int)
    requires
        ctrl_wf(ctrl, n),
        forall|p: int| 0 <= p < ctrl.len() ==> #[trigger] ctrl[p] == EMPTY,
    ensures
        is_insert_slot(ctrl, n, start, start % n),
{
    let e = crate::math::lemma_pow2_exponent(n);
    let pos = crate::probe::probe_pos(start, n, 0);
    crate::probe::lemma_probe_pos_bounds(start, n, 0);
    vstd::arithmetic::div_mod::lemma_small_mod(pos as nat, n as nat);
    assert(pos == start % n);
    assert(first_special(ctrl, pos, 0));
    assert(offers(ctrl, n, pos, start % n));
    assert(groups_full(ctrl, n, start, 0));
}

/// Removing an item does not keep another one from being found.
pub proof fn law_erase_keeps_others_found(ctrl: Seq<u8>, n: int, i: int, other: u64, j: int)
    requires
        ctrl_wf(ctrl, n),
        n > 1,
        0 <= i < n,
        i != j,
        findable(ctrl, n, other, j),
    ensures
        findable(with_byte(ctrl, n, i, byte_after_erase(ctrl, n, i)), n, other, j),
{
    law_erase_keeps_reachable(ctrl, n, i, crate::hash::low_bits(other) as int, j);
    lemma_with_byte_at(ctrl, n, i, byte_after_erase(ctrl, n, i), j);
    vstd::arithmetic::div_mod::lemma_small_mod(j as nat, n as nat);
}

/// What was removed is not found any more.
pub proof fn law_erased_item_is_not_found(ctrl: Seq<u8>, n: int, i: int, hash: u64)
    requires
        ctrl_wf(ctrl, n),
        n > 1,
        0 <= i < n,
    ensures
        !findable(with_byte(ctrl, n, i, byte_after_erase(ctrl, n, i)), n, hash, i),
{
    lemma_top_seven_is_full(hash);
    lemma_with_byte_at(ctrl, n, i, byte_after_erase(ctrl, n, i), i);
    vstd::arithmetic::div_mod::lemma_small_mod(i as nat, n as nat);
}

/// Removing an item from a bucket that was empty before it came, and which no lookup may have
/// gone past, leaves no trace.
pub proof fn law_erase_undoes_insert(ctrl: Seq<u8>, n: int, i: int, c: u8)
    requires
        ctrl_wf(ctrl, n),
        n > 1,
        0 <= i < n,
        ctrl[i] == EMPTY,
        !crowded(with_byte(ctrl, n, i, c), n, i),
    ensures
        ({
            let filled = with_byte(ctrl, n, i, c);
            with_byte(filled, n, i, byte_after_erase(filled, n, i)) == ctrl
        }),
{
    let filled = with_byte(ctrl, n, i, c);
    let after = with_byte(filled, n, i, EMPTY);
    lemma_mirror(n, i);
    assert(ctrl[mirror(n, i)] == EMPTY);
    assert(after =~= ctrl);
}

/// A lookup comes to a group with an empty byte, and so to its end, before it has been through
/// the groups of the table once.
pub proof fn law_lookup_comes_to_an_end(ctrl: Seq<u8>, n: int, start: int) -> (k: int)
    requires
        ctrl_wf(ctrl, n),
        exists|i: int| 0 <= i < n && #[trigger] ctrl[i] == EMPTY,
    ensures
        0 <= k,
        k == 0 || k < n / (Group::WIDTH as int),
        !no_empty(ctrl, crate::probe::probe_pos(start, n, k)),
{
    let i = choose|i: int| 0 <= i < n && #[trigger] ctrl[i] == EMPTY;
    if n < 16 {
        let p = crate::probe::probe_pos(start, n, 0);
        crate::probe::lemma_probe_pos_bounds(start, n, 0);
        assert(is_padding(n, p + (15 - p)));
        assert(ctrl[p + (15 - p)] == EMPTY);
        0
    } else {
        let k = crate::probe::law_probe_visits_every_bucket(start, n, i);
        let p = crate::probe::probe_pos(start, n, k);
        crate::probe::lemma_probe_pos_bounds(start, n, k);
        lemma_covers_is_window(n, p, i);
        let o = choose|o: int| holds_at(n, p, o, i);
        lemma_byte_at(ctrl, n, p + o);
        assert(ctrl[p + o] == EMPTY);
        k
    }
}

/// A group that is read from any bucket on has the bytes of the buckets that follow, round the
/// end of the table.
pub proof fn law_groups_go_round(ctrl: Seq<u8>, n: int, pos: int, o: int)
    requires
        ctrl_wf(ctrl, n),
        n >= Group::WIDTH,
        0 <= pos < n,
        0 <= o < Group::WIDTH,
    ensures
        ctrl[pos + o] == ctrl[(pos + o) % n],
{
    lemma_byte_at(ctrl, n, pos + o);
}

/// The place for a new item is the first bucket, along the walk, that is not full. The walk from
/// `start` comes to the sixteen buckets from `start + 16 * (0 + 1 + .. + k)` on in its step `k`,
/// going round the end of the table. The place is met in step `k` of the result, at the offset
/// that is the result's other part.
pub proof fn law_new_item_takes_first_free_bucket(
    ctrl: Seq<u8>,
    n: int,
    start: int,
    r: int,
) -> (place: (int, int))
    requires
        ctrl_wf(ctrl, n),
        is_insert_slot(ctrl, n, start, r),
        exists|i: int| 0 <= i < n && #[trigger] ctrl[i] >= 0x80,
    ensures
        0 <= place.0,
        0 <= place.1 < 16,
        r == ((start + 16 * (place.0 * (place.0 + 1) / 2)) % n + place.1) % n,
        ctrl[r] >= 0x80,
        forall|j: int, t: int|
            0 <= j < place.0 && 0 <= t < 16 ==> #[trigger] ctrl[((start + 16 * (j * (j + 1) / 2))
                % n + t) % n] < 0x80,
        forall|t: int|
            0 <= t < place.1 ==> #[trigger] ctrl[((start + 16 * (place.0 * (place.0 + 1) / 2)) % n
                + t) % n] < 0x80,
{
    lemma_insert_slot_is_special(ctrl, n, start, r);
    let e = crate::math::lemma_pow2_exponent(n);
    let k = choose|k: int|
        0 <= k && groups_full(ctrl, n, start, k) && #[trigger] offers(
            ctrl,
            n,
            crate::probe::probe_pos(start, n, k),
            r,
        );
    let pos = crate::probe::probe_pos(start, n, k);
    crate::probe::lemma_probe_pos_bounds(start, n, k);
    let o = choose|o: int| #[trigger]
        first_special(ctrl, pos, o) && if crate::control_bytes::is_full(ctrl[(pos + o) % n]) {
            first_special(ctrl, 0, r)
        } else {
            r == (pos + o) % n
        };
    if n >= 16 {
        lemma_byte_at(ctrl, n, pos + o);
        assert forall|j: int, t: int| 0 <= j < k && 0 <= t < 16 implies #[trigger] ctrl[((start + 16
            * (j * (j + 1) / 2)) % n + t) % n] < 0x80 by {
            let p = crate::probe::probe_pos(start, n, j);
            crate::probe::lemma_probe_pos_bounds(start, n, j);
            lemma_byte_at(ctrl, n, p + t);
            assert(no_special(ctrl, p));
            assert(crate::control_bytes::is_full(ctrl[p + t]));
        }
        assert forall|t: int| 0 <= t < o implies #[trigger] ctrl[((start + 16 * (k * (k + 1) / 2)) % n
            + t) % n] < 0x80 by {
            lemma_byte_at(ctrl, n, pos + t);
            assert(crate::control_bytes::is_full(ctrl[pos + t]));
        }
        (k, o)
    } else {
        if k > 0 {
            let p = crate::probe::probe_pos(start, n, 0);
            crate::probe::lemma_probe_pos_bounds(start, n, 0);
            assert(no_special(ctrl, p));
            assert(is_padding(n, p + (15 - p)));
            assert(crate::control_bytes::is_full(ctrl[p + (15 - p)]));
        }
        assert(k == 0);
        if pos + o < n {
            vstd::arithmetic::div_mod::lemma_small_mod((pos + o) as nat, n as nat);
            assert forall|t: int| 0 <= t < o implies #[trigger] ctrl[((start + 16 * (k * (k + 1)
                / 2)) % n + t) % n] < 0x80 by {
                vstd::arithmetic::div_mod::lemma_small_mod((pos + t) as nat, n as nat);
                assert(crate::control_bytes::is_full(ctrl[pos + t]));
            }
            (k, o)
        } else {
            // the first byte behind the table is empty, so that is where the scan stopped
            if n < pos + o {
                assert(is_padding(n, pos + (n - pos)));
                assert(crate::control_bytes::is_full(ctrl[pos + (n - pos)]));
            }
            vstd::arithmetic::div_mod::lemma_mod_self_0(n);
            if r >= pos {
                assert(crate::control_bytes::is_full(ctrl[pos + (r - pos)]));
            }
            let last = n - pos + r;
            vstd::arithmetic::div_mod::lemma_mod_multiples_vanish(1, r, n);
            vstd::arithmetic::div_mod::lemma_small_mod(r as nat, n as nat);
            assert forall|t: int| 0 <= t < last implies #[trigger] ctrl[((start + 16 * (k * (k + 1)
                / 2)) % n + t) % n] < 0x80 by {
                if pos + t < n {
                    vstd::arithmetic::div_mod::lemma_small_mod((pos + t) as nat, n as nat);
                    assert(crate::control_bytes::is_full(ctrl[pos + t]));
                } else {
                    let q = pos + t - n;
                    vstd::arithmetic::div_mod::lemma_mod_multiples_vanish(1, q, n);
                    vstd::arithmetic::div_mod::lemma_small_mod(q as nat, n as nat);
                    assert(crate::control_bytes::is_full(ctrl[0 + q]));
                }
            }
            (k, last)
        }
    }
}

/// In a table of at least one group, the byte `t` behind the start of the group that ends just
/// before bucket `i` is that of the bucket which lies as far behind.
proof fn lemma_byte_before(ctrl: Seq<u8>, n: int, i: int, t: int)
    requires
        ctrl_wf(ctrl, n),
        n >= Group::WIDTH,
        0 <= i < n,
        0 <= t < 16,
    ensures
        ctrl[(i - 16) % n + t] == ctrl[(i - 16 + t) % n],
{
    vstd::arithmetic::div_mod::lemma_mod_bound(i - 16, n);
    lemma_byte_at(ctrl, n, (i - 16) % n + t);
    vstd::arithmetic::div_mod::lemma_add_mod_noop(i - 16, t, n);
    vstd::arithmetic::div_mod::lemma_add_mod_noop((i - 16) % n, t, n);
    vstd::arithmetic::div_mod::lemma_mod_twice(i - 16, n);
}

/// Where the removal of an item leaves a tombstone, there are sixteen neighbouring buckets, the
/// item's among them, of which none is empty: a lookup may have gone past them all. The first of
/// them lies as many buckets before the item's as the result says. In all other cases, and so in
/// all tables of less than sixteen buckets, the bucket becomes empty.
pub proof fn law_tombstone_only_in_a_crowd(ctrl: Seq<u8>, n: int, i: int) -> (s: int)
    requires
        ctrl_wf(ctrl, n),
        n > 1,
        0 <= i < n,
        ctrl[i] < 0x80,
    ensures
        byte_after_erase(ctrl, n, i) == 0x80 || byte_after_erase(ctrl, n, i) == 0xff,
        crowded(ctrl, n, i) <==> byte_after_erase(ctrl, n, i) == 0x80,
        byte_after_erase(ctrl, n, i) == 0x80 ==> {
            &&& n >= 16
            &&& 0 <= s < 16
            &&& forall|t: int| 0 <= t < 16 ==> #[trigger] ctrl[(i - s + t) % n] != 0xff
        },
{
    if crowded(ctrl, n, i) {
        let w = choose|w: int| #[trigger] crowded_by(ctrl, n, i, w);
        let before = (i - 16) % n;
        if n < 16 {
            crate::math::lemma_small_powers();
            crate::math::lemma_pow2_divides(n, 16);
            lemma_mirror(n, i);
            assert(is_padding(n, 15));
            assert(before == i);
            if w <= i {
                assert(ctrl[i + (15 - i)] != EMPTY);
            } else {
                assert(ctrl[before + (15 - i)] != EMPTY);
            }
            0
        } else {
            let s = if w == 16 {
                15
            } else {
                w
            };
            assert forall|t: int| 0 <= t < 16 implies #[trigger] ctrl[(i - s + t) % n] != 0xff by {
                if t < s {
                    lemma_byte_before(ctrl, n, i, 16 - s + t);
                    assert(ctrl[before + (16 - s + t)] != EMPTY);
                } else {
                    lemma_byte_at(ctrl, n, i + (t - s));
                    if t == s {
                        vstd::arithmetic::div_mod::lemma_small_mod(i as nat, n as nat);
                    } else {
                        assert(ctrl[i + (t - s)] != EMPTY);
                    }
                }
            }
            s
        }
    } else {
        0
    }
}

/// Where sixteen neighbouring buckets, the item's among them, have no empty one, the removal of
/// the item leaves a tombstone.
pub proof fn law_crowd_leaves_tombstone(ctrl: Seq<u8>, n: int, i: int, s: int)
    requires
        ctrl_wf(ctrl, n),
        n >= 16,
        0 <= i < n,
        0 <= s < 16,
        forall|t: int| 0 <= t < 16 ==> #[trigger] ctrl[(i - s + t) % n] != 0xff,
    ensures
        crowded(ctrl, n, i),
        byte_after_erase(ctrl, n, i) == 0x80,
{
    let before = (i - 16) % n;
    assert forall|t: int| 16 - s <= t < 16 implies #[trigger] ctrl[before + t] != EMPTY by {
        lemma_byte_before(ctrl, n, i, t);
        assert(ctrl[(i - s + (t - 16 + s)) % n] != 0xff);
    }
    assert forall|t: int| 0 <= t < 16 - s implies #[trigger] ctrl[i + t] != EMPTY by {
        lemma_byte_at(ctrl, n, i + t);
        assert(ctrl[(i - s + (t + s)) % n] != 0xff);
    }
    assert(crowded_by(ctrl, n, i, s));
}

} // verus!
