//! The order in which the groups of a table are visited.

use vstd::prelude::*;
use crate::group::Group;

verus! {

/// The `k`th triangular number.
pub open spec fn triangular(k: int) -> int {
    k * (k + 1) / 2
}

/// Where the `k`th group that is visited starts, in a table of `n` buckets, when the first one
/// starts at `start`.
pub open spec fn probe_pos(start: int, n: int, k: int) -> int {
    (start + Group::WIDTH * triangular(k)) % n
}

/// Whether bucket `i` is one of the `Group::WIDTH` buckets that follow position `pos`, going
/// round the end of a table of `n` buckets.
pub open spec fn in_window(n: int, pos: int, i: int) -> bool {
    (i - pos) % n < Group::WIDTH
}

/// A walk over the groups of a table. The distance between neighbouring steps grows by one
/// group each time, so that the positions are triangular numbers of groups away from the start.
#[derive(Clone, Copy)]
pub struct ProbeSequence {
    pub pos: usize,
    pub stride: usize,
}

impl ProbeSequence {
    /// The walk has made `k` moves since it began at `start`.
    pub open spec fn is_at(self, start: int, bucket_mask: usize, k: int) -> bool {
        &&& self.pos == probe_pos(start, bucket_mask + 1, k)
        &&& self.stride == Group::WIDTH * k
    }

    /// Moves on to the next group to look at.
    pub fn move_to_next(&mut self, bucket_mask: usize)
        requires
            old(self).pos + old(self).stride + Group::WIDTH <= usize::MAX,
        ensures
            final(self).stride == old(self).stride + Group::WIDTH,
            final(self).pos == ((old(self).pos + old(self).stride + Group::WIDTH) as usize)
                & bucket_mask,
            vstd::arithmetic::power2::is_pow2(bucket_mask + 1) && bucket_mask < usize::MAX ==> {
                &&& final(self).pos == (old(self).pos + old(self).stride + Group::WIDTH) % (
                bucket_mask + 1)
                &&& forall|start: int, k: int|
                    k >= 0 && #[trigger] old(self).is_at(start, bucket_mask, k)
                        ==> final(self).is_at(start, bucket_mask, k + 1)
            },
    {
        self.stride = self.stride + Group::WIDTH;
        self.pos = self.pos + self.stride;
        proof {
            let n = bucket_mask + 1;
            if vstd::arithmetic::power2::is_pow2(n) && bucket_mask < usize::MAX {
                crate::math::lemma_mask_is_mod(self.pos, bucket_mask);
                assert forall|start: int, k: int|
                    k >= 0 && #[trigger] old(self).is_at(start, bucket_mask, k) implies self.pos
                    as int % n == probe_pos(start, n, k + 1) && self.stride == Group::WIDTH * (k
                    + 1) by {
                    lemma_probe_step(start, n, k);
                }
            }
        }
        self.pos = self.pos & bucket_mask;
    }
}

/// Neighbouring triangular numbers differ by the index of the larger.
pub proof fn lemma_triangular_step(k: int)
    ensures
        triangular(k + 1) == triangular(k) + k + 1,
        2 * triangular(k) == k * (k + 1),
{
    assert((k + 1) * (k + 2) == k * (k + 1) + 2 * (k + 1)) by (nonlinear_arith);
    assert((k * (k + 1)) % 2 == 0) by {
        let h = k / 2;
        if k % 2 == 0 {
            assert(k * (k + 1) == 2 * (h * (k + 1))) by (nonlinear_arith)
                requires
                    k == 2 * h,
            ;
        } else {
            assert(k * (k + 1) == 2 * (k * (h + 1))) by (nonlinear_arith)
                requires
                    k == 2 * h + 1,
            ;
        }
    }
}

/// The next position is reached from the current one by the next stride.
pub proof fn lemma_probe_step(start: int, n: int, k: int)
    requires
        n > 0,
        k >= 0,
    ensures
        probe_pos(start, n, k + 1) == (probe_pos(start, n, k) + Group::WIDTH * k + Group::WIDTH)
            % n,
{
    lemma_triangular_step(k);
    let a = start + Group::WIDTH * triangular(k);
    let b = Group::WIDTH * k + Group::WIDTH;
    assert(start + Group::WIDTH * triangular(k + 1) == a + b);
    vstd::arithmetic::div_mod::lemma_add_mod_noop(a, b, n);
    vstd::arithmetic::div_mod::lemma_add_mod_noop(a % n, b, n);
    vstd::arithmetic::div_mod::lemma_mod_twice(a, n);
}

/// Positions lie inside the table.
pub proof fn lemma_probe_pos_bounds(start: int, n: int, k: int)
    requires
        n > 0,
    ensures
        0 <= probe_pos(start, n, k) < n,
{
    vstd::arithmetic::div_mod::lemma_mod_bound(start + Group::WIDTH * triangular(k), n);
}

/// An odd factor contributes nothing to divisibility by a power of two.
proof fn lemma_odd_factor(x: int, y: int, e: nat)
    requires
        x % 2 == 1,
        (x * y) % (vstd::arithmetic::power2::pow2(e) as int) == 0,
    ensures
        y % (vstd::arithmetic::power2::pow2(e) as int) == 0,
    decreases e,
{
    let p = vstd::arithmetic::power2::pow2(e) as int;
    vstd::arithmetic::power2::lemma_pow2_pos(e);
    if e == 0 {
        vstd::arithmetic::power2::lemma2_to64();
    } else {
        let q = vstd::arithmetic::power2::pow2((e - 1) as nat) as int;
        vstd::arithmetic::power2::lemma_pow2_pos((e - 1) as nat);
        vstd::arithmetic::power2::lemma_pow2_unfold(e);
        let c = (x * y) / p;
        vstd::arithmetic::div_mod::lemma_fundamental_div_mod(x * y, p);
        let h = x / 2;
        let z = y / 2;
        assert(y % 2 == 0) by {
            if y % 2 == 1 {
                assert(x * y == 2 * (h * y + z) + 1) by (nonlinear_arith)
                    requires
                        x == 2 * h + 1,
                        y == 2 * z + 1,
                ;
                assert(p * c == 2 * (q * c)) by (nonlinear_arith)
                    requires
                        p == 2 * q,
                ;
            }
        }
        assert(x * z == q * c) by (nonlinear_arith)
            requires
                x * y == p * c,
                y == 2 * z,
                p == 2 * q,
        ;
        vstd::arithmetic::div_mod::lemma_mod_multiples_basic(c, q);
        assert(q * c == c * q) by (nonlinear_arith);
        lemma_odd_factor(x, z, (e - 1) as nat);
        let w = z / q;
        vstd::arithmetic::div_mod::lemma_fundamental_div_mod(z, q);
        assert(y == w * p) by (nonlinear_arith)
            requires
                y == 2 * z,
                z == q * w,
                p == 2 * q,
        ;
        vstd::arithmetic::div_mod::lemma_mod_multiples_basic(w, p);
    }
}

/// The first `g` triangular numbers have different remainders modulo `g`, for a power of two
/// `g`.
pub proof fn lemma_triangular_distinct(a: int, b: int, g: int)
    requires
        vstd::arithmetic::power2::is_pow2(g),
        0 <= a < b < g,
    ensures
        triangular(a) % g != triangular(b) % g,
{
    let e = crate::math::lemma_pow2_exponent(g);
    let p = vstd::arithmetic::power2::pow2(e + 1) as int;
    vstd::arithmetic::power2::lemma_pow2_unfold(e + 1);
    if triangular(a) % g == triangular(b) % g {
        lemma_triangular_step(a);
        lemma_triangular_step(b);
        vstd::arithmetic::div_mod::lemma_fundamental_div_mod(triangular(a), g);
        vstd::arithmetic::div_mod::lemma_fundamental_div_mod(triangular(b), g);
        let c = triangular(b) / g - triangular(a) / g;
        let x = b - a;
        let y = a + b + 1;
        assert(triangular(b) - triangular(a) == g * c) by (nonlinear_arith)
            requires
                triangular(a) == g * (triangular(a) / g) + triangular(a) % g,
                triangular(b) == g * (triangular(b) / g) + triangular(b) % g,
                triangular(a) % g == triangular(b) % g,
                c == triangular(b) / g - triangular(a) / g,
        ;
        assert(x * y == b * (b + 1) - a * (a + 1)) by (nonlinear_arith)
            requires
                x == b - a,
                y == a + b + 1,
        ;
        assert(x * y == c * p) by (nonlinear_arith)
            requires
                x * y == 2 * (g * c),
                p == 2 * g,
        ;
        vstd::arithmetic::div_mod::lemma_mod_multiples_basic(c, p);
        if x % 2 == 1 {
            lemma_odd_factor(x, y, e + 1);
            vstd::arithmetic::div_mod::lemma_small_mod(y as nat, p as nat);
        } else {
            assert(y * x == x * y) by (nonlinear_arith);
            lemma_odd_factor(y, x, e + 1);
            vstd::arithmetic::div_mod::lemma_small_mod(x as nat, p as nat);
        }
    }
}

/// Every remainder modulo a power of two `g` is that of one of the first `g` triangular
/// numbers.
pub proof fn lemma_triangular_onto(g: int, r: int) -> (k: int)
    requires
        vstd::arithmetic::power2::is_pow2(g),
        0 <= r < g,
    ensures
        0 <= k < g,
        triangular(k) % g == r,
{
    let f = |k: int| triangular(k) % g;
    let dom = vstd::set_lib::set_int_range(0, g);
    let img = dom.map(f);
    vstd::set_lib::lemma_int_range(0, g);
    assert forall|a: int, b: int|
        dom.contains(a) && dom.contains(b) && #[trigger] f(a) == #[trigger] f(b) implies a == b by {
        if a < b {
            lemma_triangular_distinct(a, b, g);
        }
        if b < a {
            lemma_triangular_distinct(b, a, g);
        }
    }
    vstd::set_lib::lemma_map_size(dom, img, f);
    assert forall|x: int| img.contains(x) implies dom.contains(x) by {
        let k = choose|k: int| dom.contains(k) && f(k) == x;
        vstd::arithmetic::div_mod::lemma_mod_bound(triangular(k), g);
    }
    vstd::set_lib::lemma_subset_equality(img, dom);
    assert(dom.contains(r));
    assert(img.contains(r));
    choose|k: int| dom.contains(k) && f(k) == r
}

/// A group of the walk covers a bucket exactly when the bucket's distance from the start, in
/// whole groups, is the triangular number of the step, modulo the number of groups.
pub proof fn lemma_window_of_step(start: int, n: int, k: int, i: int)
    requires
        vstd::arithmetic::power2::is_pow2(n),
        n >= Group::WIDTH,
    ensures
        in_window(n, probe_pos(start, n, k), i) <==> ((i - start) % n) / (Group::WIDTH as int)
            == triangular(k) % (n / (Group::WIDTH as int)),
        vstd::arithmetic::power2::is_pow2(n / (Group::WIDTH as int)),
        n == Group::WIDTH * (n / (Group::WIDTH as int)),
        0 <= ((i - start) % n) / (Group::WIDTH as int) < n / (Group::WIDTH as int),
{
    crate::math::lemma_small_powers();
    crate::math::lemma_pow2_divides(Group::WIDTH as int, n);
    let g = n / 16;
    let s = start + 16 * triangular(k);
    let u = s / n;
    let pos = s % n;
    let v = (i - start) / n;
    let d = (i - start) % n;
    let w = triangular(k) / g;
    let t = triangular(k) % g;
    vstd::arithmetic::div_mod::lemma_fundamental_div_mod(s, n);
    vstd::arithmetic::div_mod::lemma_fundamental_div_mod(i - start, n);
    vstd::arithmetic::div_mod::lemma_fundamental_div_mod(triangular(k), g);
    vstd::arithmetic::div_mod::lemma_mod_bound(i - start, n);
    vstd::arithmetic::div_mod::lemma_mod_bound(triangular(k), g);
    assert(i - pos == n * (u + v - w) + (d - 16 * t)) by (nonlinear_arith)
        requires
            s == start + 16 * triangular(k),
            s == n * u + pos,
            i - start == n * v + d,
            triangular(k) == g * w + t,
            n == 16 * g,
    ;
    vstd::arithmetic::div_mod::lemma_mod_multiples_vanish(u + v - w, d - 16 * t, n);
    if d - 16 * t >= 0 {
        vstd::arithmetic::div_mod::lemma_small_mod((d - 16 * t) as nat, n as nat);
    } else {
        vstd::arithmetic::div_mod::lemma_mod_multiples_vanish(1, d - 16 * t, n);
        vstd::arithmetic::div_mod::lemma_small_mod((n + d - 16 * t) as nat, n as nat);
    }
}

/// The walk reaches every bucket: some step among the first `n / Group::WIDTH` looks at it.
pub proof fn law_probe_visits_every_bucket(start: int, n: int, i: int) -> (k: int)
    requires
        vstd::arithmetic::power2::is_pow2(n),
        n >= Group::WIDTH,
        0 <= i < n,
    ensures
        0 <= k < n / (Group::WIDTH as int),
        in_window(n, probe_pos(start, n, k), i),
{
    lemma_window_of_step(start, n, 0, i);
    let g = n / 16;
    let k = lemma_triangular_onto(g, ((i - start) % n) / 16);
    lemma_window_of_step(start, n, k, i);
    k
}

/// The walk looks at no group twice: two different steps among the first `n / Group::WIDTH`
/// have no bucket in common.
pub proof fn law_probe_visits_no_group_twice(start: int, n: int, a: int, b: int, i: int)
    requires
        vstd::arithmetic::power2::is_pow2(n),
        n >= Group::WIDTH,
        0 <= a < n / (Group::WIDTH as int),
        0 <= b < n / (Group::WIDTH as int),
        a != b,
    ensures
        probe_pos(start, n, a) != probe_pos(start, n, b),
        !(in_window(n, probe_pos(start, n, a), i) && in_window(n, probe_pos(start, n, b), i)),
{
    let g = n / 16;
    lemma_window_of_step(start, n, a, i);
    lemma_window_of_step(start, n, b, i);
    if a < b {
        lemma_triangular_distinct(a, b, g);
    } else {
        lemma_triangular_distinct(b, a, g);
    }
    let p = probe_pos(start, n, a);
    lemma_window_of_step(start, n, a, p);
    lemma_window_of_step(start, n, b, p);
    vstd::arithmetic::div_mod::lemma_small_mod(0, n as nat);
}

/// Each move goes one group further than the one before, round the end of the table.
pub proof fn law_moves_grow_by_a_group(probe: &mut ProbeSequence, bucket_mask: usize)
    requires
        vstd::arithmetic::power2::is_pow2(bucket_mask + 1),
        bucket_mask < usize::MAX,
        call_ensures(ProbeSequence::move_to_next, (probe, bucket_mask), ()),
    ensures
        final(probe).stride == old(probe).stride + 16,
        final(probe).pos == (old(probe).pos + old(probe).stride + 16) % (bucket_mask + 1),
{
}

/// The walk has made `k` moves when it is a triangular number of groups away from where it began.
pub proof fn law_walk_goes_by_triangular_numbers(
    probe: ProbeSequence,
    start: int,
    bucket_mask: usize,
    k: int,
)
    requires
        k >= 0,
    ensures
        probe_pos(start, bucket_mask + 1, k) == (start + 16 * (k * (k + 1) / 2)) % (bucket_mask
            + 1),
        probe.is_at(start, bucket_mask, k) <==> {
            &&& probe.pos == (start + 16 * (k * (k + 1) / 2)) % (bucket_mask + 1)
            &&& probe.stride == 16 * k
        },
{
}

/// A bucket that is `o` behind a position lies in the window there.
proof fn lemma_in_window(n: int, pos: int, o: int)
    requires
        n >= Group::WIDTH,
        0 <= o < 16,
    ensures
        (((pos + o) % n) - pos) % n == o,
{
    vstd::arithmetic::div_mod::lemma_sub_mod_noop(pos + o, pos, n);
    vstd::arithmetic::div_mod::lemma_sub_mod_noop((pos + o) % n, pos, n);
    vstd::arithmetic::div_mod::lemma_mod_twice(pos + o, n);
    vstd::arithmetic::div_mod::lemma_small_mod(o as nat, n as nat);
}

/// The walk comes to every bucket before it has made as many moves as there are groups. The result
/// is the step, and how far behind that step's position the bucket lies.
pub proof fn law_walk_comes_to_every_bucket(start: int, n: int, i: int) -> (place: (int, int))
    requires
        vstd::arithmetic::power2::is_pow2(n),
        n >= 16,
        0 <= i < n,
    ensures
        0 <= place.0 < n / 16,
        0 <= place.1 < 16,
        i == ((start + 16 * (place.0 * (place.0 + 1) / 2)) % n + place.1) % n,
{
    let k = law_probe_visits_every_bucket(start, n, i);
    let pos = probe_pos(start, n, k);
    let o = (i - pos) % n;
    vstd::arithmetic::div_mod::lemma_mod_bound(i - pos, n);
    vstd::arithmetic::div_mod::lemma_add_mod_noop(pos, i - pos, n);
    lemma_probe_pos_bounds(start, n, k);
    vstd::arithmetic::div_mod::lemma_small_mod(pos as nat, n as nat);
    vstd::arithmetic::div_mod::lemma_small_mod(i as nat, n as nat);
    (k, o)
}

/// The walk comes to no bucket twice before it has made as many moves as there are groups: the
/// places of a bucket, each given by a step and an offset, are one.
pub proof fn law_walk_comes_to_no_bucket_twice(
    start: int,
    n: int,
    a: (int, int),
    b: (int, int),
)
    requires
        vstd::arithmetic::power2::is_pow2(n),
        n >= 16,
        0 <= a.0 < n / 16,
        0 <= b.0 < n / 16,
        0 <= a.1 < 16,
        0 <= b.1 < 16,
        ((start + 16 * (a.0 * (a.0 + 1) / 2)) % n + a.1) % n == ((start + 16 * (b.0 * (b.0 + 1)
            / 2)) % n + b.1) % n,
    ensures
        a == b,
{
    let p = probe_pos(start, n, a.0);
    let q = probe_pos(start, n, b.0);
    let i = (p + a.1) % n;
    lemma_in_window(n, p, a.1);
    lemma_in_window(n, q, b.1);
    if a.0 != b.0 {
        law_probe_visits_no_group_twice(start, n, a.0, b.0, i);
    }
}

} // verus!
