//! Walking over the full buckets of a table.

use vstd::prelude::*;
use crate::bitmask::Bitmask;
use crate::bucket::Bucket;
use crate::group::Group;

verus! {

/// The numbers from `lo` up to `hi` that satisfy `f`, in ascending order.
pub open spec fn ascending(lo: int, hi: int, f: spec_fn(int) -> bool) -> Seq<int>
    decreases hi - lo,
{
    if lo >= hi {
        Seq::empty()
    } else if f(lo) {
        seq![lo] + ascending(lo + 1, hi, f)
    } else {
        ascending(lo + 1, hi, f)
    }
}

/// The positions from `lo` up to `hi` in a block of memory whose control bytes are those of
/// full buckets, in ascending order.
pub open spec fn full_positions(block: Seq<u8>, lo: int, hi: int) -> Seq<int> {
    ascending(lo, hi, |p: int| crate::control_bytes::is_full(block[p]))
}

/// The least multiple of the group width that is at least `x`, and one group at the least.
pub open spec fn whole_groups(x: int) -> int {
    if x <= Group::WIDTH {
        Group::WIDTH as int
    } else {
        (x + Group::WIDTH - 1) / (Group::WIDTH as int) * Group::WIDTH
    }
}

/// The position of the bucket that belongs to the control byte `distance` bytes behind that of
/// the bucket at `ptr`.
pub open spec fn ptr_at_distance<T>(ptr: int, distance: int) -> int {
    if vstd::layout::size_of::<T>() == 0 {
        ptr + distance
    } else {
        ptr - distance * vstd::layout::size_of::<T>()
    }
}

/// The buckets whose control bytes are selected among those from `lo` up to `hi` have positions,
/// where `ptr` is that of the bucket whose control byte is at `lo`. Where there is more than one
/// group, that goes for all buckets.
pub open spec fn has_room<T>(ptr: int, lo: int, hi: int, selected: spec_fn(int) -> bool) -> bool {
    if vstd::layout::size_of::<T>() == 0 {
        ptr + (hi - lo) <= usize::MAX
    } else {
        &&& hi - lo > Group::WIDTH ==> (hi - lo) * vstd::layout::size_of::<T>() <= ptr
        &&& forall|p: int|
            lo <= p < hi && #[trigger] selected(p) ==> (p - lo) * vstd::layout::size_of::<T>()
                <= ptr
    }
}

/// Walks over the full buckets in a run of control bytes, in ascending order of their numbers.
pub struct RawIterRange<'a, T> {
    /// the full buckets of the current group that are still to come
    pub current_group: Bitmask,
    /// the first bucket of the current group
    pub data: Bucket<T>,
    /// the memory that the control bytes are in
    pub block: &'a Vec<u8>,
    /// where the next group of control bytes starts
    pub next_ctrl_ptr: usize,
    /// one behind the last control byte
    pub end_of_alloc: usize,
}

impl<'a, T> RawIterRange<'a, T> {
    /// Where the current group starts.
    pub open spec fn group_pos(self) -> int {
        self.next_ctrl_ptr - Group::WIDTH
    }

    /// The bucket of the control byte at position `p` is full and still to come.
    pub open spec fn is_pending(self, p: int) -> bool {
        if p < self.next_ctrl_ptr {
            self.current_group.has(p - self.group_pos())
        } else {
            crate::control_bytes::is_full(self.block@[p])
        }
    }

    /// The positions of the control bytes whose buckets are still to come, in order.
    pub open spec fn remaining(self) -> Seq<int> {
        ascending(self.group_pos(), self.end_of_alloc as int, |p: int| self.is_pending(p))
    }

    /// The position of the bucket whose control byte is at position `p`.
    pub open spec fn ptr_of(self, p: int) -> int {
        ptr_at_distance::<T>(self.data.ptr as int, p - self.group_pos())
    }

    /// The groups behind the current one lie in the memory and have no full bucket behind the
    /// end; the buckets to come have positions.
    pub open spec fn wf(self) -> bool {
        let left = self.end_of_alloc - self.group_pos();
        &&& self.group_pos() >= 0
        &&& self.next_ctrl_ptr % Group::WIDTH == 0
        &&& left >= 0
        &&& left > Group::WIDTH ==> self.group_pos() + whole_groups(left) <= self.block.len()
        &&& left > Group::WIDTH ==> forall|p: int|
            self.end_of_alloc <= p < self.group_pos() + whole_groups(left)
                ==> !crate::control_bytes::is_full(#[trigger] self.block@[p])
        &&& forall|o: int|
            0 <= o < Group::WIDTH && #[trigger] self.current_group.has(o) ==> self.group_pos() + o
                < self.end_of_alloc
        &&& has_room::<T>(
            self.data.ptr as int,
            self.group_pos(),
            self.end_of_alloc as int,
            |p: int| self.is_pending(p),
        )
    }

    /// Nothing of the current group is left, and there is no other group.
    pub open spec fn is_done(self) -> bool {
        self.current_group.is_clear() && self.next_ctrl_ptr >= self.end_of_alloc
    }

    /// The number of control bytes from the current group on, which is what `size_hint` tells.
    pub open spec fn bytes_left(self) -> int {
        self.end_of_alloc - self.next_ctrl_ptr + Group::WIDTH
    }

    /// A walk over the full buckets among the `len` ones whose control bytes start at position
    /// `ctrl` of `block`; the first of these buckets is `data`.
    pub fn new(block: &'a Vec<u8>, ctrl: usize, data: Bucket<T>, len: usize) -> (r: Self)
        requires
            ctrl % Group::WIDTH == 0,
            ctrl + whole_groups(len as int) <= block.len(),
            forall|p: int|
                ctrl + len <= p < ctrl + whole_groups(len as int)
                    ==> !crate::control_bytes::is_full(#[trigger] block@[p]),
            has_room::<T>(
                data.ptr as int,
                ctrl as int,
                ctrl + len,
                |p: int| crate::control_bytes::is_full(block@[p]),
            ),
        ensures
            r.wf(),
            r.block@ == block@,
            r.data == data,
            r.next_ctrl_ptr == ctrl + Group::WIDTH,
            r.end_of_alloc == ctrl + len,
            r.remaining() == full_positions(block@, ctrl as int, ctrl + len),
            forall|p: int| #[trigger]
                r.ptr_of(p) == ptr_at_distance::<T>(data.ptr as int, p - ctrl),
    {
        let end_of_alloc: usize = ctrl + len;
        let group: Group = Group::load_aligned(block, ctrl);
        let current_group: Bitmask = group.match_full();
        let next_ctrl_ptr: usize = ctrl + Group::WIDTH;
        let r: RawIterRange<'a, T> = RawIterRange {
            current_group,
            data,
            block,
            next_ctrl_ptr,
            end_of_alloc,
        };
        proof {
            assert forall|o: int|
                0 <= o < Group::WIDTH && #[trigger] current_group.has(o) implies ctrl + o
                < end_of_alloc by {
                assert(group.bytes@[o] == block@[ctrl + o]);
            }
            let f = |p: int| r.is_pending(p);
            let g = |p: int| crate::control_bytes::is_full(block@[p]);
            assert forall|p: int| ctrl <= p < ctrl + len implies #[trigger] f(p) == g(p) by {
                if p < next_ctrl_ptr {
                    let o = p - ctrl;
                    assert(current_group.has(o) <==> crate::control_bytes::is_full(group.bytes@[o]));
                    assert(group.bytes@[o] == block@[ctrl + o]);
                }
            }
            lemma_ascending_same(ctrl as int, ctrl + len, f, g);
            lemma_room_same::<T>(data.ptr as int, ctrl as int, ctrl + len, g, f);
        }
        r
    }

    /// A walk over the one bucket of a table without memory, which is `data`: there is nothing to
    /// come.
    pub(crate) fn over_nothing(block: &'a Vec<u8>, data: Bucket<T>) -> (r: Self)
        requires
            vstd::layout::size_of::<T>() == 0 ==> data.ptr < usize::MAX,
        ensures
            r.wf(),
            r.block@ == block@,
            r.data == data,
            r.next_ctrl_ptr == Group::WIDTH,
            r.end_of_alloc == 1,
            r.is_done(),
            r.remaining().len() == 0,
    {
        let nothing: Group = Group { bytes: Group::empty_static() };
        let current_group: Bitmask = nothing.match_full();
        let r: RawIterRange<'a, T> = RawIterRange {
            current_group,
            data,
            block,
            next_ctrl_ptr: Group::WIDTH,
            end_of_alloc: 1,
        };
        proof {
            assert(forall|o: int| !current_group.has(o));
            law_finished_walk_has_nothing_left(r);
        }
        r
    }

    /// The next full bucket, or `None` when there is none left.
    pub fn next(&mut self) -> (r: Option<Bucket<T>>)
        requires
            old(self).wf(),
        ensures
            final(self).wf(),
            final(self).block@ == old(self).block@,
            final(self).end_of_alloc == old(self).end_of_alloc,
            forall|p: int| #[trigger] final(self).ptr_of(p) == old(self).ptr_of(p),
            r is None <==> old(self).remaining().len() == 0,
            r is None ==> final(self).remaining().len() == 0 && final(self).is_done(),
            r matches Some(bucket) ==> {
                &&& bucket.ptr == old(self).ptr_of(old(self).remaining()[0])
                &&& final(self).remaining() == old(self).remaining().drop_first()
                &&& final(self).group_pos() <= old(self).remaining()[0]
                    < final(self).next_ctrl_ptr
            },
            final(self).next_ctrl_ptr >= old(self).next_ctrl_ptr,
            final(self).bytes_left() <= old(self).bytes_left(),
            old(self).is_done() ==> r is None && *final(self) == *old(self),
    {
        let ghost first = *self;
        loop
            invariant
                self.wf(),
                self.block@ == first.block@,
                self.end_of_alloc == first.end_of_alloc,
                first == *old(self),
                forall|p: int| #[trigger] self.ptr_of(p) == first.ptr_of(p),
                self.remaining() == first.remaining(),
                self.next_ctrl_ptr >= first.next_ctrl_ptr,
                first.is_done() ==> *self == first,
            decreases self.end_of_alloc + Group::WIDTH - self.next_ctrl_ptr,
        {
            let ghost now = *self;
            let ghost g = self.group_pos();
            let ghost end = self.end_of_alloc as int;
            let ghost f = |p: int| now.is_pending(p);
            match self.current_group.lowest_set_bit() {
                Some(index) => {
                    let group: Bitmask = self.current_group;
                    self.current_group = group.remove_lowest_bit();
                    proof {
                        let p = g + index;
                        let h = |q: int| self.is_pending(q);
                        assert(group.is_lowest(index as int));
                        assert(self.group_pos() == g);
                        assert forall|o: int|
                            0 <= o < Group::WIDTH && #[trigger] self.current_group.has(
                                o,
                            ) implies self.group_pos() + o < self.end_of_alloc by {
                            assert(group.has(o));
                        }
                        assert(f(p));
                        assert forall|q: int| g <= q < p implies !#[trigger] f(q) by {
                            assert(!group.has(q - g));
                        }
                        lemma_ascending_skip(g, p, end, f);
                        assert forall|q: int| g <= q < p + 1 implies !#[trigger] h(q) by {
                            assert(self.current_group.has(q - g) <==> group.has(q - g) && q - g
                                != index);
                            if q < p {
                                assert(!group.has(q - g));
                            }
                        }
                        lemma_ascending_skip(g, p + 1, end, h);
                        assert forall|q: int| p + 1 <= q < end implies #[trigger] h(q) == f(q) by {
                            if q < self.next_ctrl_ptr {
                                assert(self.current_group.has(q - g) <==> group.has(q - g) && q - g
                                    != index);
                            }
                        }
                        lemma_ascending_same(p + 1, end, h, f);
                        assert(now.remaining() == seq![p] + ascending(p + 1, end, f));
                        assert(now.remaining().drop_first() =~= ascending(p + 1, end, f));
                        assert(self.remaining() == ascending(g, end, h));
                        assert(now.ptr_of(p) == first.ptr_of(p));
                        assert forall|q: int| #[trigger] self.ptr_of(q) == first.ptr_of(q) by {
                            assert(now.ptr_of(q) == first.ptr_of(q));
                        }
                        assert forall|q: int| g <= q < end && #[trigger] h(q) implies f(q) by {
                            if q < self.next_ctrl_ptr {
                                assert(self.current_group.has(q - g) <==> group.has(q - g) && q - g
                                    != index);
                            }
                        }
                        lemma_room_same::<T>(self.data.ptr as int, g, end, f, h);
                        assert(self.wf());
                        lemma_room_next::<T>(self.data.ptr as int, g, end, f, p);
                    }
                    return Some(self.data.next_n(index));
                },
                None => {},
            }
            proof {
                assert forall|q: int| g <= q < self.next_ctrl_ptr implies !#[trigger] f(q) by {
                    assert(!self.current_group.has(q - g));
                }
                if end <= self.next_ctrl_ptr {
                    lemma_ascending_skip(g, end, end, f);
                } else {
                    lemma_ascending_skip(g, self.next_ctrl_ptr as int, end, f);
                }
            }
            if self.next_ctrl_ptr >= self.end_of_alloc {
                return None;
            }
            // The last group may reach behind the end. That happens in tables smaller than a
            // group, whose bytes there are empty.
            proof {
                lemma_room_step::<T>(self.data.ptr as int, g, end, f);
                lemma_whole_groups_step(end - g);
            }
            let group: Group = Group::load_aligned(self.block, self.next_ctrl_ptr);
            self.current_group = group.match_full();
            self.data = self.data.next_n(Group::WIDTH);
            self.next_ctrl_ptr = self.next_ctrl_ptr + Group::WIDTH;
            proof {
                let b = now.next_ctrl_ptr as int;
                assert(self.group_pos() == b);
                assert forall|o: int|
                    0 <= o < Group::WIDTH && #[trigger] self.current_group.has(
                        o,
                    ) implies self.group_pos() + o < self.end_of_alloc by {
                    assert(group.bytes@[o] == self.block@[b + o]);
                }
                let size = vstd::layout::size_of::<T>() as int;
                let h = |q: int| self.is_pending(q);
                assert forall|q: int| b <= q < end implies #[trigger] h(q) == f(q) by {
                    if q < self.next_ctrl_ptr {
                        let o = q - b;
                        assert(self.current_group.has(o) <==> crate::control_bytes::is_full(
                            group.bytes@[o],
                        ));
                        assert(group.bytes@[o] == self.block@[b + o]);
                    }
                }
                lemma_ascending_same(b, end, h, f);
                lemma_room_all::<T>(self.data.ptr as int, b, end, h);
                assert forall|p: int| #[trigger] self.ptr_of(p) == first.ptr_of(p) by {
                    assert(now.ptr_of(p) == first.ptr_of(p));
                    assert((p - g) * size - 16 * size == (p - b) * size) by (nonlinear_arith)
                        requires
                            b == g + 16,
                    ;
                }
            }
        }
    }

    /// A lower and an upper bound on the number of buckets still to come.
    pub fn size_hint(&self) -> (r: (usize, Option<usize>))
        requires
            self.wf(),
        ensures
            r.0 == 0,
            r.1 == Some(self.bytes_left() as usize),
            r.1 matches Some(most) && most == self.end_of_alloc - self.next_ctrl_ptr + 16,
            self.bytes_left() >= 0,
            r.1 matches Some(most) ==> self.remaining().len() <= most,
    {
        proof {
            lemma_ascending_len(
                self.group_pos(),
                self.end_of_alloc as int,
                |p: int| self.is_pending(p),
            );
        }
        // The number is not known, so this is the number of control bytes that were not
        // looked at, and a group for the current one.
        let most: usize = if self.next_ctrl_ptr <= self.end_of_alloc {
            self.end_of_alloc - self.next_ctrl_ptr + Group::WIDTH
        } else {
            Group::WIDTH - (self.next_ctrl_ptr - self.end_of_alloc)
        };
        (0, Some(most))
    }
}

impl<'a, T> Clone for RawIterRange<'a, T> {
    fn clone(&self) -> (r: Self)
        ensures
            r == *self,
    {
        RawIterRange {
            current_group: self.current_group,
            data: self.data.clone(),
            block: self.block,
            next_ctrl_ptr: self.next_ctrl_ptr,
            end_of_alloc: self.end_of_alloc,
        }
    }
}

/// Predicates that agree select the same numbers.
proof fn lemma_ascending_same(lo: int, hi: int, f: spec_fn(int) -> bool, g: spec_fn(int) -> bool)
    requires
        forall|p: int| lo <= p < hi ==> #[trigger] f(p) == g(p),
    ensures
        ascending(lo, hi, f) == ascending(lo, hi, g),
    decreases hi - lo,
{
    if lo < hi {
        assert(f(lo) == g(lo));
        lemma_ascending_same(lo + 1, hi, f, g);
    }
}

/// Numbers that are not selected can be left out.
proof fn lemma_ascending_skip(lo: int, mid: int, hi: int, f: spec_fn(int) -> bool)
    requires
        lo <= mid,
        forall|p: int| lo <= p < mid ==> !#[trigger] f(p),
        mid <= hi,
    ensures
        ascending(lo, hi, f) == ascending(mid, hi, f),
    decreases mid - lo,
{
    if lo < mid {
        assert(!f(lo));
        lemma_ascending_skip(lo + 1, mid, hi, f);
    }
}

/// There are at most as many numbers selected as there are.
proof fn lemma_ascending_len(lo: int, hi: int, f: spec_fn(int) -> bool)
    requires
        lo <= hi,
    ensures
        ascending(lo, hi, f).len() <= hi - lo,
    decreases hi - lo,
{
    if lo < hi {
        lemma_ascending_len(lo + 1, hi, f);
    }
}

/// Room for the selected buckets is room for fewer of them.
proof fn lemma_room_same<T>(
    ptr: int,
    lo: int,
    hi: int,
    f: spec_fn(int) -> bool,
    g: spec_fn(int) -> bool,
)
    requires
        has_room::<T>(ptr, lo, hi, f),
        forall|p: int| lo <= p < hi && #[trigger] g(p) ==> f(p),
    ensures
        has_room::<T>(ptr, lo, hi, g),
{
    assert forall|p: int|
        lo <= p < hi && #[trigger] g(p) && vstd::layout::size_of::<T>() > 0 implies (p - lo)
        * vstd::layout::size_of::<T>() <= ptr by {
        assert(f(p));
    }
}

/// Room for all buckets is room for the selected ones.
pub proof fn lemma_room_all<T>(ptr: int, lo: int, hi: int, f: spec_fn(int) -> bool)
    requires
        if vstd::layout::size_of::<T>() == 0 {
            ptr + (hi - lo) <= usize::MAX
        } else {
            (hi - lo) * vstd::layout::size_of::<T>() <= ptr
        },
    ensures
        has_room::<T>(ptr, lo, hi, f),
{
    let size = vstd::layout::size_of::<T>() as int;
    assert forall|p: int| lo <= p < hi && #[trigger] f(p) && size > 0 implies (p - lo) * size
        <= ptr by {
        assert((p - lo) * size <= (hi - lo) * size) by (nonlinear_arith)
            requires
                p < hi,
                size > 0,
        ;
    }
}

/// There is room for a selected bucket.
proof fn lemma_room_next<T>(ptr: int, lo: int, hi: int, f: spec_fn(int) -> bool, p: int)
    requires
        has_room::<T>(ptr, lo, hi, f),
        lo <= p < hi,
        f(p),
        0 <= ptr,
    ensures
        (p - lo) * vstd::layout::size_of::<T>() <= ptr,
{
    let size = vstd::layout::size_of::<T>() as int;
    if size == 0 {
        assert((p - lo) * size == 0) by (nonlinear_arith)
            requires
                size == 0,
        ;
    }
}

/// Where there is more than one group, there is room for the buckets of the first.
proof fn lemma_room_step<T>(ptr: int, lo: int, hi: int, f: spec_fn(int) -> bool)
    requires
        has_room::<T>(ptr, lo, hi, f),
        hi - lo > Group::WIDTH,
        0 <= ptr,
    ensures
        Group::WIDTH * vstd::layout::size_of::<T>() <= ptr,
        vstd::layout::size_of::<T>() > 0 ==> (hi - lo - Group::WIDTH)
            * vstd::layout::size_of::<T>() <= ptr - Group::WIDTH * vstd::layout::size_of::<T>(),
{
    let size = vstd::layout::size_of::<T>() as int;
    assert((hi - lo - 16) * size == (hi - lo) * size - 16 * size) by (nonlinear_arith);
    assert((hi - lo - 16) * size >= 0) by (nonlinear_arith)
        requires
            hi - lo > 16,
            size >= 0,
    ;
}

/// How far it is to the end of the last group.
pub proof fn lemma_whole_groups(x: int)
    requires
        x >= 0,
    ensures
        whole_groups(x) == x + if x < Group::WIDTH {
            Group::WIDTH - x
        } else if x % (Group::WIDTH as int) == 0 {
            0
        } else {
            Group::WIDTH - x % (Group::WIDTH as int)
        },
{
    let q = x / 16;
    let m = x % 16;
    assert(x == 16 * q + m);
    if x > 16 {
        if m == 0 {
            assert((x + 15) / 16 == q);
        } else {
            assert((x + 15) / 16 == q + 1);
        }
    }
}

/// One group less to go.
proof fn lemma_whole_groups_step(x: int)
    requires
        x > Group::WIDTH,
    ensures
        whole_groups(x) == Group::WIDTH + whole_groups(x - Group::WIDTH),
{
    let q = (x - 16 + 15) / 16;
    assert((x + 15) / 16 == q + 1);
    assert(whole_groups(x) == (q + 1) * 16);
    if x - 16 <= 16 {
        assert(q == 1);
    }
}

/// A walk that has come to its end has nothing left, and since a further step leaves it as it is,
/// it never has anything again.
pub proof fn law_finished_walk_has_nothing_left<T>(walk: RawIterRange<T>)
    requires
        walk.is_done(),
    ensures
        walk.remaining().len() == 0,
{
    let f = |p: int| walk.is_pending(p);
    let g = walk.group_pos();
    let end = walk.end_of_alloc as int;
    if g <= end {
        lemma_ascending_skip(g, end, end, f);
    }
}

/// The walk comes to every full bucket, to no other, and to each only once, in ascending
/// order.
pub proof fn law_full_positions(block: Seq<u8>, lo: int, hi: int)
    ensures
        forall|p: int|
            full_positions(block, lo, hi).contains(p) <==> lo <= p < hi
                && crate::control_bytes::is_full(#[trigger] block[p]),
        forall|i: int, j: int|
            0 <= i < j < full_positions(block, lo, hi).len() ==> #[trigger] full_positions(
                block,
                lo,
                hi,
            )[i] < #[trigger] full_positions(block, lo, hi)[j],
{
    let f = |p: int| crate::control_bytes::is_full(block[p]);
    lemma_ascending_contents(lo, hi, f);
    assert forall|p: int|
        full_positions(block, lo, hi).contains(p) <==> lo <= p < hi
            && crate::control_bytes::is_full(#[trigger] block[p]) by {
        assert(ascending(lo, hi, f).contains(p) <==> lo <= p < hi && f(p));
    }
}

/// The numbers up to `hi` are those before it, and then perhaps `hi` itself.
proof fn lemma_ascending_last(lo: int, hi: int, f: spec_fn(int) -> bool)
    requires
        lo <= hi,
    ensures
        ascending(lo, hi + 1, f) == ascending(lo, hi, f) + if f(hi) {
            seq![hi]
        } else {
            Seq::empty()
        },
    decreases hi - lo,
{
    let last = if f(hi) {
        seq![hi]
    } else {
        Seq::empty()
    };
    if lo == hi {
        assert(ascending(lo + 1, hi + 1, f) =~= Seq::empty());
        assert(ascending(lo, hi + 1, f) =~= last);
        assert(Seq::<int>::empty() + last =~= last);
    } else {
        lemma_ascending_last(lo + 1, hi, f);
        if f(lo) {
            assert(seq![lo] + (ascending(lo + 1, hi, f) + last) =~= (seq![lo] + ascending(
                lo + 1,
                hi,
                f,
            )) + last);
        }
    }
}

/// The walk takes as many steps as there are full buckets.
pub proof fn law_walk_counts_full_buckets(block: Seq<u8>, lo: int, hi: int)
    requires
        0 <= lo <= hi <= block.len(),
    ensures
        full_positions(block, lo, hi).len() == crate::ctrl::count(
            block.subrange(lo, hi),
            |c: u8| crate::control_bytes::is_full(c),
        ),
    decreases hi - lo,
{
    if lo < hi {
        let f = |p: int| crate::control_bytes::is_full(block[p]);
        law_walk_counts_full_buckets(block, lo, hi - 1);
        lemma_ascending_last(lo, hi - 1, f);
        assert(block.subrange(lo, hi).drop_last() =~= block.subrange(lo, hi - 1));
    }
}

/// The walk over a table yields, for the control byte of bucket `i`, the bucket with number `i`.
pub proof fn law_position_gives_bucket<T>(first: Bucket<T>, bucket: Bucket<T>, base: int, i: int)
    requires
        first.is_at(base, 0),
        bucket.ptr == ptr_at_distance::<T>(first.ptr as int, i),
        0 <= i,
    ensures
        bucket.is_at(base, i),
        bucket.index(base) == i,
{
    bucket.lemma_index(base, i);
}

/// What `ascending` selects, and in which order.
proof fn lemma_ascending_contents(lo: int, hi: int, f: spec_fn(int) -> bool)
    ensures
        forall|p: int| #[trigger] ascending(lo, hi, f).contains(p) <==> lo <= p < hi && f(p),
        forall|i: int, j: int|
            0 <= i < j < ascending(lo, hi, f).len() ==> #[trigger] ascending(lo, hi, f)[i]
                < #[trigger] ascending(lo, hi, f)[j],
    decreases hi - lo,
{
    let s = ascending(lo, hi, f);
    if lo < hi {
        let t = ascending(lo + 1, hi, f);
        lemma_ascending_contents(lo + 1, hi, f);
        if f(lo) {
            assert(s == seq![lo] + t);
            assert(s[0] == lo);
            assert forall|p: int| #[trigger] s.contains(p) <==> lo <= p < hi && f(p) by {
                if s.contains(p) {
                    let i = choose|i: int| 0 <= i < s.len() && s[i] == p;
                    if i > 0 {
                        assert(t[i - 1] == p);
                        assert(t.contains(p));
                    }
                }
                if lo + 1 <= p < hi && f(p) {
                    assert(t.contains(p));
                    let i = choose|i: int| 0 <= i < t.len() && t[i] == p;
                    assert(s[i + 1] == p);
                }
            }
            assert forall|i: int, j: int| 0 <= i < j < s.len() implies #[trigger] s[i]
                < #[trigger] s[j] by {
                assert(s[j] == t[j - 1]);
                assert(t.contains(t[j - 1]));
                if i > 0 {
                    assert(s[i] == t[i - 1]);
                }
            }
        }
    }
}

/// What one step does to a walk.
proof fn lemma_step<'a, T>(
    before: RawIterRange<'a, T>,
    r: Option<Bucket<T>>,
    after: RawIterRange<'a, T>,
)
    requires
        before.wf(),
        exists|walk: &mut RawIterRange<'a, T>| #[trigger]
            call_ensures(RawIterRange::<'a, T>::next, (walk,), r) && *walk == before && *final(walk)
                == after,
    ensures
        after.wf(),
        forall|p: int| #[trigger] after.ptr_of(p) == before.ptr_of(p),
        r is None <==> before.remaining().len() == 0,
        r is None ==> after.remaining().len() == 0,
        r matches Some(bucket) ==> {
            &&& bucket.ptr == before.ptr_of(before.remaining()[0])
            &&& after.remaining() == before.remaining().drop_first()
        },
{
}

/// What `k` steps do to a walk.
pub(crate) proof fn lemma_steps<'a, T>(
    states: Seq<RawIterRange<'a, T>>,
    results: Seq<Option<Bucket<T>>>,
    k: int,
)
    requires
        states[0].wf(),
        states.len() == results.len() + 1,
        forall|k: int|
            0 <= k < results.len() ==> exists|walk: &mut RawIterRange<'a, T>|
                call_ensures(
                    RawIterRange::<'a, T>::next,
                    (walk,),
                    #[trigger] results[k],
                ) && *walk == states[k] && *final(walk) == states[k + 1],
        0 <= k <= results.len(),
    ensures
        states[k].wf(),
        forall|p: int| #[trigger] states[k].ptr_of(p) == states[0].ptr_of(p),
        k <= states[0].remaining().len() ==> states[k].remaining() == states[0].remaining().skip(k),
        k >= states[0].remaining().len() ==> states[k].remaining().len() == 0,
    decreases k,
{
    let all = states[0].remaining();
    if k == 0 {
        assert(all.skip(0) =~= all);
    } else {
        let l = k - 1;
        lemma_steps(states, results, l);
        assert(exists|walk: &mut RawIterRange<'a, T>| #[trigger]
            call_ensures(RawIterRange::<'a, T>::next, (walk,), results[l]) && *walk == states[l]
                && *final(walk) == states[l + 1]);
        lemma_step(states[l], results[l], states[k]);
        assert forall|p: int| #[trigger] states[k].ptr_of(p) == states[0].ptr_of(p) by {
            assert(states[l].ptr_of(p) == states[0].ptr_of(p));
        }
        if k <= all.len() {
            assert(all.skip(l).drop_first() =~= all.skip(k));
        }
    }
}

/// What each step of a walk yields.
pub(crate) proof fn lemma_results<'a, T>(
    states: Seq<RawIterRange<'a, T>>,
    results: Seq<Option<Bucket<T>>>,
    k: int,
)
    requires
        states[0].wf(),
        states.len() == results.len() + 1,
        forall|k: int|
            0 <= k < results.len() ==> exists|walk: &mut RawIterRange<'a, T>|
                call_ensures(
                    RawIterRange::<'a, T>::next,
                    (walk,),
                    #[trigger] results[k],
                ) && *walk == states[k] && *final(walk) == states[k + 1],
        0 <= k < results.len(),
    ensures
        results[k] is Some <==> k < states[0].remaining().len(),
        results[k] matches Some(bucket) ==> bucket.ptr == states[0].ptr_of(
            states[0].remaining()[k],
        ),
{
    lemma_steps(states, results, k);
    assert(exists|walk: &mut RawIterRange<'a, T>| #[trigger]
        call_ensures(RawIterRange::<'a, T>::next, (walk,), results[k]) && *walk == states[k]
            && *final(walk) == states[k + 1]);
    lemma_step(states[k], results[k], states[k + 1]);
    let all = states[0].remaining();
    if k < all.len() {
        assert(all.skip(k)[0] == all[k]);
        assert(states[k].ptr_of(all[k]) == states[0].ptr_of(all[k]));
    }
}

/// A walk over `len` control bytes yields, step by step, the buckets whose bytes are below `0x80`:
/// each of them once, in ascending order, and then nothing any more. `found` are their distances
/// from the first bucket.
pub proof fn law_walk_yields_full_buckets<'a, T>(
    block: &'a Vec<u8>,
    ctrl: usize,
    first: Bucket<T>,
    len: usize,
    states: Seq<RawIterRange<'a, T>>,
    results: Seq<Option<Bucket<T>>>,
) -> (found: Seq<int>)
    requires
        call_ensures(RawIterRange::<'a, T>::new, (block, ctrl, first, len), states[0]),
        states.len() == results.len() + 1,
        forall|k: int|
            0 <= k < results.len() ==> exists|walk: &mut RawIterRange<'a, T>|
                call_ensures(
                    RawIterRange::<'a, T>::next,
                    (walk,),
                    #[trigger] results[k],
                ) && *walk == states[k] && *final(walk) == states[k + 1],
    ensures
        forall|i: int, j: int|
            0 <= i < j < found.len() ==> #[trigger] found[i] < #[trigger] found[j],
        forall|i: int| #[trigger]
            found.contains(i) <==> 0 <= i < len && block@[ctrl + i] < 0x80,
        forall|k: int|
            0 <= k < results.len() ==> (#[trigger] results[k] is Some <==> k < found.len()),
        forall|k: int|
            0 <= k < results.len() ==> (#[trigger] results[k] matches Some(bucket) ==> bucket.ptr
                == if vstd::layout::size_of::<T>() == 0 {
                first.ptr + found[k]
            } else {
                first.ptr - found[k] * vstd::layout::size_of::<T>()
            }),
{
    let all = full_positions(block@, ctrl as int, ctrl + len);
    let found = lemma_distances(block@, ctrl as int, len as int);
    assert forall|k: int| 0 <= k < results.len() implies (#[trigger] results[k] is Some <==> k
        < found.len()) && (results[k] matches Some(bucket) ==> bucket.ptr
        == if vstd::layout::size_of::<T>() == 0 {
        first.ptr + found[k]
    } else {
        first.ptr - found[k] * vstd::layout::size_of::<T>()
    }) by {
        lemma_results(states, results, k);
        if results[k] is Some {
            assert(states[0].ptr_of(all[k]) == ptr_at_distance::<T>(
                first.ptr as int,
                all[k] - ctrl,
            ));
        }
    }
    found
}

/// The full positions, counted from the first.
pub(crate) proof fn lemma_distances(block: Seq<u8>, ctrl: int, len: int) -> (found: Seq<int>)
    ensures
        found.len() == full_positions(block, ctrl, ctrl + len).len(),
        forall|i: int|
            0 <= i < found.len() ==> #[trigger] found[i] == full_positions(
                block,
                ctrl,
                ctrl + len,
            )[i] - ctrl,
        forall|i: int, j: int|
            0 <= i < j < found.len() ==> #[trigger] found[i] < #[trigger] found[j],
        forall|i: int| #[trigger] found.contains(i) <==> 0 <= i < len && block[ctrl + i] < 0x80,
{
    let all = full_positions(block, ctrl, ctrl + len);
    let found = Seq::new(all.len(), |i: int| all[i] - ctrl);
    law_full_positions(block, ctrl, ctrl + len);
    assert forall|i: int| #[trigger] found.contains(i) <==> 0 <= i < len && block[ctrl + i]
        < 0x80 by {
        if found.contains(i) {
            let j = choose|j: int| 0 <= j < found.len() && found[j] == i;
            assert(all[j] == ctrl + i);
            assert(all.contains(ctrl + i));
            assert(crate::control_bytes::is_full(block[ctrl + i]));
        }
        if 0 <= i < len && block[ctrl + i] < 0x80 {
            assert(crate::control_bytes::is_full(block[ctrl + i]));
            assert(all.contains(ctrl + i));
            let j = choose|j: int| 0 <= j < all.len() && all[j] == ctrl + i;
            assert(found[j] == i);
        }
    }
    found
}

/// The upper bound on what is still to come is the number of control bytes from the current group
/// on.
pub proof fn law_size_hint<'a, T>(walk: RawIterRange<'a, T>, r: (usize, Option<usize>))
    requires
        walk.wf(),
        call_ensures(RawIterRange::<'a, T>::size_hint, (&walk,), r),
    ensures
        r.0 == 0,
        r.1 matches Some(most) && most == walk.end_of_alloc - walk.next_ctrl_ptr + 16,
{
}

} // verus!
