//! The part of a table that does not depend on the type of its items.

use vstd::prelude::*;
use crate::bucket::Bucket;
use crate::control_bytes::{DELETED, EMPTY};
use crate::group::Group;
use crate::mapalloc::{AllocError, Allocator, Layout};
use crate::probe::ProbeSequence;
use crate::reserve::{Fallibility, TryReserveError};
use crate::scopeguard::ScopeGuard;
use crate::table_layout::TableLayout;

verus! {

/// The control bytes of a table, and the counters that go with them.
pub struct LowTable<A> {
    /// the mask that turns a hash value into the number of a bucket: the number of buckets,
    /// which is a power of two, less one
    pub bucket_mask: usize,
    /// the allocation: room for the items, then the control bytes; a table without an
    /// allocation has no memory at all
    pub block: Vec<u8>,
    /// where the control bytes begin in the allocation
    pub ctrl: usize,
    /// the number of items that can be inserted before the table has to be rehashed
    pub growth_left: usize,
    /// the number of items in the table
    pub items: usize,
    /// where the allocation comes from
    pub allocator: A,
}

/// A size that narrow targets do not allocate.
pub open spec fn too_large(layout: Layout) -> bool {
    usize::BITS < 64 && layout.size > isize::MAX
}

/// The capacity and everything that is computed from it fits in a `usize`.
pub open spec fn capacity_fits(table_layout: TableLayout, capacity: int) -> bool {
    capacity == 0 || {
        &&& capacity < 8 || capacity * crate::capacity::LOAD_FACTOR_DENOMINATOR <= usize::MAX
        &&& table_layout.fits(crate::capacity::buckets_for(capacity))
    }
}

impl<A> LowTable<A> {
    /// The number of buckets.
    pub open spec fn n(self) -> int {
        self.bucket_mask + 1
    }

    /// What the table reads as its memory. Without memory of its own, that is one group of
    /// empty control bytes.
    pub open spec fn memory(self) -> Seq<u8> {
        if self.block@.len() == 0 {
            Seq::new(Group::WIDTH as nat, |i: int| EMPTY)
        } else {
            self.block@
        }
    }

    /// The control bytes.
    pub open spec fn ctrl_bytes(self) -> Seq<u8> {
        self.memory().subrange(self.ctrl as int, self.memory().len() as int)
    }

    /// The numbers of buckets and of control bytes go together; the control bytes begin at an
    /// aligned position; a table of one bucket has no memory.
    pub open spec fn shape(self) -> bool {
        &&& vstd::arithmetic::power2::is_pow2(self.n())
        &&& self.ctrl <= self.memory().len()
        &&& self.memory().len() - self.ctrl == crate::ctrl::ctrl_len(self.n())
        &&& self.ctrl % Group::WIDTH == 0
        &&& self.n() == 1 <==> self.block@.len() == 0
    }

    /// The control bytes are in order.
    pub open spec fn ctrl_wf(self) -> bool {
        self.shape() && crate::ctrl::ctrl_wf(self.ctrl_bytes(), self.n())
    }

    /// The table is in order: the counters tell what the control bytes hold.
    pub open spec fn wf(self) -> bool {
        &&& self.ctrl_wf()
        &&& self.items == crate::ctrl::count_full(self.ctrl_bytes(), self.n())
        &&& self.growth_left + self.items + crate::ctrl::count_deleted(self.ctrl_bytes(), self.n())
            == crate::capacity::max_items(self.bucket_mask as int)
    }

    /// The table is being filled: `pending` of the items that it counts have no bucket yet.
    pub open spec fn awaits(self, pending: int) -> bool {
        &&& self.ctrl_wf()
        &&& self.items == crate::ctrl::count_full(self.ctrl_bytes(), self.n()) + pending
        &&& crate::ctrl::count_deleted(self.ctrl_bytes(), self.n()) == 0
        &&& self.growth_left + self.items == crate::capacity::max_items(self.bucket_mask as int)
    }

    /// Every bucket is empty and nothing is counted.
    pub open spec fn is_blank(self) -> bool {
        &&& self.items == 0
        &&& self.growth_left == crate::capacity::max_items(self.bucket_mask as int)
        &&& forall|p: int|
            0 <= p < self.ctrl_bytes().len() ==> #[trigger] self.ctrl_bytes()[p] == EMPTY
    }

    /// Some bucket is empty or deleted.
    pub open spec fn has_room(self) -> bool {
        exists|i: int|
            0 <= i < self.n() && crate::control_bytes::is_special(#[trigger] self.ctrl_bytes()[i])
    }

    /// The memory is an allocation that is laid out for items as `table_layout` says.
    pub open spec fn owns_allocation(self, table_layout: TableLayout) -> bool {
        &&& self.bucket_mask < usize::MAX
        &&& table_layout.wf()
        &&& table_layout.fits(self.n())
        &&& self.block.len() == table_layout.total(self.n())
        &&& self.ctrl == table_layout.ctrl_offset(self.n())
    }

    /// The table has no allocation, or one that is laid out as `table_layout` says.
    pub open spec fn allocated_for(self, table_layout: TableLayout) -> bool {
        self.n() > 1 ==> self.owns_allocation(table_layout)
    }

    /// The table is over the very block that the allocator gave for `buckets` buckets.
    pub open spec fn is_over_block(
        self,
        allocator: A,
        table_layout: TableLayout,
        buckets: int,
    ) -> bool where A: Allocator {
        &&& self.n() == buckets
        &&& self.allocator == allocator
        &&& self.owns_allocation(table_layout)
        &&& call_ensures(
            A::allocate,
            (&allocator, table_layout.layout(buckets)),
            Ok::<Vec<u8>, AllocError>(self.block),
        )
    }

    /// The table stands on a block that the allocator gave for its number of buckets: what is in
    /// front of the control bytes is as it was given.
    pub open spec fn stands_on_block(self, allocator: A, table_layout: TableLayout) -> bool where
        A: Allocator,
     {
        exists|block: Vec<u8>| #[trigger]
            call_ensures(
                A::allocate,
                (&allocator, table_layout.layout(self.n())),
                Ok::<Vec<u8>, AllocError>(block),
            ) && self.block.len() == block.len() && self.block@.take(self.ctrl as int)
                == block@.take(self.ctrl as int)
    }

    /// The memory is that of `before`, apart from what the control bytes hold.
    pub open spec fn same_block(self, before: LowTable<A>) -> bool {
        &&& self.bucket_mask == before.bucket_mask
        &&& self.ctrl == before.ctrl
        &&& self.block.len() == before.block.len()
        &&& self.block@.take(self.ctrl as int) == before.block@.take(self.ctrl as int)
        &&& self.allocator == before.allocator
    }

    /// The item in bucket `index` can be removed: the bucket is full, an item is counted, and
    /// the counters have room. A table in order has all that for each of its full buckets.
    pub open spec fn can_erase(self, index: int) -> bool {
        &&& self.wf() || {
            &&& self.ctrl_wf()
            &&& self.items >= 1
            &&& crate::ctrl::crowded(self.ctrl_bytes(), self.n(), index) || self.growth_left
                < usize::MAX
        }
        &&& 0 <= index < self.n()
        &&& crate::control_bytes::is_full(self.ctrl_bytes()[index])
    }

    /// The table is `before` with bucket `index`, whose control byte was `old_ctrl`, marked as
    /// full for an item of the given hash which is not counted yet.
    pub open spec fn is_prepared(
        self,
        before: LowTable<A>,
        index: int,
        old_ctrl: u8,
        hash: u64,
    ) -> bool {
        &&& self.same_but_ctrl(before)
        &&& before.n() > 1
        &&& 0 <= index < before.n()
        &&& old_ctrl == before.ctrl_bytes()[index]
        &&& crate::control_bytes::is_special(old_ctrl)
        &&& self.ctrl_bytes() == crate::ctrl::with_byte(
            before.ctrl_bytes(),
            before.n(),
            index,
            crate::hash::top_seven(hash),
        )
    }

    /// Everything but the control bytes is as in `before`.
    pub open spec fn same_but_ctrl(self, before: LowTable<A>) -> bool {
        &&& self.same_block(before)
        &&& self.growth_left == before.growth_left
        &&& self.items == before.items
    }

    /// Numbers that follow from the shape.
    proof fn lemma_bounds(&self)
        requires
            self.shape(),
        ensures
            self.bucket_mask < usize::MAX,
            self.bucket_mask + 1 + Group::WIDTH <= usize::MAX,
            2 * self.n() <= usize::MAX + 1,
            self.ctrl_bytes().len() == crate::ctrl::ctrl_len(self.n()),
            self.memory().len() <= usize::MAX,
    {
        assert(self.block.len() == self.block@.len());
        crate::math::lemma_pow2_at_most_half(self.n());
    }

    /// A table in order has an empty bucket, so that a lookup comes to an end.
    pub proof fn law_some_bucket_is_empty(self)
        requires
            self.wf(),
        ensures
            exists|i: int| 0 <= i < self.n() && #[trigger] self.ctrl_bytes()[i] == EMPTY,
            self.has_room(),
    {
        crate::capacity::law_capacity_leaves_a_bucket_free(self.n());
        crate::ctrl::lemma_counts(self.ctrl_bytes(), self.n());
    }

    /// A table that is being filled has room for another item.
    pub proof fn law_awaiting_table_has_room(self, pending: int)
        requires
            self.awaits(pending),
            pending >= 0,
        ensures
            self.has_room(),
    {
        crate::capacity::law_capacity_leaves_a_bucket_free(self.n());
        crate::ctrl::lemma_counts(self.ctrl_bytes(), self.n());
    }

    /// A table that has a bucket for each item that it counts is in order.
    pub proof fn law_filled_table_is_in_order(self)
        requires
            self.awaits(0),
        ensures
            self.wf(),
    {
    }

    /// The position of the control byte of bucket `index` in the allocation.
    pub fn ctrlof(&self, index: usize) -> (r: usize)
        requires
            self.ctrl + index <= usize::MAX,
        ensures
            r == self.ctrl + index,
    {
        self.ctrl + index
    }

    /// The group of control bytes from bucket `index` on.
    pub fn load_group(&self, index: usize) -> (r: Group)
        requires
            self.ctrl + index + Group::WIDTH <= self.memory().len(),
        ensures
            r.bytes@ == self.ctrl_bytes().subrange(index as int, index + Group::WIDTH),
    {
        let r: Group = if self.block.len() == 0 {
            Group { bytes: Group::empty_static() }
        } else {
            Group::load_unaligned(&self.block, self.ctrlof(index))
        };
        proof {
            assert(r.bytes@ =~= self.ctrl_bytes().subrange(index as int, index + Group::WIDTH));
        }
        r
    }

    /// The control byte of bucket `index`.
    pub fn ctrl_byte(&self, index: usize) -> (r: u8)
        requires
            self.ctrl + index < self.memory().len(),
        ensures
            r == self.ctrl_bytes()[index as int],
    {
        if self.block.len() == 0 {
            EMPTY
        } else {
            self.block[self.ctrlof(index)]
        }
    }

    /// The number of control bytes of a table with an allocation.
    pub fn count_ctrl_bytes(&self) -> (r: usize)
        requires
            self.bucket_mask + 1 + Group::WIDTH <= usize::MAX,
        ensures
            r == self.n() + Group::WIDTH,
            self.shape() && self.n() > 1 ==> r == self.ctrl_bytes().len(),
    {
        self.bucket_mask + 1 + Group::WIDTH
    }

    /// An empty table without memory.
    pub fn new_in(allocator: A) -> (r: Self)
        ensures
            r.bucket_mask == 0,
            r.block@.len() == 0,
            r.is_blank(),
            r.allocator == allocator,
            r.ctrl == 0,
            r.wf(),
    {
        let r: LowTable<A> = LowTable {
            allocator,
            block: Vec::new(),
            ctrl: 0,
            bucket_mask: 0,
            items: 0,
            growth_left: 0,
        };
        proof {
            crate::math::lemma_small_powers();
            assert(r.ctrl_bytes() =~= Seq::new(Group::WIDTH as nat, |i: int| EMPTY));
            crate::ctrl::lemma_all_empty(r.ctrl_bytes(), 1);
        }
        r
    }

    /// Sets the control byte of bucket `index` to that of a full bucket whose item has the
    /// given hash.
    pub fn set_ctrl_h2_of(&mut self, index: usize, hash: u64)
        requires
            old(self).shape(),
            old(self).n() > 1,
            index < old(self).n(),
        ensures
            final(self).same_but_ctrl(*old(self)),
            final(self).shape(),
            final(self).ctrl_bytes() == crate::ctrl::with_byte(
                old(self).ctrl_bytes(),
                old(self).n(),
                index as int,
                crate::hash::top_seven(hash),
            ),
            crate::control_bytes::is_full(crate::hash::top_seven(hash)),
            old(self).ctrl_wf() ==> final(self).ctrl_wf(),
    {
        let byte: u8 = crate::hash::h2(hash);
        self.set_ctrlof(index, byte);
    }

    /// Sets the control byte of bucket `index`, and its copy.
    pub fn set_ctrlof(&mut self, index: usize, ctrl: u8)
        requires
            old(self).shape(),
            old(self).n() > 1,
            index < old(self).n(),
        ensures
            final(self).same_but_ctrl(*old(self)),
            final(self).shape(),
            final(self).ctrl_bytes() == crate::ctrl::with_byte(
                old(self).ctrl_bytes(),
                old(self).n(),
                index as int,
                ctrl,
            ),
            old(self).ctrl_wf() && crate::control_bytes::is_valid(ctrl) ==> final(self).ctrl_wf(),
    {
        proof {
            self.lemma_bounds();
            crate::math::lemma_wrapping_sub_mask(index, Group::WIDTH, self.bucket_mask);
            crate::ctrl::lemma_mirror(self.n(), index as int);
            if old(self).ctrl_wf() && crate::control_bytes::is_valid(ctrl) {
                crate::ctrl::lemma_with_byte_wf(self.ctrl_bytes(), self.n(), index as int, ctrl);
            }
        }
        // The first group of control bytes is repeated at the end, so that a group can be
        // read from any bucket on. From the second group on this is `index` itself. Where
        // the table is smaller than a group, the copies come after a whole group.
        let idx2: usize = (index.wrapping_sub(Group::WIDTH) & self.bucket_mask) + Group::WIDTH;
        let first: usize = self.ctrlof(index);
        let second: usize = self.ctrlof(idx2);
        self.block[first] = ctrl;
        self.block[second] = ctrl;
        proof {
            assert(self.ctrl_bytes() =~= crate::ctrl::with_byte(
                old(self).ctrl_bytes(),
                old(self).n(),
                index as int,
                ctrl,
            ));
            assert(self.block@.take(self.ctrl as int) =~= old(self).block@.take(self.ctrl as int));
        }
    }

    /// The walk over the groups for a given hash.
    pub fn probe_seq(&self, hash: u64) -> (r: ProbeSequence)
        ensures
            r.pos == crate::hash::low_bits(hash) & self.bucket_mask,
            r.stride == 0,
            vstd::arithmetic::power2::is_pow2(self.n()) && self.bucket_mask < usize::MAX ==> r.is_at(
                crate::hash::low_bits(hash) as int,
                self.bucket_mask,
                0,
            ),
    {
        proof {
            if vstd::arithmetic::power2::is_pow2(self.n()) && self.bucket_mask < usize::MAX {
                crate::math::lemma_mask_is_mod(crate::hash::low_bits(hash), self.bucket_mask);
            }
        }
        ProbeSequence { pos: crate::hash::h1(hash) & self.bucket_mask, stride: 0 }
    }

    /// The number of buckets.
    pub fn buckets(&self) -> (r: usize)
        requires
            self.bucket_mask < usize::MAX,
        ensures
            r == self.n(),
    {
        self.bucket_mask + 1
    }

    /// Whether this is a table of one bucket, as one without memory is.
    pub fn is_empty_singleton(&self) -> (r: bool)
        ensures
            r == (self.n() == 1),
    {
        self.bucket_mask == 0
    }

    /// Sets every control byte to `byte`.
    fn write_ctrl_bytes(&mut self, byte: u8)
        requires
            old(self).shape(),
            old(self).n() > 1,
        ensures
            final(self).same_but_ctrl(*old(self)),
            final(self).shape(),
            forall|p: int|
                0 <= p < final(self).ctrl_bytes().len() ==> #[trigger] final(self).ctrl_bytes()[p]
                    == byte,
    {
        proof {
            self.lemma_bounds();
        }
        let len: usize = self.count_ctrl_bytes();
        let mut i: usize = 0;
        while i < len
            invariant
                self.same_but_ctrl(*old(self)),
                self.shape(),
                self.n() > 1,
                len == self.block.len() - self.ctrl,
                i <= len,
                forall|p: int| self.ctrl <= p < self.ctrl + i ==> #[trigger] self.block@[p] == byte,
            decreases len - i,
        {
            let pos: usize = self.ctrlof(i);
            let ghost before = self.block@;
            self.block[pos] = byte;
            assert(self.block@.take(self.ctrl as int) =~= before.take(self.ctrl as int));
            i = i + 1;
        }
    }
}

impl<A: Allocator + Clone> LowTable<A> {
    /// A table over what the allocator answered to the request for `buckets` buckets. The
    /// control bytes are whatever the memory holds.
    pub fn over_allocation(
        allocator: A,
        answer: Result<Vec<u8>, AllocError>,
        layout: Layout,
        ctrl_offset: usize,
        buckets: usize,
        fallibility: Fallibility,
    ) -> (r: Result<Self, TryReserveError>)
        requires
            buckets >= 1,
        ensures
            answer is Err ==> r == Err::<Self, TryReserveError>(
                TryReserveError::AllocatorError { layout },
            ),
            answer matches Ok(block) ==> r == Ok::<Self, TryReserveError>(
                LowTable {
                    bucket_mask: (buckets - 1) as usize,
                    block,
                    ctrl: ctrl_offset,
                    growth_left: crate::capacity::max_items(buckets - 1) as usize,
                    items: 0,
                    allocator,
                },
            ),
    {
        match answer {
            Ok(block) => Ok(
                LowTable {
                    allocator,
                    bucket_mask: buckets - 1,
                    items: 0,
                    block,
                    ctrl: ctrl_offset,
                    growth_left: crate::capacity::bucket_mask_to_capacity(buckets - 1),
                },
            ),
            Err(_) => Err(fallibility.allocator_error(layout)),
        }
    }

    /// A table with an allocation for `buckets` buckets. The control bytes are whatever the
    /// memory holds.
    pub fn new_uinit(
        allocator: A,
        table_layout: TableLayout,
        buckets: usize,
        fallibility: Fallibility,
    ) -> (r: Result<Self, TryReserveError>)
        requires
            table_layout.wf(),
            buckets >= 1,
            fallibility is Infallible ==> table_layout.fits(buckets as int),
        ensures
            r == Err::<Self, TryReserveError>(TryReserveError::CapacityOverflow)
                <==> !table_layout.fits(buckets as int),
            r matches Err(TryReserveError::AllocatorError { layout }) ==> {
                &&& layout == table_layout.layout(buckets as int)
                &&& too_large(layout) || crate::mapalloc::refused(allocator, layout)
            },
            r matches Ok(t) ==> {
                &&& t.is_over_block(allocator, table_layout, buckets as int)
                &&& t.items == 0
                &&& t.growth_left == crate::capacity::max_items(buckets - 1)
                &&& !too_large(table_layout.layout(buckets as int))
                &&& vstd::arithmetic::power2::is_pow2(buckets as int) && buckets > 1 ==> t.shape()
            },
    {
        let (layout, ctrl_offset): (Layout, usize) = match table_layout.calculate_layout_for(
            buckets,
        ) {
            Some(layout_and_offset) => layout_and_offset,
            None => return Err(fallibility.capacity_overflow()),
        };
        proof {
            broadcast use vstd::layout::layout_of_primitives;

            crate::capacity::law_capacity_leaves_a_bucket_free(buckets as int);
            crate::table_layout::law_ctrl_bytes_follow_items(table_layout, buckets as int);
            crate::math::lemma_small_powers();
            crate::math::lemma_pow2_divides(
                Group::WIDTH as int,
                table_layout.ctrl_byte_align as int,
            );
            let a = table_layout.ctrl_byte_align as int;
            let x = ctrl_offset as int;
            vstd::arithmetic::div_mod::lemma_fundamental_div_mod(x, a);
            assert(x == ((a / 16) * (x / a)) * 16) by (nonlinear_arith)
                requires
                    x == a * (x / a),
                    a == 16 * (a / 16),
            ;
            vstd::arithmetic::div_mod::lemma_mod_multiples_basic((a / 16) * (x / a), 16);
        }
        // Narrow targets do not get more than half of the address space in one piece.
        if core::mem::size_of::<usize>() < 8 && layout.size > isize::MAX as usize {
            return Err(fallibility.allocator_error(layout));
        }
        let answer: Result<Vec<u8>, AllocError> = crate::mapalloc::self_allocate(
            &allocator,
            layout,
        );
        proof {
            if let Err(error) = answer {
                assert(error == AllocError);
            }
        }
        LowTable::over_allocation(allocator, answer, layout, ctrl_offset, buckets, fallibility)
    }

    /// An empty table that may hold `capacity` items, or the reason why there is none.
    pub fn fallible_with_capacity(
        allocator: A,
        table_layout: TableLayout,
        capacity: usize,
        fallibility: Fallibility,
    ) -> (r: Result<Self, TryReserveError>)
        requires
            table_layout.wf(),
            fallibility is Infallible ==> capacity_fits(table_layout, capacity as int),
        ensures
            r == Err::<Self, TryReserveError>(TryReserveError::CapacityOverflow) <==> !capacity_fits(
                table_layout,
                capacity as int,
            ),
            capacity == 0 ==> (r matches Ok(t) && t.n() == 1),
            r matches Err(TryReserveError::AllocatorError { layout }) ==> {
                &&& layout == table_layout.layout(crate::capacity::buckets_for(capacity as int))
                &&& too_large(layout) || crate::mapalloc::refused(allocator, layout)
            },
            r matches Ok(t) ==> {
                &&& t.wf()
                &&& t.is_blank()
                &&& t.allocator == allocator
                &&& t.allocated_for(table_layout)
                &&& t.growth_left >= capacity
                &&& capacity > 0 ==> {
                    &&& t.n() == crate::capacity::buckets_for(capacity as int)
                    &&& !too_large(table_layout.layout(t.n()))
                    &&& t.stands_on_block(allocator, table_layout)
                }
            },
    {
        if capacity == 0 {
            Ok(LowTable::new_in(allocator))
        } else {
            let buckets: usize = match crate::capacity::capacity_to_buckets(capacity) {
                Some(buckets) => buckets,
                None => return Err(fallibility.capacity_overflow()),
            };
            match LowTable::new_uinit(allocator, table_layout, buckets, fallibility) {
                Ok(mut r) => {
                    let ghost made = r;
                    r.write_ctrl_bytes(EMPTY);
                    proof {
                        law_change_keeps_block(made, r, made.allocator, table_layout);
                        r.lemma_bounds();
                        crate::ctrl::lemma_all_empty(r.ctrl_bytes(), r.n());
                    }
                    Ok(r)
                },
                Err(error) => Err(error),
            }
        }
    }

    /// The bucket for a new item with the given hash: the first one, in the order in which
    /// the groups are visited, that is empty or deleted.
    pub fn find_insert_slot(&self, hash: u64) -> (r: usize)
        requires
            self.ctrl_wf(),
            self.has_room(),
        ensures
            crate::ctrl::is_insert_slot(
                self.ctrl_bytes(),
                self.n(),
                crate::hash::low_bits(hash) as int,
                r as int,
            ),
            r < self.n(),
            crate::control_bytes::is_special(self.ctrl_bytes()[r as int]),
    {
        let ghost start = crate::hash::low_bits(hash) as int;
        let ghost n = self.n();
        let ghost bytes = self.ctrl_bytes();
        let mut probe_seq: ProbeSequence = self.probe_seq(hash);
        let ghost mut k: int = 0;
        proof {
            self.lemma_bounds();
        }
        loop
            invariant
                self.ctrl_wf(),
                self.has_room(),
                n == self.n(),
                bytes == self.ctrl_bytes(),
                start == crate::hash::low_bits(hash) as int,
                bytes.len() == crate::ctrl::ctrl_len(n),
                2 * n <= usize::MAX + 1,
                n + Group::WIDTH <= usize::MAX,
                0 <= k,
                k == 0 || k < n / (Group::WIDTH as int),
                probe_seq.is_at(start, self.bucket_mask, k),
                crate::ctrl::groups_full(bytes, n, start, k),
            decreases n - k,
        {
            proof {
                crate::probe::lemma_probe_pos_bounds(start, n, k);
            }
            let group: Group = self.load_group(probe_seq.pos);
            let ghost pos = probe_seq.pos as int;
            assert(forall|o: int|
                0 <= o < Group::WIDTH ==> #[trigger] bytes[pos + o] == group.bytes@[o]);
            let special = group.match_empty_or_deleted();
            match special.lowest_set_bit() {
                Some(bit) => {
                    let result: usize = (probe_seq.pos + bit) & self.bucket_mask;
                    proof {
                        crate::math::lemma_mask_is_mod(
                            (probe_seq.pos + bit) as usize,
                            self.bucket_mask,
                        );
                        assert forall|j: int| 0 <= j < bit implies crate::control_bytes::is_full(
                            #[trigger] bytes[pos + j],
                        ) by {
                            assert(!special.has(j));
                        }
                        assert(special.has(bit as int));
                        assert(bytes[pos + bit] == group.bytes@[bit as int]);
                        assert(crate::ctrl::first_special(bytes, pos, bit as int));
                    }
                    // In a table smaller than a group, the bytes behind the last bucket are
                    // empty. They match, and masked they may name a bucket that is full. A
                    // second scan, from the beginning of the table, then finds a bucket.
                    if crate::hint::unlikely(
                        crate::control_bytes::is_control_byte_full(self.ctrl_byte(result)),
                    ) {
                        let first: Group = self.load_group(0);
                        let candidates = first.match_empty_or_deleted();
                        proof {
                            assert(forall|o: int|
                                0 <= o < Group::WIDTH ==> #[trigger] bytes[0 + o]
                                    == first.bytes@[o]);
                            if n >= 16 {
                                crate::ctrl::lemma_byte_at(bytes, n, pos + bit);
                            }
                            let i = choose|i: int|
                                0 <= i < n && crate::control_bytes::is_special(
                                    #[trigger] bytes[i],
                                );
                            assert(bytes[0 + i] == first.bytes@[i]);
                            assert(candidates.has(i));
                        }
                        let r: usize = candidates.lowest_set_bit_nonzero();
                        proof {
                            assert forall|j: int|
                                0 <= j < r implies crate::control_bytes::is_full(
                                #[trigger] bytes[0 + j],
                            ) by {
                                assert(!candidates.has(j));
                            }
                            assert(candidates.has(r as int));
                            assert(bytes[0 + r] == first.bytes@[r as int]);
                            assert(crate::ctrl::first_special(bytes, 0, r as int));
                            assert(crate::ctrl::offers(bytes, n, pos, r as int));
                            assert(crate::ctrl::is_insert_slot(bytes, n, start, r as int));
                            crate::ctrl::lemma_insert_slot_is_special(bytes, n, start, r as int);
                        }
                        return r;
                    }
                    proof {
                        assert(crate::ctrl::offers(bytes, n, pos, result as int));
                        assert(crate::ctrl::is_insert_slot(bytes, n, start, result as int));
                        crate::ctrl::lemma_insert_slot_is_special(bytes, n, start, result as int);
                    }
                    return result;
                },
                None => {
                    proof {
                        assert forall|o: int|
                            0 <= o < Group::WIDTH implies crate::control_bytes::is_full(
                            #[trigger] bytes[pos + o],
                        ) by {
                            assert(!special.has(o));
                        }
                        assert(crate::ctrl::no_special(bytes, pos));
                        assert(crate::ctrl::groups_full(bytes, n, start, k + 1));
                        if n < 16 {
                            assert(crate::ctrl::is_padding(n, pos + (15 - pos)));
                            assert(crate::control_bytes::is_full(bytes[pos + (15 - pos)]));
                            assert(false);
                        }
                        // the walk gets to every bucket, so not every group was visited yet
                        let i = choose|i: int|
                            0 <= i < n && crate::control_bytes::is_special(#[trigger] bytes[i]);
                        let l = crate::probe::law_probe_visits_every_bucket(start, n, i);
                        if l <= k {
                            let p = crate::probe::probe_pos(start, n, l);
                            crate::probe::lemma_probe_pos_bounds(start, n, l);
                            crate::ctrl::lemma_covers_is_window(n, p, i);
                            let o = choose|o: int| crate::ctrl::holds_at(n, p, o, i);
                            crate::ctrl::lemma_byte_at(bytes, n, p + o);
                            assert(crate::ctrl::no_special(bytes, p));
                            assert(crate::control_bytes::is_full(bytes[p + o]));
                            assert(false);
                        }
                    }
                },
            }
            probe_seq.move_to_next(self.bucket_mask);
            proof {
                k = k + 1;
            }
        }
    }

    /// Finds the bucket for a new item with the given hash and marks it as full. Returns the
    /// bucket and the control byte that it had.
    pub fn prepare_insert_slot(&mut self, hash: u64) -> (r: (usize, u8))
        requires
            old(self).ctrl_wf(),
            old(self).n() > 1,
            old(self).has_room(),
        ensures
            crate::ctrl::is_insert_slot(
                old(self).ctrl_bytes(),
                old(self).n(),
                crate::hash::low_bits(hash) as int,
                r.0 as int,
            ),
            final(self).is_prepared(*old(self), r.0 as int, r.1, hash),
            final(self).ctrl_wf(),
            forall|pending: int|
                pending > 0 && #[trigger] old(self).awaits(pending) ==> final(self).awaits(
                    pending - 1,
                ),
    {
        let index: usize = self.find_insert_slot(hash);
        let old_ctrl: u8 = self.ctrl_byte(index);
        self.set_ctrl_h2_of(index, hash);
        proof {
            crate::ctrl::lemma_counts_with_byte(
                old(self).ctrl_bytes(),
                old(self).n(),
                index as int,
                crate::hash::top_seven(hash),
            );
        }
        (index, old_ctrl)
    }

    /// Turns all full control bytes into deleted ones, and all special ones into empty ones,
    /// which frees the table of tombstones.
    pub fn prepare_rehash_in_place(&mut self)
        requires
            old(self).ctrl_wf(),
            old(self).n() > 1,
        ensures
            final(self).same_but_ctrl(*old(self)),
            final(self).ctrl_wf(),
            forall|i: int|
                0 <= i < old(self).n() ==> #[trigger] final(self).ctrl_bytes()[i]
                    == crate::group::converted(old(self).ctrl_bytes()[i]),
            crate::ctrl::count_full(final(self).ctrl_bytes(), old(self).n()) == 0,
            crate::ctrl::count_deleted(final(self).ctrl_bytes(), old(self).n())
                == crate::ctrl::count_full(old(self).ctrl_bytes(), old(self).n()),
    {
        let ghost n = self.n();
        let ghost base = self.ctrl as int;
        let ghost before = self.block@;
        let ghost old_bytes = self.ctrl_bytes();
        proof {
            self.lemma_bounds();
            crate::math::lemma_small_powers();
            if n >= 16 {
                crate::math::lemma_pow2_divides(16, n);
            }
        }
        let buckets: usize = self.buckets();
        let mut i: usize = 0;
        while i < buckets
            invariant
                self.bucket_mask == old(self).bucket_mask,
                self.ctrl == old(self).ctrl,
                self.growth_left == old(self).growth_left,
                self.items == old(self).items,
                self.allocator == old(self).allocator,
                self.block.len() == before.len(),
                before == old(self).block@,
                base == self.ctrl,
                base % 16 == 0,
                n == self.n(),
                buckets == n,
                n > 1,
                n + 16 <= usize::MAX,
                base + n + 16 == before.len(),
                n >= 16 ==> n % 16 == 0,
                i % 16 == 0,
                i <= n || i == 16,
                forall|p: int|
                    0 <= p < before.len() ==> #[trigger] self.block@[p] == if base <= p < base
                        + i {
                        crate::group::converted(before[p])
                    } else {
                        before[p]
                    },
            decreases n + 16 - i,
        {
            let pos: usize = self.ctrlof(i);
            let group: Group = Group::load_aligned(&self.block, pos);
            let group: Group = group.transform_full_to_deleted_and_special_to_empty();
            group.store_aligned(&mut self.block, pos);
            i = i + Group::WIDTH;
        }
        let ghost middle = self.block@;
        // now mend the copies
        let (shift, len): (usize, usize) = if buckets < Group::WIDTH {
            (Group::WIDTH, buckets)
        } else {
            (buckets, Group::WIDTH)
        };
        let mut j: usize = 0;
        while j < len
            invariant
                self.bucket_mask == old(self).bucket_mask,
                self.ctrl == old(self).ctrl,
                self.growth_left == old(self).growth_left,
                self.items == old(self).items,
                self.allocator == old(self).allocator,
                self.block.len() == before.len(),
                middle.len() == before.len(),
                base == self.ctrl,
                base + n + 16 == before.len(),
                shift + len == n + 16,
                len <= shift,
                j <= len,
                forall|p: int|
                    0 <= p < before.len() ==> #[trigger] self.block@[p] == if base + shift <= p
                        < base + shift + j {
                        middle[p - shift]
                    } else {
                        middle[p]
                    },
            decreases len - j,
        {
            let from: usize = self.ctrlof(j);
            let to: usize = self.ctrlof(shift + j);
            self.block[to] = self.block[from];
            j = j + 1;
        }
        proof {
            let bytes = self.ctrl_bytes();
            assert(self.block@.take(base) =~= before.take(base));
            assert forall|i: int| 0 <= i < n implies #[trigger] bytes[i] == crate::group::converted(
                old_bytes[i],
            ) by {
                assert(self.block@[base + i] == middle[base + i]);
            }
            assert forall|i: int| 0 <= i < n implies bytes[#[trigger] crate::ctrl::mirror(n, i)]
                == bytes[i] by {
                crate::ctrl::lemma_mirror(n, i);
                assert(bytes[i] == self.block@[base + i]);
                assert(bytes[crate::ctrl::mirror(n, i)] == self.block@[base + crate::ctrl::mirror(
                    n,
                    i,
                )]);
            }
            assert forall|p: int| crate::ctrl::is_padding(n, p) implies #[trigger] bytes[p]
                == EMPTY by {
                assert(old_bytes[p] == EMPTY);
                assert(bytes[p] == self.block@[base + p]);
                assert(middle[base + p] == crate::group::converted(before[base + p]));
            }
            assert forall|p: int| 0 <= p < bytes.len() implies crate::control_bytes::is_valid(
                #[trigger] bytes[p],
            ) by {
                if !crate::ctrl::is_padding(n, p) {
                    crate::ctrl::lemma_position(n, p);
                    assert(bytes[p] == bytes[p % n]);
                    assert(bytes[p % n] == crate::group::converted(old_bytes[p % n]));
                }
            }
            let full = |c: u8| crate::control_bytes::is_full(c);
            let deleted = |c: u8| c == DELETED;
            crate::ctrl::lemma_count_bounds(bytes.take(n), full);
            assert forall|j: int| 0 <= j < n implies full(#[trigger] old_bytes.take(n)[j]) == deleted(
                bytes.take(n)[j],
            ) by {
                assert(bytes[j] == crate::group::converted(old_bytes[j]));
            }
            crate::ctrl::lemma_count_same(old_bytes.take(n), bytes.take(n), full, deleted);
        }
    }

    /// The position behind the last item, which is where the control bytes start.
    pub fn data_terminal_ptr(&self) -> (r: usize)
        ensures
            r == self.ctrl,
    {
        self.ctrl
    }

    /// The bucket with the given number.
    pub fn get_bucket<T>(&self, index: usize) -> (r: Bucket<T>)
        requires
            vstd::layout::size_of::<T>() == 0 ==> index < usize::MAX,
            index * vstd::layout::size_of::<T>() <= self.ctrl,
        ensures
            r.is_at(self.ctrl as int, index as int),
            r.belongs_to(self.ctrl as int),
            r.index(self.ctrl as int) == index,
    {
        Bucket::from_base_index(self.data_terminal_ptr(), index)
    }

    /// Counts a new item in bucket `index`, whose control byte was `old_ctrl`.
    pub fn record_item_insert_at(&mut self, index: usize, old_ctrl: u8, hash: u64)
        requires
            old(self).shape(),
            old(self).n() > 1,
            index < old(self).n(),
            old(self).items < usize::MAX,
            old_ctrl % 2 == 1 ==> old(self).growth_left > 0,
        ensures
            final(self).same_block(*old(self)),
            final(self).items == old(self).items + 1,
            final(self).growth_left == old(self).growth_left - (old_ctrl % 2),
            final(self).shape(),
            final(self).ctrl_bytes() == crate::ctrl::with_byte(
                old(self).ctrl_bytes(),
                old(self).n(),
                index as int,
                crate::hash::top_seven(hash),
            ),
            old(self).ctrl_wf() ==> final(self).ctrl_wf(),
            old(self).wf() && old_ctrl == old(self).ctrl_bytes()[index as int]
                && crate::control_bytes::is_special(old_ctrl) ==> final(self).wf(),
            forall|before: LowTable<A>|
                before.wf() && #[trigger] old(self).is_prepared(
                    before,
                    index as int,
                    old_ctrl,
                    hash,
                ) ==> final(self).wf(),
    {
        if crate::control_bytes::is_special_empty(old_ctrl) {
            self.growth_left = self.growth_left - 1;
        }
        self.set_ctrl_h2_of(index, hash);
        self.items = self.items + 1;
        proof {
            if old(self).ctrl_wf() {
                crate::ctrl::lemma_counts_with_byte(
                    old(self).ctrl_bytes(),
                    old(self).n(),
                    index as int,
                    crate::hash::top_seven(hash),
                );
            }
            assert forall|before: LowTable<A>|
                before.wf() && #[trigger] old(self).is_prepared(
                    before,
                    index as int,
                    old_ctrl,
                    hash,
                ) implies self.wf() by {
                law_prepared_insert_keeps_order(
                    before,
                    *old(self),
                    *self,
                    index as int,
                    old_ctrl,
                    hash,
                );
            }
        }
    }

    /// How many groups bucket `index` lies behind `pos`.
    fn probe_index(&self, pos: usize, index: usize) -> (r: usize)
        requires
            vstd::arithmetic::power2::is_pow2(self.n()),
            self.bucket_mask < usize::MAX,
        ensures
            r == ((index - pos) % self.n()) / (Group::WIDTH as int),
    {
        proof {
            crate::math::lemma_wrapping_sub_mask(index, pos, self.bucket_mask);
        }
        (index.wrapping_sub(pos) & self.bucket_mask) / Group::WIDTH
    }

    /// Whether the buckets `idx` and `new_idx` belong to the same group for the given hash.
    pub fn is_in_same_group(&self, idx: usize, new_idx: usize, hash: u64) -> (r: bool)
        requires
            vstd::arithmetic::power2::is_pow2(self.n()),
            self.bucket_mask < usize::MAX,
        ensures
            r == (((idx - crate::hash::low_bits(hash)) % self.n()) / (Group::WIDTH as int) == ((
            new_idx - crate::hash::low_bits(hash)) % self.n()) / (Group::WIDTH as int)),
    {
        let probe_seq_pos: usize = self.probe_seq(hash).pos;
        proof {
            let n = self.n();
            let start = crate::hash::low_bits(hash) as int;
            crate::math::lemma_mask_is_mod(crate::hash::low_bits(hash), self.bucket_mask);
            vstd::arithmetic::div_mod::lemma_sub_mod_noop(idx as int, start, n);
            vstd::arithmetic::div_mod::lemma_sub_mod_noop(idx as int, start % n, n);
            vstd::arithmetic::div_mod::lemma_sub_mod_noop(new_idx as int, start, n);
            vstd::arithmetic::div_mod::lemma_sub_mod_noop(new_idx as int, start % n, n);
            vstd::arithmetic::div_mod::lemma_mod_twice(start, n);
        }
        self.probe_index(probe_seq_pos, idx) == self.probe_index(probe_seq_pos, new_idx)
    }

    /// Marks bucket `index` as full with an item of the given hash, and returns the control
    /// byte that it had.
    pub fn update_ctrl_h2_of(&mut self, index: usize, hash: u64) -> (r: u8)
        requires
            old(self).shape(),
            old(self).n() > 1,
            index < old(self).n(),
        ensures
            r == old(self).ctrl_bytes()[index as int],
            final(self).same_but_ctrl(*old(self)),
            final(self).shape(),
            final(self).ctrl_bytes() == crate::ctrl::with_byte(
                old(self).ctrl_bytes(),
                old(self).n(),
                index as int,
                crate::hash::top_seven(hash),
            ),
            old(self).ctrl_wf() ==> final(self).ctrl_wf(),
    {
        let last_ctrl: u8 = self.ctrl_byte(index);
        self.set_ctrl_h2_of(index, hash);
        last_ctrl
    }

    /// What a table owes its allocator: the allocation, and the layout that it was made with.
    pub fn into_allocation(self, table_layout: TableLayout) -> (r: (A, Vec<u8>, Layout))
        requires
            self.owns_allocation(table_layout),
        ensures
            r.0 == self.allocator,
            r.1 == self.block,
            r.2 == table_layout.layout(self.n()),
            r.1@.len() == r.2.size,
    {
        let layout: Layout = match table_layout.calculate_layout_for(self.buckets()) {
            Some((layout, _)) => layout,
            None => unreached(),
        };
        (self.allocator, self.block, layout)
    }

    /// Gives the allocation back, without dropping the items. What remains of the table is its
    /// allocator.
    pub fn free_buckets(self, table_layout: TableLayout) -> (r: A)
        requires
            self.owns_allocation(table_layout),
        ensures
            r == self.allocator,
            crate::mapalloc::taken_back(self.allocator, self.block, table_layout.layout(self.n())),
    {
        let (allocator, block, layout): (A, Vec<u8>, Layout) = self.into_allocation(table_layout);
        allocator.deallocate(block, layout);
        allocator
    }

    /// Gets ready for moving the items to a table that may hold `capacity` of them: the new
    /// table counts the items of this one, and has no bucket in use yet. The guard sees to the
    /// new table's allocation if it comes to nothing.
    pub fn prepare_resize(
        &self,
        table_layout: TableLayout,
        capacity: usize,
        fallibility: Fallibility,
    ) -> (r: Result<ScopeGuard<A>, TryReserveError>)
        requires
            table_layout.wf(),
            fallibility is Infallible ==> capacity_fits(table_layout, capacity as int),
            self.items <= if capacity == 0 {
                0
            } else {
                crate::capacity::max_items(crate::capacity::buckets_for(capacity as int) - 1)
            },
        ensures
            r == Err::<ScopeGuard<A>, TryReserveError>(TryReserveError::CapacityOverflow)
                <==> !capacity_fits(table_layout, capacity as int),
            capacity == 0 ==> r is Ok,
            r matches Err(TryReserveError::AllocatorError { layout }) ==> {
                &&& layout == table_layout.layout(crate::capacity::buckets_for(capacity as int))
                &&& too_large(layout) || exists|allocator: A| #[trigger]
                    cloned(self.allocator, allocator) && crate::mapalloc::refused(allocator, layout)
            },
            r matches Ok(guard) ==> {
                &&& guard.wf()
                &&& guard.table_layout == table_layout
                &&& guard.value.awaits(self.items as int)
                &&& guard.value.items == self.items
                &&& forall|p: int|
                    0 <= p < guard.value.ctrl_bytes().len()
                        ==> #[trigger] guard.value.ctrl_bytes()[p] == EMPTY
                &&& cloned(self.allocator, guard.value.allocator)
                &&& capacity > 0 ==> {
                    &&& !too_large(table_layout.layout(guard.value.n()))
                    &&& guard.value.stands_on_block(guard.value.allocator, table_layout)
                }
                &&& guard.value.n() == if capacity == 0 {
                    1
                } else {
                    crate::capacity::buckets_for(capacity as int)
                }
            },
    {
        let allocator: A = self.allocator.clone();
        let ghost copy = allocator;
        assert(cloned(self.allocator, copy));
        match LowTable::fallible_with_capacity(allocator, table_layout, capacity, fallibility) {
            Ok(mut new_table) => {
                let ghost made = new_table;
                new_table.growth_left = new_table.growth_left - self.items;
                new_table.items = self.items;
                proof {
                    made.lemma_bounds();
                    assert(new_table.ctrl_bytes() == made.ctrl_bytes());
                    assert forall|p: int|
                        0 <= p < new_table.ctrl_bytes().len()
                            implies #[trigger] new_table.ctrl_bytes()[p] == EMPTY by {
                        assert(made.ctrl_bytes()[p] == EMPTY);
                    }
                    crate::ctrl::lemma_all_empty(new_table.ctrl_bytes(), new_table.n());
                }
                Ok(ScopeGuard::new(new_table, table_layout))
            },
            Err(error) => Err(error),
        }
    }

    /// Makes the table empty, without dropping the items.
    pub fn clear_no_drop(&mut self)
        requires
            old(self).shape(),
        ensures
            final(self).same_block(*old(self)),
            final(self).is_blank(),
            final(self).wf(),
    {
        proof {
            self.lemma_bounds();
        }
        if !self.is_empty_singleton() {
            self.write_ctrl_bytes(EMPTY);
        }
        let ghost written = *self;
        self.items = 0;
        self.growth_left = crate::capacity::bucket_mask_to_capacity(self.bucket_mask);
        proof {
            self.lemma_bounds();
            assert(self.ctrl_bytes() == written.ctrl_bytes());
            assert forall|p: int|
                0 <= p < self.ctrl_bytes().len() implies #[trigger] self.ctrl_bytes()[p]
                == EMPTY by {
                assert(written.ctrl_bytes()[p] == EMPTY);
            }
            crate::ctrl::lemma_all_empty(self.ctrl_bytes(), self.n());
        }
    }

    /// Removes the item in bucket `index` from the table, without dropping it.
    pub fn erase(&mut self, index: usize)
        requires
            old(self).can_erase(index as int),
        ensures
            final(self).same_block(*old(self)),
            final(self).items == old(self).items - 1,
            final(self).growth_left == old(self).growth_left + if crate::ctrl::crowded(
                old(self).ctrl_bytes(),
                old(self).n(),
                index as int,
            ) {
                0int
            } else {
                1
            },
            final(self).ctrl_bytes() == crate::ctrl::with_byte(
                old(self).ctrl_bytes(),
                old(self).n(),
                index as int,
                crate::ctrl::byte_after_erase(
                    old(self).ctrl_bytes(),
                    old(self).n(),
                    index as int,
                ),
            ),
            final(self).ctrl_wf(),
            old(self).wf() ==> final(self).wf(),
    {
        let ghost n = self.n();
        let ghost bytes = self.ctrl_bytes();
        proof {
            self.lemma_bounds();
            crate::math::lemma_wrapping_sub_mask(index, Group::WIDTH, self.bucket_mask);
            crate::ctrl::lemma_counts(bytes, n);
            crate::capacity::law_capacity_leaves_a_bucket_free(n);
            vstd::arithmetic::div_mod::lemma_mod_bound(index - 16, n);
        }
        let last_idx: usize = index.wrapping_sub(Group::WIDTH) & self.bucket_mask;
        let before: Group = self.load_group(last_idx);
        let after: Group = self.load_group(index);
        let empty_before = before.match_empty();
        let empty_after = after.match_empty();
        let run_before: usize = empty_before.leading_zeros();
        let run_after: usize = empty_after.trailing_zeros();
        proof {
            assert(forall|t: int|
                0 <= t < 16 ==> #[trigger] bytes[last_idx + t] == before.bytes@[t]);
            assert(forall|t: int| 0 <= t < 16 ==> #[trigger] bytes[index + t] == after.bytes@[t]);
            lemma_runs(
                bytes,
                n,
                index as int,
                empty_before,
                empty_after,
                run_before as int,
                run_after as int,
            );
        }
        let new_ctrl: u8 = if run_before + run_after >= Group::WIDTH {
            DELETED
        } else {
            self.growth_left = self.growth_left + 1;
            EMPTY
        };
        self.set_ctrlof(index, new_ctrl);
        self.items = self.items - 1;
        proof {
            crate::ctrl::lemma_counts_with_byte(bytes, n, index as int, new_ctrl);
        }
    }
}

/// The two runs of buckets that are not empty, before and from `i` on, add up to a group's
/// length exactly when the bucket is crowded.
proof fn lemma_runs(
    ctrl: Seq<u8>,
    n: int,
    i: int,
    before: crate::bitmask::Bitmask,
    after: crate::bitmask::Bitmask,
    run_before: int,
    run_after: int,
)
    requires
        0 <= run_before <= 16,
        0 <= run_after <= 16,
        forall|t: int|
            0 <= t < 16 ==> (#[trigger] before.has(t) <==> ctrl[(i - 16) % n + t] == EMPTY),
        forall|t: int| 0 <= t < 16 ==> (#[trigger] after.has(t) <==> ctrl[i + t] == EMPTY),
        forall|t: int| 16 - run_before <= t < 16 ==> !before.has(t),
        run_before < 16 ==> before.has(15 - run_before),
        forall|t: int| 0 <= t < run_after ==> !after.has(t),
        run_after < 16 ==> after.has(run_after),
    ensures
        crate::ctrl::crowded(ctrl, n, i) <==> run_before + run_after >= 16,
{
    let b = (i - 16) % n;
    if run_before + run_after >= 16 {
        let s = 16 - run_after;
        assert forall|t: int| 16 - s <= t < 16 implies #[trigger] ctrl[b + t] != EMPTY by {
            assert(!before.has(t));
        }
        assert forall|t: int| 0 <= t < 16 - s implies #[trigger] ctrl[i + t] != EMPTY by {
            assert(!after.has(t));
        }
        assert(crate::ctrl::crowded_by(ctrl, n, i, s));
    }
    if crate::ctrl::crowded(ctrl, n, i) {
        let s = choose|s: int| #[trigger] crate::ctrl::crowded_by(ctrl, n, i, s);
        if run_before < s {
            assert(ctrl[b + (15 - run_before)] != EMPTY);
        }
        if run_after < 16 - s {
            assert(ctrl[i + run_after] != EMPTY);
        }
    }
}

/// Marking the bucket for a new item and then counting the item keeps a table in order.
pub proof fn law_prepared_insert_keeps_order<A>(
    before: LowTable<A>,
    prepared: LowTable<A>,
    after: LowTable<A>,
    index: int,
    old_ctrl: u8,
    hash: u64,
)
    requires
        before.wf(),
        prepared.is_prepared(before, index, old_ctrl, hash),
        old_ctrl % 2 == 1 ==> before.growth_left > 0,
        after.same_block(prepared),
        after.items == prepared.items + 1,
        after.growth_left == prepared.growth_left - (old_ctrl % 2),
        after.ctrl_bytes() == crate::ctrl::with_byte(
            prepared.ctrl_bytes(),
            prepared.n(),
            index,
            crate::hash::top_seven(hash),
        ),
    ensures
        after.wf(),
{
    let n = before.n();
    let c = crate::hash::top_seven(hash);
    before.lemma_bounds();
    crate::ctrl::lemma_top_seven_is_full(hash);
    crate::ctrl::lemma_mirror(n, index);
    crate::ctrl::lemma_with_byte_wf(before.ctrl_bytes(), n, index, c);
    crate::ctrl::lemma_counts_with_byte(before.ctrl_bytes(), n, index, c);
    assert(after.ctrl_bytes() =~= prepared.ctrl_bytes());
    assert(crate::control_bytes::is_valid(old_ctrl));
}

/// Whatever is done to the control bytes, a table stands on the block that it stood on.
pub proof fn law_change_keeps_block<A: Allocator>(
    before: LowTable<A>,
    after: LowTable<A>,
    allocator: A,
    table_layout: TableLayout,
)
    requires
        after.same_block(before),
    ensures
        before.stands_on_block(allocator, table_layout) ==> after.stands_on_block(
            allocator,
            table_layout,
        ),
        before.owns_allocation(table_layout) ==> after.owns_allocation(table_layout),
{
    if before.stands_on_block(allocator, table_layout) {
        let block = choose|block: Vec<u8>| #[trigger]
            call_ensures(
                A::allocate,
                (&allocator, table_layout.layout(before.n())),
                Ok::<Vec<u8>, AllocError>(block),
            ) && before.block.len() == block.len() && before.block@.take(before.ctrl as int)
                == block@.take(before.ctrl as int);
        assert(call_ensures(
            A::allocate,
            (&allocator, table_layout.layout(after.n())),
            Ok::<Vec<u8>, AllocError>(block),
        ));
    }
}

/// A table straight from the allocator stands on the block that it was given.
pub proof fn law_new_table_stands_on_its_block<A: Allocator>(
    table: LowTable<A>,
    allocator: A,
    table_layout: TableLayout,
    buckets: int,
)
    requires
        table.is_over_block(allocator, table_layout, buckets),
    ensures
        table.stands_on_block(allocator, table_layout),
{
}

/// What a table gives back when it is freed is what its allocator had given for it: the layout
/// is the one that was asked for, and the block is as large as the one that was given and, in
/// front of the control bytes, holds what that one held. This goes for every number of buckets,
/// and for every table that stands on a block of its allocator.
pub proof fn law_what_was_allocated_is_given_back<A: Allocator>(
    table: LowTable<A>,
    table_layout: TableLayout,
) -> (given: Vec<u8>)
    requires
        table.owns_allocation(table_layout),
        table.stands_on_block(table.allocator, table_layout),
    ensures
        call_ensures(
            A::allocate,
            (&table.allocator, table_layout.layout(table.n())),
            Ok::<Vec<u8>, AllocError>(given),
        ),
        table.block@.len() == given@.len(),
        table.block@.len() == table_layout.layout(table.n()).size,
        table.block@.take(table.ctrl as int) == given@.take(table.ctrl as int),
{
    choose|block: Vec<u8>| #[trigger]
        call_ensures(
            A::allocate,
            (&table.allocator, table_layout.layout(table.n())),
            Ok::<Vec<u8>, AllocError>(block),
        ) && table.block.len() == block.len() && table.block@.take(table.ctrl as int)
            == block@.take(table.ctrl as int)
}

/// Buckets that `is_in_same_group` puts together are in the same groups of the walk, at every
/// step.
pub proof fn law_same_group_is_seen_together(n: int, start: int, i: int, j: int, k: int)
    requires
        vstd::arithmetic::power2::is_pow2(n),
        0 <= i < n,
        0 <= j < n,
        ((i - start) % n) / (Group::WIDTH as int) == ((j - start) % n) / (Group::WIDTH as int),
    ensures
        crate::ctrl::covers(n, crate::probe::probe_pos(start, n, k), i) <==> crate::ctrl::covers(
            n,
            crate::probe::probe_pos(start, n, k),
            j,
        ),
{
    let p = crate::probe::probe_pos(start, n, k);
    crate::probe::lemma_probe_pos_bounds(start, n, k);
    if n < 16 {
        crate::ctrl::lemma_small_covers(n, p, i);
        crate::ctrl::lemma_small_covers(n, p, j);
    } else {
        crate::ctrl::lemma_covers_is_window(n, p, i);
        crate::ctrl::lemma_covers_is_window(n, p, j);
        crate::probe::lemma_window_of_step(start, n, k, i);
        crate::probe::lemma_window_of_step(start, n, k, j);
    }
}

} // verus!
