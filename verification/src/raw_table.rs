//! A table of items of one type.

use vstd::prelude::*;
use core::mem::ManuallyDrop;
use crate::bucket::{Bucket, DataArea};
use crate::control_bytes::EMPTY;
use crate::group::Group;
use crate::iter::RawIterRange;
use crate::low_table::LowTable;
use crate::mapalloc::{AllocError, Allocator, Global};
use crate::reserve::{Fallibility, TryReserveError};
use crate::table_layout::TableLayout;

verus! {

/// A hashtable of items of type `T`. It keeps the items and their control bytes; hashing them,
/// and telling them apart, is left to those who use it.
pub struct RawTable<T, A: Allocator + Clone = Global> {
    /// the control bytes
    pub table: LowTable<A>,
    /// the items
    pub data: DataArea<T>,
}

impl<T, A: Allocator + Clone> RawTable<T, A> {
    /// There is a slot for each bucket, and the allocation is laid out for items of type `T`.
    pub open spec fn shape(self) -> bool {
        &&& self.table.shape()
        &&& self.table.allocated_for(TableLayout::of::<T>())
        &&& self.data.terminal == self.table.ctrl
        &&& self.table.n() > 1 ==> self.data.slots.len() == self.table.n()
        &&& self.table.n() == 1 ==> self.data.slots.len() == 0
        &&& TableLayout::of::<T>().size == vstd::layout::size_of::<T>()
    }

    /// The table is in order.
    pub open spec fn wf(self) -> bool {
        self.shape() && self.table.wf()
    }

    /// No slot holds an item.
    pub open spec fn holds_nothing(self) -> bool {
        forall|i: int| 0 <= i < self.data.slots@.len() ==> #[trigger] self.data.slots@[i] is None
    }

    /// The control bytes are such that their full buckets can be walked over: whole groups of
    /// them can be read, none behind the last bucket is that of a full one, and there is room
    /// for the items in front of them. A table without memory can be walked over, too.
    pub open spec fn walkable(self) -> bool {
        let n = self.table.n();
        let end = self.table.ctrl + crate::iter::whole_groups(n);
        if self.table.block@.len() == 0 {
            n == 1 && self.table.ctrl == 0
        } else {
            &&& self.table.bucket_mask < usize::MAX
            &&& self.table.ctrl % Group::WIDTH == 0
            &&& end <= self.table.block.len()
            &&& forall|p: int|
                self.table.ctrl + n <= p < end ==> !crate::control_bytes::is_full(
                    #[trigger] self.table.block@[p],
                )
            &&& n == 1 || n * vstd::layout::size_of::<T>() <= self.table.ctrl
        }
    }

    /// The room for the items of as many buckets as a table has lies in front of its control
    /// bytes.
    proof fn lemma_room(&self, index: int)
        requires
            self.shape(),
            0 <= index <= self.table.n(),
            self.table.n() > 1,
        ensures
            index * vstd::layout::size_of::<T>() <= self.table.ctrl,
            index < usize::MAX,
    {
        let layout = TableLayout::of::<T>();
        let size = vstd::layout::size_of::<T>() as int;
        let n = self.table.n();
        crate::table_layout::law_ctrl_bytes_follow_items(layout, n);
        assert(index * size <= size * n) by (nonlinear_arith)
            requires
                0 <= index <= n,
                size >= 0,
        ;
    }

    /// The full buckets of a table whose control bytes are in order can be walked over.
    pub proof fn law_ordered_bytes_can_be_walked(self)
        requires
            self.shape(),
            self.table.ctrl_wf(),
        ensures
            self.walkable(),
    {
        let n = self.table.n();
        let c = self.table.ctrl as int;
        let bytes = self.table.ctrl_bytes();
        let e = crate::math::lemma_pow2_exponent(n);
        crate::math::lemma_small_powers();
        crate::math::lemma_pow2_at_most_half(n);
        if n >= 16 {
            crate::math::lemma_pow2_divides(16, n);
        }
        assert forall|p: int|
            c + n <= p < c + crate::iter::whole_groups(n) implies !crate::control_bytes::is_full(
            #[trigger] self.table.memory()[p],
        ) by {
            assert(crate::ctrl::is_padding(n, p - c));
            assert(bytes[p - c] == EMPTY);
        }
        if n > 1 {
            self.lemma_room(n);
        }
    }

    /// The full buckets of a table in order can be walked over; the walk takes a step for each
    /// item.
    pub proof fn law_table_can_be_walked(self)
        requires
            self.wf(),
        ensures
            self.walkable(),
            crate::iter::full_positions(
                self.table.memory(),
                self.table.ctrl as int,
                self.table.ctrl + self.table.n(),
            ).len() == self.table.items,
    {
        let n = self.table.n();
        let c = self.table.ctrl as int;
        let e = crate::math::lemma_pow2_exponent(n);
        self.law_ordered_bytes_can_be_walked();
        crate::iter::law_walk_counts_full_buckets(self.table.memory(), c, c + n);
        assert(self.table.memory().subrange(c, c + n) =~= self.table.ctrl_bytes().take(n));
    }

    /// A walk over the full buckets of the table, or `None` for a table whose control bytes
    /// were not set yet in such a way that there can be one.
    pub fn walk(&self) -> (r: Option<RawIterRange<'_, T>>)
        ensures
            r is Some <==> self.walkable(),
            r matches Some(walk) ==> {
                &&& walk.wf()
                &&& walk.block@ == self.table.block@
                &&& walk.data.is_at(self.table.ctrl as int, 0)
                &&& walk.next_ctrl_ptr == self.table.ctrl + Group::WIDTH
                &&& walk.end_of_alloc == self.table.ctrl + self.table.n()
                &&& walk.remaining() == crate::iter::full_positions(
                    self.table.memory(),
                    self.table.ctrl as int,
                    self.table.ctrl + self.table.n(),
                )
                &&& forall|p: int| #[trigger]
                    walk.ptr_of(p) == crate::iter::ptr_at_distance::<T>(
                        walk.data.ptr as int,
                        p - self.table.ctrl,
                    )
            },
    {
        let ctrl: usize = self.table.ctrl;
        let len: usize = self.table.block.len();
        if self.table.bucket_mask == usize::MAX {
            return None;
        }
        let n: usize = self.buckets();
        if len == 0 {
            if n != 1 || ctrl != 0 {
                return None;
            }
            let first: Bucket<T> = Bucket::from_base_index(0, 0);
            proof {
                crate::iter::law_full_positions(self.table.memory(), 0, 1);
                let s = crate::iter::full_positions(self.table.memory(), 0, 1);
                if s.len() > 0 {
                    assert(s.contains(s[0]));
                    assert(crate::control_bytes::is_full(self.table.memory()[s[0]]));
                }
                assert(s =~= Seq::empty());
            }
            return Some(RawIterRange::over_nothing(&self.table.block, first));
        }
        // behind the last bucket, up to the end of its group
        let pad: usize = if n < Group::WIDTH {
            Group::WIDTH - n
        } else if n % Group::WIDTH == 0 {
            0
        } else {
            Group::WIDTH - n % Group::WIDTH
        };
        proof {
            crate::iter::lemma_whole_groups(n as int);
        }
        if ctrl % Group::WIDTH != 0 || len < ctrl || len - ctrl < n || len - ctrl - n < pad {
            return None;
        }
        let mut i: usize = 0;
        while i < pad
            invariant
                i <= pad,
                ctrl == self.table.ctrl,
                n == self.table.n(),
                ctrl + n + pad <= self.table.block.len(),
                pad == crate::iter::whole_groups(n as int) - n,
                forall|p: int|
                    ctrl + n <= p < ctrl + n + i ==> !crate::control_bytes::is_full(
                        #[trigger] self.table.block@[p],
                    ),
            decreases pad - i,
        {
            if crate::control_bytes::is_control_byte_full(self.table.block[ctrl + n + i]) {
                return None;
            }
            i = i + 1;
        }
        if n > 1 {
            match n.checked_mul(core::mem::size_of::<T>()) {
                None => return None,
                Some(size) => {
                    if size > ctrl {
                        return None;
                    }
                },
            }
        }
        let first: Bucket<T> = Bucket::from_base_index(ctrl, 0);
        proof {
            let f = |p: int| crate::control_bytes::is_full(self.table.block@[p]);
            if vstd::layout::size_of::<T>() == 0 || n > 1 {
                crate::iter::lemma_room_all::<T>(first.ptr as int, ctrl as int, ctrl + n, f);
            }
        }
        Some(RawIterRange::new(&self.table.block, ctrl, first, n))
    }

    /// The table around control bytes that have no items yet.
    fn around(table: LowTable<A>) -> (r: Self)
        requires
            table.bucket_mask < usize::MAX,
            TableLayout::of::<T>().size == vstd::layout::size_of::<T>(),
        ensures
            r.table == table,
            r.data.terminal == table.ctrl,
            r.data.slots.len() == if table.n() == 1 {
                0
            } else {
                table.n()
            },
            table.shape() && table.allocated_for(TableLayout::of::<T>()) ==> r.shape(),
            r.holds_nothing(),
    {
        let len: usize = if table.is_empty_singleton() {
            0
        } else {
            table.buckets()
        };
        let mut slots: Vec<Option<ManuallyDrop<T>>> = Vec::new();
        while slots.len() < len
            invariant
                slots.len() <= len,
                forall|i: int| 0 <= i < slots@.len() ==> #[trigger] slots@[i] is None,
            decreases len - slots.len(),
        {
            slots.push(None);
        }
        let terminal: usize = table.data_terminal_ptr();
        RawTable { table, data: DataArea { terminal, slots } }
    }

    /// An empty table without memory, which will get it from `allocator`.
    pub fn new_in(allocator: A) -> (r: Self)
        ensures
            r.table.block@.len() == 0,
            r.data.slots@.len() == 0,
            r.wf(),
            r.table.n() == 1,
            r.table.is_blank(),
            r.table.allocator == allocator,
            r.holds_nothing(),
    {
        vstd::layout::layout_for_type_is_valid::<T>();
        RawTable::around(LowTable::new_in(allocator))
    }

    /// A table with an allocation for `buckets` buckets. The control bytes are whatever the
    /// memory holds.
    pub fn raw_new_uinit(allocator: A, buckets: usize, fallibility: Fallibility) -> (r: Result<
        Self,
        TryReserveError,
    >)
        requires
            buckets >= 1,
            fallibility is Infallible ==> TableLayout::of::<T>().fits(buckets as int),
        ensures
            r == Err::<Self, TryReserveError>(TryReserveError::CapacityOverflow)
                <==> !TableLayout::of::<T>().fits(buckets as int),
            r matches Err(TryReserveError::AllocatorError { layout }) ==> {
                &&& layout == TableLayout::of::<T>().layout(buckets as int)
                &&& crate::low_table::too_large(layout) || crate::mapalloc::refused(
                    allocator,
                    layout,
                )
            },
            r matches Ok(t) ==> {
                &&& vstd::arithmetic::power2::is_pow2(buckets as int) && buckets > 1 ==> t.shape()
                &&& t.table.is_over_block(allocator, TableLayout::of::<T>(), buckets as int)
                &&& t.data.terminal == t.table.ctrl
                &&& t.data.slots.len() == if buckets == 1 {
                    0
                } else {
                    buckets as int
                }
                &&& !crate::low_table::too_large(TableLayout::of::<T>().layout(buckets as int))
                &&& t.table.items == 0
                &&& t.table.growth_left == crate::capacity::max_items(buckets - 1)
                &&& t.holds_nothing()
            },
    {
        match LowTable::new_uinit(allocator, TableLayout::new::<T>(), buckets, fallibility) {
            Ok(table) => Ok(RawTable::around(table)),
            Err(error) => Err(error),
        }
    }

    /// An empty table that may hold `capacity` items, or the reason why there is none.
    pub fn fallible_with_capacity(
        allocator: A,
        capacity: usize,
        fallibility: Fallibility,
    ) -> (r: Result<Self, TryReserveError>)
        requires
            fallibility is Infallible ==> crate::low_table::capacity_fits(
                TableLayout::of::<T>(),
                capacity as int,
            ),
        ensures
            r == Err::<Self, TryReserveError>(TryReserveError::CapacityOverflow)
                <==> !crate::low_table::capacity_fits(TableLayout::of::<T>(), capacity as int),
            capacity == 0 ==> (r matches Ok(t) && t.table.n() == 1),
            r matches Err(TryReserveError::AllocatorError { layout }) ==> {
                &&& layout == TableLayout::of::<T>().layout(
                    crate::capacity::buckets_for(capacity as int),
                )
                &&& crate::low_table::too_large(layout) || crate::mapalloc::refused(
                    allocator,
                    layout,
                )
            },
            r matches Ok(t) ==> {
                &&& t.wf()
                &&& t.table.is_blank()
                &&& t.table.allocator == allocator
                &&& t.table.growth_left >= capacity
                &&& capacity > 0 ==> {
                    &&& t.table.n() == crate::capacity::buckets_for(capacity as int)
                    &&& !crate::low_table::too_large(TableLayout::of::<T>().layout(t.table.n()))
                    &&& t.table.stands_on_block(allocator, TableLayout::of::<T>())
                }
                &&& t.holds_nothing()
            },
    {
        match LowTable::fallible_with_capacity(
            allocator,
            TableLayout::new::<T>(),
            capacity,
            fallibility,
        ) {
            Ok(table) => {
                proof {
                    crate::math::lemma_pow2_at_most_half(table.n());
                }
                Ok(RawTable::around(table))
            },
            Err(error) => Err(error),
        }
    }

    /// An empty table that may hold `capacity` items. The only error that it comes to is that
    /// of an allocator without memory; capacities that are too large are not to be asked for.
    pub fn with_capacity_in(capacity: usize, allocator: A) -> (r: Result<Self, TryReserveError>)
        requires
            crate::low_table::capacity_fits(TableLayout::of::<T>(), capacity as int),
        ensures
            capacity == 0 ==> (r matches Ok(t) && t.table.n() == 1),
            r matches Err(error) ==> {
                let layout = TableLayout::of::<T>().layout(
                    crate::capacity::buckets_for(capacity as int),
                );
                &&& error == (TryReserveError::AllocatorError { layout })
                &&& crate::low_table::too_large(layout) || crate::mapalloc::refused(
                    allocator,
                    layout,
                )
            },
            r matches Ok(t) ==> {
                &&& t.wf()
                &&& t.table.is_blank()
                &&& t.table.allocator == allocator
                &&& t.table.growth_left >= capacity
                &&& capacity > 0 ==> {
                    &&& t.table.n() == crate::capacity::buckets_for(capacity as int)
                    &&& !crate::low_table::too_large(TableLayout::of::<T>().layout(t.table.n()))
                    &&& t.table.stands_on_block(allocator, TableLayout::of::<T>())
                }
                &&& t.holds_nothing()
            },
    {
        RawTable::fallible_with_capacity(allocator, capacity, Fallibility::Infallible)
    }

    /// The allocator of the table.
    pub fn allocator(&self) -> (r: &A)
        ensures
            *r == self.table.allocator,
    {
        &self.table.allocator
    }

    /// Gives the allocation back, without dropping the items. What remains of the table is its
    /// allocator.
    pub fn free_buckets(self) -> (r: A)
        requires
            self.table.owns_allocation(TableLayout::of::<T>()),
        ensures
            r == self.table.allocator,
            crate::mapalloc::taken_back(
                self.table.allocator,
                self.table.block,
                TableLayout::of::<T>().layout(self.table.n()),
            ),
    {
        self.table.free_buckets(TableLayout::new::<T>())
    }

    /// The position behind the items, which is where the control bytes start.
    pub fn data_terminal_ptr(&self) -> (r: usize)
        ensures
            r == self.table.ctrl,
    {
        self.table.data_terminal_ptr()
    }

    /// The position of the first item, which is that of the last bucket.
    pub fn data_start_ptr(&self) -> (r: usize)
        requires
            self.shape(),
        ensures
            r == self.table.ctrl.wrapping_sub(
                (self.table.n() * vstd::layout::size_of::<T>()) as usize,
            ),
            self.table.n() > 1 ==> r == self.table.ctrl - self.table.n() * vstd::layout::size_of::<
                T,
            >(),
    {
        proof {
            crate::math::lemma_pow2_at_most_half(self.table.n());
            if self.table.n() > 1 {
                self.lemma_room(self.table.n());
            }
            assert(1 * vstd::layout::size_of::<T>() == vstd::layout::size_of::<T>());
        }
        let size: usize = core::mem::size_of::<T>();
        self.data_terminal_ptr().wrapping_sub(self.buckets() * size)
    }

    /// The number of buckets.
    pub fn buckets(&self) -> (r: usize)
        requires
            self.table.bucket_mask < usize::MAX,
        ensures
            r == self.table.n(),
    {
        self.table.buckets()
    }

    /// The number of a bucket.
    pub fn index_of_bucket(&self, bucket: &Bucket<T>) -> (r: usize)
        requires
            bucket.belongs_to(self.table.ctrl as int),
        ensures
            r == bucket.index(self.table.ctrl as int),
            bucket.is_at(self.table.ctrl as int, r as int),
    {
        bucket.to_base_index(self.data_terminal_ptr())
    }

    /// The bucket with the given number.
    pub fn get_bucket(&self, index: usize) -> (r: Bucket<T>)
        requires
            self.shape(),
            index <= if self.table.n() == 1 {
                0
            } else {
                self.table.n()
            },
        ensures
            r.is_at(self.table.ctrl as int, index as int),
            r.belongs_to(self.table.ctrl as int),
            r.index(self.table.ctrl as int) == index,
    {
        proof {
            if self.table.n() > 1 {
                self.lemma_room(index as int);
            } else {
                assert(index * vstd::layout::size_of::<T>() == 0) by (nonlinear_arith)
                    requires
                        index == 0,
                ;
            }
        }
        Bucket::from_base_index(self.data_terminal_ptr(), index)
    }

    /// Removes the item in a bucket from the table, without dropping it.
    pub fn erase_without_drop(&mut self, item: &Bucket<T>)
        requires
            old(self).shape(),
            item.belongs_to(old(self).table.ctrl as int),
            old(self).table.can_erase(item.index(old(self).table.ctrl as int)),
        ensures
            final(self).shape(),
            final(self).table.ctrl_wf(),
            old(self).wf() ==> final(self).wf(),
            final(self).table.same_block(old(self).table),
            final(self).table.items == old(self).table.items - 1,
            final(self).table.growth_left == old(self).table.growth_left
                + if crate::ctrl::crowded(
                old(self).table.ctrl_bytes(),
                old(self).table.n(),
                item.index(old(self).table.ctrl as int),
            ) {
                0int
            } else {
                1
            },
            final(self).table.ctrl_bytes() == crate::ctrl::with_byte(
                old(self).table.ctrl_bytes(),
                old(self).table.n(),
                item.index(old(self).table.ctrl as int),
                crate::ctrl::byte_after_erase(
                    old(self).table.ctrl_bytes(),
                    old(self).table.n(),
                    item.index(old(self).table.ctrl as int),
                ),
            ),
            final(self).data == old(self).data,
    {
        let index: usize = self.index_of_bucket(item);
        self.table.erase(index);
    }

    /// Removes the item in a bucket from the table and drops it.
    pub fn erase(&mut self, item: Bucket<T>)
        requires
            old(self).shape(),
            item.is_in(old(self).data),
            old(self).table.can_erase(item.index(old(self).table.ctrl as int)),
            old(self).data.item(item.index(old(self).table.ctrl as int)) is Some,
        ensures
            final(self).shape(),
            final(self).table.ctrl_wf(),
            old(self).wf() ==> final(self).wf(),
            final(self).table.same_block(old(self).table),
            final(self).table.items == old(self).table.items - 1,
            final(self).table.growth_left == old(self).table.growth_left
                + if crate::ctrl::crowded(
                old(self).table.ctrl_bytes(),
                old(self).table.n(),
                item.index(old(self).table.ctrl as int),
            ) {
                0int
            } else {
                1
            },
            final(self).table.ctrl_bytes() == crate::ctrl::with_byte(
                old(self).table.ctrl_bytes(),
                old(self).table.n(),
                item.index(old(self).table.ctrl as int),
                crate::ctrl::byte_after_erase(
                    old(self).table.ctrl_bytes(),
                    old(self).table.n(),
                    item.index(old(self).table.ctrl as int),
                ),
            ),
            final(self).data.same_but(old(self).data, item.index(old(self).table.ctrl as int)),
            final(self).data.slots@[item.index(old(self).table.ctrl as int)] is None,
            old(self).data.item(item.index(old(self).table.ctrl as int)) matches Some(x)
                ==> crate::bucket::dropped(x),
    {
        proof {
            item.lemma_is_at(self.table.ctrl as int);
        }
        self.erase_without_drop(&item);
        item.drop(&mut self.data);
    }

    /// Makes the table empty, without dropping the items.
    pub fn clear_no_drop(&mut self)
        requires
            old(self).shape(),
        ensures
            final(self).wf(),
            final(self).table.is_blank(),
            final(self).table.same_block(old(self).table),
            final(self).data == old(self).data,
    {
        self.table.clear_no_drop()
    }
}

impl<T> RawTable<T, Global> {
    /// An empty table without memory.
    pub fn new() -> (r: Self)
        ensures
            r.table.block@.len() == 0,
            r.data.slots@.len() == 0,
            r.wf(),
            r.table.n() == 1,
            r.table.is_blank(),
            r.holds_nothing(),
    {
        RawTable::new_in(Global)
    }

    /// An empty table that may hold `cap` items. The only error that it comes to is that of an
    /// allocator without memory; capacities that are too large are not to be asked for.
    pub fn with_capacity(cap: usize) -> (r: Result<Self, TryReserveError>)
        requires
            crate::low_table::capacity_fits(TableLayout::of::<T>(), cap as int),
        ensures
            cap == 0 ==> (r matches Ok(t) && t.table.n() == 1),
            r matches Err(error) ==> {
                let layout = TableLayout::of::<T>().layout(
                    crate::capacity::buckets_for(cap as int),
                );
                &&& error == (TryReserveError::AllocatorError { layout })
                &&& crate::low_table::too_large(layout) || crate::mapalloc::refused(Global, layout)
            },
            r matches Ok(t) ==> {
                &&& t.wf()
                &&& t.table.is_blank()
                &&& t.table.growth_left >= cap
                &&& cap > 0 ==> {
                    &&& t.table.n() == crate::capacity::buckets_for(cap as int)
                    &&& !crate::low_table::too_large(TableLayout::of::<T>().layout(t.table.n()))
                    &&& t.table.stands_on_block(Global, TableLayout::of::<T>())
                }
                &&& t.holds_nothing()
            },
    {
        RawTable::with_capacity_in(cap, Global)
    }
}

} // verus!
