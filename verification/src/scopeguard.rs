//! Looks after a table that is not finished.

use vstd::prelude::*;
use crate::low_table::LowTable;
use crate::mapalloc::{AllocError, Allocator};
use crate::table_layout::TableLayout;

verus! {

/// A table that is being filled. It ends in one of two ways: the table is taken out when it is
/// finished, or its allocation is given back.
pub struct ScopeGuard<A> {
    pub value: LowTable<A>,
    pub table_layout: TableLayout,
}

impl<A> ScopeGuard<A> {
    /// The table's allocation can be given back.
    pub open spec fn wf(self) -> bool {
        self.value.shape() && self.value.allocated_for(self.table_layout)
    }

    /// Takes charge of a table.
    pub fn new(value: LowTable<A>, table_layout: TableLayout) -> (r: Self)
        ensures
            r.value == value,
            r.table_layout == table_layout,
    {
        ScopeGuard { value, table_layout }
    }

    /// Takes the finished table out.
    pub fn into_inner(self) -> (r: LowTable<A>)
        ensures
            r == self.value,
    {
        self.value
    }
}

impl<A: Allocator + Clone> ScopeGuard<A> {
    /// Gives the allocation back, where there is one. What remains is the allocator.
    pub fn free(self) -> (r: A)
        requires
            self.value.allocated_for(self.table_layout),
        ensures
            r == self.value.allocator,
            self.value.n() > 1 ==> crate::mapalloc::taken_back(
                self.value.allocator,
                self.value.block,
                self.table_layout.layout(self.value.n()),
            ),
    {
        if self.value.is_empty_singleton() {
            self.value.allocator
        } else {
            self.value.free_buckets(self.table_layout)
        }
    }
}

/// A guard that is given up hands back what the allocator had given for its table, whatever was
/// done to the table's control bytes in the meantime.
pub proof fn law_guard_gives_back_what_was_allocated<A: Allocator>(
    made: ScopeGuard<A>,
    given_up: ScopeGuard<A>,
) -> (given: Vec<u8>)
    requires
        made.wf(),
        made.value.n() > 1,
        made.value.stands_on_block(made.value.allocator, made.table_layout),
        given_up.table_layout == made.table_layout,
        given_up.value.same_block(made.value),
    ensures
        given_up.value.allocated_for(given_up.table_layout),
        call_ensures(
            A::allocate,
            (&given_up.value.allocator, given_up.table_layout.layout(given_up.value.n())),
            Ok::<Vec<u8>, AllocError>(given),
        ),
        given_up.value.block@.len() == given@.len(),
        given_up.value.block@.take(given_up.value.ctrl as int) == given@.take(
            given_up.value.ctrl as int,
        ),
{
    crate::low_table::law_change_keeps_block(
        made.value,
        given_up.value,
        made.value.allocator,
        made.table_layout,
    );
    crate::low_table::law_what_was_allocated_is_given_back(given_up.value, given_up.table_layout)
}

} // verus!
