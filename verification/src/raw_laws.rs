//! What the operations on a table of items promise, said with its bytes, its numbers and its
//! slots alone.
//!
//! Bucket `i` is named by the position `i` items before the control bytes or, where items have no
//! size, by the number `i + 1`.

use vstd::prelude::*;
use crate::bucket::Bucket;
use crate::iter::RawIterRange;
use crate::laws::{lemma_block_of, lemma_buckets, lemma_byte, lemma_capacity};
use crate::laws::{lemma_erased, lemma_layout};
use crate::mapalloc::{AllocError, Allocator, Global, Layout};
use crate::raw_table::RawTable;
use crate::reserve::{Fallibility, TryReserveError};
use crate::table_layout::TableLayout;

verus! {

/// A table that was just made has one bucket, no memory, no slots, no items and no room.
pub proof fn law_new_table<T, A: Allocator + Clone>(
    allocator: A,
    given: RawTable<T, A>,
    plain: RawTable<T, Global>,
)
    requires
        call_ensures(RawTable::<T, A>::new_in, (allocator,), given),
        call_ensures(RawTable::<T, Global>::new, (), plain),
    ensures
        given.table.bucket_mask == 0,
        given.table.block@.len() == 0,
        given.table.items == 0,
        given.table.growth_left == 0,
        given.table.allocator == allocator,
        given.data.slots@.len() == 0,
        plain.table.bucket_mask == 0,
        plain.table.block@.len() == 0,
        plain.table.items == 0,
        plain.table.growth_left == 0,
        plain.data.slots@.len() == 0,
{
    crate::laws::law_order_of_empty_table(given.table);
    crate::laws::law_order_of_empty_table(plain.table);
}

/// A table for no items is made without any memory.
pub proof fn law_table_of_no_items<T, A: Allocator + Clone>(
    allocator: A,
    fallibility: Fallibility,
    a: Result<RawTable<T, A>, TryReserveError>,
    b: Result<RawTable<T, A>, TryReserveError>,
    c: Result<RawTable<T, Global>, TryReserveError>,
)
    requires
        call_ensures(RawTable::<T, A>::fallible_with_capacity, (allocator, 0, fallibility), a),
        call_ensures(RawTable::<T, A>::with_capacity_in, (0, allocator), b),
        call_ensures(RawTable::<T, Global>::with_capacity, (0,), c),
    ensures
        a matches Ok(t) && t.table.bucket_mask == 0 && t.table.block@.len() == 0
            && t.data.slots@.len() == 0 && t.table.items == 0 && t.table.growth_left == 0,
        b matches Ok(t) && t.table.bucket_mask == 0 && t.table.block@.len() == 0
            && t.data.slots@.len() == 0 && t.table.items == 0 && t.table.growth_left == 0,
        c matches Ok(t) && t.table.bucket_mask == 0 && t.table.block@.len() == 0
            && t.data.slots@.len() == 0 && t.table.items == 0 && t.table.growth_left == 0,
{
    if let Ok(t) = a {
        crate::laws::law_order_of_empty_table(t.table);
    }
    if let Ok(t) = b {
        crate::laws::law_order_of_empty_table(t.table);
    }
    if let Ok(t) = c {
        crate::laws::law_order_of_empty_table(t.table);
    }
}

/// A table for a number of items has `n` buckets: four, eight, or the least power of two that is
/// eight sevenths of the number. All are empty, their slots hold nothing, and all the room that
/// such a table can have is left. There is no table where the size does not fit in a `usize`, and
/// where the allocator has refused. The result is the memory that was given for the table.
pub proof fn law_table_of_items<T, A: Allocator + Clone>(
    allocator: A,
    capacity: usize,
    fallibility: Fallibility,
    table_layout: TableLayout,
    n: int,
    offset: int,
    r: Result<RawTable<T, A>, TryReserveError>,
) -> (given: Vec<u8>)
    requires
        call_ensures(TableLayout::new::<T>, (), table_layout),
        capacity > 0,
        vstd::arithmetic::power2::is_pow2(n),
        capacity < 4 ==> n == 4,
        4 <= capacity < 8 ==> n == 8,
        capacity >= 8 ==> n / 2 < capacity * 8 / 7 <= n,
        offset % (table_layout.ctrl_byte_align as int) == 0,
        table_layout.size * n <= offset < table_layout.size * n + table_layout.ctrl_byte_align,
        call_ensures(
            RawTable::<T, A>::fallible_with_capacity,
            (allocator, capacity, fallibility),
            r,
        ),
    ensures
        r == Err::<RawTable<T, A>, TryReserveError>(TryReserveError::CapacityOverflow) <==> {
            ||| capacity >= 8 && capacity * 8 > usize::MAX
            ||| table_layout.size * n + table_layout.ctrl_byte_align - 1 > usize::MAX
            ||| offset + n + 16 > usize::MAX
        },
        r matches Err(TryReserveError::AllocatorError { layout }) ==> {
            &&& layout.size == offset + n + 16
            &&& layout.align == table_layout.ctrl_byte_align
            &&& usize::BITS == 64 || layout.size <= isize::MAX ==> call_ensures(
                A::allocate,
                (&allocator, layout),
                Err::<Vec<u8>, AllocError>(AllocError),
            )
        },
        r matches Ok(t) ==> {
            &&& t.table.growth_left >= capacity
            &&& t.table.allocator == allocator
            &&& t.table.bucket_mask == n - 1
            &&& t.table.ctrl == offset
            &&& t.table.block@.len() == offset + n + 16
            &&& t.table.items == 0
            &&& t.table.growth_left + 0 == if n <= 8 {
                n - 1
            } else {
                n - n / 8
            }
            &&& forall|p: int|
                t.table.ctrl <= p < t.table.block@.len() ==> #[trigger] t.table.block@[p] == 0xff
            &&& call_ensures(
                A::allocate,
                (
                    &allocator,
                    Layout { size: t.table.block.len(), align: table_layout.ctrl_byte_align },
                ),
                Ok::<Vec<u8>, AllocError>(given),
            )
            &&& given@.len() == t.table.block@.len()
            &&& forall|p: int| 0 <= p < t.table.ctrl ==> #[trigger] t.table.block@[p] == given@[p]
            &&& t.data.terminal == t.table.ctrl
            &&& t.data.slots@.len() == n
            &&& forall|i: int| 0 <= i < n ==> #[trigger] t.data.slots@[i] is None
        },
{
    lemma_buckets(capacity as int, n);
    lemma_layout(table_layout, n, offset);
    if let Ok(t) = r {
        lemma_block_of(t.table, allocator, table_layout)
    } else {
        arbitrary()
    }
}

/// Where the size is known to fit, only the allocator can refuse a table.
pub proof fn law_table_of_items_without_overflow<T, A: Allocator + Clone>(
    allocator: A,
    capacity: usize,
    table_layout: TableLayout,
    n: int,
    offset: int,
    r: Result<RawTable<T, A>, TryReserveError>,
) -> (given: Vec<u8>)
    requires
        call_ensures(TableLayout::new::<T>, (), table_layout),
        capacity > 0,
        vstd::arithmetic::power2::is_pow2(n),
        capacity < 4 ==> n == 4,
        4 <= capacity < 8 ==> n == 8,
        capacity >= 8 ==> n / 2 < capacity * 8 / 7 <= n,
        offset % (table_layout.ctrl_byte_align as int) == 0,
        table_layout.size * n <= offset < table_layout.size * n + table_layout.ctrl_byte_align,
        table_layout.size * n + table_layout.ctrl_byte_align - 1 <= usize::MAX,
        offset + n + 16 <= usize::MAX,
        call_ensures(RawTable::<T, A>::with_capacity_in, (capacity, allocator), r),
    ensures
        r != Err::<RawTable<T, A>, TryReserveError>(TryReserveError::CapacityOverflow),
        r matches Err(TryReserveError::AllocatorError { layout }) ==> {
            &&& layout.size == offset + n + 16
            &&& layout.align == table_layout.ctrl_byte_align
            &&& usize::BITS == 64 || layout.size <= isize::MAX ==> call_ensures(
                A::allocate,
                (&allocator, layout),
                Err::<Vec<u8>, AllocError>(AllocError),
            )
        },
        r matches Ok(t) ==> {
            &&& t.table.growth_left >= capacity
            &&& t.table.allocator == allocator
            &&& t.table.bucket_mask == n - 1
            &&& t.table.ctrl == offset
            &&& t.table.block@.len() == offset + n + 16
            &&& t.table.items == 0
            &&& t.table.growth_left + 0 == if n <= 8 {
                n - 1
            } else {
                n - n / 8
            }
            &&& forall|p: int|
                t.table.ctrl <= p < t.table.block@.len() ==> #[trigger] t.table.block@[p] == 0xff
            &&& call_ensures(
                A::allocate,
                (
                    &allocator,
                    Layout { size: t.table.block.len(), align: table_layout.ctrl_byte_align },
                ),
                Ok::<Vec<u8>, AllocError>(given),
            )
            &&& given@.len() == t.table.block@.len()
            &&& forall|p: int| 0 <= p < t.table.ctrl ==> #[trigger] t.table.block@[p] == given@[p]
            &&& t.data.terminal == t.table.ctrl
            &&& t.data.slots@.len() == n
            &&& forall|i: int| 0 <= i < n ==> #[trigger] t.data.slots@[i] is None
        },
{
    lemma_buckets(capacity as int, n);
    lemma_layout(table_layout, n, offset);
    if let Ok(t) = r {
        lemma_block_of(t.table, allocator, table_layout)
    } else {
        arbitrary()
    }
}

/// A table in the memory of the process is refused only where an attempt to reserve as many bytes
/// as it takes, in a vector without any, came to an error.
pub proof fn law_table_in_memory_of_process<T>(
    capacity: usize,
    table_layout: TableLayout,
    n: int,
    offset: int,
    r: Result<RawTable<T, Global>, TryReserveError>,
) -> (given: Vec<u8>)
    requires
        call_ensures(TableLayout::new::<T>, (), table_layout),
        capacity > 0,
        vstd::arithmetic::power2::is_pow2(n),
        capacity < 4 ==> n == 4,
        4 <= capacity < 8 ==> n == 8,
        capacity >= 8 ==> n / 2 < capacity * 8 / 7 <= n,
        offset % (table_layout.ctrl_byte_align as int) == 0,
        table_layout.size * n <= offset < table_layout.size * n + table_layout.ctrl_byte_align,
        table_layout.size * n + table_layout.ctrl_byte_align - 1 <= usize::MAX,
        offset + n + 16 <= usize::MAX,
        call_ensures(RawTable::<T, Global>::with_capacity, (capacity,), r),
    ensures
        r != Err::<RawTable<T, Global>, TryReserveError>(TryReserveError::CapacityOverflow),
        r matches Err(TryReserveError::AllocatorError { layout }) ==> {
            &&& layout.size == offset + n + 16
            &&& layout.align == table_layout.ctrl_byte_align
            &&& usize::BITS == 64 || layout.size <= isize::MAX ==> call_ensures(
                <Global as Allocator>::allocate,
                (&Global, layout),
                Err::<Vec<u8>, AllocError>(AllocError),
            )
        },
        r matches Err(TryReserveError::AllocatorError { layout }) ==> usize::BITS == 64
            || layout.size <= isize::MAX ==> exists|
            vec: &mut Vec<u8>,
            error: std::collections::TryReserveError,
        | #[trigger]
            call_ensures(
                Vec::<u8>::try_reserve,
                (vec, layout.size),
                Err::<(), std::collections::TryReserveError>(error),
            ) && vec@.len() == 0,
        r matches Ok(t) ==> {
            &&& t.table.growth_left >= capacity
            &&& t.table.bucket_mask == n - 1
            &&& t.table.ctrl == offset
            &&& t.table.block@.len() == offset + n + 16
            &&& t.table.items == 0
            &&& t.table.growth_left + 0 == if n <= 8 {
                n - 1
            } else {
                n - n / 8
            }
            &&& forall|p: int|
                t.table.ctrl <= p < t.table.block@.len() ==> #[trigger] t.table.block@[p] == 0xff
            &&& call_ensures(
                <Global as Allocator>::allocate,
                (
                    &Global,
                    Layout { size: t.table.block.len(), align: table_layout.ctrl_byte_align },
                ),
                Ok::<Vec<u8>, AllocError>(given),
            )
            &&& given@.len() == t.table.block@.len()
            &&& forall|p: int| 0 <= p < t.table.ctrl ==> #[trigger] t.table.block@[p] == given@[p]
            &&& t.data.terminal == t.table.ctrl
            &&& t.data.slots@.len() == n
            &&& forall|i: int| 0 <= i < n ==> #[trigger] t.data.slots@[i] is None
        },
{
    lemma_buckets(capacity as int, n);
    lemma_layout(table_layout, n, offset);
    if let Err(TryReserveError::AllocatorError { layout }) = r {
        if usize::BITS == 64 || layout.size <= isize::MAX {
            crate::mapalloc::law_global_refuses_only_what_cannot_be_reserved(
                Global,
                layout,
                Err::<Vec<u8>, AllocError>(AllocError),
            );
        }
    }
    if let Ok(t) = r {
        lemma_block_of(t.table, Global, table_layout)
    } else {
        arbitrary()
    }
}

/// A table can be asked for, without an answer for a size that does not fit, wherever it fits.
pub proof fn law_table_can_be_asked_for<T, A: Allocator + Clone>(
    allocator: A,
    capacity: usize,
    table_layout: TableLayout,
    n: int,
    offset: int,
)
    requires
        call_ensures(TableLayout::new::<T>, (), table_layout),
        vstd::arithmetic::power2::is_pow2(n),
        capacity < 4 ==> n == 4,
        4 <= capacity < 8 ==> n == 8,
        capacity >= 8 ==> n / 2 < capacity * 8 / 7 <= n,
        offset % (table_layout.ctrl_byte_align as int) == 0,
        table_layout.size * n <= offset < table_layout.size * n + table_layout.ctrl_byte_align,
        capacity < 8 || capacity * 8 <= usize::MAX,
        table_layout.size * n + table_layout.ctrl_byte_align - 1 <= usize::MAX,
        offset + n + 16 <= usize::MAX,
    ensures
        call_requires(RawTable::<T, A>::with_capacity_in, (capacity, allocator)),
        call_requires(RawTable::<T, Global>::with_capacity, (capacity,)),
        call_requires(
            RawTable::<T, A>::fallible_with_capacity,
            (allocator, capacity, Fallibility::Infallible),
        ),
{
    lemma_buckets(capacity as int, n);
    lemma_layout(table_layout, n, offset);
}

/// With an answer for every case, any table can be asked for.
pub proof fn law_any_table_can_be_asked_for<T, A: Allocator + Clone>(
    allocator: A,
    capacity: usize,
)
    ensures
        call_requires(
            RawTable::<T, A>::fallible_with_capacity,
            (allocator, capacity, Fallibility::Fallible),
        ),
{
}

/// A table over fresh memory has the buckets that were asked for, no items, and slots that hold
/// nothing. Its memory is the block that the allocator gave.
pub proof fn law_table_over_fresh_memory<T, A: Allocator + Clone>(
    allocator: A,
    buckets: usize,
    fallibility: Fallibility,
    table_layout: TableLayout,
    offset: int,
    r: Result<RawTable<T, A>, TryReserveError>,
)
    requires
        call_ensures(TableLayout::new::<T>, (), table_layout),
        buckets >= 1,
        offset % (table_layout.ctrl_byte_align as int) == 0,
        table_layout.size * buckets <= offset < table_layout.size * buckets
            + table_layout.ctrl_byte_align,
        call_ensures(RawTable::<T, A>::raw_new_uinit, (allocator, buckets, fallibility), r),
    ensures
        r == Err::<RawTable<T, A>, TryReserveError>(TryReserveError::CapacityOverflow) <==> {
            ||| table_layout.size * buckets + table_layout.ctrl_byte_align - 1 > usize::MAX
            ||| offset + buckets + 16 > usize::MAX
        },
        r matches Err(TryReserveError::AllocatorError { layout }) ==> {
            &&& layout.size == offset + buckets + 16
            &&& layout.align == table_layout.ctrl_byte_align
            &&& usize::BITS == 64 || layout.size <= isize::MAX ==> call_ensures(
                A::allocate,
                (&allocator, layout),
                Err::<Vec<u8>, AllocError>(AllocError),
            )
        },
        r matches Ok(t) ==> {
            &&& t.table.bucket_mask == buckets - 1
            &&& t.table.ctrl == offset
            &&& t.table.block@.len() == offset + buckets + 16
            &&& t.table.items == 0
            &&& t.table.growth_left == if buckets <= 8 {
                buckets - 1
            } else {
                7 * (buckets as int / 8)
            }
            &&& t.table.allocator == allocator
            &&& call_ensures(
                A::allocate,
                (
                    &allocator,
                    Layout { size: t.table.block.len(), align: table_layout.ctrl_byte_align },
                ),
                Ok::<Vec<u8>, AllocError>(t.table.block),
            )
            &&& t.data.terminal == t.table.ctrl
            &&& buckets > 1 ==> t.data.slots@.len() == buckets
            &&& forall|i: int|
                0 <= i < t.data.slots@.len() ==> #[trigger] t.data.slots@[i] is None
        },
{
    lemma_layout(table_layout, buckets as int, offset);
}

/// The bucket with a number is named by its position, and its position gives the number back.
pub proof fn law_bucket_and_number<T, A: Allocator + Clone>(
    t: RawTable<T, A>,
    index: usize,
    bucket: Bucket<T>,
    r: usize,
)
    requires
        call_ensures(RawTable::<T, A>::get_bucket, (&t, index), bucket),
        call_ensures(RawTable::<T, A>::index_of_bucket, (&t, &bucket), r),
    ensures
        vstd::layout::size_of::<T>() == 0 ==> bucket.ptr == index + 1,
        vstd::layout::size_of::<T>() > 0 ==> bucket.ptr == t.table.ctrl - index
            * vstd::layout::size_of::<T>(),
        r == index,
{
}

/// The number of a bucket is told by its position.
pub proof fn law_number_of_position<T, A: Allocator + Clone>(
    t: RawTable<T, A>,
    bucket: Bucket<T>,
    index: int,
    r: usize,
)
    requires
        index >= 0,
        vstd::layout::size_of::<T>() == 0 ==> bucket.ptr == index + 1,
        vstd::layout::size_of::<T>() > 0 ==> bucket.ptr == t.table.ctrl - index
            * vstd::layout::size_of::<T>(),
        call_ensures(RawTable::<T, A>::index_of_bucket, (&t, &bucket), r),
    ensures
        r == index,
{
    bucket.lemma_index(t.table.ctrl as int, index);
}

/// Removing the item in a bucket, without dropping it, makes the bucket empty or, where sixteen
/// neighbouring buckets with its own among them have no empty one, a tombstone. The slots stay.
pub proof fn law_removed_item<T, A: Allocator + Clone>(
    t: &mut RawTable<T, A>,
    item: Bucket<T>,
    index: int,
) -> (s: int)
    requires
        old(t).table.ctrl_wf(),
        0 < old(t).table.bucket_mask,
        0 <= index <= old(t).table.bucket_mask,
        old(t).table.block@[old(t).table.ctrl + index] < 0x80,
        vstd::layout::size_of::<T>() == 0 ==> item.ptr == index + 1,
        vstd::layout::size_of::<T>() > 0 ==> item.ptr == old(t).table.ctrl - index
            * vstd::layout::size_of::<T>(),
        call_ensures(RawTable::<T, A>::erase_without_drop, (t, &item), ()),
    ensures
        final(t).table.items == old(t).table.items - 1,
        ({
            let n = old(t).table.bucket_mask + 1;
            let byte = final(t).table.block@[old(t).table.ctrl + index];
            &&& byte == 0x80 || byte == 0xff
            &&& byte == 0xff ==> final(t).table.growth_left == old(t).table.growth_left + 1
            &&& byte == 0x80 ==> {
                &&& final(t).table.growth_left == old(t).table.growth_left
                &&& n >= 16
                &&& 0 <= s < 16
                &&& forall|u: int|
                    0 <= u < 16 ==> #[trigger] old(t).table.block@[old(t).table.ctrl + (index - s
                        + u) % n] != 0xff
            }
        }),
        final(t).table.bucket_mask == old(t).table.bucket_mask,
        final(t).table.ctrl == old(t).table.ctrl,
        final(t).table.allocator == old(t).table.allocator,
        final(t).table.block@.len() == old(t).table.block@.len(),
        forall|p: int|
            0 <= p < old(t).table.block@.len() ==> #[trigger] final(t).table.block@[p] == if p == old(t).table.ctrl
                + index || p == old(t).table.ctrl + (if old(t).table.bucket_mask < 15 {
                16 + index
            } else if index < 16 {
                old(t).table.bucket_mask + 1 + index
            } else {
                index as int
            }) {
                final(t).table.block@[old(t).table.ctrl + index]
            } else {
                old(t).table.block@[p]
            },
        final(t).data == old(t).data,
{
    item.lemma_index(old(t).table.ctrl as int, index);
    lemma_byte(old(t).table, index);
    let s = crate::ctrl::law_tombstone_only_in_a_crowd(
        old(t).table.ctrl_bytes(),
        old(t).table.n(),
        index,
    );
    lemma_erased(old(t).table, final(t).table, index, s);
    s
}

/// Removing the item in a bucket and dropping it does the same to the control bytes. The item that
/// was in the bucket's slot is dropped, and the slot holds nothing; the other slots stay.
pub proof fn law_removed_and_dropped_item<T, A: Allocator + Clone>(
    t: &mut RawTable<T, A>,
    item: Bucket<T>,
    index: int,
) -> (s: int)
    requires
        old(t).table.ctrl_wf(),
        0 < old(t).table.bucket_mask,
        0 <= index <= old(t).table.bucket_mask,
        old(t).table.block@[old(t).table.ctrl + index] < 0x80,
        vstd::layout::size_of::<T>() == 0 ==> item.ptr == index + 1,
        vstd::layout::size_of::<T>() > 0 ==> item.ptr == old(t).table.ctrl - index
            * vstd::layout::size_of::<T>(),
        old(t).data.terminal == old(t).table.ctrl,
        index < old(t).data.slots@.len(),
        old(t).data.slots@[index] is Some,
        call_ensures(RawTable::<T, A>::erase, (t, item), ()),
    ensures
        final(t).table.items == old(t).table.items - 1,
        ({
            let n = old(t).table.bucket_mask + 1;
            let byte = final(t).table.block@[old(t).table.ctrl + index];
            &&& byte == 0x80 || byte == 0xff
            &&& byte == 0xff ==> final(t).table.growth_left == old(t).table.growth_left + 1
            &&& byte == 0x80 ==> {
                &&& final(t).table.growth_left == old(t).table.growth_left
                &&& n >= 16
                &&& 0 <= s < 16
                &&& forall|u: int|
                    0 <= u < 16 ==> #[trigger] old(t).table.block@[old(t).table.ctrl + (index - s
                        + u) % n] != 0xff
            }
        }),
        final(t).table.bucket_mask == old(t).table.bucket_mask,
        final(t).table.ctrl == old(t).table.ctrl,
        final(t).table.allocator == old(t).table.allocator,
        final(t).table.block@.len() == old(t).table.block@.len(),
        forall|p: int|
            0 <= p < old(t).table.block@.len() ==> #[trigger] final(t).table.block@[p] == if p == old(t).table.ctrl
                + index || p == old(t).table.ctrl + (if old(t).table.bucket_mask < 15 {
                16 + index
            } else if index < 16 {
                old(t).table.bucket_mask + 1 + index
            } else {
                index as int
            }) {
                final(t).table.block@[old(t).table.ctrl + index]
            } else {
                old(t).table.block@[p]
            },
        old(t).data.slots@[index] matches Some(x) && call_ensures(
            core::mem::drop::<T>,
            (x@,),
            (),
        ),
        final(t).data.slots@[index] is None,
        final(t).data.terminal == old(t).data.terminal,
        final(t).data.slots@.len() == old(t).data.slots@.len(),
        forall|j: int|
            0 <= j < old(t).data.slots@.len() && j != index ==> #[trigger] final(t).data.slots@[j]
                == old(t).data.slots@[j],
{
    item.lemma_index(old(t).table.ctrl as int, index);
    lemma_byte(old(t).table, index);
    let s = crate::ctrl::law_tombstone_only_in_a_crowd(
        old(t).table.ctrl_bytes(),
        old(t).table.n(),
        index,
    );
    lemma_erased(old(t).table, final(t).table, index, s);
    s
}

/// A table that is emptied has only empty buckets and all the room that it can have; neither the
/// memory in front of the control bytes nor the slots change.
pub proof fn law_emptied_table<T, A: Allocator + Clone>(t: &mut RawTable<T, A>)
    requires
        old(t).shape(),
        0 < old(t).table.bucket_mask,
        call_ensures(RawTable::<T, A>::clear_no_drop, (t,), ()),
    ensures
        final(t).table.bucket_mask == old(t).table.bucket_mask,
        final(t).table.ctrl == old(t).table.ctrl,
        final(t).table.allocator == old(t).table.allocator,
        final(t).table.items == 0,
        final(t).table.growth_left == if old(t).table.bucket_mask < 8 {
            old(t).table.bucket_mask as int
        } else {
            old(t).table.bucket_mask + 1 - (old(t).table.bucket_mask + 1) / 8
        },
        final(t).table.block@.len() == old(t).table.block@.len(),
        forall|p: int|
            0 <= p < old(t).table.block@.len() ==> #[trigger] final(t).table.block@[p] == if p
                < old(t).table.ctrl {
                old(t).table.block@[p]
            } else {
                0xff
            },
        final(t).data == old(t).data,
{
    let before = old(t).table;
    lemma_capacity(before.bucket_mask + 1);
    assert forall|p: int| 0 <= p < before.block@.len() implies #[trigger] final(t).table.block@[p]
        == if p < before.ctrl {
        before.block@[p]
    } else {
        0xff
    } by {
        if p < before.ctrl {
            assert(final(t).table.block@.take(before.ctrl as int)[p] == final(t).table.block@[p]);
            assert(before.block@.take(before.ctrl as int)[p] == before.block@[p]);
        } else {
            assert(final(t).table.ctrl_bytes()[p - before.ctrl] == final(t).table.block@[p]);
        }
    }
}

/// Giving the memory of a table back hands the allocator the whole block, with a layout of the
/// block's size and of the larger of the items' and a group's alignment.
pub proof fn law_table_given_back<T, A: Allocator + Clone>(
    t: RawTable<T, A>,
    table_layout: TableLayout,
    r: A,
)
    requires
        call_ensures(TableLayout::new::<T>, (), table_layout),
        t.table.owns_allocation(table_layout),
        call_ensures(RawTable::<T, A>::free_buckets, (t,), r),
    ensures
        r == t.table.allocator,
        call_ensures(
            A::deallocate,
            (
                &t.table.allocator,
                t.table.block,
                Layout { size: t.table.block.len(), align: table_layout.ctrl_byte_align },
            ),
            (),
        ),
{
}

/// A walk over a table whose control bytes are in order yields, step by step, the full buckets:
/// each of them once, in ascending order of their numbers, which are `found`, and then nothing any
/// more. Where the counters are in order, too, there are as many as the table counts items. A
/// further step can be taken at any time.
pub proof fn law_walk_over_table<'a, T, A: Allocator + Clone>(
    t: RawTable<T, A>,
    walk: Option<RawIterRange<'a, T>>,
    states: Seq<RawIterRange<'a, T>>,
    results: Seq<Option<Bucket<T>>>,
) -> (found: Seq<int>)
    requires
        t.shape(),
        t.table.ctrl_wf(),
        t.table.bucket_mask > 0,
        call_ensures(RawTable::<T, A>::walk, (&t,), walk),
        walk matches Some(first) ==> states[0] == first,
        states.len() == results.len() + 1,
        forall|k: int|
            0 <= k < results.len() ==> exists|walk: &mut RawIterRange<'a, T>|
                call_ensures(
                    RawIterRange::<'a, T>::next,
                    (walk,),
                    #[trigger] results[k],
                ) && *walk == states[k] && *final(walk) == states[k + 1],
    ensures
        walk is Some,
        t.table.wf() ==> found.len() == t.table.items,
        forall|i: int, j: int|
            0 <= i < j < found.len() ==> #[trigger] found[i] < #[trigger] found[j],
        forall|i: int| #[trigger]
            found.contains(i) <==> 0 <= i <= t.table.bucket_mask && t.table.block@[t.table.ctrl + i]
                < 0x80,
        forall|k: int|
            0 <= k < results.len() ==> (#[trigger] results[k] is Some <==> k < found.len()),
        forall|k: int|
            0 <= k < results.len() ==> (#[trigger] results[k] matches Some(bucket) ==> bucket.ptr
                == if vstd::layout::size_of::<T>() == 0 {
                found[k] + 1
            } else {
                t.table.ctrl - found[k] * vstd::layout::size_of::<T>()
            }),
        forall|k: int, walk: &mut RawIterRange<'a, T>|
            #![trigger states[k], call_requires(RawIterRange::<'a, T>::next, (walk,))]
            0 <= k <= results.len() && *walk == states[k] ==> call_requires(
                RawIterRange::<'a, T>::next,
                (walk,),
            ),
{
    let ctrl = t.table.ctrl as int;
    let n = t.table.n();
    t.law_ordered_bytes_can_be_walked();
    if t.table.wf() {
        t.law_table_can_be_walked();
    }
    let all = crate::iter::full_positions(t.table.block@, ctrl, ctrl + n);
    let found = crate::iter::lemma_distances(t.table.block@, ctrl, n);
    let first = states[0];
    assert forall|k: int| 0 <= k < results.len() implies (#[trigger] results[k] is Some <==> k
        < found.len()) && (results[k] matches Some(bucket) ==> bucket.ptr
        == if vstd::layout::size_of::<T>() == 0 {
        found[k] + 1
    } else {
        t.table.ctrl - found[k] * vstd::layout::size_of::<T>()
    }) by {
        crate::iter::lemma_results(states, results, k);
        if results[k] is Some {
            assert(first.ptr_of(all[k]) == crate::iter::ptr_at_distance::<T>(
                first.data.ptr as int,
                all[k] - ctrl,
            ));
        }
    }
    assert forall|k: int, walk: &mut RawIterRange<'a, T>|
        #![trigger states[k], call_requires(RawIterRange::<'a, T>::next, (walk,))]
        0 <= k <= results.len() && *walk == states[k] implies call_requires(
        RawIterRange::<'a, T>::next,
        (walk,),
    ) by {
        crate::iter::lemma_steps(states, results, k);
    }
    found
}

/// A walk over a table of one bucket, which has no memory, yields nothing.
pub proof fn law_walk_over_empty_table<'a, T, A: Allocator + Clone>(
    t: RawTable<T, A>,
    walk: Option<RawIterRange<'a, T>>,
    states: Seq<RawIterRange<'a, T>>,
    results: Seq<Option<Bucket<T>>>,
)
    requires
        t.wf(),
        t.table.bucket_mask == 0,
        call_ensures(RawTable::<T, A>::walk, (&t,), walk),
        walk matches Some(first) ==> states[0] == first,
        states.len() == results.len() + 1,
        forall|k: int|
            0 <= k < results.len() ==> exists|walk: &mut RawIterRange<'a, T>|
                call_ensures(
                    RawIterRange::<'a, T>::next,
                    (walk,),
                    #[trigger] results[k],
                ) && *walk == states[k] && *final(walk) == states[k + 1],
    ensures
        walk is Some,
        forall|k: int| 0 <= k < results.len() ==> #[trigger] results[k] is None,
{
    t.law_table_can_be_walked();
    crate::laws::law_order_of_empty_table(t.table);
    assert forall|k: int| 0 <= k < results.len() implies #[trigger] results[k] is None by {
        crate::iter::lemma_results(states, results, k);
    }
}

/// A table of items has the right shape exactly when its control bytes do, there is a slot for
/// each bucket, and its memory is laid out for the items.
pub proof fn law_shape_of_items<T, A: Allocator + Clone>(
    t: RawTable<T, A>,
    table_layout: TableLayout,
)
    requires
        t.table.bucket_mask > 0,
        call_ensures(TableLayout::new::<T>, (), table_layout),
    ensures
        t.shape() <==> {
            &&& t.table.shape()
            &&& t.table.owns_allocation(table_layout)
            &&& t.data.terminal == t.table.ctrl
            &&& t.data.slots@.len() == t.table.bucket_mask + 1
        },
        t.wf() <==> t.shape() && t.table.wf(),
{
}

/// In a table of the right shape every bucket can be asked for, by its number and by its position;
/// the item in a full bucket can be removed, and the whole table can be emptied.
pub proof fn law_items_can_be_asked_for<T, A: Allocator + Clone>(
    t: &mut RawTable<T, A>,
    item: Bucket<T>,
    index: usize,
)
    requires
        old(t).shape(),
        old(t).table.bucket_mask > 0,
        index <= old(t).table.bucket_mask,
        vstd::layout::size_of::<T>() == 0 ==> item.ptr == index + 1,
        vstd::layout::size_of::<T>() > 0 ==> item.ptr == old(t).table.ctrl - index
            * vstd::layout::size_of::<T>(),
    ensures
        call_requires(RawTable::<T, A>::get_bucket, (&*old(t), index)),
        call_requires(RawTable::<T, A>::index_of_bucket, (&*old(t), &item)),
        call_requires(RawTable::<T, A>::clear_no_drop, (t,)),
        old(t).wf() && old(t).table.block@[old(t).table.ctrl + index] < 0x80 ==> {
            &&& call_requires(RawTable::<T, A>::erase_without_drop, (t, &item))
            &&& old(t).data.slots@[index as int] is Some ==> call_requires(
                RawTable::<T, A>::erase,
                (t, item),
            )
        },
{
    item.lemma_index(old(t).table.ctrl as int, index as int);
    lemma_byte(old(t).table, index as int);
}

/// The numbers that a table of items tells: its buckets, and the positions before which and behind
/// which its items lie.
pub proof fn law_numbers_of_items<T, A: Allocator + Clone>(
    t: RawTable<T, A>,
    buckets: usize,
    start: usize,
    terminal: usize,
)
    requires
        t.table.bucket_mask > 0,
        call_ensures(RawTable::<T, A>::buckets, (&t,), buckets),
        call_ensures(RawTable::<T, A>::data_start_ptr, (&t,), start),
        call_ensures(RawTable::<T, A>::data_terminal_ptr, (&t,), terminal),
    ensures
        buckets == t.table.bucket_mask + 1,
        start == t.table.ctrl - (t.table.bucket_mask + 1) * vstd::layout::size_of::<T>(),
        terminal == t.table.ctrl,
{
}

} // verus!
