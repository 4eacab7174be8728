//! Buckets: where the items of a table are.
//!
//! The items lie in front of the control bytes, the item of bucket 0 last:
//!
//! ```text
//! | padding | T(n-1) | .. | T1 | T0 | control bytes |
//!                                   ^ terminal
//! ```
//!
//! A bucket is named by the position just behind its item, in bytes from the start of the
//! allocation. Items without a size take no room; their buckets are numbered from one.

use vstd::prelude::*;
use core::marker::PhantomData;
use core::mem::ManuallyDrop;
use crate::table_layout::TableLayout;

verus! {

/// The room for the items of a table: a slot for each bucket, which holds an item or nothing.
///
/// An item that is still in a slot when the slot goes away, or gets another item, is not
/// dropped.
pub struct DataArea<T> {
    /// the position behind the item of bucket 0
    pub terminal: usize,
    /// the slots, that of bucket 0 first
    pub slots: Vec<Option<ManuallyDrop<T>>>,
}

impl<T> DataArea<T> {
    /// The item in the slot of bucket `i`, if there is one.
    pub open spec fn item(self, i: int) -> Option<T> {
        match self.slots@[i] {
            Some(item) => Some(item@),
            None => None,
        }
    }

    /// The area differs from `before` in nothing but the slot of bucket `i`.
    pub open spec fn same_but(self, before: DataArea<T>, i: int) -> bool {
        &&& self.terminal == before.terminal
        &&& self.slots@.len() == before.slots@.len()
        &&& forall|j: int|
            0 <= j < self.slots@.len() && j != i ==> #[trigger] self.slots@[j] == before.slots@[j]
    }
}

/// The number of items of type `T` that fit between two positions.
pub fn offset_from<T>(to: usize, from: usize) -> (r: usize)
    requires
        vstd::layout::size_of::<T>() > 0,
        from <= to,
    ensures
        r == (to - from) / (vstd::layout::size_of::<T>() as int),
{
    (to - from) / core::mem::size_of::<T>()
}

/// Mutable access to what a `ManuallyDrop` holds.
///
/// This is `core::ops::DerefMut::deref_mut` of `core::mem::ManuallyDrop`: it borrows the inner
/// value, and what is written through the borrow is the inner value afterwards.
#[verifier::external_body]
fn inner_mut<T>(m: &mut ManuallyDrop<T>) -> (r: &mut T)
    ensures
        *r == old(m)@,
        final(m)@ == *final(r),
{
    core::ops::DerefMut::deref_mut(m)
}

/// `core::mem::drop` takes a value and runs its destructor. Nothing is claimed of what the
/// destructor does, only that the call was made; like any code of the item type, it may panic.
pub assume_specification<T>[ core::mem::drop::<T> ](x: T);

/// The item `x` was dropped.
pub open spec fn dropped<T>(x: T) -> bool {
    call_ensures(core::mem::drop::<T>, (x,), ())
}

/// A reference to a bucket that holds an item of type `T`.
pub struct Bucket<T> {
    /// the position behind the item
    pub ptr: usize,
    pub marker: PhantomData<T>,
}

impl<T> Clone for Bucket<T> {
    fn clone(&self) -> (r: Self)
        ensures
            r == *self,
    {
        Bucket { ptr: self.ptr, marker: self.marker }
    }
}

impl<T> Bucket<T> {
    /// The bucket has number `index`, counted from the position `base`.
    pub open spec fn is_at(self, base: int, index: int) -> bool {
        if vstd::layout::size_of::<T>() == 0 {
            self.ptr == index + 1
        } else {
            self.ptr == base - index * vstd::layout::size_of::<T>()
        }
    }

    /// The bucket has some number, counted from the position `base`.
    pub open spec fn belongs_to(self, base: int) -> bool {
        if vstd::layout::size_of::<T>() == 0 {
            self.ptr >= 1
        } else {
            self.ptr <= base && (base - self.ptr) % (vstd::layout::size_of::<T>() as int) == 0
        }
    }

    /// The number of the bucket, counted from the position `base`.
    pub open spec fn index(self, base: int) -> int {
        if vstd::layout::size_of::<T>() == 0 {
            self.ptr - 1
        } else {
            (base - self.ptr) / (vstd::layout::size_of::<T>() as int)
        }
    }

    /// The bucket has a slot in the area.
    pub open spec fn is_in(self, data: DataArea<T>) -> bool {
        &&& self.belongs_to(data.terminal as int)
        &&& self.index(data.terminal as int) < data.slots@.len()
    }

    /// A bucket has exactly the number by which it was found.
    pub proof fn lemma_index(self, base: int, index: int)
        requires
            self.is_at(base, index),
            0 <= index,
        ensures
            self.belongs_to(base),
            self.index(base) == index,
    {
        let size = vstd::layout::size_of::<T>() as int;
        if size > 0 {
            assert(base - self.ptr == index * size);
            vstd::arithmetic::div_mod::lemma_div_by_multiple(index, size);
            vstd::arithmetic::div_mod::lemma_mod_multiples_basic(index, size);
            assert(index * size >= 0) by (nonlinear_arith)
                requires
                    index >= 0,
                    size > 0,
            ;
        }
    }

    /// A bucket that belongs to `base` is at its number.
    pub proof fn lemma_is_at(self, base: int)
        requires
            self.belongs_to(base),
        ensures
            self.is_at(base, self.index(base)),
            0 <= self.index(base),
    {
        let size = vstd::layout::size_of::<T>() as int;
        if size > 0 {
            vstd::arithmetic::div_mod::lemma_fundamental_div_mod(base - self.ptr, size);
            vstd::arithmetic::div_mod::lemma_div_pos_is_pos(base - self.ptr, size);
            let index = self.index(base);
            assert(size * index == index * size) by (nonlinear_arith);
        }
    }

    /// The bucket with number `index`, counted from the position `base`.
    pub fn from_base_index(base: usize, index: usize) -> (r: Self)
        requires
            vstd::layout::size_of::<T>() == 0 ==> index < usize::MAX,
            index * vstd::layout::size_of::<T>() <= base,
        ensures
            r.is_at(base as int, index as int),
            r.belongs_to(base as int),
            r.index(base as int) == index,
    {
        let size: usize = core::mem::size_of::<T>();
        let ptr: usize = if size == 0 {
            index + 1
        } else {
            base - index * size
        };
        let r: Bucket<T> = Bucket { ptr, marker: PhantomData };
        proof {
            r.lemma_index(base as int, index as int);
        }
        r
    }

    /// The position of the item. Items without a size are all at the same, aligned position.
    pub fn as_ptr(&self) -> (r: usize)
        requires
            self.ptr >= vstd::layout::size_of::<T>(),
        ensures
            r == if vstd::layout::size_of::<T>() == 0 {
                vstd::layout::align_of::<T>() as int
            } else {
                self.ptr - vstd::layout::size_of::<T>()
            },
    {
        let size: usize = core::mem::size_of::<T>();
        if size == 0 {
            core::mem::align_of::<T>()
        } else {
            self.ptr - size
        }
    }

    /// The number of the bucket, counted from the position `base`.
    pub fn to_base_index(&self, base: usize) -> (r: usize)
        requires
            self.belongs_to(base as int),
        ensures
            r == self.index(base as int),
            self.is_at(base as int, r as int),
    {
        proof {
            self.lemma_is_at(base as int);
        }
        if core::mem::size_of::<T>() == 0 {
            self.ptr - 1
        } else {
            offset_from::<T>(base, self.ptr)
        }
    }

    /// Drops the item in the bucket.
    pub fn drop(&self, data: &mut DataArea<T>)
        requires
            self.is_in(*old(data)),
            old(data).item(self.index(old(data).terminal as int)) is Some,
        ensures
            final(data).same_but(*old(data), self.index(old(data).terminal as int)),
            final(data).slots@[self.index(old(data).terminal as int)] is None,
            old(data).item(self.index(old(data).terminal as int)) matches Some(x) ==> dropped(x),
    {
        let item: T = self.read(data);
        core::mem::drop(item);
    }

    /// Moves the item out of the bucket. The room that it was in stays as it is. Items that can
    /// be copied need not leave: see `read_copy`.
    pub fn read(&self, data: &mut DataArea<T>) -> (r: T)
        requires
            self.is_in(*old(data)),
            old(data).item(self.index(old(data).terminal as int)) is Some,
        ensures
            old(data).item(self.index(old(data).terminal as int)) == Some(r),
            final(data).same_but(*old(data), self.index(old(data).terminal as int)),
            final(data).slots@[self.index(old(data).terminal as int)] is None,
    {
        let i: usize = self.to_base_index(data.terminal);
        let item: Option<ManuallyDrop<T>> = data.slots[i].take();
        match item {
            Some(item) => ManuallyDrop::into_inner(item),
            None => unreached(),
        }
    }

    /// Puts an item into the bucket. What was there before is not dropped.
    pub fn write(&self, data: &mut DataArea<T>, val: T)
        requires
            self.is_in(*old(data)),
        ensures
            final(data).same_but(*old(data), self.index(old(data).terminal as int)),
            final(data).item(self.index(old(data).terminal as int)) == Some(val),
    {
        let i: usize = self.to_base_index(data.terminal);
        data.slots[i] = Some(ManuallyDrop::new(val));
    }

    /// The item in the bucket.
    pub fn as_ref<'a>(&self, data: &'a DataArea<T>) -> (r: &'a T)
        requires
            self.is_in(*data),
            data.item(self.index(data.terminal as int)) is Some,
        ensures
            data.item(self.index(data.terminal as int)) == Some(*r),
    {
        let i: usize = self.to_base_index(data.terminal);
        match &data.slots[i] {
            Some(item) => core::ops::Deref::deref(item),
            None => unreached(),
        }
    }

    /// The item in the bucket, for changing it.
    pub fn as_mut<'a>(&self, data: &'a mut DataArea<T>) -> (r: &'a mut T)
        requires
            self.is_in(*old(data)),
            old(data).item(self.index(old(data).terminal as int)) is Some,
        ensures
            old(data).item(self.index(old(data).terminal as int)) == Some(*r),
            final(data).same_but(*old(data), self.index(old(data).terminal as int)),
            final(data).item(self.index(old(data).terminal as int)) == Some(*final(r)),
    {
        let i: usize = self.to_base_index(data.terminal);
        match &mut data.slots[i] {
            Some(item) => inner_mut(item),
            None => unreached(),
        }
    }

    /// The bucket `offset` numbers further on.
    pub fn next_n(&self, offset: usize) -> (r: Self)
        requires
            vstd::layout::size_of::<T>() == 0 ==> self.ptr + offset <= usize::MAX,
            offset * vstd::layout::size_of::<T>() <= self.ptr,
        ensures
            r.ptr == if vstd::layout::size_of::<T>() == 0 {
                self.ptr + offset
            } else {
                self.ptr - offset * vstd::layout::size_of::<T>()
            },
            forall|base: int, index: int| #[trigger]
                self.is_at(base, index) ==> r.is_at(base, index + offset),
    {
        let size: usize = core::mem::size_of::<T>();
        let ptr: usize = if size == 0 {
            self.ptr + offset
        } else {
            self.ptr - offset * size
        };
        let r: Bucket<T> = Bucket { ptr, marker: PhantomData };
        proof {
            assert forall|base: int, index: int| #[trigger] self.is_at(base, index) implies r.is_at(
                base,
                index + offset,
            ) by {
                assert(index * size + offset * size == (index + offset) * size)
                    by (nonlinear_arith);
            }
        }
        r
    }
}

impl<T> Bucket<T> {
    /// Brings what is in a bucket of another table over to this one. What was here before is
    /// not dropped. An item is in one place only, so the other bucket holds nothing afterwards.
    pub fn copy_from_nonoverlapping(
        &self,
        data: &mut DataArea<T>,
        other: &Self,
        from: &mut DataArea<T>,
    )
        requires
            self.is_in(*old(data)),
            other.is_in(*old(from)),
        ensures
            final(data).same_but(*old(data), self.index(old(data).terminal as int)),
            final(data).slots@[self.index(old(data).terminal as int)]
                == old(from).slots@[other.index(old(from).terminal as int)],
            final(from).same_but(*old(from), other.index(old(from).terminal as int)),
            final(from).slots@[other.index(old(from).terminal as int)] is None,
    {
        let i: usize = self.to_base_index(data.terminal);
        let j: usize = other.to_base_index(from.terminal);
        let content: Option<ManuallyDrop<T>> = from.slots[j].take();
        data.slots[i] = content;
    }

    /// Brings what is in another bucket of the same table over to this one. What was here
    /// before is not dropped. The other bucket holds nothing afterwards.
    pub fn copy_within(&self, other: &Self, data: &mut DataArea<T>)
        requires
            self.is_in(*old(data)),
            other.is_in(*old(data)),
            self.ptr != other.ptr,
        ensures
            ({
                let i = self.index(old(data).terminal as int);
                let j = other.index(old(data).terminal as int);
                &&& i != j
                &&& final(data).terminal == old(data).terminal
                &&& final(data).slots@ == old(data).slots@.update(j, None).update(
                    i,
                    old(data).slots@[j],
                )
            }),
    {
        proof {
            let base = data.terminal as int;
            self.lemma_is_at(base);
            other.lemma_is_at(base);
        }
        let i: usize = self.to_base_index(data.terminal);
        let j: usize = other.to_base_index(data.terminal);
        let content: Option<ManuallyDrop<T>> = data.slots[j].take();
        data.slots[i] = content;
    }
}

impl<T: Copy> Bucket<T> {
    /// Reads the item in the bucket, which stays where it is.
    pub fn read_copy(&self, data: &DataArea<T>) -> (r: T)
        requires
            self.is_in(*data),
            data.item(self.index(data.terminal as int)) is Some,
        ensures
            data.item(self.index(data.terminal as int)) == Some(r),
    {
        *self.as_ref(data)
    }
}

/// A bucket that was found by its number gives the number back.
pub proof fn law_index_round_trip<T>(bucket: Bucket<T>, base: int, index: int)
    requires
        0 <= index,
        bucket.is_at(base, index),
    ensures
        bucket.belongs_to(base),
        bucket.index(base) == index,
{
    bucket.lemma_index(base, index);
}

/// Buckets with different numbers are different.
pub proof fn law_buckets_differ<T>(a: Bucket<T>, b: Bucket<T>, base: int, i: int, j: int)
    requires
        a.is_at(base, i),
        b.is_at(base, j),
        0 <= i,
        0 <= j,
        i != j,
    ensures
        a.ptr != b.ptr,
{
    a.lemma_index(base, i);
    b.lemma_index(base, j);
}

/// In a table's allocation the item of every bucket lies between the start and the control
/// bytes, at an aligned position, and the items of different buckets have no byte in common.
pub proof fn law_items_do_not_overlap<T>(a: Bucket<T>, b: Bucket<T>, buckets: int, i: int, j: int)
    requires
        TableLayout::of::<T>().size == vstd::layout::size_of::<T>(),
        TableLayout::of::<T>().ctrl_byte_align >= vstd::layout::align_of::<T>(),
        vstd::layout::size_of::<T>() > 0,
        0 <= i < buckets,
        0 <= j < buckets,
        i != j,
        a.is_at(TableLayout::of::<T>().ctrl_offset(buckets), i),
        b.is_at(TableLayout::of::<T>().ctrl_offset(buckets), j),
    ensures
        vstd::layout::size_of::<T>() <= a.ptr <= TableLayout::of::<T>().ctrl_offset(buckets),
        (a.ptr - vstd::layout::size_of::<T>()) % (vstd::layout::align_of::<T>() as int) == 0,
        a.ptr <= b.ptr - vstd::layout::size_of::<T>() || b.ptr <= a.ptr
            - vstd::layout::size_of::<T>(),
{
    broadcast use vstd::layout::align_properties;

    let layout = TableLayout::of::<T>();
    let s = layout.size as int;
    let al = vstd::layout::align_of::<T>() as int;
    let off = layout.ctrl_offset(buckets);
    crate::math::lemma_small_powers();
    let e = crate::math::lemma_pow2_exponent(al);
    crate::table_layout::law_ctrl_bytes_follow_items(layout, buckets);
    assert(0 <= i * s && i * s + s <= s * buckets) by (nonlinear_arith)
        requires
            s > 0,
            0 <= i,
            i + 1 <= buckets,
    ;
    if i < j {
        assert(i * s + s <= j * s) by (nonlinear_arith)
            requires
                s > 0,
                i + 1 <= j,
        ;
    } else {
        assert(j * s + s <= i * s) by (nonlinear_arith)
            requires
                s > 0,
                j + 1 <= i,
        ;
    }
    // the alignment of the control bytes is a multiple of that of the items
    let c = layout.ctrl_byte_align as int;
    crate::math::lemma_pow2_divides(al, c);
    vstd::arithmetic::div_mod::lemma_fundamental_div_mod(off, c);
    vstd::arithmetic::div_mod::lemma_fundamental_div_mod(s, al);
    let m = (c / al) * (off / c) - (s / al) * (i + 1);
    assert(off - i * s - s == m * al) by (nonlinear_arith)
        requires
            off == c * (off / c),
            c == al * (c / al),
            s == al * (s / al),
            m == (c / al) * (off / c) - (s / al) * (i + 1),
    ;
    vstd::arithmetic::div_mod::lemma_mod_multiples_basic(m, al);
}

/// The bucket with number `index` is named by the position that lies as many items before the
/// base, or, where items have no size, by the number itself, counted from one.
pub proof fn law_position_of_bucket<T>(base: usize, index: usize, bucket: Bucket<T>)
    requires
        call_ensures(Bucket::<T>::from_base_index, (base, index), bucket),
    ensures
        vstd::layout::size_of::<T>() == 0 ==> bucket.ptr == index + 1,
        vstd::layout::size_of::<T>() > 0 ==> bucket.ptr == base - index
            * vstd::layout::size_of::<T>(),
{
}

/// The number of the bucket at a position is the one that leads to this position.
pub proof fn law_number_of_bucket<T>(bucket: Bucket<T>, base: usize, index: int, r: usize)
    requires
        index >= 0,
        vstd::layout::size_of::<T>() == 0 ==> bucket.ptr == index + 1,
        vstd::layout::size_of::<T>() > 0 ==> bucket.ptr == base - index
            * vstd::layout::size_of::<T>(),
        call_ensures(Bucket::<T>::to_base_index, (&bucket, base), r),
    ensures
        r == index,
{
    bucket.lemma_index(base as int, index);
}

/// An item that is read comes from the slot of the bucket, and leaves it. No other slot changes.
pub proof fn law_read_item<T>(bucket: Bucket<T>, data: &mut DataArea<T>, index: int, r: T)
    requires
        0 <= index < old(data).slots@.len(),
        vstd::layout::size_of::<T>() == 0 ==> bucket.ptr == index + 1,
        vstd::layout::size_of::<T>() > 0 ==> bucket.ptr == old(data).terminal - index
            * vstd::layout::size_of::<T>(),
        call_ensures(Bucket::<T>::read, (&bucket, data), r),
    ensures
        old(data).slots@[index] matches Some(x) && x@ == r,
        final(data).slots@[index] is None,
        final(data).terminal == old(data).terminal,
        final(data).slots@.len() == old(data).slots@.len(),
        forall|j: int|
            0 <= j < old(data).slots@.len() && j != index ==> #[trigger] final(data).slots@[j]
                == old(data).slots@[j],
{
    bucket.lemma_index(old(data).terminal as int, index);
}

/// An item that is written goes to the slot of the bucket. No other slot changes.
pub proof fn law_write_item<T>(bucket: Bucket<T>, data: &mut DataArea<T>, index: int, val: T)
    requires
        0 <= index < old(data).slots@.len(),
        vstd::layout::size_of::<T>() == 0 ==> bucket.ptr == index + 1,
        vstd::layout::size_of::<T>() > 0 ==> bucket.ptr == old(data).terminal - index
            * vstd::layout::size_of::<T>(),
        call_ensures(Bucket::<T>::write, (&bucket, data, val), ()),
    ensures
        final(data).slots@[index] matches Some(x) && x@ == val,
        final(data).terminal == old(data).terminal,
        final(data).slots@.len() == old(data).slots@.len(),
        forall|j: int|
            0 <= j < old(data).slots@.len() && j != index ==> #[trigger] final(data).slots@[j]
                == old(data).slots@[j],
{
    bucket.lemma_index(old(data).terminal as int, index);
}

/// What is referred to is the item in the slot of the bucket.
pub proof fn law_refer_to_item<T>(bucket: Bucket<T>, data: &DataArea<T>, index: int, r: &T)
    requires
        0 <= index < data.slots@.len(),
        vstd::layout::size_of::<T>() == 0 ==> bucket.ptr == index + 1,
        vstd::layout::size_of::<T>() > 0 ==> bucket.ptr == data.terminal - index
            * vstd::layout::size_of::<T>(),
        call_ensures(Bucket::<T>::as_ref, (&bucket, data), r),
    ensures
        data.slots@[index] matches Some(x) && x@ == *r,
{
    bucket.lemma_index(data.terminal as int, index);
}

/// What is changed is the item in the slot of the bucket, and no other.
pub proof fn law_change_item<T>(bucket: Bucket<T>, data: &mut DataArea<T>, index: int, r: &mut T)
    requires
        0 <= index < old(data).slots@.len(),
        vstd::layout::size_of::<T>() == 0 ==> bucket.ptr == index + 1,
        vstd::layout::size_of::<T>() > 0 ==> bucket.ptr == old(data).terminal - index
            * vstd::layout::size_of::<T>(),
        call_ensures(Bucket::<T>::as_mut, (&bucket, data), r),
    ensures
        old(data).slots@[index] matches Some(x) && x@ == *old(r),
        final(data).slots@[index] matches Some(x) && x@ == *final(r),
        final(data).terminal == old(data).terminal,
        final(data).slots@.len() == old(data).slots@.len(),
        forall|j: int|
            0 <= j < old(data).slots@.len() && j != index ==> #[trigger] final(data).slots@[j]
                == old(data).slots@[j],
{
    bucket.lemma_index(old(data).terminal as int, index);
}

/// What is dropped is the item in the slot of the bucket, and no other slot changes.
pub proof fn law_drop_item<T>(bucket: Bucket<T>, data: &mut DataArea<T>, index: int)
    requires
        0 <= index < old(data).slots@.len(),
        old(data).slots@[index] is Some,
        vstd::layout::size_of::<T>() == 0 ==> bucket.ptr == index + 1,
        vstd::layout::size_of::<T>() > 0 ==> bucket.ptr == old(data).terminal - index
            * vstd::layout::size_of::<T>(),
        call_ensures(Bucket::<T>::drop, (&bucket, data), ()),
    ensures
        old(data).slots@[index] matches Some(x) && call_ensures(core::mem::drop::<T>, (x@,), ()),
        final(data).slots@[index] is None,
        final(data).terminal == old(data).terminal,
        final(data).slots@.len() == old(data).slots@.len(),
        forall|j: int|
            0 <= j < old(data).slots@.len() && j != index ==> #[trigger] final(data).slots@[j]
                == old(data).slots@[j],
{
    bucket.lemma_index(old(data).terminal as int, index);
}

/// What is brought over from another table was in the slot of the other bucket, and is in the slot
/// of this one. No other slot of either table changes.
pub proof fn law_bring_item_over<T>(
    bucket: Bucket<T>,
    data: &mut DataArea<T>,
    other: Bucket<T>,
    from: &mut DataArea<T>,
    index: int,
    source: int,
)
    requires
        0 <= index < old(data).slots@.len(),
        0 <= source < old(from).slots@.len(),
        vstd::layout::size_of::<T>() == 0 ==> bucket.ptr == index + 1,
        vstd::layout::size_of::<T>() > 0 ==> bucket.ptr == old(data).terminal - index
            * vstd::layout::size_of::<T>(),
        vstd::layout::size_of::<T>() == 0 ==> other.ptr == source + 1,
        vstd::layout::size_of::<T>() > 0 ==> other.ptr == old(from).terminal - source
            * vstd::layout::size_of::<T>(),
        call_ensures(
            Bucket::<T>::copy_from_nonoverlapping,
            (&bucket, data, &other, from),
            (),
        ),
    ensures
        final(data).slots@[index] == old(from).slots@[source],
        final(from).slots@[source] is None,
        final(data).terminal == old(data).terminal,
        final(data).slots@.len() == old(data).slots@.len(),
        forall|j: int|
            0 <= j < old(data).slots@.len() && j != index ==> #[trigger] final(data).slots@[j]
                == old(data).slots@[j],
        final(from).terminal == old(from).terminal,
        final(from).slots@.len() == old(from).slots@.len(),
        forall|j: int|
            0 <= j < old(from).slots@.len() && j != source ==> #[trigger] final(from).slots@[j]
                == old(from).slots@[j],
{
    bucket.lemma_index(old(data).terminal as int, index);
    other.lemma_index(old(from).terminal as int, source);
}

/// What is brought over from another bucket of the same table was in that one's slot, and is in
/// the slot of this one. No other slot changes.
pub proof fn law_bring_item_over_within<T>(
    bucket: Bucket<T>,
    other: Bucket<T>,
    data: &mut DataArea<T>,
    index: int,
    source: int,
)
    requires
        0 <= index < old(data).slots@.len(),
        0 <= source < old(data).slots@.len(),
        index != source,
        vstd::layout::size_of::<T>() == 0 ==> bucket.ptr == index + 1,
        vstd::layout::size_of::<T>() > 0 ==> bucket.ptr == old(data).terminal - index
            * vstd::layout::size_of::<T>(),
        vstd::layout::size_of::<T>() == 0 ==> other.ptr == source + 1,
        vstd::layout::size_of::<T>() > 0 ==> other.ptr == old(data).terminal - source
            * vstd::layout::size_of::<T>(),
        call_ensures(Bucket::<T>::copy_within, (&bucket, &other, data), ()),
    ensures
        final(data).slots@[index] == old(data).slots@[source],
        final(data).slots@[source] is None,
        final(data).terminal == old(data).terminal,
        final(data).slots@.len() == old(data).slots@.len(),
        forall|j: int|
            0 <= j < old(data).slots@.len() && j != index && j != source
                ==> #[trigger] final(data).slots@[j] == old(data).slots@[j],
{
    bucket.lemma_index(old(data).terminal as int, index);
    other.lemma_index(old(data).terminal as int, source);
}

/// A copy that is read is the item in the slot of the bucket.
pub proof fn law_read_copy<T: Copy>(bucket: Bucket<T>, data: &DataArea<T>, index: int, r: T)
    requires
        0 <= index < data.slots@.len(),
        vstd::layout::size_of::<T>() == 0 ==> bucket.ptr == index + 1,
        vstd::layout::size_of::<T>() > 0 ==> bucket.ptr == data.terminal - index
            * vstd::layout::size_of::<T>(),
        call_ensures(Bucket::<T>::read_copy, (&bucket, data), r),
    ensures
        data.slots@[index] matches Some(x) && x@ == r,
{
    bucket.lemma_index(data.terminal as int, index);
}

/// A bucket with a slot can be written to, and whatever item is in it can be got at.
pub proof fn law_slot_can_be_used<T>(
    bucket: Bucket<T>,
    data: &mut DataArea<T>,
    index: int,
    val: T,
)
    requires
        0 <= index < old(data).slots@.len(),
        vstd::layout::size_of::<T>() == 0 ==> bucket.ptr == index + 1,
        vstd::layout::size_of::<T>() > 0 ==> bucket.ptr == old(data).terminal - index
            * vstd::layout::size_of::<T>(),
    ensures
        call_requires(Bucket::<T>::to_base_index, (&bucket, old(data).terminal)),
        call_requires(Bucket::<T>::write, (&bucket, data, val)),
        old(data).slots@[index] is Some ==> {
            &&& call_requires(Bucket::<T>::read, (&bucket, data))
            &&& call_requires(Bucket::<T>::drop, (&bucket, data))
            &&& call_requires(Bucket::<T>::as_ref, (&bucket, &*old(data)))
            &&& call_requires(Bucket::<T>::as_mut, (&bucket, data))
        },
{
    bucket.lemma_index(old(data).terminal as int, index);
}

} // verus!
