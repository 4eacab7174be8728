//! Where in a table's allocation the items and the control bytes lie.

use vstd::prelude::*;
use crate::group::Group;
use crate::mapalloc::Layout;

verus! {

/// What the layout of a table depends on, apart from the number of buckets.
///
/// It stands for the item type, so that the position of the control bytes can be computed
/// without it.
#[derive(Clone, Copy)]
pub struct TableLayout {
    /// the size of an item
    pub size: usize,
    /// the alignment of the control bytes
    pub ctrl_byte_align: usize,
}

/// The least multiple of `align` that is at least `x`.
pub open spec fn round_up(x: int, align: int) -> int {
    x + align - 1 - (x + align - 1) % align
}

impl TableLayout {
    /// The alignment is a power of two, and enough for aligned group accesses.
    pub open spec fn wf(self) -> bool {
        &&& vstd::arithmetic::power2::is_pow2(self.ctrl_byte_align as int)
        &&& self.ctrl_byte_align >= Group::WIDTH
    }

    /// The layout for items of type `T`.
    pub open spec fn of<T>() -> TableLayout {
        TableLayout {
            size: vstd::layout::size_of::<T>() as usize,
            ctrl_byte_align: if vstd::layout::align_of::<T>() < Group::WIDTH {
                Group::WIDTH
            } else {
                vstd::layout::align_of::<T>() as usize
            },
        }
    }

    /// The distance of the control bytes from the start of the allocation: the items of all
    /// buckets come first, with padding before them.
    pub open spec fn ctrl_offset(self, buckets: int) -> int {
        round_up(self.size * buckets, self.ctrl_byte_align as int)
    }

    /// The size of the allocation: after the items there is a control byte for each bucket,
    /// and one group more.
    pub open spec fn total(self, buckets: int) -> int {
        self.ctrl_offset(buckets) + buckets + Group::WIDTH
    }

    /// Whether a `usize` holds every number that the computation of the layout passes through.
    pub open spec fn fits(self, buckets: int) -> bool {
        &&& self.size * buckets + self.ctrl_byte_align - 1 <= usize::MAX
        &&& self.total(buckets) <= usize::MAX
    }

    /// The layout of the allocation for a number of buckets.
    pub open spec fn layout(self, buckets: int) -> Layout {
        Layout { size: self.total(buckets) as usize, align: self.ctrl_byte_align }
    }

    /// The layout for items of type `T`.
    pub fn new<T>() -> (r: Self)
        ensures
            r == TableLayout::of::<T>(),
            r.size == vstd::layout::size_of::<T>(),
            r.ctrl_byte_align >= 16,
            r.ctrl_byte_align >= vstd::layout::align_of::<T>(),
            r.ctrl_byte_align == 16 || r.ctrl_byte_align == vstd::layout::align_of::<T>(),
            vstd::layout::align_of::<T>() <= 16 ==> r.ctrl_byte_align == 16,
            r.wf(),
    {
        let layout: Layout = Layout::new::<T>();
        proof {
            crate::math::lemma_small_powers();
        }
        TableLayout {
            size: layout.size,
            ctrl_byte_align: if layout.align < Group::WIDTH {
                Group::WIDTH
            } else {
                layout.align
            },
        }
    }

    /// The layout of the allocation for the given number of buckets, and the distance of the
    /// control bytes from its start; `None` where the size does not fit in a `usize`.
    pub fn calculate_layout_for(self, buckets: usize) -> (r: Option<(Layout, usize)>)
        requires
            vstd::arithmetic::power2::is_pow2(self.ctrl_byte_align as int),
        ensures
            r is Some <==> self.fits(buckets as int),
            r matches Some((layout, offset)) ==> {
                &&& layout == self.layout(buckets as int)
                &&& layout.size == self.total(buckets as int)
                &&& offset == self.ctrl_offset(buckets as int)
                &&& offset % self.ctrl_byte_align == 0
                &&& self.size * buckets <= offset < self.size * buckets + self.ctrl_byte_align
                &&& layout.size == offset + buckets + 16
                &&& layout.align == self.ctrl_byte_align
            },
            r is None ==> self.size * buckets + self.ctrl_byte_align + buckets + 16 > usize::MAX,
    {
        proof {
            crate::math::lemma_pow2_exponent(self.ctrl_byte_align as int);
            law_ctrl_bytes_follow_items(self, buckets as int);
            assert(self.size * buckets >= 0) by (nonlinear_arith)
                requires
                    self.size >= 0,
                    buckets >= 0,
            ;
            let x = self.size * buckets + self.ctrl_byte_align - 1;
            vstd::arithmetic::div_mod::lemma_mod_bound(x, self.ctrl_byte_align as int);
            vstd::arithmetic::div_mod::lemma_mod_decreases(x as nat, self.ctrl_byte_align as nat);
        }
        let data_size: usize = match self.size.checked_mul(buckets) {
            None => return None,
            Some(data_size) => data_size,
        };
        let padded: usize = match data_size.checked_add(self.ctrl_byte_align - 1) {
            None => return None,
            Some(padded) => padded,
        };
        proof {
            crate::math::lemma_clear_low_bits(padded, self.ctrl_byte_align);
        }
        let ctrl_byte_offset: usize = padded & !(self.ctrl_byte_align - 1);
        let ctrl_bytes: usize = match buckets.checked_add(Group::WIDTH) {
            None => return None,
            Some(ctrl_bytes) => ctrl_bytes,
        };
        let len: usize = match ctrl_byte_offset.checked_add(ctrl_bytes) {
            None => return None,
            Some(len) => len,
        };
        Some((Layout::from_size_align_unchecked(len, self.ctrl_byte_align), ctrl_byte_offset))
    }
}

/// The layout of the allocation of a table of items of type `T`, and the distance of the
/// control bytes from its start; `None` where the size does not fit in a `usize`.
pub fn calculate_layout<T>(buckets: usize) -> (r: Option<(Layout, usize)>)
    ensures
        TableLayout::of::<T>().size == vstd::layout::size_of::<T>(),
        TableLayout::of::<T>().ctrl_byte_align == if vstd::layout::align_of::<T>() < 16 {
            16
        } else {
            vstd::layout::align_of::<T>()
        },
        r is Some <==> TableLayout::of::<T>().fits(buckets as int),
        r matches Some((layout, offset)) ==> {
            &&& layout == TableLayout::of::<T>().layout(buckets as int)
            &&& layout.size == TableLayout::of::<T>().total(buckets as int)
            &&& offset == TableLayout::of::<T>().ctrl_offset(buckets as int)
            &&& vstd::layout::size_of::<T>() * buckets <= offset
            &&& layout.size == offset + buckets + 16
            &&& offset % layout.align == 0
            &&& layout.align >= 16
            &&& layout.align >= vstd::layout::align_of::<T>()
            &&& layout.align == 16 || layout.align == vstd::layout::align_of::<T>()
            &&& offset < vstd::layout::size_of::<T>() * buckets + layout.align
        },
        r is None ==> vstd::layout::size_of::<T>() * buckets + (if vstd::layout::align_of::<T>()
            < 16 {
            16
        } else {
            vstd::layout::align_of::<T>()
        }) + buckets + 16 > usize::MAX,
{
    TableLayout::new::<T>().calculate_layout_for(buckets)
}

/// The control bytes begin at an aligned position, behind the room for all items, and less than
/// one alignment further on than they must.
pub proof fn law_ctrl_bytes_follow_items(layout: TableLayout, buckets: int)
    requires
        layout.ctrl_byte_align >= 1,
        buckets >= 0,
    ensures
        layout.ctrl_offset(buckets) % (layout.ctrl_byte_align as int) == 0,
        layout.size * buckets <= layout.ctrl_offset(buckets) < layout.size * buckets
            + layout.ctrl_byte_align,
{
    let a = layout.ctrl_byte_align as int;
    let x = layout.size * buckets + a - 1;
    vstd::arithmetic::div_mod::lemma_mod_bound(x, a);
    vstd::arithmetic::div_mod::lemma_fundamental_div_mod(x, a);
    assert(a * (x / a) == (x / a) * a) by (nonlinear_arith);
    vstd::arithmetic::div_mod::lemma_mod_multiples_basic(x / a, a);
}

/// The control bytes of a table are aligned as its items are or as a group is, whichever is
/// more: to 16 bytes for all items that ask for no more than that.
pub proof fn law_alignment_is_that_of_items_or_group<T>(r: TableLayout)
    requires
        call_ensures(TableLayout::new::<T>, (), r),
    ensures
        r.size == vstd::layout::size_of::<T>(),
        r.ctrl_byte_align >= 16,
        r.ctrl_byte_align >= vstd::layout::align_of::<T>(),
        r.ctrl_byte_align == 16 || r.ctrl_byte_align == vstd::layout::align_of::<T>(),
        vstd::layout::align_of::<T>() <= 16 ==> r.ctrl_byte_align == 16,
{
}

/// There is a layout wherever the numbers fit: `offset`, the first aligned position behind the
/// items, can be computed, and so can the whole size.
pub proof fn law_layout_exists_where_it_fits(
    table_layout: TableLayout,
    buckets: usize,
    offset: int,
    r: Option<(Layout, usize)>,
)
    requires
        vstd::arithmetic::power2::is_pow2(table_layout.ctrl_byte_align as int),
        call_ensures(TableLayout::calculate_layout_for, (table_layout, buckets), r),
        offset % (table_layout.ctrl_byte_align as int) == 0,
        table_layout.size * buckets <= offset < table_layout.size * buckets
            + table_layout.ctrl_byte_align,
    ensures
        r is Some <==> table_layout.size * buckets + table_layout.ctrl_byte_align - 1 <= usize::MAX
            && offset + buckets + 16 <= usize::MAX,
        table_layout.size * buckets + table_layout.ctrl_byte_align + buckets + 16 <= usize::MAX
            ==> r is Some,
        r matches Some((layout, position)) ==> {
            &&& position == offset
            &&& layout.size == offset + buckets + 16
            &&& layout.align == table_layout.ctrl_byte_align
        },
{
    let a = table_layout.ctrl_byte_align as int;
    let e = crate::math::lemma_pow2_exponent(a);
    law_ctrl_bytes_follow_items(table_layout, buckets as int);
    lemma_multiple_is_unique(
        offset,
        table_layout.ctrl_offset(buckets as int),
        table_layout.size * buckets,
        a,
    );
}

/// A run of `a` numbers has only one multiple of `a` in it.
pub proof fn lemma_multiple_is_unique(x: int, y: int, low: int, a: int)
    requires
        a >= 1,
        x % a == 0,
        y % a == 0,
        low <= x < low + a,
        low <= y < low + a,
    ensures
        x == y,
{
    vstd::arithmetic::div_mod::lemma_fundamental_div_mod(x, a);
    vstd::arithmetic::div_mod::lemma_fundamental_div_mod(y, a);
    let p = x / a;
    let q = y / a;
    if p < q {
        assert(a * p + a <= a * q) by (nonlinear_arith)
            requires
                a >= 1,
                p + 1 <= q,
        ;
    }
    if q < p {
        assert(a * q + a <= a * p) by (nonlinear_arith)
            requires
                a >= 1,
                q + 1 <= p,
        ;
    }
}

/// There is a layout for items of type `T` wherever the numbers fit, and it is laid out by the
/// size and the alignment of the items: `align` is the larger of theirs and a group's, and
/// `offset` the first position behind them that has it.
pub proof fn law_layout_of_items<T>(
    buckets: usize,
    align: int,
    offset: int,
    r: Option<(Layout, usize)>,
)
    requires
        call_ensures(calculate_layout::<T>, (buckets,), r),
        align >= 16,
        align >= vstd::layout::align_of::<T>(),
        align == 16 || align == vstd::layout::align_of::<T>(),
        offset % align == 0,
        vstd::layout::size_of::<T>() * buckets <= offset < vstd::layout::size_of::<T>() * buckets
            + align,
    ensures
        r is Some <==> vstd::layout::size_of::<T>() * buckets + align - 1 <= usize::MAX && offset
            + buckets + 16 <= usize::MAX,
        r matches Some((layout, position)) ==> {
            &&& position == offset
            &&& layout.size == offset + buckets + 16
            &&& layout.align == align
        },
{
    law_ctrl_bytes_follow_items(TableLayout::of::<T>(), buckets as int);
    lemma_multiple_is_unique(
        offset,
        TableLayout::of::<T>().ctrl_offset(buckets as int),
        vstd::layout::size_of::<T>() * buckets,
        align,
    );
}

} // verus!
