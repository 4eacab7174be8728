use skymap::control_bytes::{DELETED, EMPTY};
use skymap::hash::h2;
use skymap::low_table::LowTable;
use skymap::mapalloc::{AllocError, Allocator, Global, Layout};
use skymap::reserve::{Fallibility, TryReserveError};
use skymap::table_layout::TableLayout;
use std::cell::Cell;
use std::rc::Rc;

/// Counts what it hands out and takes back.
#[derive(Clone)]
struct Counting {
    out: Rc<Cell<usize>>,
    back: Rc<Cell<usize>>,
}

impl Counting {
    fn new() -> Counting {
        Counting { out: Rc::new(Cell::new(0)), back: Rc::new(Cell::new(0)) }
    }
}

impl Allocator for Counting {
    fn allocate(&self, layout: Layout) -> Result<Vec<u8>, AllocError> {
        self.out.set(self.out.get() + layout.size);
        Ok(vec![0xaa; layout.size])
    }

    fn deallocate(&self, block: Vec<u8>, layout: Layout) {
        assert_eq!(block.len(), layout.size);
        self.back.set(self.back.get() + layout.size);
    }
}

/// Has no memory.
#[derive(Clone)]
struct Refusing;

impl Allocator for Refusing {
    fn allocate(&self, _layout: Layout) -> Result<Vec<u8>, AllocError> {
        Err(AllocError)
    }

    fn deallocate(&self, _block: Vec<u8>, _layout: Layout) {}
}

fn table(capacity: usize) -> LowTable<Global> {
    LowTable::fallible_with_capacity(
        Global,
        TableLayout::new::<u64>(),
        capacity,
        Fallibility::Fallible,
    )
    .unwrap()
}

fn bytes<A>(t: &LowTable<A>) -> Vec<u8> {
    t.block[t.ctrl..].to_vec()
}

fn insert<A: Allocator + Clone>(t: &mut LowTable<A>, hash: u64) -> usize {
    let index = t.find_insert_slot(hash);
    let old = t.block[t.ctrlof(index)];
    t.record_item_insert_at(index, old, hash);
    index
}

/// Whether a lookup for the hash comes to bucket `i` before it stops.
fn finds<A>(t: &LowTable<A>, hash: u64, i: usize) -> bool {
    let mut p = t.probe_seq(hash);
    loop {
        let group = &t.block[t.ctrl + p.pos..t.ctrl + p.pos + 16];
        for o in 0..16 {
            if group[o] == h2(hash) && (p.pos + o) & t.bucket_mask == i {
                return true;
            }
        }
        if group.contains(&EMPTY) {
            return false;
        }
        p.move_to_next(t.bucket_mask);
    }
}

#[test]
fn empty_singleton() {
    let t = LowTable::new_in(Global);
    assert!(t.is_empty_singleton());
    assert_eq!(t.buckets(), 1);
    assert_eq!(t.items, 0);
    assert_eq!(t.growth_left, 0);
    assert_eq!(t.block.capacity(), 0);
    assert_eq!(t.ctrl_byte(0), EMPTY);
    assert_eq!(t.load_group(0).bytes, [EMPTY; 16]);
    assert_eq!(t.find_insert_slot(77), 0);
}

#[test]
fn capacity_zero_allocates_nothing() {
    let a = Counting::new();
    let t = LowTable::fallible_with_capacity(
        a.clone(),
        TableLayout::new::<u64>(),
        0,
        Fallibility::Infallible,
    )
    .unwrap();
    assert!(t.is_empty_singleton());
    assert_eq!(a.out.get(), 0);
}

#[test]
fn fresh_table_is_empty() {
    let t = table(10);
    assert_eq!(t.buckets(), 16);
    assert_eq!(t.growth_left, 14);
    assert_eq!(t.items, 0);
    assert_eq!(t.ctrl, 128);
    assert_eq!(t.block.len(), 160);
    assert_eq!(t.count_ctrl_bytes(), 32);
    assert_eq!(bytes(&t), vec![EMPTY; 32]);
    assert_eq!(t.ctrlof(3), 131);
    assert_eq!(t.data_terminal_ptr(), 128);
}

#[test]
fn uninitialised_table_keeps_the_memory_as_it_is() {
    let a = Counting::new();
    let t = LowTable::new_uinit(
        a.clone(),
        TableLayout::new::<u64>(),
        8,
        Fallibility::Fallible,
    )
    .unwrap();
    assert_eq!(a.out.get(), 88);
    assert_eq!(t.bucket_mask, 7);
    assert_eq!(t.growth_left, 7);
    assert_eq!(bytes(&t), vec![0xaa; 24]);
}

#[test]
fn capacity_overflow() {
    let r = LowTable::fallible_with_capacity(
        Global,
        TableLayout::new::<u64>(),
        usize::MAX,
        Fallibility::Fallible,
    );
    assert!(matches!(r, Err(TryReserveError::CapacityOverflow)));
    let r = LowTable::fallible_with_capacity(
        Global,
        TableLayout::new::<[u64; 100]>(),
        usize::MAX / 16,
        Fallibility::Fallible,
    );
    assert!(matches!(r, Err(TryReserveError::CapacityOverflow)));
}

#[test]
fn refused_allocation() {
    let r = LowTable::fallible_with_capacity(
        Refusing,
        TableLayout::new::<u64>(),
        10,
        Fallibility::Fallible,
    );
    match r {
        Err(e) => assert_eq!(
            e,
            TryReserveError::AllocatorError { layout: Layout { size: 160, align: 16 } }
        ),
        Ok(_) => panic!("there is no memory"),
    }
}

#[test]
fn answer_of_the_allocator_decides() {
    let layout = Layout { size: 36, align: 16 };
    let r = LowTable::over_allocation(
        Global,
        Err(AllocError),
        layout,
        16,
        4,
        Fallibility::Fallible,
    );
    assert!(matches!(r, Err(TryReserveError::AllocatorError { .. })));
    let t = LowTable::over_allocation(
        Global,
        Ok(vec![7; 36]),
        layout,
        16,
        4,
        Fallibility::Fallible,
    )
    .unwrap();
    assert_eq!(t.bucket_mask, 3);
    assert_eq!(t.growth_left, 3);
    assert_eq!(t.block, vec![7; 36]);
    assert_eq!(t.ctrl, 16);
}

#[test]
fn errors_for_requests() {
    assert_eq!(Fallibility::Fallible.capacity_overflow(), TryReserveError::CapacityOverflow);
    let layout = Layout { size: 1, align: 1 };
    let e = Fallibility::Infallible.allocator_error(layout);
    assert_eq!(e, TryReserveError::AllocatorError { layout });
    assert_eq!(e.clone(), e);
}

#[test]
fn control_bytes_are_mirrored_in_a_small_table() {
    let mut t = table(3);
    t.set_ctrlof(1, 0x22);
    let mut expected = vec![EMPTY; 20];
    expected[1] = 0x22;
    expected[17] = 0x22;
    assert_eq!(bytes(&t), expected);
}

#[test]
fn control_bytes_are_mirrored_in_a_large_table() {
    let mut t = table(20);
    assert_eq!(t.buckets(), 32);
    t.set_ctrlof(3, 0x22);
    t.set_ctrlof(20, 0x33);
    let mut expected = vec![EMPTY; 48];
    expected[3] = 0x22;
    expected[35] = 0x22;
    expected[20] = 0x33;
    assert_eq!(bytes(&t), expected);
}

#[test]
fn h2_is_what_is_stored() {
    let mut t = table(20);
    t.set_ctrl_h2_of(2, 0xaa00_0000_0000_0000);
    assert_eq!(t.block[t.ctrlof(2)], 0x55);
    assert_eq!(t.update_ctrl_h2_of(2, u64::MAX), 0x55);
    assert_eq!(t.block[t.ctrlof(2)], 0x7f);
}

#[test]
fn probe_begins_at_the_hash() {
    let t = table(20);
    let p = t.probe_seq(0x1_0000_0025);
    assert_eq!(p.pos, 5);
    assert_eq!(p.stride, 0);
}

#[test]
fn slots_in_a_small_table() {
    let mut t = table(3);
    assert_eq!(insert(&mut t, 1), 1);
    assert_eq!(insert(&mut t, 1), 2);
    assert_eq!(insert(&mut t, 1), 3);
    assert_eq!(t.growth_left, 0);
    assert_eq!(t.items, 3);
    assert_eq!(t.find_insert_slot(1), 0);
}

#[test]
fn second_scan_in_a_small_table() {
    let mut t = table(3);
    assert_eq!(insert(&mut t, 0), 0);
    assert_eq!(insert(&mut t, 3), 3);
    assert_eq!(t.find_insert_slot(3), 1);
}

#[test]
fn full_group_leads_to_the_next() {
    let mut t = table(20);
    for i in 0..16 {
        assert_eq!(insert(&mut t, 0), i);
    }
    assert_eq!(t.find_insert_slot(0), 16);
    assert_eq!(t.find_insert_slot(31), 31);
}

#[test]
fn prepare_marks_without_counting() {
    let mut t = table(20);
    let (index, old) = t.prepare_insert_slot(7);
    assert_eq!((index, old), (7, EMPTY));
    assert_eq!(t.block[t.ctrlof(7)], h2(7));
    assert_eq!(t.items, 0);
    assert_eq!(t.growth_left, 28);
}

#[test]
fn prepared_item_is_counted() {
    let mut t = table(20);
    let mut u = table(20);
    for hash in [7, 7, 40, u64::MAX] {
        let (index, old) = t.prepare_insert_slot(hash);
        t.record_item_insert_at(index, old, hash);
        assert_eq!(insert(&mut u, hash), index);
    }
    assert_eq!(bytes(&t), bytes(&u));
    assert_eq!((t.items, t.growth_left), (4, 24));
    assert_eq!((u.items, u.growth_left), (4, 24));
}

#[test]
fn table_stands_on_what_was_given() {
    let a = Counting::new();
    let mut t = LowTable::fallible_with_capacity(
        a.clone(),
        TableLayout::new::<u64>(),
        10,
        Fallibility::Fallible,
    )
    .unwrap();
    assert_eq!(t.block[..128], [0xaa; 128]);
    assert_eq!(t.block[128..], [EMPTY; 32]);
    let i = insert(&mut t, 9);
    t.erase(i);
    t.clear_no_drop();
    assert_eq!(t.block[..128], [0xaa; 128]);
    let guard = t
        .prepare_resize(TableLayout::new::<u64>(), 20, Fallibility::Fallible)
        .unwrap();
    assert_eq!(guard.value.block[..256], [0xaa; 256]);
    guard.free();
    t.free_buckets(TableLayout::new::<u64>());
    assert_eq!(a.out.get(), 160 + 304);
    assert_eq!(a.back.get(), 160 + 304);
}

#[test]
fn erase_from_a_table_that_is_being_filled() {
    let mut t = table(20);
    insert(&mut t, 1);
    insert(&mut t, 2);
    let mut guard = t
        .prepare_resize(TableLayout::new::<u64>(), 20, Fallibility::Fallible)
        .unwrap();
    let (index, _) = guard.value.prepare_insert_slot(1);
    assert_eq!((guard.value.items, guard.value.growth_left), (2, 26));
    guard.value.erase(index);
    assert_eq!((guard.value.items, guard.value.growth_left), (1, 27));
    assert_eq!(bytes(&guard.value), vec![EMPTY; 48]);
    guard.free();
}

#[test]
fn erase_makes_a_lonely_bucket_empty() {
    let mut t = table(20);
    let before = bytes(&t);
    let i = insert(&mut t, 9);
    t.erase(i);
    assert_eq!(bytes(&t), before);
    assert_eq!(t.items, 0);
    assert_eq!(t.growth_left, 28);
}

#[test]
fn erase_leaves_a_tombstone_in_a_crowd() {
    let mut t = table(20);
    for _ in 0..16 {
        insert(&mut t, 0);
    }
    t.erase(5);
    assert_eq!(t.block[t.ctrlof(5)], DELETED);
    assert_eq!(t.block[t.ctrlof(37)], DELETED);
    assert_eq!(t.items, 15);
    assert_eq!(t.growth_left, 12);
    // the bucket is used again, and costs no growth
    assert_eq!(insert(&mut t, 0), 5);
    assert_eq!(t.growth_left, 12);
}

#[test]
fn fifteen_in_a_row_are_no_crowd() {
    let mut t = table(20);
    for _ in 0..15 {
        insert(&mut t, 0);
    }
    t.erase(5);
    assert_eq!(t.block[t.ctrlof(5)], EMPTY);
    assert_eq!(t.growth_left, 14);
}

#[test]
fn small_tables_have_no_tombstones() {
    let mut t = table(7);
    for _ in 0..7 {
        insert(&mut t, 2);
    }
    for i in [4, 2, 0] {
        t.erase(i);
        assert_eq!(t.block[t.ctrlof(i)], EMPTY);
    }
    assert_eq!(t.growth_left, 3);
}

#[test]
fn items_are_found_until_they_are_erased() {
    let mut t = table(200);
    let mut live: Vec<(u64, usize)> = Vec::new();
    let mut x: u64 = 0x9e37_79b9_7f4a_7c15;
    for round in 0..600u64 {
        x ^= x << 13;
        x ^= x >> 7;
        x ^= x << 17;
        let hash = x & 0xff00_0000_0000_003f;
        if t.growth_left > 0 && (live.is_empty() || round % 3 != 0) {
            let i = insert(&mut t, hash);
            live.push((hash, i));
        } else {
            let (hash, i) = live.swap_remove(x as usize % live.len());
            assert!(finds(&t, hash, i));
            t.erase(i);
            assert!(!finds(&t, hash, i));
        }
        assert_eq!(t.items, live.len());
        for (hash, i) in &live {
            assert!(finds(&t, *hash, *i));
        }
    }
}

#[test]
fn same_group() {
    let t = table(50);
    assert_eq!(t.buckets(), 64);
    assert!(t.is_in_same_group(5, 20, 5));
    assert!(!t.is_in_same_group(5, 21, 5));
    assert!(t.is_in_same_group(60, 3, 60));
    assert!(!t.is_in_same_group(59, 60, 60));
}

#[test]
fn rehash_preparation_in_a_small_table() {
    let mut t = table(3);
    insert(&mut t, 0);
    insert(&mut t, 2);
    t.prepare_rehash_in_place();
    let mut expected = vec![EMPTY; 20];
    for i in [0, 2, 16, 18] {
        expected[i] = DELETED;
    }
    assert_eq!(bytes(&t), expected);
    assert_eq!(t.items, 2);
}

#[test]
fn rehash_preparation_in_a_large_table() {
    let mut t = table(20);
    for _ in 0..17 {
        insert(&mut t, 0);
    }
    t.erase(5);
    assert_eq!(t.block[t.ctrlof(5)], DELETED);
    t.prepare_rehash_in_place();
    let mut expected = vec![EMPTY; 48];
    for i in 0..17 {
        expected[i] = DELETED;
        if i < 16 {
            expected[32 + i] = DELETED;
        }
    }
    expected[5] = EMPTY;
    expected[37] = EMPTY;
    assert_eq!(bytes(&t), expected);
}

#[test]
fn clearing() {
    let mut t = table(20);
    for h in 0..20 {
        insert(&mut t, h);
    }
    t.clear_no_drop();
    assert_eq!(t.items, 0);
    assert_eq!(t.growth_left, 28);
    assert_eq!(bytes(&t), vec![EMPTY; 48]);
    let mut s = LowTable::new_in(Global);
    s.clear_no_drop();
    assert_eq!(s.growth_left, 0);
}

#[test]
fn resize_moves_the_items() {
    let a = Counting::new();
    let layout = TableLayout::new::<u64>();
    let mut t = LowTable::fallible_with_capacity(a.clone(), layout, 3, Fallibility::Fallible)
        .unwrap();
    for h in [4u64, 9, 2] {
        insert(&mut t, h);
    }
    let mut guard = t.prepare_resize(layout, 20, Fallibility::Fallible).unwrap();
    assert_eq!(guard.value.items, 3);
    assert_eq!(guard.value.growth_left, 25);
    assert_eq!(guard.value.buckets(), 32);
    for h in [4u64, 9, 2] {
        let (i, _) = guard.value.prepare_insert_slot(h);
        assert_eq!(i, h as usize);
    }
    let grown = guard.into_inner();
    for h in [4u64, 9, 2] {
        assert!(finds(&grown, h, h as usize));
    }
    t.free_buckets(layout);
    assert_eq!(a.back.get(), 52);
    grown.free_buckets(layout);
    assert_eq!(a.back.get(), a.out.get());
}

#[test]
fn abandoned_resize_gives_the_memory_back() {
    let a = Counting::new();
    let layout = TableLayout::new::<u64>();
    let t = LowTable::new_in(a.clone());
    let guard = t.prepare_resize(layout, 20, Fallibility::Fallible).unwrap();
    assert_eq!(a.out.get(), 304);
    guard.free();
    assert_eq!(a.back.get(), 304);
    let nothing = t.prepare_resize(layout, 0, Fallibility::Fallible).unwrap();
    nothing.free();
    assert_eq!(a.back.get(), 304);
}

#[test]
fn refused_resize() {
    let t = LowTable::new_in(Refusing);
    let layout = TableLayout::new::<u64>();
    assert!(matches!(
        t.prepare_resize(layout, 1, Fallibility::Fallible),
        Err(TryReserveError::AllocatorError { layout: Layout { size: 52, align: 16 } })
    ));
    assert!(matches!(
        t.prepare_resize(layout, usize::MAX, Fallibility::Fallible),
        Err(TryReserveError::CapacityOverflow)
    ));
}

#[test]
fn allocation_and_its_layout() {
    let t = table(10);
    let (_, block, layout) = t.into_allocation(TableLayout::new::<u64>());
    assert_eq!(layout, Layout { size: 160, align: 16 });
    assert_eq!(block.len(), 160);
}

#[test]
fn buckets_by_number() {
    let t = table(10);
    let b = t.get_bucket::<u64>(3);
    assert_eq!(b.ptr, 104);
    assert_eq!(b.to_base_index(128), 3);
}

#[test]
fn a_table_at_its_capacity_has_an_empty_bucket() {
    for capacity in [1, 3, 4, 7, 8, 14, 15, 100] {
        let mut t = table(capacity);
        let mut hash: u64 = 0;
        while t.growth_left > 0 {
            insert(&mut t, hash);
            hash += 0x0123_4567_89ab;
        }
        assert!(t.items >= capacity);
        let n = t.buckets();
        assert!(bytes(&t)[..n].contains(&EMPTY));
    }
}

#[test]
fn groups_go_round_the_end() {
    let mut t = table(20);
    for h in 0..16 {
        insert(&mut t, h | (h << 57));
    }
    let all = bytes(&t);
    for pos in 0..32 {
        for o in 0..16 {
            assert_eq!(all[pos + o], all[(pos + o) % 32]);
        }
    }
}

#[test]
fn a_table_without_items_gives_first_choice() {
    for capacity in [1, 5, 10, 100] {
        let t = table(capacity);
        for hash in [0u64, 1, 63, 12345] {
            assert_eq!(t.find_insert_slot(hash), hash as usize % t.buckets());
            assert_eq!(t.find_insert_slot(hash), t.find_insert_slot(hash));
        }
    }
}

#[test]
fn every_allocation_can_be_given_back() {
    for buckets in [1, 2, 3, 8, 12] {
        let a = Counting::new();
        let layout = TableLayout::new::<u64>();
        let t = LowTable::new_uinit(a.clone(), layout, buckets, Fallibility::Fallible).unwrap();
        let out = a.out.get();
        assert!(out > 0);
        t.free_buckets(layout);
        assert_eq!(a.back.get(), out);
    }
}

#[test]
fn too_many_buckets_of_nothing() {
    let r = LowTable::new_uinit(
        Global,
        TableLayout::new::<()>(),
        usize::MAX,
        Fallibility::Fallible,
    );
    assert!(matches!(r, Err(TryReserveError::CapacityOverflow)));
}
