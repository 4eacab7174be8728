use skymap::bucket::{offset_from, Bucket};
use skymap::iter::RawIterRange;
use skymap::mapalloc::{AllocError, Allocator, Global, Layout};
use skymap::raw_table::RawTable;
use skymap::reserve::{Fallibility, TryReserveError};
use std::cell::Cell;
use std::rc::Rc;

#[derive(Clone)]
struct Refusing;

impl Allocator for Refusing {
    fn allocate(&self, _layout: Layout) -> Result<Vec<u8>, AllocError> {
        Err(AllocError)
    }

    fn deallocate(&self, _block: Vec<u8>, _layout: Layout) {}
}

/// Counts how often it is dropped.
struct Noisy(Rc<Cell<usize>>);

impl Drop for Noisy {
    fn drop(&mut self) {
        self.0.set(self.0.get() + 1);
    }
}

fn insert<T>(t: &mut RawTable<T>, hash: u64, val: T) -> usize {
    let index = t.table.find_insert_slot(hash);
    let old = t.table.block[t.table.ctrlof(index)];
    t.table.record_item_insert_at(index, old, hash);
    let bucket = t.get_bucket(index);
    bucket.write(&mut t.data, val);
    index
}

fn walk<T>(t: &RawTable<T>) -> RawIterRange<'_, T> {
    t.walk().unwrap()
}

fn numbers<T>(t: &RawTable<T>) -> Vec<usize> {
    let mut it = walk(t);
    let mut r = Vec::new();
    while let Some(b) = it.next() {
        r.push(t.index_of_bucket(&b));
    }
    assert!(it.next().is_none());
    r
}

#[test]
fn new_table_has_nothing() {
    let t: RawTable<u64> = RawTable::new();
    assert_eq!(t.buckets(), 1);
    assert_eq!(t.table.items, 0);
    assert_eq!(t.data_terminal_ptr(), 0);
    assert_eq!(numbers(&t), Vec::<usize>::new());
}

#[test]
fn new_table_takes_no_memory() {
    let mut t: RawTable<u64> = RawTable::new();
    assert_eq!(t.table.block.capacity(), 0);
    assert_eq!(t.data.slots.capacity(), 0);
    t.clear_no_drop();
    assert_eq!(t.table.block.capacity(), 0);
    let u: RawTable<(), Refusing> = RawTable::with_capacity_in(0, Refusing).unwrap();
    assert_eq!(u.table.block.capacity(), 0);
    assert!(u.walk().unwrap().next().is_none());
}

#[test]
fn memory_in_front_of_the_control_bytes_stays() {
    let mut t: RawTable<u64> = RawTable::with_capacity(10).unwrap();
    for i in 0..128 {
        t.table.block[i] = i as u8;
    }
    let front = t.table.block[..128].to_vec();
    let a = insert(&mut t, 3, 30);
    let b = insert(&mut t, 3, 31);
    t.erase_without_drop(&t.get_bucket(a));
    t.erase(t.get_bucket(b));
    t.clear_no_drop();
    assert_eq!(t.table.block[..128], front[..]);
    assert_eq!(t.table.block.len(), 160);
}

#[test]
fn erase_drops_the_item_once() {
    let drops = Rc::new(Cell::new(0));
    let mut t: RawTable<Noisy> = RawTable::with_capacity(10).unwrap();
    let i = insert(&mut t, 3, Noisy(drops.clone()));
    let j = insert(&mut t, 4, Noisy(drops.clone()));
    t.erase(t.get_bucket(i));
    assert_eq!(drops.get(), 1);
    t.erase_without_drop(&t.get_bucket(j));
    assert_eq!(drops.get(), 1);
    assert_eq!(t.table.items, 0);
    t.free_buckets();
    assert_eq!(drops.get(), 1);
}

#[test]
fn new_in_keeps_the_allocator() {
    let flag = Rc::new(Cell::new(0));
    #[derive(Clone)]
    struct Marked(Rc<Cell<usize>>);
    impl Allocator for Marked {
        fn allocate(&self, _layout: Layout) -> Result<Vec<u8>, AllocError> {
            Err(AllocError)
        }
        fn deallocate(&self, _block: Vec<u8>, _layout: Layout) {}
    }
    let t: RawTable<u64, Marked> = RawTable::new_in(Marked(flag.clone()));
    t.allocator().0.set(5);
    assert_eq!(flag.get(), 5);
}

#[test]
fn with_capacity_has_room() {
    let t: RawTable<u64> = RawTable::with_capacity(10).unwrap();
    assert_eq!(t.buckets(), 16);
    assert_eq!(t.table.growth_left, 14);
    assert_eq!(t.data.slots.len(), 16);
    assert_eq!(t.data_terminal_ptr(), 128);
    assert_eq!(t.data_start_ptr(), 0);
    let z: RawTable<u64> = RawTable::with_capacity(0).unwrap();
    assert_eq!(z.buckets(), 1);
}

#[test]
fn data_starts_behind_the_padding() {
    let t: RawTable<u8> = RawTable::with_capacity(3).unwrap();
    assert_eq!(t.data_terminal_ptr(), 16);
    assert_eq!(t.data_start_ptr(), 12);
}

#[test]
fn errors_of_requests() {
    let r: Result<RawTable<u64, Refusing>, _> = RawTable::with_capacity_in(10, Refusing);
    assert!(matches!(
        r,
        Err(TryReserveError::AllocatorError { layout: Layout { size: 160, align: 16 } })
    ));
    let r: Result<RawTable<u64>, _> =
        RawTable::fallible_with_capacity(Global, usize::MAX, Fallibility::Fallible);
    assert!(matches!(r, Err(TryReserveError::CapacityOverflow)));
    let r: Result<RawTable<u64>, _> =
        RawTable::raw_new_uinit(Global, 1 << 62, Fallibility::Fallible);
    assert!(matches!(r, Err(TryReserveError::CapacityOverflow)));
}

#[test]
fn more_than_the_address_space_is_refused() {
    let r: Result<RawTable<u8>, _> =
        RawTable::fallible_with_capacity(Global, 1 << 58, Fallibility::Fallible);
    assert!(matches!(r, Err(TryReserveError::AllocatorError { .. })));
}

#[test]
fn uninitialised_table_after_clearing() {
    let mut t: RawTable<u64> =
        RawTable::raw_new_uinit(Global, 8, Fallibility::Infallible).unwrap();
    t.clear_no_drop();
    assert_eq!(t.table.growth_left, 7);
    assert_eq!(numbers(&t), Vec::<usize>::new());
    insert(&mut t, 3, 30);
    assert_eq!(numbers(&t), vec![3]);
    t.free_buckets();
}

#[test]
fn buckets_and_numbers() {
    let t: RawTable<u64> = RawTable::with_capacity(10).unwrap();
    for i in 0..=16 {
        let b = t.get_bucket(i);
        assert_eq!(b.ptr, 128 - 8 * i);
        assert_eq!(t.index_of_bucket(&b), i);
        assert_eq!(t.index_of_bucket(&b.clone()), i);
        if i < 16 {
            assert_eq!(b.as_ptr(), 120 - 8 * i);
            assert_eq!(b.next_n(1).ptr, t.get_bucket(i + 1).ptr);
        }
    }
    assert_eq!(offset_from::<u64>(128, 104), 3);
}

#[test]
fn buckets_of_items_without_size() {
    let t: RawTable<()> = RawTable::with_capacity(10).unwrap();
    let b = t.get_bucket(4);
    assert_eq!(b.ptr, 5);
    assert_eq!(b.as_ptr(), 1);
    assert_eq!(b.next_n(3).ptr, 8);
    assert_eq!(t.index_of_bucket(&b.next_n(3)), 7);
    assert_eq!(t.data_start_ptr(), t.data_terminal_ptr());
}

#[test]
fn reading_and_writing() {
    let mut t: RawTable<String> = RawTable::with_capacity(3).unwrap();
    let i = insert(&mut t, 2, String::from("two"));
    let b = t.get_bucket(i);
    assert_eq!(b.as_ref(&t.data), "two");
    b.as_mut(&mut t.data).push_str(" more");
    assert_eq!(b.as_ref(&t.data), "two more");
    *b.as_mut(&mut t.data) = String::from("other");
    assert_eq!(b.read(&mut t.data), "other");
    assert!(t.data.slots[i].is_none());
}

#[test]
fn copying_between_tables() {
    let mut small: RawTable<String> = RawTable::with_capacity(3).unwrap();
    let mut large: RawTable<String> = RawTable::with_capacity(20).unwrap();
    let i = insert(&mut small, 1, String::from("one"));
    let j = insert(&mut large, 9, String::from("nine"));
    let (a, b) = (small.get_bucket(i), large.get_bucket(j));
    b.copy_from_nonoverlapping(&mut large.data, &a, &mut small.data);
    assert_eq!(b.as_ref(&large.data), "one");
    assert!(small.data.slots[i].is_none());
    // an empty slot comes over as well
    b.copy_from_nonoverlapping(&mut large.data, &a, &mut small.data);
    assert!(large.data.slots[j].is_none());
}

#[test]
fn copying_within_a_table() {
    let mut t: RawTable<String> = RawTable::with_capacity(3).unwrap();
    let i = insert(&mut t, 1, String::from("one"));
    let (a, b): (Bucket<String>, Bucket<String>) = (t.get_bucket(i), t.get_bucket(3));
    b.copy_within(&a, &mut t.data);
    assert_eq!(b.as_ref(&t.data), "one");
    assert!(t.data.slots[i].is_none());
}

#[test]
fn copies_can_be_read_twice() {
    let mut t: RawTable<u32> = RawTable::with_capacity(3).unwrap();
    let i = insert(&mut t, 1, 11);
    let b = t.get_bucket(i);
    assert_eq!(b.read_copy(&t.data), 11);
    assert_eq!(b.read_copy(&t.data), 11);
}

#[test]
fn erase_drops_the_item() {
    let drops = Rc::new(Cell::new(0));
    let mut t: RawTable<Noisy> = RawTable::with_capacity(3).unwrap();
    let i = insert(&mut t, 1, Noisy(drops.clone()));
    let j = insert(&mut t, 2, Noisy(drops.clone()));
    let b = t.get_bucket(i);
    t.erase(b);
    assert_eq!(drops.get(), 1);
    assert_eq!(t.table.items, 1);
    assert_eq!(numbers(&t), vec![j]);
    let c = t.get_bucket(j);
    t.erase_without_drop(&c);
    assert_eq!(drops.get(), 1);
    assert_eq!(t.table.items, 0);
    c.drop(&mut t.data);
    assert_eq!(drops.get(), 2);
}

#[test]
fn clear_drops_nothing() {
    let drops = Rc::new(Cell::new(0));
    let mut t: RawTable<Noisy> = RawTable::with_capacity(3).unwrap();
    insert(&mut t, 1, Noisy(drops.clone()));
    insert(&mut t, 2, Noisy(drops.clone()));
    t.clear_no_drop();
    assert_eq!(t.table.items, 0);
    assert_eq!(t.table.growth_left, 3);
    assert_eq!(numbers(&t), Vec::<usize>::new());
    insert(&mut t, 1, Noisy(drops.clone()));
    std::mem::drop(t);
    assert_eq!(drops.get(), 0);
}

#[test]
fn walk_over_a_small_table() {
    let mut t: RawTable<u64> = RawTable::with_capacity(3).unwrap();
    insert(&mut t, 3, 30);
    insert(&mut t, 0, 0);
    insert(&mut t, 3, 31);
    assert_eq!(numbers(&t), vec![0, 1, 3]);
    assert_eq!(walk(&t).size_hint(), (0, Some(4)));
}

#[test]
fn walk_over_a_large_table() {
    let mut t: RawTable<u64> = RawTable::with_capacity(50).unwrap();
    let places = [63u64, 0, 17, 40, 16, 15];
    for p in places {
        insert(&mut t, p, p * 10);
    }
    assert_eq!(numbers(&t), vec![0, 15, 16, 17, 40, 63]);
    let mut it = walk(&t);
    assert_eq!(it.size_hint(), (0, Some(64)));
    let mut left = 6;
    while let Some(b) = it.next() {
        left -= 1;
        assert_eq!(*b.as_ref(&t.data), 10 * t.index_of_bucket(&b) as u64);
        assert!(it.size_hint().1.unwrap() >= left);
    }
    assert_eq!(it.size_hint(), (0, Some(16)));
}

#[test]
fn cloned_walk_goes_its_own_way() {
    let mut t: RawTable<u64> = RawTable::with_capacity(20).unwrap();
    for h in [1u64, 20, 30] {
        insert(&mut t, h, h);
    }
    let mut a = walk(&t);
    assert_eq!(t.index_of_bucket(&a.next().unwrap()), 1);
    let mut b = a.clone();
    assert_eq!(t.index_of_bucket(&a.next().unwrap()), 20);
    assert_eq!(t.index_of_bucket(&b.next().unwrap()), 20);
    assert_eq!(t.index_of_bucket(&a.next().unwrap()), 30);
    assert!(a.next().is_none());
    assert_eq!(t.index_of_bucket(&b.next().unwrap()), 30);
}

#[test]
fn walk_over_items_without_size() {
    let mut t: RawTable<()> = RawTable::with_capacity(20).unwrap();
    for h in [31u64, 4, 18] {
        insert(&mut t, h, ());
    }
    assert_eq!(numbers(&t), vec![4, 18, 31]);
}

#[test]
fn items_do_not_overlap() {
    let t: RawTable<[u16; 3]> = RawTable::with_capacity(7).unwrap();
    let start = t.data_start_ptr();
    assert_eq!((start, t.data_terminal_ptr()), (0, 48));
    let mut taken = vec![false; t.data_terminal_ptr()];
    for i in 0..t.buckets() {
        let at = t.get_bucket(i).as_ptr();
        assert_eq!(at % 2, 0);
        for byte in at..at + 6 {
            assert!(!taken[byte]);
            taken[byte] = true;
        }
    }
}

#[test]
fn fresh_walk_state() {
    let t: RawTable<u64> = RawTable::with_capacity(3).unwrap();
    let it = t.walk().unwrap();
    assert_eq!(it.size_hint(), (0, Some(4)));
    assert_eq!(it.next_ctrl_ptr, t.table.ctrl + 16);
    assert_eq!(it.end_of_alloc, t.table.ctrl + 4);
    assert_eq!(it.data.ptr, t.table.ctrl);
}

#[test]
fn hint_never_grows_and_the_end_is_the_end() {
    let mut t: RawTable<u64> = RawTable::with_capacity(100).unwrap();
    for h in 0..60u64 {
        insert(&mut t, h * 37, h);
    }
    let mut it = t.walk().unwrap();
    let mut hint = it.size_hint().1.unwrap();
    let mut steps = 0;
    while it.next().is_some() {
        let now = it.size_hint().1.unwrap();
        assert!(now <= hint);
        hint = now;
        steps += 1;
    }
    assert_eq!(steps, 60);
    for _ in 0..3 {
        let before = (it.current_group.mask, it.data.ptr, it.next_ctrl_ptr, it.end_of_alloc);
        assert!(it.next().is_none());
        let after = (it.current_group.mask, it.data.ptr, it.next_ctrl_ptr, it.end_of_alloc);
        assert_eq!(before, after);
    }
}

#[test]
fn no_walk_without_control_bytes() {
    let mut t: RawTable<u64> =
        RawTable::raw_new_uinit(Global, 8, Fallibility::Fallible).unwrap();
    assert!(t.walk().is_none());
    t.clear_no_drop();
    assert!(t.walk().is_some());
    let empty: RawTable<u64> = RawTable::new();
    assert!(empty.walk().unwrap().next().is_none());
}
