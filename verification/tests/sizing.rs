use skymap::capacity::{bucket_mask_to_capacity, capacity_to_buckets};
use skymap::mapalloc::Layout;
use skymap::math::next_power_of_two;
use skymap::probe::ProbeSequence;
use skymap::table_layout::{calculate_layout, TableLayout};

#[test]
fn small_capacities() {
    for cap in 0..4 {
        assert_eq!(capacity_to_buckets(cap), Some(4));
    }
    for cap in 4..8 {
        assert_eq!(capacity_to_buckets(cap), Some(8));
    }
}

#[test]
fn large_capacities() {
    assert_eq!(capacity_to_buckets(8), Some(16));
    assert_eq!(capacity_to_buckets(14), Some(16));
    assert_eq!(capacity_to_buckets(15), Some(32));
    assert_eq!(capacity_to_buckets(28), Some(32));
    assert_eq!(capacity_to_buckets(29), Some(64));
    assert_eq!(capacity_to_buckets(1000), Some(2048));
}

#[test]
fn capacity_overflow_is_none() {
    assert_eq!(capacity_to_buckets(usize::MAX), None);
    assert_eq!(capacity_to_buckets(usize::MAX / 8 + 1), None);
    assert!(capacity_to_buckets(usize::MAX / 8).is_some());
}

#[test]
fn buckets_hold_the_capacity_and_no_fewer_would() {
    for cap in 0..5000 {
        let n = capacity_to_buckets(cap).unwrap();
        assert!(n.is_power_of_two());
        assert!(bucket_mask_to_capacity(n - 1) >= cap);
        if cap >= 8 {
            assert!(bucket_mask_to_capacity(n / 2 - 1) < cap);
        }
    }
}

#[test]
fn capacities_of_masks() {
    assert_eq!(bucket_mask_to_capacity(0), 0);
    assert_eq!(bucket_mask_to_capacity(1), 1);
    assert_eq!(bucket_mask_to_capacity(3), 3);
    assert_eq!(bucket_mask_to_capacity(7), 7);
    assert_eq!(bucket_mask_to_capacity(15), 14);
    assert_eq!(bucket_mask_to_capacity(31), 28);
    assert_eq!(bucket_mask_to_capacity(1023), 896);
}

#[test]
fn powers_of_two() {
    for x in 0usize..2000 {
        assert_eq!(next_power_of_two(x), x.next_power_of_two());
    }
}

#[test]
fn layout_of_a_type() {
    assert_eq!(Layout::new::<u64>(), Layout { size: 8, align: 8 });
    assert_eq!(Layout::new::<()>(), Layout { size: 0, align: 1 });
}

#[test]
fn layout_of_a_table() {
    assert_eq!(calculate_layout::<u64>(16), Some((Layout { size: 160, align: 16 }, 128)));
    assert_eq!(calculate_layout::<u8>(4), Some((Layout { size: 36, align: 16 }, 16)));
    assert_eq!(calculate_layout::<()>(8), Some((Layout { size: 24, align: 16 }, 0)));
    assert_eq!(calculate_layout::<[u8; 24]>(8), Some((Layout { size: 216, align: 16 }, 192)));
}

#[test]
fn layout_with_a_large_alignment() {
    let layout = TableLayout { size: 64, ctrl_byte_align: 64 };
    assert_eq!(layout.calculate_layout_for(4), Some((Layout { size: 276, align: 64 }, 256)));
    let odd = TableLayout { size: 3, ctrl_byte_align: 64 };
    assert_eq!(odd.calculate_layout_for(4), Some((Layout { size: 84, align: 64 }, 64)));
}

#[test]
fn layout_overflow_is_none() {
    assert_eq!(calculate_layout::<u64>(1 << 62), None);
    let wide = TableLayout { size: 1, ctrl_byte_align: 16 };
    assert_eq!(wide.calculate_layout_for(usize::MAX - 16), None);
    let half = TableLayout { size: usize::MAX / 2, ctrl_byte_align: 16 };
    assert!(half.calculate_layout_for(1).is_some());
    assert_eq!(half.calculate_layout_for(2), None);
}

#[test]
fn probe_moves_by_triangular_steps() {
    let mut p = ProbeSequence { pos: 5, stride: 0 };
    let mut seen = Vec::new();
    for _ in 0..4 {
        seen.push(p.pos);
        p.move_to_next(63);
    }
    assert_eq!(seen, vec![5, 21, 53, 37]);
}

#[test]
fn probe_visits_every_group_once() {
    for bits in 4..10 {
        let n: usize = 1 << bits;
        for start in [0usize, 3, n - 1] {
            let mut p = ProbeSequence { pos: start, stride: 0 };
            let mut seen = vec![0; n];
            for _ in 0..n / 16 {
                for o in 0..16 {
                    seen[(p.pos + o) % n] += 1;
                }
                p.move_to_next(n - 1);
            }
            assert!(seen.iter().all(|c| *c == 1));
        }
    }
}

#[test]
fn layout_of_more_buckets_than_there_are_addresses() {
    assert_eq!(calculate_layout::<u64>(usize::MAX), None);
    assert_eq!(calculate_layout::<u16>(usize::MAX - 3), None);
    assert_eq!(calculate_layout::<()>(usize::MAX), None);
    assert_eq!(calculate_layout::<()>(usize::MAX - 15), None);
    assert!(calculate_layout::<()>(usize::MAX - 16).is_some());
}
