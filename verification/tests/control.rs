use skymap::bitmask::Bitmask;
use skymap::control_bytes::{
    is_control_byte_full, is_control_byte_special, is_special_empty, DELETED, EMPTY,
};
use skymap::group::Group;
use skymap::hash::{h1, h2};
use skymap::hint::{cold, likely, unlikely};

#[test]
fn special_bytes_are_told_apart() {
    assert_eq!(EMPTY, 0xff);
    assert_eq!(DELETED, 0x80);
    assert!(is_control_byte_special(EMPTY));
    assert!(is_control_byte_special(DELETED));
    assert!(is_special_empty(EMPTY));
    assert!(!is_special_empty(DELETED));
}

#[test]
fn full_bytes_have_the_top_bit_unset() {
    for b in 0u8..=0x7f {
        assert!(is_control_byte_full(b));
        assert!(!is_control_byte_special(b));
    }
    for b in 0x80u8..=0xff {
        assert!(!is_control_byte_full(b));
        assert!(is_control_byte_special(b));
    }
}

#[test]
fn hash_parts() {
    assert_eq!(h1(0x1234_5678), 0x1234_5678);
    assert_eq!(h1(u64::MAX), (1usize << 57) - 1);
    assert_eq!(h1(0xfe00_0000_0000_0007), 7);
    assert_eq!(h2(0), 0);
    assert_eq!(h2(u64::MAX), 0x7f);
    assert_eq!(h2(0x8000_0000_0000_0000), 0x40);
    assert_eq!(h2(0x01ff_ffff_ffff_ffff), 0);
    assert_eq!(h2(0xaa00_0000_0000_0000), 0x55);
}

#[test]
fn hash_parts_make_up_the_hash() {
    for hash in [0u64, 1, u64::MAX, 0x0123_4567_89ab_cdef, 0xfedc_ba98_7654_3210] {
        assert_eq!(h1(hash) as u64 + ((h2(hash) as u64) << 57), hash);
    }
}

#[test]
fn every_h2_is_a_full_byte() {
    for top in 0u64..256 {
        assert!(is_control_byte_full(h2(top << 56)));
    }
}

#[test]
fn hints_change_nothing() {
    cold();
    assert!(likely(true));
    assert!(!likely(false));
    assert!(unlikely(true));
    assert!(!unlikely(false));
}

#[test]
fn bitmask_queries() {
    let m = Bitmask { mask: 0b0000_0100_1001_0000 };
    assert_eq!(m.lowest_set_bit(), Some(4));
    assert_eq!(m.lowest_set_bit_nonzero(), 4);
    assert_eq!(m.trailing_zeros(), 4);
    assert_eq!(m.leading_zeros(), 5);
    assert_eq!(m.remove_lowest_bit().mask, 0b0000_0100_1000_0000);
}

#[test]
fn bitmask_without_bits() {
    let m = Bitmask { mask: 0 };
    assert_eq!(m.lowest_set_bit(), None);
    assert_eq!(m.trailing_zeros(), 16);
    assert_eq!(m.leading_zeros(), 16);
}

#[test]
fn removing_bits_ends_in_zero() {
    let mut m = Bitmask { mask: 0b1000_0000_0000_0001 };
    m = m.remove_lowest_bit();
    assert_eq!(m.lowest_set_bit(), Some(15));
    m = m.remove_lowest_bit();
    assert_eq!(m.lowest_set_bit(), None);
}

fn mixed() -> Vec<u8> {
    let mut v = vec![EMPTY; 48];
    v[16] = 0x11;
    v[17] = DELETED;
    v[20] = 0x7f;
    v[31] = 0;
    v
}

#[test]
fn group_matches() {
    let v = mixed();
    let g = Group::load_aligned(&v, 16);
    assert_eq!(g.match_full().mask, 0b1000_0000_0001_0001);
    assert_eq!(g.match_empty_or_deleted().mask, 0b0111_1111_1110_1110);
    assert_eq!(g.match_empty().mask, 0b0111_1111_1110_1100);
    assert_eq!(g.match_byte(0x7f).mask, 0b0000_0000_0001_0000);
}

#[test]
fn group_unaligned_load() {
    let v = mixed();
    let g = Group::load_unaligned(&v, 15);
    assert_eq!(g.match_full().mask, 0b0000_0000_0010_0010);
}

#[test]
fn group_transform_and_store() {
    let mut v = mixed();
    let g = Group::load_aligned(&v, 16).transform_full_to_deleted_and_special_to_empty();
    g.store_aligned(&mut v, 16);
    let mut expected = vec![EMPTY; 48];
    expected[16] = DELETED;
    expected[20] = DELETED;
    expected[31] = DELETED;
    assert_eq!(v, expected);
}

#[test]
fn static_group_is_empty() {
    assert_eq!(Group::empty_static(), [EMPTY; Group::WIDTH]);
}
