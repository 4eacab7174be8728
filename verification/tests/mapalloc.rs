use skymap::mapalloc::{block_after_reserve, AllocError, Allocator, Global, Layout};

#[test]
fn reserve_decides() {
    let mut block: Vec<u8> = Vec::new();
    let refused = block.try_reserve(usize::MAX);
    assert!(refused.is_err());
    assert_eq!(block_after_reserve(Vec::new(), refused, 5), Err(AllocError));
    assert_eq!(block_after_reserve(Vec::new(), Ok(()), 5), Ok(vec![0; 5]));
}

#[test]
fn global_hands_out_zero_bytes() {
    assert_eq!(Global.allocate(Layout { size: 24, align: 16 }), Ok(vec![0; 24]));
    assert_eq!(Global.allocate(Layout { size: 0, align: 1 }), Ok(Vec::new()));
}

#[test]
fn global_refuses_more_than_there_is() {
    assert_eq!(Global.allocate(Layout { size: usize::MAX, align: 1 }), Err(AllocError));
}
