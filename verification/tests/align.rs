use gctpl::align::{align_u32, align_u64, Algin};

#[test]
fn positions_round_up_to_32() {
    assert_eq!(align_u32(0), 0);
    assert_eq!(align_u32(1), 32);
    assert_eq!(align_u32(31), 32);
    assert_eq!(align_u32(32), 32);
    assert_eq!(align_u32(33), 64);
    assert_eq!(align_u32(56), 64);
    assert_eq!(align_u32(u32::MAX - 31), 0xFFFF_FFE0);
    assert_eq!(align_u64(0), 0);
    assert_eq!(align_u64(12), 32);
    assert_eq!(align_u64(0x1_0000_0001), 0x1_0000_0020);
    assert_eq!(align_u64(u64::MAX - 31), 0xFFFF_FFFF_FFFF_FFE0);
}

#[test]
fn sink_is_padded_with_zeros() {
    let mut sink = vec![9u8; 12];
    assert_eq!(sink.align_to(), Ok(32));
    assert_eq!(sink.len(), 32);
    assert_eq!(&sink[..12], &[9u8; 12]);
    assert!(sink[12..].iter().all(|&b| b == 0));
    assert_eq!(sink.align_to(), Ok(32));
    assert_eq!(sink.len(), 32);
    let mut empty: Vec<u8> = Vec::new();
    assert_eq!(empty.align_to(), Ok(0));
    assert_eq!(empty.len(), 0);
}
