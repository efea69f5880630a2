use miscreant::util::{clear, ctr_increment, dbl, xor_in_place, zero_iv_bits};
use miscreant::xor::in_place;
use miscreant::{Block, Block8};

#[test]
fn test_xor_in_place() {
    let mut block1 =
        Block::from_array(*b"\x17\xcc\xf7\xf7\xa1\x8c\xbc\x3d\x8d\xad\0\xf1\xc9\x79\x9f\xba");
    let block2 =
        Block::from_array(*b"\x8d\xa8\xd5\x40\x7c\x9a\x62\xa0\x7b\x89\x94\x39\x3a\x84\xf1\x6b");

    block1.xor_in_place(block2.as_slice());
    assert_eq!(
        block1.as_slice(),
        b"\x9a\x64\x22\xb7\xdd\x16\xde\x9d\xf6\x24\x94\xc8\xf3\xfd\x6e\xd1"
    );
}

#[test]
fn counter_increment() {
    let mut buffer = [0u8; 16];
    ctr_increment(&mut buffer);
    assert_eq!(buffer, *b"\0\0\0\0\0\0\0\0\0\0\0\0\0\0\0\x01");
}

#[test]
fn counter_increment_carries() {
    let mut buffer = [0u8; 16];
    buffer[15] = 0xff;
    buffer[14] = 0xff;
    ctr_increment(&mut buffer);
    let mut expected = [0u8; 16];
    expected[13] = 1;
    assert_eq!(buffer, expected);
}

#[test]
fn counter_increment_wraps_around() {
    let mut buffer = [0xffu8; 16];
    ctr_increment(&mut buffer);
    assert_eq!(buffer, [0u8; 16]);
}

#[test]
fn dbl_shifts_left() {
    let mut value = [0u8; 16];
    value[0] = 0x01;
    dbl(&mut value);
    let mut expected = [0u8; 16];
    expected[0] = 0x02;
    assert_eq!(value, expected);
}

#[test]
fn dbl_reduces_top_bit() {
    let mut value = [0u8; 16];
    value[0] = 0x80;
    dbl(&mut value);
    let mut expected = [0u8; 16];
    expected[15] = 0x87;
    assert_eq!(value, expected);
}

#[test]
fn block_dbl_carries_across_bytes() {
    let mut block = Block::from_array([0u8; 16]);
    block.0[15] = 0x80;
    block.0[0] = 0x81;
    block.dbl();
    let mut expected = [0u8; 16];
    expected[0] = 0x02;
    expected[14] = 0x01;
    expected[15] = 0x87;
    assert_eq!(block.as_slice(), &expected[..]);
}

#[test]
fn block_copy_and_compare() {
    let a = Block::from_array([7u8; 16]);
    let mut b = Block::new();
    assert!(!a.ct_eq(&b));
    b.copy_from_block(&a);
    assert!(a.ct_eq(&b));
    assert_eq!(Block::new().as_slice(), &[0u8; 16][..]);
}

#[test]
fn block8_starts_zeroed() {
    let a = Block8::new();
    let mut b = Block8::new();
    assert!(a.ct_eq(&b));
    b.0[127] = 1;
    assert!(!a.ct_eq(&b));
}

#[test]
fn zero_iv_bits_clears_two_bits() {
    let mut iv = [0xffu8; 16];
    zero_iv_bits(&mut iv);
    let mut expected = [0xffu8; 16];
    expected[8] = 0x7f;
    expected[12] = 0x7f;
    assert_eq!(iv, expected);
}

#[test]
fn xor_helpers_agree() {
    let mut a = vec![1u8, 2, 3, 0xf0];
    let b = vec![3u8, 2, 1, 0x0f];
    xor_in_place(&mut a, &b);
    assert_eq!(a, vec![2u8, 0, 2, 0xff]);
    in_place(&mut a, &b);
    assert_eq!(a, vec![1u8, 2, 3, 0xf0]);
}

#[test]
fn clear_zeroes_every_byte() {
    let mut secret = vec![0xa5u8; 37];
    clear(&mut secret);
    assert_eq!(secret, vec![0u8; 37]);
}

#[test]
fn block_from_short_slice_pads_with_zeros() {
    let block = Block::from_slice(b"abc");
    let mut expected = [0u8; 16];
    expected[..3].copy_from_slice(b"abc");
    assert_eq!(block.as_slice(), &expected[..]);
    assert_eq!(Block::from_slice(&[9u8; 16]).as_slice(), &[9u8; 16][..]);
}
