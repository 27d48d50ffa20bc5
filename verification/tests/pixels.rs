use cdl_maze::pixels::{pack_color, rgb_bytes, rgb_of};

#[test]
fn packing_puts_alpha_and_channels_in_place() {
    assert_eq!(pack_color(0x12, 0x34, 0x56), 0xff123456);
    assert_eq!(pack_color(0, 0, 0), 0xff000000);
    assert_eq!(pack_color(255, 255, 255), 0xffffffff);
}

#[test]
fn unpacking_ignores_alpha() {
    assert_eq!(rgb_of(0xff123456), (0x12, 0x34, 0x56));
    assert_eq!(rgb_of(0x00a0b0c0), (0xa0, 0xb0, 0xc0));
    assert_eq!(rgb_of(pack_color(7, 8, 9)), (7, 8, 9));
}

#[test]
fn buffer_becomes_rgb_bytes() {
    let buffer = vec![0xff010203u32, 0x00a0b0c0, 0x11223344];
    assert_eq!(rgb_bytes(&buffer, 2), vec![1, 2, 3, 0xa0, 0xb0, 0xc0]);
    assert_eq!(rgb_bytes(&buffer, 0), Vec::<u8>::new());
    assert_eq!(rgb_bytes(&buffer, 3).len(), 9);
}
