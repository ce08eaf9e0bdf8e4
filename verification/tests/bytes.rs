use hord_db::bytes::{push_u16_be, push_u32_be, push_u64_be, read_u16_be, read_u32_be, read_u64_be};

#[test]
fn integers_are_written_most_significant_byte_first() {
    let mut buf: Vec<u8> = Vec::new();
    push_u16_be(&mut buf, 0x0102);
    push_u32_be(&mut buf, 0x0304_0506);
    push_u64_be(&mut buf, 0x0708_090a_0b0c_0d0e);
    assert_eq!(buf, vec![1, 2, 3, 4, 5, 6, 7, 8, 9, 10, 11, 12, 13, 14]);
    assert_eq!(read_u16_be(&buf, 0), 0x0102);
    assert_eq!(read_u32_be(&buf, 2), 0x0304_0506);
    assert_eq!(read_u64_be(&buf, 6), 0x0708_090a_0b0c_0d0e);
}
