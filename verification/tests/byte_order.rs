use ada_executor::protocol::byte_order::{
    bits_to_i32, i32_to_bits, push_bytes, push_u16_be, push_u32_be, push_u64_be, read_u16_be,
    read_u32_be, read_u64_be,
};

#[test]
fn big_endian_bytes_of_each_width() {
    let mut out = Vec::new();
    push_u16_be(&mut out, 0x0102);
    push_u32_be(&mut out, 0x0304_0506);
    push_u64_be(&mut out, 0x0708_090a_0b0c_0d0e);
    assert_eq!(out, vec![1, 2, 3, 4, 5, 6, 7, 8, 9, 10, 11, 12, 13, 14]);
    assert_eq!(out[2..6].to_vec(), 0x0304_0506u32.to_be_bytes().to_vec());
}

#[test]
fn big_endian_numbers_read_back() {
    let buf = [0xff, 0x12, 0x34, 0x56, 0x78, 0x9a, 0xbc, 0xde, 0xf0, 0x01];
    assert_eq!(read_u16_be(&buf, 1), 0x1234);
    assert_eq!(read_u32_be(&buf, 1), 0x1234_5678);
    assert_eq!(read_u64_be(&buf, 1), 0x1234_5678_9abc_def0);
    assert_eq!(read_u64_be(&buf, 2), 0x3456_789a_bcde_f001);
}

#[test]
fn extreme_values_survive() {
    for x in [0u32, 1, 0x7fff_ffff, 0x8000_0000, u32::MAX] {
        let mut out = Vec::new();
        push_u32_be(&mut out, x);
        assert_eq!(out, x.to_be_bytes().to_vec());
        assert_eq!(read_u32_be(&out, 0), x);
    }
    for x in [0u64, u64::MAX, 0x8000_0000_0000_0000, 0x0000_0001_0000_0000] {
        let mut out = Vec::new();
        push_u64_be(&mut out, x);
        assert_eq!(out, x.to_be_bytes().to_vec());
        assert_eq!(read_u64_be(&out, 0), x);
    }
    for x in [0u16, 0x00ff, 0xff00, u16::MAX] {
        let mut out = Vec::new();
        push_u16_be(&mut out, x);
        assert_eq!(out, x.to_be_bytes().to_vec());
        assert_eq!(read_u16_be(&out, 0), x);
    }
}

#[test]
fn signed_numbers_as_twos_complement() {
    assert_eq!(i32_to_bits(0), 0);
    assert_eq!(i32_to_bits(1), 1);
    assert_eq!(i32_to_bits(-1), 0xffff_ffff);
    assert_eq!(i32_to_bits(i32::MIN), 0x8000_0000);
    assert_eq!(i32_to_bits(i32::MAX), 0x7fff_ffff);
    assert_eq!(bits_to_i32(0xffff_ffff), -1);
    assert_eq!(bits_to_i32(0x8000_0000), i32::MIN);
    assert_eq!(bits_to_i32(0x7fff_ffff), i32::MAX);
    for x in [-123456, -1, 0, 1, 987654321] {
        assert_eq!(bits_to_i32(i32_to_bits(x)), x);
        assert_eq!(i32_to_bits(x).to_be_bytes(), x.to_be_bytes());
    }
}

#[test]
fn bytes_are_appended_in_order() {
    let mut out = vec![9];
    push_bytes(&mut out, &[1, 2, 3]);
    push_bytes(&mut out, &[]);
    assert_eq!(out, vec![9, 1, 2, 3]);
}
