use bevy_autoplay::wire::{put_u32, put_u64, read_u32, read_u64};

#[test]
fn put_u32_writes_least_significant_byte_first() {
    let mut out = vec![0xaa];
    put_u32(&mut out, 0x1234_5678);
    assert_eq!(out, vec![0xaa, 0x78, 0x56, 0x34, 0x12]);
}

#[test]
fn put_u32_writes_the_extremes() {
    let mut out = Vec::new();
    put_u32(&mut out, 0);
    put_u32(&mut out, u32::MAX);
    assert_eq!(out, vec![0, 0, 0, 0, 0xff, 0xff, 0xff, 0xff]);
}

#[test]
fn put_u64_writes_least_significant_byte_first() {
    let mut out = Vec::new();
    put_u64(&mut out, 0x0102_0304_0506_0708);
    assert_eq!(out, vec![0x08, 0x07, 0x06, 0x05, 0x04, 0x03, 0x02, 0x01]);
    let mut out = Vec::new();
    put_u64(&mut out, u64::MAX);
    assert_eq!(out, vec![0xff; 8]);
}

#[test]
fn read_u32_reads_at_the_position() {
    let bytes = [0xaa, 0x78, 0x56, 0x34, 0x12, 0xbb];
    assert_eq!(read_u32(&bytes, 1), 0x1234_5678);
    assert_eq!(read_u32(&bytes, 0), 0x3456_78aa);
    assert_eq!(read_u32(&[0xff, 0xff, 0xff, 0xff], 0), u32::MAX);
}

#[test]
fn read_u64_reads_at_the_position() {
    let bytes = [0, 0x08, 0x07, 0x06, 0x05, 0x04, 0x03, 0x02, 0x01];
    assert_eq!(read_u64(&bytes, 1), 0x0102_0304_0506_0708);
    assert_eq!(read_u64(&[0xff; 8], 0), u64::MAX);
}

#[test]
fn numbers_agree_with_the_standard_byte_order() {
    for value in [0u32, 1, 255, 256, 65_535, 65_536, 500_000_000, u32::MAX] {
        let mut out = Vec::new();
        put_u32(&mut out, value);
        assert_eq!(out, value.to_le_bytes().to_vec());
        assert_eq!(read_u32(&out, 0), value);
    }
    for value in [0u64, 1, 1 << 32, (1 << 32) - 1, 0xdead_beef_cafe_f00d, u64::MAX] {
        let mut out = Vec::new();
        put_u64(&mut out, value);
        assert_eq!(out, value.to_le_bytes().to_vec());
        assert_eq!(read_u64(&out, 0), value);
    }
}
