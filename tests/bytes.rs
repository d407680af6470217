use rebone::bytes::{read_u16, read_u32, read_u64, read_u8, write_u64};

#[test]
fn reads_little_endian_integers() {
    let buffer: Vec<u8> = vec![0x01, 0x02, 0x03, 0x04, 0x05, 0x06, 0x07, 0x08, 0xFF];
    assert_eq!(read_u8(&buffer, 8), 0xFF);
    assert_eq!(read_u16(&buffer, 0), 0x0201);
    assert_eq!(read_u32(&buffer, 1), 0x0504_0302);
    assert_eq!(read_u64(&buffer, 0), 0x0807_0605_0403_0201);
    assert_eq!(read_u64(&buffer, 1), 0xFF08_0706_0504_0302);
}

#[test]
fn write_u64_stores_little_endian_and_keeps_the_rest() {
    let mut buffer: Vec<u8> = vec![0xAA; 12];
    write_u64(&mut buffer, 2, 0x0123_4567_89AB_CDEF);
    assert_eq!(
        buffer,
        vec![0xAA, 0xAA, 0xEF, 0xCD, 0xAB, 0x89, 0x67, 0x45, 0x23, 0x01, 0xAA, 0xAA]
    );
    assert_eq!(read_u64(&buffer, 2), 0x0123_4567_89AB_CDEF);
}

#[test]
fn write_u64_largest_value() {
    let mut buffer: Vec<u8> = vec![0; 8];
    write_u64(&mut buffer, 0, u64::MAX);
    assert_eq!(buffer, vec![0xFF; 8]);
}
