use traza::crc::{build_tables, crc32};

#[test]
fn crc32_matches_the_ieee_check_value() {
    assert_eq!(crc32(b"123456789"), 0xCBF4_3926);
    assert_eq!(crc32(b""), 0);
}

#[test]
fn sliced_fold_matches_the_byte_at_a_time_fold() {
    let tables = build_tables();
    let bytes: Vec<u8> = (0..1024u32)
        .map(|index| (index.wrapping_mul(2_654_435_761) >> 24) as u8)
        .collect();
    for length in 0..bytes.len() {
        let input = &bytes[..length];
        let mut crc = 0xFFFF_FFFF_u32;
        for byte in input {
            crc = (crc >> 8) ^ tables[0][((crc ^ u32::from(*byte)) & 0xFF) as usize];
        }
        assert_eq!(crc32(input), !crc, "length {length}");
    }
}
