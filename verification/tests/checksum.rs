use orderbook_feed::checksum::crc32;

#[test]
fn crc32_standard_check_vector() {
    // The canonical CRC32 test vector.
    assert_eq!(crc32(b"123456789"), 0xCBF4_3926);
}

#[test]
fn crc32_empty_is_zero() {
    assert_eq!(crc32(b""), 0);
}

#[test]
fn crc32_of_single_bytes() {
    assert_eq!(crc32(b"a"), 0xE8B7_BE43);
    assert_eq!(crc32(&[0]), 0xD202_EF8D);
    assert_eq!(crc32(&[0xFF]), 0xFF00_0000);
}

#[test]
fn crc32_of_a_sentence() {
    assert_eq!(
        crc32(b"The quick brown fox jumps over the lazy dog"),
        0x414F_A339
    );
}

#[test]
fn altering_any_one_byte_changes_the_crc() {
    let text = b"45285210000045286415457195";
    let crc = crc32(text);
    for i in 0..text.len() {
        let mut altered = text.to_vec();
        altered[i] ^= 0x04;
        assert_ne!(crc32(&altered), crc);
    }
}
