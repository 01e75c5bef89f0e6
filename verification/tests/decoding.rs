use vcf_to_csv::decode::decode_single_byte;

#[test]
fn decode_ascii_is_unchanged() {
    assert_eq!(decode_single_byte(b"BEGIN:VCARD\r\nFN:Ann\r\n"), "BEGIN:VCARD\r\nFN:Ann\r\n");
}

#[test]
fn decode_empty_is_empty() {
    assert_eq!(decode_single_byte(&[]), "");
}

#[test]
fn decode_high_bytes_become_code_points() {
    assert_eq!(decode_single_byte(&[0x5a, 0x6f, 0xeb]), "Zo\u{eb}");
    assert_eq!(decode_single_byte(&[0x80, 0xff]), "\u{80}\u{ff}");
}

#[test]
fn decode_does_not_read_utf8_sequences() {
    // the two bytes of a UTF-8 encoded e-acute come out as two characters
    assert_eq!(decode_single_byte(&[0xc3, 0xa9]), "\u{c3}\u{a9}");
}

#[test]
fn decode_every_byte_value() {
    let bytes: Vec<u8> = (0..=255).collect();
    let text = decode_single_byte(&bytes);
    let points: Vec<u32> = text.chars().map(|c| c as u32).collect();
    let expected: Vec<u32> = (0..=255).collect();
    assert_eq!(points, expected);
}
