use lethe_manifest::utf16::{units_from_le_bytes, units_to_le_bytes};
use lethe_manifest::{append_utf16le, encode_utf16_units};

#[test]
fn ascii_encodes_to_one_unit_each() {
    assert_eq!(encode_utf16_units("ab"), vec![0x61u16, 0x62u16]);
}

#[test]
fn basic_multilingual_plane_is_one_unit() {
    // U+20AC EURO SIGN
    assert_eq!(encode_utf16_units("\u{20AC}"), vec![0x20ACu16]);
}

#[test]
fn supplementary_characters_become_surrogate_pairs() {
    // U+1F600 GRINNING FACE
    assert_eq!(encode_utf16_units("\u{1F600}"), vec![0xD83Du16, 0xDE00u16]);
}

#[test]
fn units_pack_to_little_endian_bytes() {
    assert_eq!(units_to_le_bytes(&[0x0061, 0x2603]), vec![0x61u8, 0x00u8, 0x03u8, 0x26u8]);
}

#[test]
fn even_buffers_unpack_and_round_trip() {
    let units = vec![0x0041u16, 0xD83Du16, 0xDE00u16];
    let bytes = units_to_le_bytes(&units);
    let back = units_from_le_bytes(&bytes).expect("even length");
    assert_eq!(back, units);
}

#[test]
fn odd_buffers_are_rejected() {
    assert!(units_from_le_bytes(&[0x61, 0x00, 0x41]).is_none());
}

#[test]
fn append_extends_with_the_encoded_text() {
    let mut data = vec![0x41u16];
    append_utf16le(&mut data, "B\u{1F600}");
    assert_eq!(data, vec![0x41u16, 0x42u16, 0xD83Du16, 0xDE00u16]);
}
