use cliprtc::decimal::{decimal_string, hex_number_string, parse_u16};
use cliprtc::fingerprint::{hash, sha256};
use cliprtc::properties::{encode_fingerprint, MdnsProperties};

#[test]
fn hash_of_empty_input() {
    assert_eq!(
        hash(b""),
        "e3b0c44298fc1c149afbf4c8996fb92427ae41e4649b934ca495991b7852b855"
    );
}

#[test]
fn hash_of_abc() {
    let h = hash(b"abc");
    assert_eq!(
        h,
        "ba7816bf8f01cfea414140de5dae2223b00361a396177a9cb410ff61f20015ad"
    );
    assert_eq!(h.len(), 64);
}

#[test]
fn sha256_digest_bytes() {
    let d = sha256(b"abc");
    assert_eq!(d[0], 0xba);
    assert_eq!(d[31], 0xad);
}

#[test]
fn parse_port_plain_and_signed() {
    assert_eq!(parse_u16("8080"), Some(8080));
    assert_eq!(parse_u16("+443"), Some(443));
    assert_eq!(parse_u16("0"), Some(0));
    assert_eq!(parse_u16("00012"), Some(12));
    assert_eq!(parse_u16("65535"), Some(65535));
}

#[test]
fn parse_port_rejects() {
    assert_eq!(parse_u16(""), None);
    assert_eq!(parse_u16("+"), None);
    assert_eq!(parse_u16("-1"), None);
    assert_eq!(parse_u16("65536"), None);
    assert_eq!(parse_u16("99999999999"), None);
    assert_eq!(parse_u16(" 1"), None);
    assert_eq!(parse_u16("1a"), None);
    assert_eq!(parse_u16("++1"), None);
    assert_eq!(parse_u16("１"), None);
}

#[test]
fn parse_port_agrees_with_std() {
    for s in ["0", "1", "+7", "80", "65535", "65536", "", "+", "-0", "12x", "007"] {
        assert_eq!(parse_u16(s), s.parse::<u16>().ok(), "input {:?}", s);
    }
}

#[test]
fn decimal_rendering() {
    assert_eq!(decimal_string(0), "0");
    assert_eq!(decimal_string(9), "9");
    assert_eq!(decimal_string(10), "10");
    assert_eq!(decimal_string(65535), "65535");
    assert_eq!(decimal_string(u64::MAX), u64::MAX.to_string());
}

#[test]
fn decimal_roundtrip_of_ports() {
    for p in [0u16, 1, 9, 10, 99, 100, 8080, 65535] {
        assert_eq!(parse_u16(&decimal_string(p as u64)), Some(p));
    }
}

#[test]
fn hex_rendering_of_numbers() {
    assert_eq!(hex_number_string(0), "0");
    assert_eq!(hex_number_string(15), "f");
    assert_eq!(hex_number_string(16), "10");
    assert_eq!(hex_number_string(255), "ff");
    assert_eq!(hex_number_string(1_700_000_000_000), format!("{:x}", 1_700_000_000_000u128));
    assert_eq!(hex_number_string(u128::MAX), format!("{:x}", u128::MAX));
}

#[test]
fn base64_encoding_of_fingerprint() {
    assert_eq!(encode_fingerprint(b""), "");
    assert_eq!(encode_fingerprint(b"f"), "Zg==");
    assert_eq!(encode_fingerprint(b"fo"), "Zm8=");
    assert_eq!(encode_fingerprint(b"foo"), "Zm9v");
    assert_eq!(encode_fingerprint(b"hello"), "aGVsbG8=");
    assert_eq!(encode_fingerprint(&[0xff, 0xfe, 0x3f]), "//4/");
}

#[test]
fn base64_decoding_of_fingerprint() {
    assert_eq!(
        MdnsProperties::decode_fingerprint("aGVsbG8=".to_string()),
        Some(b"hello".to_vec())
    );
    assert_eq!(MdnsProperties::decode_fingerprint("".to_string()), Some(vec![]));
    assert_eq!(MdnsProperties::decode_fingerprint("!!!!".to_string()), None);
    assert_eq!(MdnsProperties::decode_fingerprint("aGVsbG8".to_string()), None);
}

#[test]
fn base64_roundtrip() {
    let data: Vec<u8> = (0u8..=255).collect();
    let encoded = encode_fingerprint(&data);
    assert_eq!(MdnsProperties::decode_fingerprint(encoded), Some(data));
}

#[test]
fn base64_decoding_is_canonical() {
    assert_eq!(MdnsProperties::decode_fingerprint("Zg==".to_string()), Some(b"f".to_vec()));
    assert_eq!(MdnsProperties::decode_fingerprint("Zh==".to_string()), None);
    assert_eq!(MdnsProperties::decode_fingerprint("Zg=".to_string()), None);
    assert_eq!(MdnsProperties::decode_fingerprint("Zg".to_string()), None);
    assert_eq!(MdnsProperties::decode_fingerprint("Z g==".to_string()), None);
}
