use cliprtc::properties::{
    encode_fingerprint, service_hostname, service_properties, MdnsProperties, TxtProperties,
};

fn props(pairs: &[(&str, &str)]) -> TxtProperties {
    TxtProperties::from_pairs(
        pairs
            .iter()
            .map(|(k, v)| (k.to_string(), v.to_string()))
            .collect(),
    )
}

#[test]
fn txt_properties_insert_replaces() {
    let mut p = TxtProperties::new();
    assert_eq!(p.get("port"), None);
    p.insert("port".to_string(), "1".to_string());
    p.insert("uuid".to_string(), "a".to_string());
    p.insert("port".to_string(), "2".to_string());
    assert_eq!(p.get("port"), Some("2".to_string()));
    assert_eq!(p.get("uuid"), Some("a".to_string()));
    assert_eq!(p.get("version"), None);
}

#[test]
fn from_pairs_later_wins() {
    let p = props(&[("k", "1"), ("k", "2")]);
    assert_eq!(p.get("k"), Some("2".to_string()));
}

#[test]
fn from_hashmap_picks_fields() {
    let p = props(&[("version", "1.0"), ("port", "9000"), ("other", "x")]);
    let m = MdnsProperties::from_hashmap(p);
    assert_eq!(m.version, Some("1.0".to_string()));
    assert_eq!(m.port, Some("9000".to_string()));
    assert_eq!(m.uuid, None);
    assert_eq!(m.fingerprint, None);
}

fn full() -> MdnsProperties {
    MdnsProperties {
        version: Some("1.0".to_string()),
        port: Some("4433".to_string()),
        uuid: Some("id-1".to_string()),
        fingerprint: Some("aGVsbG8=".to_string()),
    }
}

#[test]
fn validate_accepts_complete_properties() {
    let m = full();
    assert_eq!(m.encrypted_fingerprint(), Some(b"hello".to_vec()));
    let meta = m.validate_and_process(Some(b"abcd".to_vec())).unwrap();
    assert_eq!(meta.version, "1.0");
    assert_eq!(meta.port, 4433);
    assert_eq!(meta.uuid, "id-1");
    assert_eq!(meta.fingerprint, "abcd");
    let again = m.to_meta_info(Some(b"abcd".to_vec())).unwrap();
    assert_eq!(again.port, 4433);
}

#[test]
fn validate_rejects_missing_or_bad_fields() {
    let mut m = full();
    m.version = None;
    assert!(m.validate_and_process(Some(b"x".to_vec())).is_none());
    let mut m = full();
    m.uuid = None;
    assert!(m.validate_and_process(Some(b"x".to_vec())).is_none());
    let mut m = full();
    m.port = Some("70000".to_string());
    assert!(m.validate_and_process(Some(b"x".to_vec())).is_none());
    let mut m = full();
    m.port = None;
    assert!(m.validate_and_process(Some(b"x".to_vec())).is_none());
    let m = full();
    assert!(m.validate_and_process(None).is_none());
}

#[test]
fn encrypted_fingerprint_absent_or_invalid() {
    let mut m = full();
    m.fingerprint = None;
    assert_eq!(m.encrypted_fingerprint(), None);
    m.fingerprint = Some("not base64!".to_string());
    assert_eq!(m.encrypted_fingerprint(), None);
}

#[test]
fn validate_reads_invalid_utf8_lossily() {
    let meta = full().validate_and_process(Some(vec![0x61, 0xff, 0x62])).unwrap();
    assert_eq!(meta.fingerprint, "a\u{FFFD}b");
}

#[test]
fn hostname_of_service() {
    assert_eq!(service_hostname("desk"), "desk.local.");
    assert_eq!(service_hostname(""), ".local.");
}

#[test]
fn advertised_properties_in_order() {
    let p = service_properties(5000, b"hello", "id-9");
    let expect = vec![
        ("version".to_string(), "1.0".to_string()),
        ("port".to_string(), "5000".to_string()),
        ("fingerprint".to_string(), "aGVsbG8=".to_string()),
        ("uuid".to_string(), "id-9".to_string()),
    ];
    assert_eq!(p, expect);
}

#[test]
fn advertisement_roundtrip() {
    let fingerprint = "ba7816bf8f01cfea414140de5dae2223b00361a396177a9cb410ff61f20015ad";
    let encrypted = vec![1u8, 2, 3, 4, 5];
    let pairs = service_properties(61234, &encrypted, "uuid-x");
    let m = MdnsProperties::from_hashmap(TxtProperties::from_pairs(pairs));
    assert_eq!(m.encrypted_fingerprint(), Some(encrypted));
    let meta = m
        .validate_and_process(Some(fingerprint.as_bytes().to_vec()))
        .unwrap();
    assert_eq!(meta.version, "1.0");
    assert_eq!(meta.port, 61234);
    assert_eq!(meta.uuid, "uuid-x");
    assert_eq!(meta.fingerprint, fingerprint);
    assert_eq!(encode_fingerprint(&[9, 9]), "CQk=");
}
