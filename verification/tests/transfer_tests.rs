use cliprtc::clipboard::{ClipboardInfo, ClipboardSync, EClipboardKind};
use cliprtc::devices::{AddressInfo, DeviceInfo};
use cliprtc::properties::MetaInfo;
use cliprtc::registry::{allow_device_add, DeviceRegistry};
use cliprtc::transfer::{
    admit_payload, decode_meta_len, encode_meta_len, file_payload_meta, frame_meta, payload_meta,
    payload_target, PayloadMeta,
};

#[test]
fn meta_len_big_endian() {
    assert_eq!(encode_meta_len(0), [0, 0, 0, 0]);
    assert_eq!(encode_meta_len(0x01020304), [1, 2, 3, 4]);
    assert_eq!(decode_meta_len([1, 2, 3, 4]), 0x01020304);
    assert_eq!(decode_meta_len([0xff, 0xff, 0xff, 0xff]), u32::MAX);
    assert_eq!(encode_meta_len(300), 300u32.to_be_bytes());
}

#[test]
fn frame_is_prefix_then_meta() {
    let f = frame_meta(b"{\"a\":1}");
    assert_eq!(&f[..4], &[0, 0, 0, 7]);
    assert_eq!(&f[4..], b"{\"a\":1}");
    assert_eq!(frame_meta(b""), vec![0, 0, 0, 0]);
    let header: [u8; 4] = f[..4].try_into().unwrap();
    assert_eq!(decode_meta_len(header) as usize, f.len() - 4);
}

fn info(kind: EClipboardKind) -> ClipboardInfo {
    ClipboardInfo { kind, source_id: "src".to_string(), seq: 12, content: vec![1, 2, 3] }
}

#[test]
fn meta_of_text_payload() {
    let m = payload_meta(&info(EClipboardKind::Text));
    assert_eq!(m.kind, EClipboardKind::Text);
    assert_eq!(m.source_id, "src");
    assert_eq!(m.seq, 12);
    assert_eq!(m.name, "");
    assert_eq!(m.total_size, 3);
}

#[test]
fn meta_of_file_payload() {
    let m = file_payload_meta(&info(EClipboardKind::File), Some("a.tar".to_string()), 99);
    assert_eq!(m.name, "a.tar");
    assert_eq!(m.total_size, 99);
    let m = file_payload_meta(&info(EClipboardKind::File), None, 0);
    assert_eq!(m.name, "file");
}

fn device(v4: Vec<u32>) -> DeviceInfo {
    DeviceInfo {
        host: "h".to_string(),
        fullname: "f".to_string(),
        addresses: AddressInfo { v4, v6: vec![5] },
        meta_info: MetaInfo {
            version: "1.0".to_string(),
            port: 7000,
            uuid: "u".to_string(),
            fingerprint: "fp".to_string(),
        },
    }
}

#[test]
fn target_is_first_ipv4() {
    assert_eq!(payload_target(&device(vec![10, 20])), Some((10, 7000)));
    assert_eq!(payload_target(&device(vec![])), None);
}

#[test]
fn admitted_payload_marks_clipboard_write() {
    let mut r = DeviceRegistry::new();
    let mut s = ClipboardSync::new();
    let meta = PayloadMeta {
        kind: EClipboardKind::Text,
        source_id: "peer".to_string(),
        seq: 1,
        name: String::new(),
        total_size: 0,
    };
    assert!(!admit_payload(&mut r, &mut s, "me", &meta));
    assert!(!s.lock);
    allow_device_add(&mut r, "peer".to_string());
    assert!(admit_payload(&mut r, &mut s, "me", &meta));
    assert!(s.lock);
    s.lock = false;
    assert!(!admit_payload(&mut r, &mut s, "me", &meta));
    assert!(!s.lock);
}

#[test]
fn stream_splits_into_meta_and_content() {
    let meta = b"{\"seq\":3}".to_vec();
    let mut stream = frame_meta(&meta);
    stream.extend_from_slice(b"CONTENT");
    let header: [u8; 4] = stream[..4].try_into().unwrap();
    let n = decode_meta_len(header) as usize;
    assert_eq!(&stream[4..4 + n], &meta[..]);
    assert_eq!(&stream[4 + n..], b"CONTENT");
}
