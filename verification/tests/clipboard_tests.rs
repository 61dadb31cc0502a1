use cliprtc::clipboard::{
    files_clipboard_info, pack_file_name, parse_clipboard_info, ChangeAction, ClipboardEntry,
    ClipboardManager, ClipboardScan, ClipboardSync, EClipboardKind,
};

#[test]
fn manager_new() {
    let _m: ClipboardManager = ClipboardManager::new();
}

#[test]
fn text_is_taken_first() {
    let entries = vec![
        ClipboardEntry::Other,
        ClipboardEntry::Text("héllo".to_string()),
        ClipboardEntry::Image(Some(vec![1, 2])),
    ];
    match parse_clipboard_info(&entries, 0, "me", 3) {
        ClipboardScan::Ready(info) => {
            assert_eq!(info.kind, EClipboardKind::Text);
            assert_eq!(info.source_id, "me");
            assert_eq!(info.seq, 3);
            assert_eq!(info.content, "héllo".as_bytes().to_vec());
        }
        other => panic!("unexpected {:?}", other),
    }
}

#[test]
fn unconverted_image_and_empty_files_skipped() {
    let entries = vec![
        ClipboardEntry::Image(None),
        ClipboardEntry::Files(vec![]),
        ClipboardEntry::Image(Some(vec![9, 8, 7])),
    ];
    match parse_clipboard_info(&entries, 0, "me", 1) {
        ClipboardScan::Ready(info) => {
            assert_eq!(info.kind, EClipboardKind::Image);
            assert_eq!(info.content, vec![9, 8, 7]);
        }
        other => panic!("unexpected {:?}", other),
    }
}

#[test]
fn files_must_be_packed() {
    let entries = vec![
        ClipboardEntry::Files(vec!["/a/b".to_string(), "/a/c".to_string()]),
        ClipboardEntry::Text("t".to_string()),
    ];
    match parse_clipboard_info(&entries, 0, "me", 1) {
        ClipboardScan::PackFiles { index, paths } => {
            assert_eq!(index, 0);
            assert_eq!(paths, vec!["/a/b".to_string(), "/a/c".to_string()]);
        }
        other => panic!("unexpected {:?}", other),
    }
    match parse_clipboard_info(&entries, 1, "me", 1) {
        ClipboardScan::Ready(info) => assert_eq!(info.kind, EClipboardKind::Text),
        other => panic!("unexpected {:?}", other),
    }
}

#[test]
fn nothing_to_send() {
    let entries = vec![ClipboardEntry::Other, ClipboardEntry::Image(None)];
    assert!(matches!(parse_clipboard_info(&entries, 0, "me", 1), ClipboardScan::Nothing));
    assert!(matches!(parse_clipboard_info(&entries, 5, "me", 1), ClipboardScan::Nothing));
    assert!(matches!(parse_clipboard_info(&vec![], 0, "me", 1), ClipboardScan::Nothing));
}

#[test]
fn archive_name_is_hex_millis() {
    assert_eq!(pack_file_name(0), "0.tar");
    assert_eq!(pack_file_name(1_700_000_000_123), format!("{:x}.tar", 1_700_000_000_123u128));
}

#[test]
fn file_payload_carries_path() {
    let info = files_clipboard_info("me", 4, "/tmp/x.tar");
    assert_eq!(info.kind, EClipboardKind::File);
    assert_eq!(info.seq, 4);
    assert_eq!(info.content, b"/tmp/x.tar".to_vec());
}

#[test]
fn remote_write_is_not_echoed() {
    let mut s = ClipboardSync::new();
    assert_eq!(s.on_clipboard_change(), ChangeAction::Read);
    s.mark_remote_write();
    assert_eq!(s.on_clipboard_change(), ChangeAction::Ignore);
    assert_eq!(s.on_clipboard_change(), ChangeAction::Read);
}

#[test]
fn local_sequence_numbers() {
    let mut s = ClipboardSync::new();
    assert_eq!(s.next_seq(), 1);
    assert_eq!(s.next_seq(), 2);
    let mut s = ClipboardSync { lock: false, seq: u64::MAX };
    assert_eq!(s.next_seq(), 0);
}
