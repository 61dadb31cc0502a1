use cliprtc::devices::{extract_addresses, IpAddress};
use cliprtc::fingerprint::hash;
use cliprtc::properties::MetaInfo;
use cliprtc::registry::{
    allow_device_add, allow_device_remove, get_devices, DeviceRegistry, PeerRole, ResolveOutcome,
};

fn meta(uuid: &str, fingerprint: &str, port: u16) -> MetaInfo {
    MetaInfo {
        version: "1.0".to_string(),
        port,
        uuid: uuid.to_string(),
        fingerprint: fingerprint.to_string(),
    }
}

#[test]
fn extract_addresses_splits_families() {
    let a = extract_addresses(&vec![
        IpAddress::V4(0x0a000001),
        IpAddress::V6(1),
        IpAddress::V4(0xc0a80001),
    ]);
    assert_eq!(a.v4, vec![0x0a000001, 0xc0a80001]);
    assert_eq!(a.v6, vec![1u128]);
    let empty = extract_addresses(&vec![]);
    assert!(empty.v4.is_empty() && empty.v6.is_empty());
}

#[test]
fn resolve_adds_then_updates() {
    let mut r = DeviceRegistry::new();
    let out = r.handle_resolved(
        "me",
        "peer._cliprtc._quic._udp.local.".to_string(),
        "peer.local.".to_string(),
        &vec![IpAddress::V4(1)],
        Some(meta("peer", "fp1", 1000)),
    );
    assert_eq!(out, ResolveOutcome::Added);
    let devices = get_devices(&r);
    assert_eq!(devices.len(), 1);
    assert_eq!(devices[0].meta_info.port, 1000);
    assert_eq!(devices[0].host, "peer.local.");
    assert!(r.is_fingerprint_allowed("fp1"));

    allow_device_add(&mut r, "peer".to_string());
    assert!(r.accept_payload("me", "peer", 7));
    assert_eq!(r.last_seq("peer"), Some(7));
    let out = r.handle_resolved(
        "me",
        "peer._cliprtc._quic._udp.local.".to_string(),
        "other-host".to_string(),
        &vec![IpAddress::V4(2), IpAddress::V6(3)],
        Some(meta("peer", "fp2", 2000)),
    );
    assert_eq!(out, ResolveOutcome::Updated);
    let devices = get_devices(&r);
    assert_eq!(devices.len(), 1);
    assert_eq!(devices[0].host, "peer.local.");
    assert_eq!(devices[0].addresses.v4, vec![2]);
    assert_eq!(devices[0].addresses.v6, vec![3u128]);
    assert_eq!(devices[0].meta_info.fingerprint, "fp2");
    assert!(r.is_fingerprint_allowed("fp2"));
    assert_eq!(r.last_seq("peer"), Some(0));
}

#[test]
fn resolve_ignores_own_and_invalid() {
    let mut r = DeviceRegistry::new();
    let out = r.handle_resolved("me", "a".to_string(), "h".to_string(), &vec![], Some(meta("me", "fp", 1)));
    assert_eq!(out, ResolveOutcome::OwnService);
    let out = r.handle_resolved("me", "a".to_string(), "h".to_string(), &vec![], None);
    assert_eq!(out, ResolveOutcome::Invalid);
    assert!(get_devices(&r).is_empty());
    assert!(!r.is_fingerprint_allowed("fp"));
}

#[test]
fn removal_forgets_device_and_fingerprint() {
    let mut r = DeviceRegistry::new();
    r.handle_resolved("me", "a".to_string(), "h".to_string(), &vec![], Some(meta("p", "fp", 1)));
    assert!(r.handle_removed("a"));
    assert!(get_devices(&r).is_empty());
    assert!(!r.is_fingerprint_allowed("fp"));
    assert!(!r.handle_removed("a"));
}

#[test]
fn peer_certificate_checked_by_fingerprint() {
    let mut r = DeviceRegistry::new();
    let cert = b"certificate bytes";
    let fp = hash(cert);
    assert_eq!(
        r.verify_peer_certificate(cert, PeerRole::Server),
        Err(format!("server certificate fingerprint mismatch: got {}", fp))
    );
    assert_eq!(
        r.verify_peer_certificate(cert, PeerRole::Client),
        Err(format!("client certificate fingerprint mismatch: got {}", fp))
    );
    r.handle_resolved("me", "a".to_string(), "h".to_string(), &vec![], Some(meta("p", &fp, 1)));
    assert_eq!(r.verify_peer_certificate(cert, PeerRole::Server), Ok(()));
    assert_eq!(r.verify_peer_certificate(cert, PeerRole::Client), Ok(()));
    r.handle_removed("a");
    assert!(r.verify_peer_certificate(cert, PeerRole::Server).is_err());
}

#[test]
fn allow_list_add_and_remove() {
    let mut r = DeviceRegistry::new();
    assert!(allow_device_add(&mut r, "d1".to_string()));
    assert!(!allow_device_add(&mut r, "d1".to_string()));
    assert!(r.is_device_allowed("d1"));
    assert!(allow_device_remove(&mut r, "d1".to_string()));
    assert!(!allow_device_remove(&mut r, "d1".to_string()));
    assert!(!r.is_device_allowed("d1"));
}

#[test]
fn payloads_accepted_in_increasing_order_only() {
    let mut r = DeviceRegistry::new();
    assert!(!r.accept_payload("me", "peer", 1));
    allow_device_add(&mut r, "peer".to_string());
    allow_device_add(&mut r, "me".to_string());
    assert!(!r.accept_payload("me", "me", 1));
    assert!(r.accept_payload("me", "peer", 5));
    assert!(!r.accept_payload("me", "peer", 5));
    assert!(!r.accept_payload("me", "peer", 4));
    assert!(r.accept_payload("me", "peer", 6));
    assert_eq!(r.last_seq("peer"), Some(6));
}

#[test]
fn rediscovery_resets_sequence() {
    let mut r = DeviceRegistry::new();
    allow_device_add(&mut r, "peer".to_string());
    r.handle_resolved("me", "a".to_string(), "h".to_string(), &vec![], Some(meta("peer", "fp", 1)));
    assert!(r.accept_payload("me", "peer", 9));
    r.handle_resolved("me", "a".to_string(), "h".to_string(), &vec![], Some(meta("peer", "fp", 1)));
    assert!(r.accept_payload("me", "peer", 1));
}

#[test]
fn devices_listed_once_each() {
    let mut r = DeviceRegistry::new();
    for name in ["a", "b", "c"] {
        r.handle_resolved("me", name.to_string(), "h".to_string(), &vec![], Some(meta("p", "fp", 1)));
    }
    r.handle_resolved("me", "b".to_string(), "h2".to_string(), &vec![], Some(meta("p", "fp", 2)));
    let mut names: Vec<String> = get_devices(&r).into_iter().map(|d| d.fullname).collect();
    names.sort();
    assert_eq!(names, vec!["a".to_string(), "b".to_string(), "c".to_string()]);
    assert_eq!(r.last_seq("nobody"), None);
}
