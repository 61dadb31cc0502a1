//! The shared state of the service: discovered devices, the certificate
//! fingerprints they may connect with, the device ids the user allows, and the
//! last sequence number received from each device.

use crate::collections::{
    device_map, device_map_contains, device_map_get, device_map_insert, device_map_new,
    device_map_remove, device_map_values, lists_entries, lists_values, seq_map, seq_map_get, seq_map_insert,
    seq_map_new, string_set, string_set_contains, string_set_insert, string_set_new,
    string_set_remove, DeviceMap, SeqMap,
};
use crate::devices::{
    extract_addresses, v4_addresses, v6_addresses, AddressInfoView, DeviceInfo, DeviceInfoView,
    IpAddress,
};
use crate::fingerprint::{hash, hex_lower, sha256_digest};
use crate::properties::{opt_meta, MetaInfo, MetaInfoView};
use dashmap::DashSet;
use vstd::prelude::*;

verus! {

/// The shared state, as plain values.
pub struct RegistryView {
    pub devices: Map<Seq<char>, DeviceInfoView>,
    pub allowed_fingerprints: Set<Seq<char>>,
    pub allowed_device_ids: Set<Seq<char>>,
    pub remote_seqs: Map<Seq<char>, u64>,
}

/// The shared state of the service.
pub struct DeviceRegistry {
    /// Discovered devices, by the full name of their mDNS service.
    devices: DeviceMap,
    /// Fingerprints of the certificates that peers may present.
    allow_fingerprint: DashSet<String>,
    /// Ids of the devices whose clipboard payloads are applied.
    allow_device_ids: DashSet<String>,
    /// The last sequence number applied from each device.
    remote_seq_map: SeqMap,
}

impl View for DeviceRegistry {
    type V = RegistryView;

    closed spec fn view(&self) -> RegistryView {
        RegistryView {
            devices: device_map(self.devices),
            allowed_fingerprints: string_set(self.allow_fingerprint),
            allowed_device_ids: string_set(self.allow_device_ids),
            remote_seqs: seq_map(self.remote_seq_map),
        }
    }
}

/// What came of a resolved mDNS service.
#[derive(Debug, Clone, Copy, PartialEq, Eq, Structural)]
pub enum ResolveOutcome {
    /// Its properties do not validate; nothing changed.
    Invalid,
    /// It is this device's own service; nothing changed.
    OwnService,
    /// A known device: its addresses and metadata were refreshed.
    Updated,
    /// A new device was registered.
    Added,
}

/// The effect of a resolved service named `fullname` on host `host`, with
/// addresses `addresses` and validated metadata `meta` (`None` where its
/// properties did not validate), seen by the device whose id is `own_uuid`.
pub open spec fn resolve_spec(
    r: RegistryView,
    own_uuid: Seq<char>,
    fullname: Seq<char>,
    host: Seq<char>,
    addresses: AddressInfoView,
    meta: Option<MetaInfoView>,
) -> (RegistryView, ResolveOutcome) {
    match meta {
        None => (r, ResolveOutcome::Invalid),
        Some(m) => if m.uuid == own_uuid {
            (r, ResolveOutcome::OwnService)
        } else if r.devices.contains_key(fullname) {
            let old = r.devices[fullname];
            let d = DeviceInfoView {
                host: old.host,
                fullname: old.fullname,
                addresses,
                meta_info: m,
            };
            (
                RegistryView {
                    devices: r.devices.insert(fullname, d),
                    allowed_fingerprints: r.allowed_fingerprints.insert(m.fingerprint),
                    allowed_device_ids: r.allowed_device_ids,
                    remote_seqs: r.remote_seqs.insert(m.uuid, 0),
                },
                ResolveOutcome::Updated,
            )
        } else {
            let d = DeviceInfoView { host, fullname, addresses, meta_info: m };
            (
                RegistryView {
                    devices: r.devices.insert(fullname, d),
                    allowed_fingerprints: r.allowed_fingerprints.insert(m.fingerprint),
                    allowed_device_ids: r.allowed_device_ids,
                    remote_seqs: r.remote_seqs,
                },
                ResolveOutcome::Added,
            )
        },
    }
}

/// The effect of the removal of the service named `fullname`: the device is
/// forgotten, and so is the fingerprint it advertised.
pub open spec fn remove_spec(r: RegistryView, fullname: Seq<char>) -> (RegistryView, bool) {
    if r.devices.contains_key(fullname) {
        (
            RegistryView {
                devices: r.devices.remove(fullname),
                allowed_fingerprints: r.allowed_fingerprints.remove(
                    r.devices[fullname].meta_info.fingerprint,
                ),
                allowed_device_ids: r.allowed_device_ids,
                remote_seqs: r.remote_seqs,
            },
            true,
        )
    } else {
        (r, false)
    }
}

/// Whether a payload numbered `seq` from the device `source_id` is applied,
/// and the state after it: payloads from this device itself, from devices the
/// user does not allow, and those not numbered above the last one applied
/// from the same device are refused.
pub open spec fn accept_spec(r: RegistryView, own_uuid: Seq<char>, source_id: Seq<char>, seq: u64) -> (RegistryView, bool) {
    if source_id == own_uuid {
        (r, false)
    } else if !r.allowed_device_ids.contains(source_id) {
        (r, false)
    } else if r.remote_seqs.contains_key(source_id) && seq <= r.remote_seqs[source_id] {
        (r, false)
    } else {
        (
            RegistryView {
                devices: r.devices,
                allowed_fingerprints: r.allowed_fingerprints,
                allowed_device_ids: r.allowed_device_ids,
                remote_seqs: r.remote_seqs.insert(source_id, seq),
            },
            true,
        )
    }
}

/// The fingerprint of a certificate in DER form.
pub open spec fn certificate_fingerprint(cert: Seq<u8>) -> Seq<char> {
    hex_lower(sha256_digest(cert))
}

/// Which side of a connection presented a certificate.
#[derive(Debug, Clone, Copy, PartialEq, Eq, Structural)]
pub enum PeerRole {
    Server,
    Client,
}

/// The message of a refused certificate.
pub open spec fn mismatch_message(role: PeerRole, fingerprint: Seq<char>) -> Seq<char> {
    match role {
        PeerRole::Server => "server certificate fingerprint mismatch: got "@ + fingerprint,
        PeerRole::Client => "client certificate fingerprint mismatch: got "@ + fingerprint,
    }
}

impl DeviceRegistry {
    /// An empty registry.
    pub fn new() -> (res: Self)
        ensures
            res@.devices.dom() == Set::<Seq<char>>::empty(),
            res@.allowed_fingerprints == Set::<Seq<char>>::empty(),
            res@.allowed_device_ids == Set::<Seq<char>>::empty(),
            res@.remote_seqs.dom() == Set::<Seq<char>>::empty(),
    {
        DeviceRegistry {
            devices: device_map_new(),
            allow_fingerprint: string_set_new(),
            allow_device_ids: string_set_new(),
            remote_seq_map: seq_map_new(),
        }
    }

    /// Whether a certificate with fingerprint `fingerprint` is accepted.
    pub fn is_fingerprint_allowed(&self, fingerprint: &str) -> (res: bool)
        ensures
            res == self@.allowed_fingerprints.contains(fingerprint@),
    {
        string_set_contains(&self.allow_fingerprint, fingerprint)
    }

    /// Whether the user allows payloads from the device `id`.
    pub fn is_device_allowed(&self, id: &str) -> (res: bool)
        ensures
            res == self@.allowed_device_ids.contains(id@),
    {
        string_set_contains(&self.allow_device_ids, id)
    }

    /// The last sequence number applied from the device `id`, if any.
    pub fn last_seq(&self, id: &str) -> (res: Option<u64>)
        ensures
            match res {
                Some(n) => self@.remote_seqs.contains_key(id@) && n == self@.remote_seqs[id@],
                None => !self@.remote_seqs.contains_key(id@),
            },
    {
        seq_map_get(&self.remote_seq_map, id)
    }

    /// Handles a resolved mDNS service; see `resolve_spec`.
    pub fn handle_resolved(
        &mut self,
        own_uuid: &str,
        fullname: String,
        host: String,
        addresses: &Vec<IpAddress>,
        meta: Option<MetaInfo>,
    ) -> (res: ResolveOutcome)
        ensures
            (final(self)@, res) == resolve_spec(
                old(self)@,
                own_uuid@,
                fullname@,
                host@,
                AddressInfoView { v4: v4_addresses(addresses@), v6: v6_addresses(addresses@) },
                opt_meta(meta),
            ),
    {
        let meta_info = match meta {
            Some(m) => m,
            None => {
                return ResolveOutcome::Invalid;
            },
        };
        let own = own_uuid.to_owned();
        if meta_info.uuid == own {
            return ResolveOutcome::OwnService;
        }
        match device_map_get(&self.devices, fullname.as_str()) {
            Some(device) => {
                let uuid = meta_info.uuid.clone();
                let fingerprint = meta_info.fingerprint.clone();
                let updated = DeviceInfo {
                    host: device.host,
                    fullname: device.fullname,
                    addresses: extract_addresses(addresses),
                    meta_info,
                };
                device_map_insert(&mut self.devices, fullname, updated);
                string_set_insert(&mut self.allow_fingerprint, fingerprint);
                seq_map_insert(&mut self.remote_seq_map, uuid, 0);
                ResolveOutcome::Updated
            },
            None => {
                string_set_insert(&mut self.allow_fingerprint, meta_info.fingerprint.clone());
                let key = fullname.clone();
                let device = DeviceInfo {
                    host,
                    fullname,
                    addresses: extract_addresses(addresses),
                    meta_info,
                };
                device_map_insert(&mut self.devices, key, device);
                ResolveOutcome::Added
            },
        }
    }

    /// Handles the removal of the mDNS service `fullname`; see `remove_spec`.
    /// Returns whether a device was forgotten.
    pub fn handle_removed(&mut self, fullname: &str) -> (res: bool)
        ensures
            (final(self)@, res) == remove_spec(old(self)@, fullname@),
    {
        if !device_map_contains(&self.devices, fullname) {
            return false;
        }
        match device_map_remove(&mut self.devices, fullname) {
            Some((_, device)) => {
                string_set_remove(&mut self.allow_fingerprint, device.meta_info.fingerprint.as_str());
                true
            },
            None => false,
        }
    }

    /// Decides whether to apply a payload numbered `seq` from `source_id`, and
    /// records its number if so; see `accept_spec`.
    pub fn accept_payload(&mut self, own_uuid: &str, source_id: &str, seq: u64) -> (res: bool)
        ensures
            (final(self)@, res) == accept_spec(old(self)@, own_uuid@, source_id@, seq),
    {
        let own = own_uuid.to_owned();
        let source = source_id.to_owned();
        if source == own {
            return false;
        }
        if !string_set_contains(&self.allow_device_ids, source_id) {
            return false;
        }
        match seq_map_get(&self.remote_seq_map, source_id) {
            Some(last_seq) => {
                if seq <= last_seq {
                    return false;
                }
            },
            None => {},
        }
        seq_map_insert(&mut self.remote_seq_map, source, seq);
        true
    }

    /// Checks the certificate a peer presented: it is accepted exactly when its
    /// fingerprint is one that a discovered device advertised.
    pub fn verify_peer_certificate(&self, end_entity: &[u8], role: PeerRole) -> (res: Result<(), String>)
        ensures
            match res {
                Ok(()) => self@.allowed_fingerprints.contains(certificate_fingerprint(end_entity@)),
                Err(msg) => !self@.allowed_fingerprints.contains(certificate_fingerprint(end_entity@))
                    && msg@ == mismatch_message(role, certificate_fingerprint(end_entity@)),
            },
    {
        let fingerprint = hash(end_entity);
        if string_set_contains(&self.allow_fingerprint, fingerprint.as_str()) {
            return Ok(());
        }
        let mut msg = match role {
            PeerRole::Server => "server certificate fingerprint mismatch: got ".to_owned(),
            PeerRole::Client => "client certificate fingerprint mismatch: got ".to_owned(),
        };
        msg.append(fingerprint.as_str());
        Err(msg)
    }
}

/// Allows the device `id` to apply payloads here; returns whether it was not
/// allowed before.
pub fn allow_device_add(registry: &mut DeviceRegistry, id: String) -> (res: bool)
    ensures
        final(registry)@.allowed_device_ids == old(registry)@.allowed_device_ids.insert(id@),
        res == !old(registry)@.allowed_device_ids.contains(id@),
        final(registry)@.devices == old(registry)@.devices,
        final(registry)@.allowed_fingerprints == old(registry)@.allowed_fingerprints,
        final(registry)@.remote_seqs == old(registry)@.remote_seqs,
{
    string_set_insert(&mut registry.allow_device_ids, id)
}

/// Withdraws the allowance of the device `id`; returns whether it was
/// allowed.
pub fn allow_device_remove(registry: &mut DeviceRegistry, id: String) -> (res: bool)
    ensures
        final(registry)@.allowed_device_ids == old(registry)@.allowed_device_ids.remove(id@),
        res == old(registry)@.allowed_device_ids.contains(id@),
        final(registry)@.devices == old(registry)@.devices,
        final(registry)@.allowed_fingerprints == old(registry)@.allowed_fingerprints,
        final(registry)@.remote_seqs == old(registry)@.remote_seqs,
{
    match string_set_remove(&mut registry.allow_device_ids, id.as_str()) {
        Some(_) => true,
        None => false,
    }
}

/// All discovered devices, each once, in no particular order; where every
/// device is filed under its full name, no two listed devices share one.
pub fn get_devices(registry: &DeviceRegistry) -> (res: Vec<DeviceInfo>)
    ensures
        lists_values(res@, registry@.devices),
        devices_keyed_by_name(registry@) ==> forall|i: int, j: int|
            0 <= i < res@.len() && 0 <= j < res@.len() && i != j ==> (#[trigger] res@[i]).fullname@
                != (#[trigger] res@[j]).fullname@,
{
    let res = device_map_values(&registry.devices);
    proof {
        let m = registry@.devices;
        let keys = choose|keys: Seq<Seq<char>>| #[trigger] lists_entries(res@, keys, m);
        if devices_keyed_by_name(registry@) {
            assert forall|i: int, j: int|
                0 <= i < res@.len() && 0 <= j < res@.len() && i != j implies (#[trigger] res@[i]).fullname@
                != (#[trigger] res@[j]).fullname@ by {
                assert(m.contains_key(keys[i]) && m[keys[i]] == res@[i]@);
                assert(m.contains_key(keys[j]) && m[keys[j]] == res@[j]@);
                assert(keys[i] != keys[j]);
            }
        }
    }
    res
}

/// Every device is filed under the full name of its service.
pub open spec fn devices_keyed_by_name(r: RegistryView) -> bool {
    forall|k: Seq<char>| #[trigger] r.devices.contains_key(k) ==> r.devices[k].fullname == k
}

/// Resolving and removing services, and accepting payloads, keep every device
/// filed under the full name of its service.
pub proof fn lemma_transitions_keep_devices_keyed_by_name(
    r: RegistryView,
    own_uuid: Seq<char>,
    fullname: Seq<char>,
    host: Seq<char>,
    addresses: AddressInfoView,
    meta: Option<MetaInfoView>,
    source_id: Seq<char>,
    seq: u64,
)
    requires
        devices_keyed_by_name(r),
    ensures
        devices_keyed_by_name(resolve_spec(r, own_uuid, fullname, host, addresses, meta).0),
        devices_keyed_by_name(remove_spec(r, fullname).0),
        devices_keyed_by_name(accept_spec(r, own_uuid, source_id, seq).0),
{
}

/// A payload that repeats, or comes before, the last one applied from the same
/// device is refused: once `seq` from `source_id` is applied, no payload from
/// it numbered `seq` or lower is applied after it.
pub proof fn lemma_replayed_payload_refused(
    r: RegistryView,
    own_uuid: Seq<char>,
    source_id: Seq<char>,
    seq: u64,
    later_seq: u64,
)
    requires
        accept_spec(r, own_uuid, source_id, seq).1,
        later_seq <= seq,
    ensures
        !accept_spec(accept_spec(r, own_uuid, source_id, seq).0, own_uuid, source_id, later_seq).1,
{
}

/// An applied payload is numbered above every earlier one from its device and
/// becomes the last one recorded; a refused payload changes nothing.
pub proof fn lemma_accepted_numbers_increase(
    r: RegistryView,
    own_uuid: Seq<char>,
    source_id: Seq<char>,
    seq: u64,
)
    ensures
        ({
            let (next, accepted) = accept_spec(r, own_uuid, source_id, seq);
            &&& accepted ==> next.remote_seqs.contains_key(source_id) && next.remote_seqs[source_id] == seq
            &&& accepted && r.remote_seqs.contains_key(source_id) ==> r.remote_seqs[source_id] < seq
            &&& accepted ==> source_id != own_uuid && r.allowed_device_ids.contains(source_id)
            &&& !accepted ==> next == r
        }),
{
}

/// Payloads from a device the user has not allowed, or from this device
/// itself, are refused.
pub proof fn lemma_unallowed_payload_refused(
    r: RegistryView,
    own_uuid: Seq<char>,
    source_id: Seq<char>,
    seq: u64,
)
    requires
        !r.allowed_device_ids.contains(source_id) || source_id == own_uuid,
    ensures
        !accept_spec(r, own_uuid, source_id, seq).1,
        accept_spec(r, own_uuid, source_id, seq).0 == r,
{
}

/// A resolved service of another device registers that device with its
/// metadata, and a certificate with the fingerprint it advertised is then
/// accepted.
pub proof fn lemma_resolved_device_trusted(
    r: RegistryView,
    own_uuid: Seq<char>,
    fullname: Seq<char>,
    host: Seq<char>,
    addresses: AddressInfoView,
    m: MetaInfoView,
    cert: Seq<u8>,
)
    requires
        m.uuid != own_uuid,
        m.fingerprint == certificate_fingerprint(cert),
    ensures
        ({
            let (next, outcome) = resolve_spec(r, own_uuid, fullname, host, addresses, Some(m));
            &&& next.devices.contains_key(fullname)
            &&& next.devices[fullname].meta_info == m
            &&& next.devices[fullname].addresses == addresses
            &&& next.allowed_fingerprints.contains(certificate_fingerprint(cert))
            &&& outcome == (if r.devices.contains_key(fullname) {
                ResolveOutcome::Updated
            } else {
                ResolveOutcome::Added
            })
        }),
{
}

/// This device's own service, and services whose properties do not validate,
/// change nothing.
pub proof fn lemma_own_or_invalid_service_ignored(
    r: RegistryView,
    own_uuid: Seq<char>,
    fullname: Seq<char>,
    host: Seq<char>,
    addresses: AddressInfoView,
    meta: Option<MetaInfoView>,
)
    requires
        meta matches Some(m) ==> m.uuid == own_uuid,
    ensures
        resolve_spec(r, own_uuid, fullname, host, addresses, meta).0 == r,
{
}

/// Once the service of a device is removed, the device is forgotten and the
/// fingerprint it advertised is no longer accepted.
pub proof fn lemma_removed_device_untrusted(
    r: RegistryView,
    own_uuid: Seq<char>,
    fullname: Seq<char>,
    host: Seq<char>,
    addresses: AddressInfoView,
    m: MetaInfoView,
)
    requires
        m.uuid != own_uuid,
    ensures
        ({
            let added = resolve_spec(r, own_uuid, fullname, host, addresses, Some(m)).0;
            let (removed, found) = remove_spec(added, fullname);
            &&& found
            &&& !removed.devices.contains_key(fullname)
            &&& !removed.allowed_fingerprints.contains(m.fingerprint)
        }),
{
}

/// The fingerprint of every registered device is accepted.
pub open spec fn registered_devices_trusted(r: RegistryView) -> bool {
    forall|k: Seq<char>|
        #[trigger] r.devices.contains_key(k) ==> r.allowed_fingerprints.contains(
            r.devices[k].meta_info.fingerprint,
        )
}

/// No two registered devices advertise the same fingerprint.
pub open spec fn fingerprints_unique(r: RegistryView) -> bool {
    forall|a: Seq<char>, b: Seq<char>|
        #[trigger] r.devices.contains_key(a) && #[trigger] r.devices.contains_key(b) && a != b
            ==> r.devices[a].meta_info.fingerprint != r.devices[b].meta_info.fingerprint
}

/// Resolving services and accepting payloads keep the fingerprint of every
/// registered device accepted; so does removing a service, as long as no two
/// devices advertise the same fingerprint.
pub proof fn lemma_transitions_keep_devices_trusted(
    r: RegistryView,
    own_uuid: Seq<char>,
    fullname: Seq<char>,
    host: Seq<char>,
    addresses: AddressInfoView,
    meta: Option<MetaInfoView>,
    source_id: Seq<char>,
    seq: u64,
)
    requires
        registered_devices_trusted(r),
    ensures
        registered_devices_trusted(resolve_spec(r, own_uuid, fullname, host, addresses, meta).0),
        registered_devices_trusted(accept_spec(r, own_uuid, source_id, seq).0),
        fingerprints_unique(r) ==> registered_devices_trusted(remove_spec(r, fullname).0),
{
    let next = resolve_spec(r, own_uuid, fullname, host, addresses, meta).0;
    assert forall|k: Seq<char>| #[trigger] next.devices.contains_key(k) implies next.allowed_fingerprints.contains(
        next.devices[k].meta_info.fingerprint,
    ) by {
        if k != fullname && r.devices.contains_key(k) {
            assert(r.allowed_fingerprints.contains(r.devices[k].meta_info.fingerprint));
        }
    }
    if fingerprints_unique(r) && r.devices.contains_key(fullname) {
        let removed = remove_spec(r, fullname).0;
        assert forall|k: Seq<char>| #[trigger] removed.devices.contains_key(k) implies removed.allowed_fingerprints.contains(
            removed.devices[k].meta_info.fingerprint,
        ) by {
            assert(r.devices.contains_key(k) && r.devices.contains_key(fullname) && k != fullname);
        }
    }
}

/// The replay filter does not refuse a fresh payload: one from another device
/// that the user allows, numbered above the last one applied from it (or the
/// first from it), is applied, whatever the gap, and becomes the last one
/// recorded; nothing else changes.
pub proof fn lemma_fresh_payload_accepted(
    r: RegistryView,
    own_uuid: Seq<char>,
    source_id: Seq<char>,
    seq: u64,
)
    requires
        source_id != own_uuid,
        r.allowed_device_ids.contains(source_id),
        !r.remote_seqs.contains_key(source_id) || seq > r.remote_seqs[source_id],
    ensures
        ({
            let (next, accepted) = accept_spec(r, own_uuid, source_id, seq);
            &&& accepted
            &&& next.remote_seqs.contains_key(source_id) && next.remote_seqs[source_id] == seq
            &&& forall|k: Seq<char>| k != source_id ==> (#[trigger] next.remote_seqs.contains_key(k)
                == r.remote_seqs.contains_key(k) && (r.remote_seqs.contains_key(k) ==> next.remote_seqs[k]
                == r.remote_seqs[k]))
            &&& next.devices == r.devices
            &&& next.allowed_fingerprints == r.allowed_fingerprints
            &&& next.allowed_device_ids == r.allowed_device_ids
        }),
{
}

/// A payload is applied exactly when it comes from another device that the
/// user allows and is numbered above the last one applied from it.
pub proof fn lemma_accept_iff_fresh(r: RegistryView, own_uuid: Seq<char>, source_id: Seq<char>, seq: u64)
    ensures
        accept_spec(r, own_uuid, source_id, seq).1 <==> (source_id != own_uuid && r.allowed_device_ids.contains(
            source_id,
        ) && (!r.remote_seqs.contains_key(source_id) || seq > r.remote_seqs[source_id])),
{
}

/// Removing a service touches only that service's device: every other device
/// stays as it was, the allowed device ids and the recorded sequence numbers
/// do not change, and the only fingerprint that stops being accepted is the
/// one the removed device advertised.
pub proof fn lemma_removal_touches_only_named(r: RegistryView, fullname: Seq<char>)
    ensures
        ({
            let (next, found) = remove_spec(r, fullname);
            &&& found == r.devices.contains_key(fullname)
            &&& !next.devices.contains_key(fullname)
            &&& forall|k: Seq<char>| k != fullname ==> (#[trigger] next.devices.contains_key(k)
                == r.devices.contains_key(k) && (r.devices.contains_key(k) ==> next.devices[k] == r.devices[k]))
            &&& next.allowed_device_ids == r.allowed_device_ids
            &&& next.remote_seqs == r.remote_seqs
            &&& forall|f: Seq<char>| #[trigger] next.allowed_fingerprints.contains(f) ==> r.allowed_fingerprints.contains(f)
            &&& forall|f: Seq<char>| #[trigger] r.allowed_fingerprints.contains(f) && !next.allowed_fingerprints.contains(f)
                ==> found && f == r.devices[fullname].meta_info.fingerprint
            &&& !found ==> next == r
        }),
{
}

} // verus!
