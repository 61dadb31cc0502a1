//! The concurrent collections of the `dashmap` crate that hold the shared
//! state of the service, with what their methods do to their contents.

use vstd::prelude::*;
use crate::devices::{DeviceInfo, DeviceInfoView};
use dashmap::{DashMap, DashSet};

verus! {

/// The concurrent map `dashmap::DashMap`, opaque to proofs.
#[verifier::external_type_specification]
#[verifier::external_body]
#[verifier::reject_recursive_types(K)]
#[verifier::reject_recursive_types(V)]
#[verifier::reject_recursive_types(S)]
pub struct ExDashMap<K, V, S>(DashMap<K, V, S>);

/// The concurrent set `dashmap::DashSet`, opaque to proofs.
#[verifier::external_type_specification]
#[verifier::external_body]
#[verifier::reject_recursive_types(K)]
#[verifier::reject_recursive_types(S)]
pub struct ExDashSet<K, S>(DashSet<K, S>);

/// The shared map from service names to devices.
pub type DeviceMap = DashMap<String, DeviceInfo>;

/// The shared map from device ids to sequence numbers.
pub type SeqMap = DashMap<String, u64>;

/// The strings a `DashSet<String>` holds.
pub uninterp spec fn string_set(s: DashSet<String>) -> Set<Seq<char>>;

/// Calls `DashSet::new`: an empty set.
#[verifier::external_body]
pub(crate) fn string_set_new() -> (res: DashSet<String>)
    ensures
        string_set(res) == Set::<Seq<char>>::empty(),
{
    DashSet::new()
}

/// Calls `DashSet::insert`, which returns whether the key was absent.
#[verifier::external_body]
pub(crate) fn string_set_insert(s: &mut DashSet<String>, key: String) -> (res: bool)
    ensures
        string_set(*final(s)) == string_set(*old(s)).insert(key@),
        res == !string_set(*old(s)).contains(key@),
{
    s.insert(key)
}

/// Calls `DashSet::remove`, which takes the key out and hands it back if it
/// was there.
#[verifier::external_body]
pub(crate) fn string_set_remove(s: &mut DashSet<String>, key: &str) -> (res: Option<String>)
    ensures
        string_set(*final(s)) == string_set(*old(s)).remove(key@),
        match res {
            Some(k) => string_set(*old(s)).contains(key@) && k@ == key@,
            None => !string_set(*old(s)).contains(key@),
        },
{
    s.remove(key)
}

/// Calls `DashSet::contains`.
#[verifier::external_body]
pub(crate) fn string_set_contains(s: &DashSet<String>, key: &str) -> (res: bool)
    ensures
        res == string_set(*s).contains(key@),
{
    s.contains(key)
}

/// The entries of a `SeqMap`.
pub uninterp spec fn seq_map(m: SeqMap) -> Map<Seq<char>, u64>;

/// Calls `DashMap::new`: an empty map.
#[verifier::external_body]
pub(crate) fn seq_map_new() -> (res: SeqMap)
    ensures
        seq_map(res).dom() == Set::<Seq<char>>::empty(),
{
    DashMap::new()
}

/// Calls `DashMap::get` and copies out the value found.
#[verifier::external_body]
pub(crate) fn seq_map_get(m: &SeqMap, key: &str) -> (res: Option<u64>)
    ensures
        match res {
            Some(v) => seq_map(*m).contains_key(key@) && v == seq_map(*m)[key@],
            None => !seq_map(*m).contains_key(key@),
        },
{
    match m.get(key) {
        Some(r) => Some(*r),
        None => None,
    }
}

/// Calls `DashMap::insert`, which sets the value of the key.
#[verifier::external_body]
pub(crate) fn seq_map_insert(m: &mut SeqMap, key: String, value: u64)
    ensures
        seq_map(*final(m)) == seq_map(*old(m)).insert(key@, value),
{
    m.insert(key, value);
}

/// The entries of a `DeviceMap`, each device by its view.
pub uninterp spec fn device_map(m: DeviceMap) -> Map<Seq<char>, DeviceInfoView>;

/// Calls `DashMap::new`: an empty map.
#[verifier::external_body]
pub(crate) fn device_map_new() -> (res: DeviceMap)
    ensures
        device_map(res).dom() == Set::<Seq<char>>::empty(),
{
    DashMap::new()
}

/// Calls `DashMap::get` and copies out the device found.
#[verifier::external_body]
pub(crate) fn device_map_get(m: &DeviceMap, key: &str) -> (res: Option<DeviceInfo>)
    ensures
        match res {
            Some(d) => device_map(*m).contains_key(key@) && d@ == device_map(*m)[key@],
            None => !device_map(*m).contains_key(key@),
        },
{
    match m.get(key) {
        Some(r) => Some(r.duplicate()),
        None => None,
    }
}

/// Calls `DashMap::contains_key`.
#[verifier::external_body]
pub(crate) fn device_map_contains(m: &DeviceMap, key: &str) -> (res: bool)
    ensures
        res == device_map(*m).contains_key(key@),
{
    m.contains_key(key)
}

/// Calls `DashMap::insert`, which sets the value of the key.
#[verifier::external_body]
pub(crate) fn device_map_insert(m: &mut DeviceMap, key: String, value: DeviceInfo)
    ensures
        device_map(*final(m)) == device_map(*old(m)).insert(key@, value@),
{
    m.insert(key, value);
}

/// Calls `DashMap::remove`, which takes the entry out and hands it back if it
/// was there.
#[verifier::external_body]
pub(crate) fn device_map_remove(m: &mut DeviceMap, key: &str) -> (res: Option<(String, DeviceInfo)>)
    ensures
        device_map(*final(m)) == device_map(*old(m)).remove(key@),
        match res {
            Some(e) => device_map(*old(m)).contains_key(key@) && e.0@ == key@ && e.1@ == device_map(*old(m))[key@],
            None => !device_map(*old(m)).contains_key(key@),
        },
{
    m.remove(key)
}

/// Whether `devices` lists the values of `m` in the order of `keys`: the keys
/// are those of `m`, each once, and the device at each position is the value of
/// the key at that position.
pub open spec fn lists_entries(devices: Seq<DeviceInfo>, keys: Seq<Seq<char>>, m: Map<Seq<char>, DeviceInfoView>) -> bool {
    &&& keys.len() == devices.len()
    &&& keys.no_duplicates()
    &&& keys.to_set() == m.dom()
    &&& forall|i: int| 0 <= i < keys.len() ==> m.contains_key(#[trigger] keys[i]) && m[keys[i]] == devices[i]@
}

/// Whether `devices` lists the values of `m`, each entry exactly once, in some
/// order.
pub open spec fn lists_values(devices: Seq<DeviceInfo>, m: Map<Seq<char>, DeviceInfoView>) -> bool {
    exists|keys: Seq<Seq<char>>| #[trigger] lists_entries(devices, keys, m)
}

/// Walks the map with `DashMap::iter`, which visits each entry once, and copies
/// out every device, in the order the walk yields them, which the contract
/// leaves open.
#[verifier::external_body]
pub(crate) fn device_map_values(m: &DeviceMap) -> (res: Vec<DeviceInfo>)
    ensures
        lists_values(res@, device_map(*m)),
{
    m.iter().map(|r| r.value().duplicate()).collect()
}

} // verus!
