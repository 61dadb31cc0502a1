//! Discovered devices: their addresses and metadata.

use crate::properties::{MetaInfo, MetaInfoView};
use vstd::prelude::*;

verus! {

/// An IP address: IPv4 as its 32 bits, IPv6 as its 128 bits, most
/// significant byte first.
#[derive(Debug, Clone, Copy, PartialEq, Eq, Structural)]
pub enum IpAddress {
    V4(u32),
    V6(u128),
}

/// The addresses of a device, IPv4 and IPv6 apart.
#[derive(Debug)]
pub struct AddressInfo {
    pub v4: Vec<u32>,
    pub v6: Vec<u128>,
}

/// The addresses of a device, as plain values.
pub struct AddressInfoView {
    pub v4: Seq<u32>,
    pub v6: Seq<u128>,
}

impl View for AddressInfo {
    type V = AddressInfoView;

    open spec fn view(&self) -> AddressInfoView {
        AddressInfoView { v4: self.v4@, v6: self.v6@ }
    }
}

/// The IPv4 addresses of `s`, in order.
pub open spec fn v4_addresses(s: Seq<IpAddress>) -> Seq<u32>
    decreases s.len(),
{
    if s.len() == 0 {
        seq![]
    } else {
        match s.last() {
            IpAddress::V4(a) => v4_addresses(s.drop_last()).push(a),
            IpAddress::V6(_) => v4_addresses(s.drop_last()),
        }
    }
}

/// The IPv6 addresses of `s`, in order.
pub open spec fn v6_addresses(s: Seq<IpAddress>) -> Seq<u128>
    decreases s.len(),
{
    if s.len() == 0 {
        seq![]
    } else {
        match s.last() {
            IpAddress::V6(a) => v6_addresses(s.drop_last()).push(a),
            IpAddress::V4(_) => v6_addresses(s.drop_last()),
        }
    }
}

/// Sorts the addresses of a service into IPv4 and IPv6, keeping their order.
pub fn extract_addresses(addresses: &Vec<IpAddress>) -> (res: AddressInfo)
    ensures
        res.v4@ == v4_addresses(addresses@),
        res.v6@ == v6_addresses(addresses@),
{
    let mut acc = AddressInfo { v4: Vec::new(), v6: Vec::new() };
    let mut i: usize = 0;
    while i < addresses.len()
        invariant
            i <= addresses@.len(),
            acc.v4@ == v4_addresses(addresses@.take(i as int)),
            acc.v6@ == v6_addresses(addresses@.take(i as int)),
        decreases addresses@.len() - i,
    {
        assert(addresses@.take(i + 1).drop_last() =~= addresses@.take(i as int));
        match addresses[i] {
            IpAddress::V4(a) => acc.v4.push(a),
            IpAddress::V6(a) => acc.v6.push(a),
        }
        i = i + 1;
    }
    assert(addresses@.take(addresses@.len() as int) =~= addresses@);
    acc
}

/// Every address of the input lands in exactly one of the two lists.
pub proof fn lemma_extract_addresses_partition(s: Seq<IpAddress>)
    ensures
        v4_addresses(s).len() + v6_addresses(s).len() == s.len(),
    decreases s.len(),
{
    if s.len() > 0 {
        lemma_extract_addresses_partition(s.drop_last());
    }
}

/// A discovered device.
#[derive(Debug)]
pub struct DeviceInfo {
    pub host: String,
    pub fullname: String,
    pub addresses: AddressInfo,
    pub meta_info: MetaInfo,
}

/// A discovered device, as plain values.
pub struct DeviceInfoView {
    pub host: Seq<char>,
    pub fullname: Seq<char>,
    pub addresses: AddressInfoView,
    pub meta_info: MetaInfoView,
}

impl View for DeviceInfo {
    type V = DeviceInfoView;

    open spec fn view(&self) -> DeviceInfoView {
        DeviceInfoView {
            host: self.host@,
            fullname: self.fullname@,
            addresses: self.addresses@,
            meta_info: self.meta_info@,
        }
    }
}

impl AddressInfo {
    /// A copy of the addresses.
    pub fn duplicate(&self) -> (res: AddressInfo)
        ensures
            res@ == self@,
    {
        let v4 = self.v4.clone();
        let v6 = self.v6.clone();
        assert(v4@ =~= self.v4@);
        assert(v6@ =~= self.v6@);
        AddressInfo { v4, v6 }
    }
}

impl MetaInfo {
    /// A copy of the metadata.
    pub fn duplicate(&self) -> (res: MetaInfo)
        ensures
            res@ == self@,
    {
        MetaInfo {
            version: self.version.clone(),
            port: self.port,
            uuid: self.uuid.clone(),
            fingerprint: self.fingerprint.clone(),
        }
    }
}

impl DeviceInfo {
    /// A copy of the device.
    pub fn duplicate(&self) -> (res: DeviceInfo)
        ensures
            res@ == self@,
    {
        DeviceInfo {
            host: self.host.clone(),
            fullname: self.fullname.clone(),
            addresses: self.addresses.duplicate(),
            meta_info: self.meta_info.duplicate(),
        }
    }
}

} // verus!
