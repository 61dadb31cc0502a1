//! Clipboard payloads on the wire: the metadata that precedes each payload,
//! its length prefix, and where a payload is sent.

use crate::clipboard::{mark_spec, ClipboardInfo, ClipboardSync, EClipboardKind};
use crate::registry::{accept_spec, DeviceRegistry};
use crate::devices::DeviceInfo;
use vstd::prelude::*;
use vstd::slice::slice_to_vec;

verus! {

/// The metadata sent ahead of a payload: its kind, source device and
/// sequence number, the file name (empty for text and images) and the size of
/// the content that follows.
#[derive(Debug)]
pub struct PayloadMeta {
    pub kind: EClipboardKind,
    pub source_id: String,
    pub seq: u64,
    pub name: String,
    pub total_size: u64,
}

/// The metadata of a payload, as plain values.
pub struct PayloadMetaView {
    pub kind: EClipboardKind,
    pub source_id: Seq<char>,
    pub seq: u64,
    pub name: Seq<char>,
    pub total_size: u64,
}

impl View for PayloadMeta {
    type V = PayloadMetaView;

    open spec fn view(&self) -> PayloadMetaView {
        PayloadMetaView {
            kind: self.kind,
            source_id: self.source_id@,
            seq: self.seq,
            name: self.name@,
            total_size: self.total_size,
        }
    }
}

/// Sends and receives payloads over QUIC streams.
pub struct QuicTransfer;

/// The four bytes of `n`, most significant first.
pub open spec fn be_u32_bytes(n: u32) -> Seq<u8> {
    seq![
        (n / 0x1000000) as u8,
        ((n / 0x10000) % 0x100) as u8,
        ((n / 0x100) % 0x100) as u8,
        (n % 0x100) as u8,
    ]
}

/// The number whose four bytes, most significant first, are `b`.
pub open spec fn be_u32_value(b: Seq<u8>) -> u32 {
    (b[0] as int * 0x1000000 + b[1] as int * 0x10000 + b[2] as int * 0x100 + b[3] as int) as u32
}

/// The length written ahead of metadata of `len` bytes: `len` as a `u32`,
/// that is its low 32 bits.
pub open spec fn wire_len(len: nat) -> u32 {
    (len % 0x1_0000_0000) as u32
}

/// The bytes that announce metadata of `len` bytes: its length as a `u32`,
/// most significant byte first.
pub fn encode_meta_len(len: usize) -> (res: [u8; 4])
    ensures
        res@ == be_u32_bytes(wire_len(len as nat)),
{
    let n: u32 = ((len as u64) % 0x1_0000_0000) as u32;
    let res = [(n / 0x1000000) as u8, ((n / 0x10000) % 0x100) as u8, ((n / 0x100) % 0x100) as u8, (n % 0x100) as u8];
    assert(res@ =~= be_u32_bytes(wire_len(len as nat)));
    res
}

/// The length of the metadata that the four bytes `header` announce.
pub fn decode_meta_len(header: [u8; 4]) -> (res: u32)
    ensures
        res == be_u32_value(header@),
{
    (header[0] as u32) * 0x1000000 + (header[1] as u32) * 0x10000 + (header[2] as u32) * 0x100 + (header[3] as u32)
}

/// The frame of serialised metadata: its length prefix, then the metadata.
pub fn frame_meta(meta_json: &[u8]) -> (res: Vec<u8>)
    ensures
        res@ == be_u32_bytes(wire_len(meta_json@.len())) + meta_json@,
{
    let header = encode_meta_len(meta_json.len());
    let mut res = slice_to_vec(header.as_slice());
    let mut i: usize = 0;
    while i < meta_json.len()
        invariant
            i <= meta_json@.len(),
            res@ == be_u32_bytes(wire_len(meta_json@.len())) + meta_json@.take(i as int),
        decreases meta_json@.len() - i,
    {
        res.push(meta_json[i]);
        i = i + 1;
        assert(res@ =~= be_u32_bytes(wire_len(meta_json@.len())) + meta_json@.take(i as int));
    }
    assert(meta_json@.take(meta_json@.len() as int) =~= meta_json@);
    res
}

/// The receiver reads back what the sender wrote: for metadata shorter than
/// 2^32 bytes, followed by any content, the four bytes of the prefix announce
/// exactly the length of the metadata, the metadata follows them, and what
/// remains after it is the content.
pub proof fn lemma_meta_len_roundtrip(meta: Seq<u8>, content: Seq<u8>)
    requires
        meta.len() < 0x1_0000_0000,
    ensures
        ({
            let stream = be_u32_bytes(wire_len(meta.len())) + meta + content;
            let n = be_u32_value(stream.take(4)) as int;
            &&& n == meta.len()
            &&& stream.subrange(4, 4 + n) == meta
            &&& stream.skip(4 + n) == content
        }),
{
    let n = wire_len(meta.len());
    assert(n == meta.len());
    let stream = be_u32_bytes(n) + meta + content;
    assert(stream.take(4) =~= be_u32_bytes(n));
    assert((n / 0x1000000) as u8 as int * 0x1000000 + ((n / 0x10000) % 0x100) as u8 as int * 0x10000
        + ((n / 0x100) % 0x100) as u8 as int * 0x100 + (n % 0x100) as u8 as int == n) by (bit_vector);
    assert(stream.subrange(4, 4 + meta.len() as int) =~= meta);
    assert(stream.skip(4 + meta.len() as int) =~= content);
}

/// The metadata of a text or image payload: no file name, and the size of
/// its content.
pub fn payload_meta(info: &ClipboardInfo) -> (res: PayloadMeta)
    ensures
        res@ == (PayloadMetaView {
            kind: info.kind,
            source_id: info.source_id@,
            seq: info.seq,
            name: Seq::empty(),
            total_size: info.content@.len() as u64,
        }),
{
    let name = String::new();
    PayloadMeta {
        kind: info.kind,
        source_id: info.source_id.clone(),
        seq: info.seq,
        name,
        total_size: info.content.len() as u64,
    }
}

/// The metadata of a file payload: the name of the archive (`file` where it
/// has none) and its size on disk.
pub fn file_payload_meta(info: &ClipboardInfo, file_name: Option<String>, total_size: u64) -> (res: PayloadMeta)
    ensures
        res@ == (PayloadMetaView {
            kind: info.kind,
            source_id: info.source_id@,
            seq: info.seq,
            name: match file_name {
                Some(n) => n@,
                None => "file"@,
            },
            total_size,
        }),
{
    let name = match file_name {
        Some(n) => n,
        None => "file".to_owned(),
    };
    PayloadMeta { kind: info.kind, source_id: info.source_id.clone(), seq: info.seq, name, total_size }
}

/// Where a payload for `device` goes: its first IPv4 address and the port it
/// advertised; `None` where it has no IPv4 address, and the device is skipped.
pub fn payload_target(device: &DeviceInfo) -> (res: Option<(u32, u16)>)
    ensures
        match res {
            Some((ip, port)) => device.addresses.v4@.len() > 0 && ip == device.addresses.v4@[0]
                && port == device.meta_info.port,
            None => device.addresses.v4@.len() == 0,
        },
{
    if device.addresses.v4.len() == 0 {
        return None;
    }
    Some((device.addresses.v4[0], device.meta_info.port))
}

/// Decides on a payload received from a peer: it is applied exactly when the
/// registry accepts its source and sequence number (see `accept_spec`), and
/// then the clipboard change that writing it causes is marked to be ignored.
pub fn admit_payload(
    registry: &mut DeviceRegistry,
    sync: &mut ClipboardSync,
    own_uuid: &str,
    meta: &PayloadMeta,
) -> (res: bool)
    ensures
        (final(registry)@, res) == accept_spec(old(registry)@, own_uuid@, meta.source_id@, meta.seq),
        *final(sync) == (if res { mark_spec(*old(sync)) } else { *old(sync) }),
{
    let accepted = registry.accept_payload(own_uuid, meta.source_id.as_str(), meta.seq);
    if accepted {
        sync.mark_remote_write();
    }
    accepted
}

} // verus!
