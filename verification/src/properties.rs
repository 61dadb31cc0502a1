//! The TXT properties a device advertises over mDNS, and the metadata a peer
//! recovers from them.

use crate::decimal::{decimal_chars, decimal_string, parse_u16, parse_u16_spec};
use crate::encoding::{
    base64_decode, base64_encode, base64_encode_spec, base64_standard_decode, utf8_lossy,
    utf8_lossy_string,
};
use vstd::prelude::*;
use vstd::utf8::{decode_utf8, encode_utf8, valid_utf8};

verus! {

/// The map that a sequence of key/value pairs describes; a later pair for a
/// key replaces an earlier one.
pub open spec fn pairs_map(s: Seq<(String, String)>) -> Map<Seq<char>, Seq<char>>
    decreases s.len(),
{
    if s.len() == 0 {
        Map::empty()
    } else {
        pairs_map(s.drop_last()).insert(s.last().0@, s.last().1@)
    }
}

/// No key occurs twice in `s`.
pub open spec fn keys_distinct(s: Seq<(String, String)>) -> bool {
    forall|i: int, j: int|
        0 <= i < s.len() && 0 <= j < s.len() && i != j ==> #[trigger] s[i].0@ != #[trigger] s[j].0@
}

proof fn lemma_pairs_map_dom(s: Seq<(String, String)>, q: Seq<char>)
    ensures
        pairs_map(s).contains_key(q) <==> exists|i: int| 0 <= i < s.len() && #[trigger] s[i].0@ == q,
    decreases s.len(),
{
    if s.len() > 0 {
        lemma_pairs_map_dom(s.drop_last(), q);
        if pairs_map(s.drop_last()).contains_key(q) {
            let i = choose|i: int| 0 <= i < s.drop_last().len() && #[trigger] s.drop_last()[i].0@ == q;
            assert(s[i].0@ == q);
        }
        if exists|i: int| 0 <= i < s.len() && #[trigger] s[i].0@ == q {
            let i = choose|i: int| 0 <= i < s.len() && #[trigger] s[i].0@ == q;
            if i < s.len() - 1 {
                assert(s.drop_last()[i].0@ == q);
            }
        }
    }
}

proof fn lemma_keys_distinct_drop_last(s: Seq<(String, String)>)
    requires
        keys_distinct(s),
        s.len() > 0,
    ensures
        keys_distinct(s.drop_last()),
{
    let d = s.drop_last();
    assert forall|a: int, b: int|
        0 <= a < d.len() && 0 <= b < d.len() && a != b implies #[trigger] d[a].0@ != #[trigger] d[b].0@ by {
        assert(s[a].0@ != s[b].0@);
    }
}

proof fn lemma_pairs_map_value(s: Seq<(String, String)>, i: int)
    requires
        keys_distinct(s),
        0 <= i < s.len(),
    ensures
        pairs_map(s).contains_key(s[i].0@),
        pairs_map(s)[s[i].0@] == s[i].1@,
    decreases s.len(),
{
    if i < s.len() - 1 {
        let d = s.drop_last();
        lemma_keys_distinct_drop_last(s);
        lemma_pairs_map_value(d, i);
        assert(d[i] == s[i]);
        assert(s[i].0@ != s[s.len() - 1].0@);
    }
}

proof fn lemma_pairs_map_update(s: Seq<(String, String)>, i: int, e: (String, String))
    requires
        keys_distinct(s),
        0 <= i < s.len(),
        s[i].0@ == e.0@,
    ensures
        pairs_map(s.update(i, e)) == pairs_map(s).insert(e.0@, e.1@),
    decreases s.len(),
{
    let u = s.update(i, e);
    if i == s.len() - 1 {
        assert(u.drop_last() =~= s.drop_last());
        assert(pairs_map(u) =~= pairs_map(s).insert(e.0@, e.1@));
    } else {
        let d = s.drop_last();
        lemma_keys_distinct_drop_last(s);
        lemma_pairs_map_update(d, i, e);
        assert(u.drop_last() =~= d.update(i, e));
        assert(u.last() == s.last());
        assert(s[i].0@ != s[s.len() - 1].0@);
        assert(pairs_map(u) =~= pairs_map(s).insert(e.0@, e.1@));
    }
}

/// A set of TXT properties: string keys, each with one string value.
pub struct TxtProperties {
    entries: Vec<(String, String)>,
}

impl TxtProperties {
    /// No key occurs twice.
    #[verifier::type_invariant]
    closed spec fn wf(self) -> bool {
        keys_distinct(self.entries@)
    }
}

impl View for TxtProperties {
    type V = Map<Seq<char>, Seq<char>>;

    closed spec fn view(&self) -> Map<Seq<char>, Seq<char>> {
        pairs_map(self.entries@)
    }
}

impl TxtProperties {
    /// An empty set of properties.
    pub fn new() -> (res: Self)
        ensures
            res@ == Map::<Seq<char>, Seq<char>>::empty(),
    {
        TxtProperties { entries: Vec::new() }
    }

    /// The index of the entry with key `key`, if there is one.
    fn find(entries: &Vec<(String, String)>, key: &String) -> (res: Option<usize>)
        ensures
            match res {
                Some(i) => i < entries@.len() && entries@[i as int].0@ == key@,
                None => forall|j: int| 0 <= j < entries@.len() ==> #[trigger] entries@[j].0@ != key@,
            },
    {
        let mut i: usize = 0;
        while i < entries.len()
            invariant
                i <= entries@.len(),
                forall|j: int| 0 <= j < i ==> #[trigger] entries@[j].0@ != key@,
            decreases entries@.len() - i,
        {
            if entries[i].0 == *key {
                return Some(i);
            }
            i = i + 1;
        }
        None
    }

    /// Sets the value of `key`, replacing any value it had.
    pub fn insert(&mut self, key: String, value: String)
        ensures
            final(self)@ == old(self)@.insert(key@, value@),
    {
        proof {
            use_type_invariant(&*self);
        }
        let mut entries: Vec<(String, String)> = Vec::new();
        std::mem::swap(&mut entries, &mut self.entries);
        let ghost before = entries@;
        match Self::find(&entries, &key) {
            Some(i) => {
                let ghost e = (key, value);
                entries.set(i, (key, value));
                proof {
                    assert(entries@ == before.update(i as int, e));
                    lemma_pairs_map_update(before, i as int, e);
                    assert forall|a: int, b: int|
                        0 <= a < entries@.len() && 0 <= b < entries@.len() && a != b implies #[trigger] entries@[a].0@
                        != #[trigger] entries@[b].0@ by {
                        assert(before[a].0@ != before[b].0@);
                    }
                }
            },
            None => {
                let ghost e = (key, value);
                entries.push((key, value));
                proof {
                    assert(entries@ == before.push(e));
                    assert(entries@.drop_last() =~= before);
                    assert forall|a: int, b: int|
                        0 <= a < entries@.len() && 0 <= b < entries@.len() && a != b implies #[trigger] entries@[a].0@
                        != #[trigger] entries@[b].0@ by {
                        if a < before.len() && b < before.len() {
                            assert(before[a].0@ != before[b].0@);
                        }
                    }
                }
            },
        }
        self.entries = entries;
    }

    /// The properties described by `pairs`, inserted in order.
    pub fn from_pairs(pairs: Vec<(String, String)>) -> (res: Self)
        ensures
            res@ == pairs_map(pairs@),
    {
        let mut res = Self::new();
        let ghost all = pairs@;
        for e in it: pairs.into_iter()
            invariant
                it.seq() == all,
                res@ == pairs_map(all.take(it.index() as int)),
        {
            let ghost i = it.index();
            assert(all.take(i + 1).drop_last() =~= all.take(i as int));
            assert(all.take(i + 1).last() == e);
            res.insert(e.0, e.1);
        }
        assert(all.take(all.len() as int) =~= all);
        res
    }

    /// The value of `key`, if the properties hold it.
    pub fn get(&self, key: &str) -> (res: Option<String>)
        ensures
            match res {
                Some(v) => self@.contains_key(key@) && v@ == self@[key@],
                None => !self@.contains_key(key@),
            },
    {
        proof {
            use_type_invariant(self);
        }
        let k = key.to_owned();
        match Self::find(&self.entries, &k) {
            Some(i) => {
                proof {
                    lemma_pairs_map_value(self.entries@, i as int);
                }
                Some(self.entries[i].1.clone())
            },
            None => {
                proof {
                    lemma_pairs_map_dom(self.entries@, key@);
                }
                None
            },
        }
    }
}

/// The value a map holds for `k`, if any.
pub open spec fn map_get(m: Map<Seq<char>, Seq<char>>, k: Seq<char>) -> Option<Seq<char>> {
    if m.contains_key(k) {
        Some(m[k])
    } else {
        None
    }
}

/// The view of an optional string.
pub open spec fn opt_string(o: Option<String>) -> Option<Seq<char>> {
    match o {
        Some(s) => Some(s@),
        None => None,
    }
}

/// The view of an optional byte vector.
pub open spec fn opt_bytes(o: Option<Vec<u8>>) -> Option<Seq<u8>> {
    match o {
        Some(v) => Some(v@),
        None => None,
    }
}

/// The metadata of a discovered device, as plain values.
pub struct MetaInfoView {
    pub version: Seq<char>,
    pub port: u16,
    pub uuid: Seq<char>,
    pub fingerprint: Seq<char>,
}

/// The metadata a device advertises: protocol version, QUIC port, device id
/// and certificate fingerprint.
#[derive(Debug)]
pub struct MetaInfo {
    pub version: String,
    pub port: u16,
    pub uuid: String,
    pub fingerprint: String,
}

impl View for MetaInfo {
    type V = MetaInfoView;

    open spec fn view(&self) -> MetaInfoView {
        MetaInfoView {
            version: self.version@,
            port: self.port,
            uuid: self.uuid@,
            fingerprint: self.fingerprint@,
        }
    }
}

/// The view of an optional `MetaInfo`.
pub open spec fn opt_meta(o: Option<MetaInfo>) -> Option<MetaInfoView> {
    match o {
        Some(m) => Some(m@),
        None => None,
    }
}

/// The text of a decrypted fingerprint: its UTF-8 decoding, where the bytes
/// are not valid UTF-8 with replacement characters as `from_utf8_lossy`
/// inserts them.
pub open spec fn fingerprint_text(bytes: Seq<u8>) -> Seq<char> {
    crate::encoding::lossy_text(bytes)
}

/// The metadata recovered from the raw property values and the decrypted
/// fingerprint: present exactly when the version and the id are present, the
/// port parses as a `u16` and the fingerprint was decoded and decrypted.
pub open spec fn meta_info_spec(
    version: Option<Seq<char>>,
    port: Option<Seq<char>>,
    uuid: Option<Seq<char>>,
    decrypted: Option<Seq<u8>>,
) -> Option<MetaInfoView> {
    match (version, port, uuid, decrypted) {
        (Some(v), Some(p), Some(u), Some(d)) => match parse_u16_spec(p) {
            Some(n) => Some(MetaInfoView { version: v, port: n, uuid: u, fingerprint: fingerprint_text(d) }),
            None => None,
        },
        _ => None,
    }
}

/// The raw properties of an mDNS service record that this protocol reads.
#[derive(Debug)]
pub struct MdnsProperties {
    pub version: Option<String>,
    pub port: Option<String>,
    pub uuid: Option<String>,
    pub fingerprint: Option<String>,
}

/// Clones an optional string, keeping its value.
fn clone_opt(o: &Option<String>) -> (res: Option<String>)
    ensures
        opt_string(res) == opt_string(*o),
{
    match o {
        Some(s) => Some(s.clone()),
        None => None,
    }
}

impl MdnsProperties {
    /// Picks the `version`, `port`, `uuid` and `fingerprint` properties.
    pub fn from_hashmap(map: TxtProperties) -> (res: Self)
        ensures
            opt_string(res.version) == map_get(map@, "version"@),
            opt_string(res.port) == map_get(map@, "port"@),
            opt_string(res.uuid) == map_get(map@, "uuid"@),
            opt_string(res.fingerprint) == map_get(map@, "fingerprint"@),
    {
        MdnsProperties {
            version: map.get("version"),
            port: map.get("port"),
            uuid: map.get("uuid"),
            fingerprint: map.get("fingerprint"),
        }
    }

    /// Decodes an advertised fingerprint from base64 (standard alphabet,
    /// padded); `None` where it is not valid base64.
    pub fn decode_fingerprint(fingerprint: String) -> (res: Option<Vec<u8>>)
        ensures
            opt_bytes(res) == base64_standard_decode(encode_utf8(fingerprint@)),
    {
        base64_decode(fingerprint.as_str())
    }

    /// The encrypted fingerprint carried by the properties: the base64
    /// decoding of the `fingerprint` property, if it is present and decodes.
    pub fn encrypted_fingerprint(&self) -> (res: Option<Vec<u8>>)
        ensures
            opt_bytes(res) == match self.fingerprint {
                Some(f) => base64_standard_decode(encode_utf8(f@)),
                None => None,
            },
    {
        match &self.fingerprint {
            Some(f) => Self::decode_fingerprint(f.clone()),
            None => None,
        }
    }

    /// Validates the properties: the port must parse as a `u16`, and
    /// `decrypted` is the decryption of `encrypted_fingerprint()` (`None`
    /// where there was nothing to decrypt or decryption failed); its bytes are
    /// read as UTF-8, lossily.
    pub fn validate_and_process(&self, decrypted: Option<Vec<u8>>) -> (res: Option<MetaInfo>)
        ensures
            opt_meta(res) == meta_info_spec(
                opt_string(self.version),
                opt_string(self.port),
                opt_string(self.uuid),
                opt_bytes(decrypted),
            ),
    {
        let port = match &self.port {
            Some(p) => parse_u16(p.as_str()),
            None => None,
        };
        let fingerprint = match decrypted {
            Some(d) => Some(utf8_lossy_string(d.as_slice())),
            None => None,
        };
        let version = clone_opt(&self.version);
        let uuid = clone_opt(&self.uuid);
        match (version, port, uuid, fingerprint) {
            (Some(valid_version), Some(valid_port), Some(valid_uuid), Some(valid_fingerprint)) => {
                Some(
                    MetaInfo {
                        version: valid_version,
                        port: valid_port,
                        uuid: valid_uuid,
                        fingerprint: valid_fingerprint,
                    },
                )
            },
            _ => None,
        }
    }

    /// The metadata these properties carry; see `validate_and_process`.
    pub fn to_meta_info(&self, decrypted: Option<Vec<u8>>) -> (res: Option<MetaInfo>)
        ensures
            opt_meta(res) == meta_info_spec(
                opt_string(self.version),
                opt_string(self.port),
                opt_string(self.uuid),
                opt_bytes(decrypted),
            ),
    {
        self.validate_and_process(decrypted)
    }
}

/// Encodes an encrypted fingerprint for advertisement: standard base64 with
/// padding.
pub fn encode_fingerprint(encrypted: &[u8]) -> (res: String)
    requires
        (encrypted@.len() + 2) / 3 * 4 <= usize::MAX,
    ensures
        res@ == base64_encode_spec(encrypted@),
        base64_standard_decode(encode_utf8(res@)) == Some(encrypted@),
{
    let res = base64_encode(encrypted);
    proof {
        crate::encoding::lemma_base64_roundtrip(encrypted@);
    }
    res
}

/// The host name a device registers: its instance name followed by
/// `.local.`.
pub fn service_hostname(instance_name: &str) -> (res: String)
    ensures
        res@ == instance_name@ + ".local."@,
{
    let mut res = instance_name.to_owned();
    res.append(".local.");
    res
}

/// Whether `pairs` are the TXT properties of a device that listens on `port`,
/// whose encrypted fingerprint is `encrypted` and whose id is `uuid`: in
/// order `version` = `1.0`, `port` in decimal, `fingerprint` in base64 and
/// `uuid`.
pub open spec fn advertises(pairs: Seq<(String, String)>, port: u16, encrypted: Seq<u8>, uuid: Seq<char>) -> bool {
    &&& pairs.len() == 4
    &&& pairs[0].0@ == "version"@
    &&& pairs[0].1@ == "1.0"@
    &&& pairs[1].0@ == "port"@
    &&& pairs[1].1@ == decimal_chars(port as nat)
    &&& pairs[2].0@ == "fingerprint"@
    &&& pairs[2].1@ == base64_encode_spec(encrypted)
    &&& base64_standard_decode(encode_utf8(pairs[2].1@)) == Some(encrypted)
    &&& pairs[3].0@ == "uuid"@
    &&& pairs[3].1@ == uuid
}

/// The TXT properties a device registers with its mDNS service.
pub fn service_properties(port: u16, encrypted: &[u8], uuid: &str) -> (res: Vec<(String, String)>)
    requires
        (encrypted@.len() + 2) / 3 * 4 <= usize::MAX,
    ensures
        advertises(res@, port, encrypted@, uuid@),
{
    let mut res: Vec<(String, String)> = Vec::new();
    res.push(("version".to_owned(), "1.0".to_owned()));
    res.push(("port".to_owned(), decimal_string(port as u64)));
    res.push(("fingerprint".to_owned(), encode_fingerprint(encrypted)));
    res.push(("uuid".to_owned(), uuid.to_owned()));
    res
}

/// What a device advertises, a peer reads back: from the properties it
/// registers, the peer recovers version `1.0`, the port, the id and the
/// encrypted fingerprint, and, once that is decrypted to the UTF-8 bytes of a
/// fingerprint, that fingerprint.
pub proof fn lemma_advertisement_roundtrip(
    pairs: Seq<(String, String)>,
    port: u16,
    encrypted: Seq<u8>,
    uuid: Seq<char>,
    fingerprint: Seq<char>,
)
    requires
        advertises(pairs, port, encrypted, uuid),
    ensures
        ({
            let m = pairs_map(pairs);
            &&& map_get(m, "fingerprint"@) matches Some(f) && base64_standard_decode(encode_utf8(f))
                == Some(encrypted)
            &&& meta_info_spec(
                map_get(m, "version"@),
                map_get(m, "port"@),
                map_get(m, "uuid"@),
                Some(encode_utf8(fingerprint)),
            ) == Some(MetaInfoView { version: "1.0"@, port, uuid, fingerprint })
        }),
{
    reveal_strlit("version");
    reveal_strlit("port");
    reveal_strlit("fingerprint");
    reveal_strlit("uuid");
    let m = pairs_map(pairs);
    let p3 = pairs.drop_last();
    let p2 = p3.drop_last();
    let p1 = p2.drop_last();
    let p0 = p1.drop_last();
    assert(p0 =~= Seq::<(String, String)>::empty());
    assert(pairs_map(p0) == Map::<Seq<char>, Seq<char>>::empty());
    assert(pairs_map(p1) == pairs_map(p0).insert(pairs[0].0@, pairs[0].1@));
    assert(pairs_map(p2) == pairs_map(p1).insert(pairs[1].0@, pairs[1].1@));
    assert(pairs_map(p3) == pairs_map(p2).insert(pairs[2].0@, pairs[2].1@));
    assert(m == pairs_map(p3).insert(pairs[3].0@, pairs[3].1@));
    assert("version"@.len() == 7);
    assert("port"@.len() == 4);
    assert("fingerprint"@.len() == 11);
    assert("uuid"@.len() == 4);
    assert("port"@[0] != "uuid"@[0]);
    crate::decimal::lemma_parse_decimal_roundtrip(port);
    vstd::utf8::encode_utf8_valid_utf8(fingerprint);
    vstd::utf8::encode_utf8_decode_utf8(fingerprint);
}

} // verus!
