//! Clipboard contents: what a local change sends to peers, and when a change
//! is one that this service made itself.

use crate::decimal::{hex_number_chars, hex_number_string};
use vstd::prelude::*;
use vstd::slice::slice_to_vec;

verus! {

/// The kind of a clipboard payload.
#[derive(Debug, Clone, Copy, PartialEq, Eq, Structural)]
pub enum EClipboardKind {
    Text,
    Image,
    File,
}

/// A clipboard payload: its kind, the id of the device it comes from, that
/// device's sequence number for it, and its bytes (the text in UTF-8, the
/// image as PNG, or the path of the archive holding the files).
#[derive(Debug)]
pub struct ClipboardInfo {
    pub kind: EClipboardKind,
    pub source_id: String,
    pub seq: u64,
    pub content: Vec<u8>,
}

/// A clipboard payload, as plain values.
pub struct ClipboardInfoView {
    pub kind: EClipboardKind,
    pub source_id: Seq<char>,
    pub seq: u64,
    pub content: Seq<u8>,
}

impl View for ClipboardInfo {
    type V = ClipboardInfoView;

    open spec fn view(&self) -> ClipboardInfoView {
        ClipboardInfoView {
            kind: self.kind,
            source_id: self.source_id@,
            seq: self.seq,
            content: self.content@,
        }
    }
}

/// The handler of clipboard change notifications.
pub struct ClipboardManager;

impl ClipboardManager {
    /// A new handler.
    pub fn new() -> (res: Self)
        ensures
            res == ClipboardManager,
    {
        ClipboardManager {}
    }
}

/// One format of the clipboard contents, as read from the system clipboard.
#[derive(Debug)]
pub enum ClipboardEntry {
    /// Text.
    Text(String),
    /// An image: its PNG encoding, or `None` where it could not be converted.
    Image(Option<Vec<u8>>),
    /// A list of file paths.
    Files(Vec<String>),
    /// Any other format.
    Other,
}

/// What the scan of the clipboard contents found.
#[derive(Debug)]
pub enum ClipboardScan {
    /// A payload ready to send.
    Ready(ClipboardInfo),
    /// The files of the entry at `index` must be packed into an archive; where
    /// that fails, the scan goes on after `index`.
    PackFiles { index: usize, paths: Vec<String> },
    /// Nothing to send.
    Nothing,
}

/// Whether an entry gives a payload: text, an image that converted to PNG, or
/// a non-empty list of files.
pub open spec fn entry_usable(e: ClipboardEntry) -> bool {
    match e {
        ClipboardEntry::Text(_) => true,
        ClipboardEntry::Image(png) => png is Some,
        ClipboardEntry::Files(paths) => paths@.len() > 0,
        ClipboardEntry::Other => false,
    }
}

/// The first index at or after `from` whose entry gives a payload.
pub open spec fn first_usable(entries: Seq<ClipboardEntry>, from: int) -> Option<int>
    decreases entries.len() - from,
{
    if from < 0 || from >= entries.len() {
        None
    } else if entry_usable(entries[from]) {
        Some(from)
    } else {
        first_usable(entries, from + 1)
    }
}

/// Whether `scan` is what the entries give from `from` on, for the device
/// `source_id` and its sequence number `seq`.
pub open spec fn scan_result(
    entries: Seq<ClipboardEntry>,
    from: int,
    source_id: Seq<char>,
    seq: u64,
    scan: ClipboardScan,
) -> bool {
    match first_usable(entries, from) {
        None => scan is Nothing,
        Some(i) => match entries[i] {
            ClipboardEntry::Text(t) => scan matches ClipboardScan::Ready(info) && info@ == ClipboardInfoView {
                kind: EClipboardKind::Text,
                source_id,
                seq,
                content: vstd::utf8::encode_utf8(t@),
            },
            ClipboardEntry::Image(png) => scan matches ClipboardScan::Ready(info) && info@ == ClipboardInfoView {
                kind: EClipboardKind::Image,
                source_id,
                seq,
                content: png->0@,
            },
            ClipboardEntry::Files(paths) => scan matches ClipboardScan::PackFiles { index, paths: p } && index == i
                && p@ == paths@,
            ClipboardEntry::Other => false,
        },
    }
}

proof fn lemma_first_usable_skip(entries: Seq<ClipboardEntry>, from: int, i: int)
    requires
        0 <= from <= i <= entries.len(),
        forall|j: int| from <= j < i ==> !entry_usable(#[trigger] entries[j]),
    ensures
        first_usable(entries, from) == first_usable(entries, i),
    decreases i - from,
{
    if from < i {
        lemma_first_usable_skip(entries, from + 1, i);
    }
}

/// Scans the clipboard contents from the entry `from` on, in order, for the
/// first that gives a payload: text as its UTF-8 bytes, an image as its PNG
/// bytes, or a non-empty list of files, which must first be packed.
pub fn parse_clipboard_info(entries: &Vec<ClipboardEntry>, from: usize, source_id: &str, seq: u64) -> (res: ClipboardScan)
    ensures
        scan_result(entries@, from as int, source_id@, seq, res),
{
    let mut i = from;
    if i > entries.len() {
        return ClipboardScan::Nothing;
    }
    while i < entries.len()
        invariant
            from <= i <= entries@.len(),
            forall|j: int| from <= j < i ==> !entry_usable(#[trigger] entries@[j]),
        decreases entries@.len() - i,
    {
        match &entries[i] {
            ClipboardEntry::Text(text) => {
                proof {
                    lemma_first_usable_skip(entries@, from as int, i as int);
                }
                let content = slice_to_vec(text.as_str().as_bytes());
                return ClipboardScan::Ready(
                    ClipboardInfo {
                        kind: EClipboardKind::Text,
                        source_id: source_id.to_owned(),
                        seq,
                        content,
                    },
                );
            },
            ClipboardEntry::Image(Some(png)) => {
                proof {
                    lemma_first_usable_skip(entries@, from as int, i as int);
                }
                let content = slice_to_vec(png.as_slice());
                return ClipboardScan::Ready(
                    ClipboardInfo {
                        kind: EClipboardKind::Image,
                        source_id: source_id.to_owned(),
                        seq,
                        content,
                    },
                );
            },
            ClipboardEntry::Files(paths) => {
                if paths.len() > 0 {
                    proof {
                        lemma_first_usable_skip(entries@, from as int, i as int);
                    }
                    let copy = paths.clone();
                    assert(copy@ =~= paths@);
                    return ClipboardScan::PackFiles { index: i, paths: copy };
                }
            },
            _ => {},
        }
        i = i + 1;
    }
    proof {
        lemma_first_usable_skip(entries@, from as int, i as int);
    }
    ClipboardScan::Nothing
}

/// The name of the archive of a file payload made at `millis` milliseconds
/// since the Unix epoch: the time in lowercase hex, then `.tar`.
pub fn pack_file_name(millis: u128) -> (res: String)
    ensures
        res@ == hex_number_chars(millis as nat) + ".tar"@,
{
    let mut res = hex_number_string(millis);
    res.append(".tar");
    res
}

/// The payload of files packed into the archive at `pack_path`: its content
/// is the path in UTF-8.
pub fn files_clipboard_info(source_id: &str, seq: u64, pack_path: &str) -> (res: ClipboardInfo)
    ensures
        res@ == (ClipboardInfoView {
            kind: EClipboardKind::File,
            source_id: source_id@,
            seq,
            content: vstd::utf8::encode_utf8(pack_path@),
        }),
{
    ClipboardInfo {
        kind: EClipboardKind::File,
        source_id: source_id.to_owned(),
        seq,
        content: slice_to_vec(pack_path.as_bytes()),
    }
}

/// What a clipboard change notification calls for.
#[derive(Debug, Clone, Copy, PartialEq, Eq, Structural)]
pub enum ChangeAction {
    /// The change was this service writing a payload from a peer: ignore it.
    Ignore,
    /// A local change: read the clipboard and send it.
    Read,
}

/// The local clipboard state: whether the next change is one this service
/// made, and the sequence number of the last local payload.
#[derive(Debug, Clone, Copy, PartialEq, Eq, Structural)]
pub struct ClipboardSync {
    pub lock: bool,
    pub seq: u64,
}

/// The state after this service marks that it is writing a peer's payload.
pub open spec fn mark_spec(s: ClipboardSync) -> ClipboardSync {
    ClipboardSync { lock: true, seq: s.seq }
}

/// What a change notification calls for, and the state after it.
pub open spec fn change_spec(s: ClipboardSync) -> (ChangeAction, ClipboardSync) {
    if s.lock {
        (ChangeAction::Ignore, ClipboardSync { lock: false, seq: s.seq })
    } else {
        (ChangeAction::Read, s)
    }
}

/// The number of the next local payload, and the state after it.
pub open spec fn next_seq_spec(s: ClipboardSync) -> (u64, ClipboardSync) {
    let n = if s.seq == u64::MAX { 0 } else { (s.seq + 1) as u64 };
    (n, ClipboardSync { lock: s.lock, seq: n })
}

impl ClipboardSync {
    /// No pending write, sequence number zero.
    pub fn new() -> (res: Self)
        ensures
            res == (ClipboardSync { lock: false, seq: 0 }),
    {
        ClipboardSync { lock: false, seq: 0 }
    }

    /// Records that this service is about to write a payload from a peer to
    /// the clipboard, so that the change it causes is not sent back.
    pub fn mark_remote_write(&mut self)
        ensures
            *final(self) == mark_spec(*old(self)),
    {
        self.lock = true;
    }

    /// Handles a change notification: a change this service made clears the
    /// mark and is ignored; any other is read.
    pub fn on_clipboard_change(&mut self) -> (res: ChangeAction)
        ensures
            (res, *final(self)) == change_spec(*old(self)),
    {
        if self.lock {
            self.lock = false;
            return ChangeAction::Ignore;
        }
        ChangeAction::Read
    }

    /// Numbers a local payload: the sequence number goes up by one (wrapping
    /// around past `u64::MAX`) and is returned.
    pub fn next_seq(&mut self) -> (res: u64)
        ensures
            (res, *final(self)) == next_seq_spec(*old(self)),
    {
        self.seq = self.seq.wrapping_add(1);
        self.seq
    }
}

/// A payload from a peer written to the clipboard is not sent back: the
/// change it causes is ignored, and the change after it is read again.
pub proof fn lemma_remote_write_not_echoed(s: ClipboardSync)
    ensures
        change_spec(mark_spec(s)).0 == ChangeAction::Ignore,
        change_spec(change_spec(mark_spec(s)).1).0 == ChangeAction::Read,
        change_spec(mark_spec(s)).1.seq == s.seq,
{
}

/// Local payloads are numbered one above the last, so consecutive local
/// payloads never share a number.
pub proof fn lemma_local_payloads_numbered_apart(s: ClipboardSync)
    ensures
        next_seq_spec(next_seq_spec(s).1).0 != next_seq_spec(s).0,
        s.seq < u64::MAX ==> next_seq_spec(s).0 == s.seq + 1,
{
}

proof fn lemma_first_usable_is_first(entries: Seq<ClipboardEntry>, from: int)
    ensures
        match first_usable(entries, from) {
            Some(i) => 0 <= from <= i < entries.len() && entry_usable(entries[i]) && forall|j: int|
                from <= j < i ==> !entry_usable(#[trigger] entries[j]),
            None => forall|j: int| 0 <= from <= j < entries.len() ==> !entry_usable(#[trigger] entries[j]),
        },
    decreases entries.len() - from,
{
    if 0 <= from < entries.len() && !entry_usable(entries[from]) {
        lemma_first_usable_is_first(entries, from + 1);
    }
}

/// What the scan of the clipboard readies is the first entry at or after
/// `from` that gives a payload, and every payload it readies, whatever its
/// kind, carries the device id and the sequence number it was given: text as
/// its UTF-8 bytes and an image as its PNG bytes. Where no entry gives a
/// payload the scan finds nothing, and files are handed back to be packed.
pub proof fn lemma_scan_payload_numbered(
    entries: Seq<ClipboardEntry>,
    from: int,
    source_id: Seq<char>,
    seq: u64,
    scan: ClipboardScan,
)
    requires
        scan_result(entries, from, source_id, seq, scan),
    ensures
        scan matches ClipboardScan::Ready(info) ==> {
            &&& info.seq == seq
            &&& info.source_id@ == source_id
            &&& exists|i: int|
                0 <= from <= i < entries.len() && entry_usable(#[trigger] entries[i])
                    && (forall|j: int| from <= j < i ==> !entry_usable(#[trigger] entries[j]))
                    && match entries[i] {
                    ClipboardEntry::Text(t) => info.kind == EClipboardKind::Text && info.content@
                        == vstd::utf8::encode_utf8(t@),
                    ClipboardEntry::Image(png) => info.kind == EClipboardKind::Image && (png matches Some(b)
                        && info.content@ == b@),
                    _ => false,
                }
        },
        scan matches ClipboardScan::PackFiles { index, paths } ==> {
            &&& from <= index < entries.len()
            &&& entries[index as int] matches ClipboardEntry::Files(ps) && ps@ == paths@ && ps@.len() > 0
            &&& forall|j: int| from <= j < index ==> !entry_usable(#[trigger] entries[j])
        },
        scan is Nothing <==> forall|j: int|
            0 <= from <= j < entries.len() ==> !entry_usable(#[trigger] entries[j]),
{
    lemma_first_usable_is_first(entries, from);
    if let Some(i) = first_usable(entries, from) {
        assert(entry_usable(entries[i]));
        if scan is Nothing {
            assert(false);
        }
    }
}

/// A local change leaves the state as it was, so without a write from a peer
/// every change is read; only the change that follows a peer's write is
/// ignored, and it clears the mark.
pub proof fn lemma_local_change_keeps_state(s: ClipboardSync)
    ensures
        !s.lock ==> change_spec(s) == (ChangeAction::Read, s),
        s.lock ==> change_spec(s) == (ChangeAction::Ignore, ClipboardSync { lock: false, seq: s.seq }),
{
}

/// The state after `n` change notifications with no write from a peer.
pub open spec fn after_changes(s: ClipboardSync, n: nat) -> ClipboardSync
    decreases n,
{
    if n == 0 {
        s
    } else {
        change_spec(after_changes(s, (n - 1) as nat)).1
    }
}

/// With no write from a peer pending, any number of local changes in a row
/// are all read, and the state stays as it was.
pub proof fn lemma_local_changes_all_read(s: ClipboardSync, n: nat)
    requires
        !s.lock,
    ensures
        after_changes(s, n) == s,
        change_spec(after_changes(s, n)).0 == ChangeAction::Read,
    decreases n,
{
    if n > 0 {
        lemma_local_changes_all_read(s, (n - 1) as nat);
    }
}

} // verus!
