//! Planning the archive of a file payload: the common base directory of the
//! copied paths, the path of each entry relative to it, and what goes into the
//! archive.

use crate::encoding::{lossy_text, utf8_lossy_string};
use vstd::prelude::*;

verus! {

/// A Windows path prefix as `std::path::Prefix` parses it; two prefixes are
/// the same component exactly when their parsed forms are equal.
#[derive(Debug)]
pub enum WinPrefix {
    /// `\\?\name`.
    Verbatim(Vec<u8>),
    /// `\\?\UNC\server\share`.
    VerbatimUNC(Vec<u8>, Vec<u8>),
    /// `\\?\C:`, by its drive letter in upper case.
    VerbatimDisk(u8),
    /// `\\.\name`.
    DeviceNS(Vec<u8>),
    /// `\\server\share`.
    UNC(Vec<u8>, Vec<u8>),
    /// `C:`, by its drive letter in upper case.
    Disk(u8),
}

/// A parsed prefix, as a plain value.
pub enum PrefixView {
    Verbatim(Seq<u8>),
    VerbatimUNC(Seq<u8>, Seq<u8>),
    VerbatimDisk(u8),
    DeviceNS(Seq<u8>),
    UNC(Seq<u8>, Seq<u8>),
    Disk(u8),
}

impl View for WinPrefix {
    type V = PrefixView;

    open spec fn view(&self) -> PrefixView {
        match self {
            WinPrefix::Verbatim(a) => PrefixView::Verbatim(a@),
            WinPrefix::VerbatimUNC(a, b) => PrefixView::VerbatimUNC(a@, b@),
            WinPrefix::VerbatimDisk(d) => PrefixView::VerbatimDisk(*d),
            WinPrefix::DeviceNS(a) => PrefixView::DeviceNS(a@),
            WinPrefix::UNC(a, b) => PrefixView::UNC(a@, b@),
            WinPrefix::Disk(d) => PrefixView::Disk(*d),
        }
    }
}

/// One component of a path, as `std::path::Component` yields it.
#[derive(Debug)]
pub enum PathComponent {
    /// A Windows prefix: its bytes as written, and its parsed form, by which it
    /// compares.
    Prefix { raw: Vec<u8>, parsed: WinPrefix },
    /// The root directory.
    RootDir,
    /// `.` at the start of a relative path.
    CurDir,
    /// `..`.
    ParentDir,
    /// A name, by its bytes.
    Normal(Vec<u8>),
}

/// A path component, as a plain value.
pub enum ComponentView {
    Prefix(PrefixView),
    RootDir,
    CurDir,
    ParentDir,
    Normal(Seq<u8>),
}

impl View for PathComponent {
    type V = ComponentView;

    open spec fn view(&self) -> ComponentView {
        match self {
            PathComponent::Prefix { parsed, .. } => ComponentView::Prefix(parsed@),
            PathComponent::RootDir => ComponentView::RootDir,
            PathComponent::CurDir => ComponentView::CurDir,
            PathComponent::ParentDir => ComponentView::ParentDir,
            PathComponent::Normal(s) => ComponentView::Normal(s@),
        }
    }
}

/// The bytes a prefix component is written with; nothing for other
/// components.
pub open spec fn prefix_raw(c: PathComponent) -> Option<Seq<u8>> {
    match c {
        PathComponent::Prefix { raw, .. } => Some(raw@),
        _ => None,
    }
}

/// The components of a path, as plain values.
pub open spec fn components_view(p: Seq<PathComponent>) -> Seq<ComponentView> {
    Seq::new(p.len(), |i: int| p[i]@)
}

/// Whether two byte strings are equal.
fn bytes_equal(a: &Vec<u8>, b: &Vec<u8>) -> (res: bool)
    ensures
        res == (a@ == b@),
{
    if a.len() != b.len() {
        return false;
    }
    let mut i: usize = 0;
    while i < a.len()
        invariant
            a@.len() == b@.len(),
            i <= a@.len(),
            forall|k: int| 0 <= k < i ==> a@[k] == b@[k],
        decreases a@.len() - i,
    {
        if a[i] != b[i] {
            return false;
        }
        i = i + 1;
    }
    assert(a@ =~= b@);
    true
}

/// A copy of a byte string.
fn copy_bytes(a: &Vec<u8>) -> (res: Vec<u8>)
    ensures
        res@ == a@,
{
    let res = a.clone();
    assert(res@ =~= a@);
    res
}

impl WinPrefix {
    /// Whether two parsed prefixes are equal.
    pub fn same(&self, other: &WinPrefix) -> (res: bool)
        ensures
            res == (self@ == other@),
    {
        match (self, other) {
            (WinPrefix::Verbatim(a), WinPrefix::Verbatim(b)) => bytes_equal(a, b),
            (WinPrefix::VerbatimUNC(a, b), WinPrefix::VerbatimUNC(c, d)) => bytes_equal(a, c) && bytes_equal(b, d),
            (WinPrefix::VerbatimDisk(a), WinPrefix::VerbatimDisk(b)) => *a == *b,
            (WinPrefix::DeviceNS(a), WinPrefix::DeviceNS(b)) => bytes_equal(a, b),
            (WinPrefix::UNC(a, b), WinPrefix::UNC(c, d)) => bytes_equal(a, c) && bytes_equal(b, d),
            (WinPrefix::Disk(a), WinPrefix::Disk(b)) => *a == *b,
            _ => false,
        }
    }

    /// A copy of the prefix.
    pub fn duplicate(&self) -> (res: WinPrefix)
        ensures
            res@ == self@,
    {
        match self {
            WinPrefix::Verbatim(a) => WinPrefix::Verbatim(copy_bytes(a)),
            WinPrefix::VerbatimUNC(a, b) => WinPrefix::VerbatimUNC(copy_bytes(a), copy_bytes(b)),
            WinPrefix::VerbatimDisk(d) => WinPrefix::VerbatimDisk(*d),
            WinPrefix::DeviceNS(a) => WinPrefix::DeviceNS(copy_bytes(a)),
            WinPrefix::UNC(a, b) => WinPrefix::UNC(copy_bytes(a), copy_bytes(b)),
            WinPrefix::Disk(d) => WinPrefix::Disk(*d),
        }
    }
}

impl PathComponent {
    /// Whether two components are equal.
    pub fn same(&self, other: &PathComponent) -> (res: bool)
        ensures
            res == (self@ == other@),
    {
        match (self, other) {
            (PathComponent::Prefix { parsed: a, .. }, PathComponent::Prefix { parsed: b, .. }) => a.same(b),
            (PathComponent::RootDir, PathComponent::RootDir) => true,
            (PathComponent::CurDir, PathComponent::CurDir) => true,
            (PathComponent::ParentDir, PathComponent::ParentDir) => true,
            (PathComponent::Normal(a), PathComponent::Normal(b)) => bytes_equal(a, b),
            _ => false,
        }
    }

    /// A copy of the component, written with the same bytes.
    pub fn duplicate(&self) -> (res: PathComponent)
        ensures
            res@ == self@,
            prefix_raw(res) == prefix_raw(*self),
    {
        match self {
            PathComponent::Prefix { raw, parsed } => PathComponent::Prefix { raw: copy_bytes(raw), parsed: parsed.duplicate() },
            PathComponent::RootDir => PathComponent::RootDir,
            PathComponent::CurDir => PathComponent::CurDir,
            PathComponent::ParentDir => PathComponent::ParentDir,
            PathComponent::Normal(a) => PathComponent::Normal(copy_bytes(a)),
        }
    }
}

/// Whether each component of `res` is written with the same bytes as the
/// component `off` places further on in `p`.
pub open spec fn raws_match(res: Seq<PathComponent>, p: Seq<PathComponent>, off: int) -> bool {
    forall|k: int| 0 <= k < res.len() ==> prefix_raw(#[trigger] res[k]) == prefix_raw(p[k + off])
}

/// The first `n` components of `p`, copied.
fn copy_prefix(p: &Vec<PathComponent>, n: usize) -> (res: Vec<PathComponent>)
    requires
        n <= p@.len(),
    ensures
        components_view(res@) == components_view(p@.take(n as int)),
        raws_match(res@, p@, 0),
{
    let mut res: Vec<PathComponent> = Vec::new();
    let mut i: usize = 0;
    while i < n
        invariant
            i <= n <= p@.len(),
            res@.len() == i,
            components_view(res@) == components_view(p@.take(i as int)),
            raws_match(res@, p@, 0),
        decreases n - i,
    {
        let ghost before = res@;
        let c = p[i].duplicate();
        res.push(c);
        assert(res@ == before.push(c));
        i = i + 1;
        assert forall|j: int| 0 <= j < i implies #[trigger] components_view(res@)[j] == components_view(p@.take(i as int))[j] by {
            if j < i - 1 {
                assert(components_view(before)[j] == components_view(p@.take(i - 1))[j]);
                assert(res@[j] == before[j]);
            } else {
                assert(res@[j] == c);
            }
        }
        assert(components_view(res@) =~= components_view(p@.take(i as int)));
        assert forall|k: int| 0 <= k < res@.len() implies prefix_raw(#[trigger] res@[k]) == prefix_raw(p@[k + 0]) by {
            if k < i - 1 {
                assert(res@[k] == before[k]);
            }
        }
    }
    res
}

/// The parent of a path, as `Path::parent` gives it: the path without its
/// last component, where that is a name, `.` or `..`; `None` for an empty
/// path and for one that ends in a root or a prefix.
pub open spec fn parent_spec(p: Seq<ComponentView>) -> Option<Seq<ComponentView>> {
    if p.len() == 0 {
        None
    } else {
        match p.last() {
            ComponentView::Normal(_) | ComponentView::CurDir | ComponentView::ParentDir => Some(p.drop_last()),
            _ => None,
        }
    }
}

/// Whether every path of `paths` has component `k` equal to that of the
/// first path.
pub open spec fn all_agree_at(paths: Seq<Seq<ComponentView>>, k: int) -> bool {
    forall|j: int|
        0 <= j < paths.len() ==> k < (#[trigger] paths[j]).len() && paths[j][k] == paths[0][k]
}

/// The length of the longest common prefix of `paths`, counting from `k` on.
pub open spec fn common_prefix_len_from(paths: Seq<Seq<ComponentView>>, k: int) -> int
    decreases paths[0].len() - k,
{
    if paths.len() > 0 && 0 <= k < paths[0].len() && all_agree_at(paths, k) {
        common_prefix_len_from(paths, k + 1)
    } else {
        k
    }
}

/// The base directory of several paths: their longest common prefix of
/// components; for one path its parent; `None` for no path or an empty common
/// prefix.
pub open spec fn common_base_spec(paths: Seq<Seq<ComponentView>>) -> Option<Seq<ComponentView>> {
    if paths.len() == 0 {
        None
    } else if paths.len() == 1 {
        parent_spec(paths[0])
    } else {
        let n = common_prefix_len_from(paths, 0);
        if n == 0 {
            None
        } else {
            Some(paths[0].take(n))
        }
    }
}

/// The views of a list of paths.
pub open spec fn paths_view(paths: Seq<Vec<PathComponent>>) -> Seq<Seq<ComponentView>> {
    Seq::new(paths.len(), |i: int| components_view(paths[i]@))
}

/// The view of an optional path.
pub open spec fn opt_path(o: Option<Vec<PathComponent>>) -> Option<Seq<ComponentView>> {
    match o {
        Some(p) => Some(components_view(p@)),
        None => None,
    }
}

/// Whether component `k` of every path equals that of the first path.
fn agree_at(paths: &Vec<Vec<PathComponent>>, k: usize) -> (res: bool)
    requires
        paths@.len() > 0,
        k < paths@[0]@.len(),
    ensures
        res == all_agree_at(paths_view(paths@), k as int),
{
    let ghost pv = paths_view(paths@);
    let c = &paths[0][k];
    let mut j: usize = 0;
    while j < paths.len()
        invariant
            j <= paths@.len(),
            paths@.len() > 0,
            k < paths@[0]@.len(),
            pv == paths_view(paths@),
            *c == paths@[0]@[k as int],
            forall|i: int| 0 <= i < j ==> k < (#[trigger] pv[i]).len() && pv[i][k as int] == pv[0][k as int],
        decreases paths@.len() - j,
    {
        assert(pv[j as int] == components_view(paths@[j as int]@));
        if k >= paths[j].len() {
            return false;
        }
        if !paths[j][k].same(c) {
            assert(pv[j as int][k as int] == paths@[j as int]@[k as int]@);
            return false;
        }
        j = j + 1;
    }
    true
}

/// The directory under which the archive of `paths` stores them; see
/// `common_base_spec`.
pub fn find_common_base_path(paths: &Vec<Vec<PathComponent>>) -> (res: Option<Vec<PathComponent>>)
    ensures
        opt_path(res) == common_base_spec(paths_view(paths@)),
        res matches Some(b) ==> b@.len() <= paths@[0]@.len() && raws_match(b@, paths@[0]@, 0),
{
    let ghost pv = paths_view(paths@);
    if paths.len() == 0 {
        return None;
    }
    assert(pv[0] == components_view(paths@[0]@));
    if paths.len() == 1 {
        let p = &paths[0];
        let n = p.len();
        if n == 0 {
            return None;
        }
        match &p[n - 1] {
            PathComponent::Normal(_) | PathComponent::CurDir | PathComponent::ParentDir => {
                let res = copy_prefix(p, n - 1);
                assert(components_view(p@.take(n - 1)) =~= pv[0].drop_last());
                return Some(res);
            },
            _ => {
                return None;
            },
        }
    }
    let first_len = paths[0].len();
    let mut k: usize = 0;
    while k < first_len && agree_at(paths, k)
        invariant
            k <= first_len == paths@[0]@.len() == pv[0].len(),
            paths@.len() > 1,
            pv == paths_view(paths@),
            common_prefix_len_from(pv, 0) == common_prefix_len_from(pv, k as int),
        decreases first_len - k,
    {
        k = k + 1;
    }
    if k == 0 {
        return None;
    }
    let res = copy_prefix(&paths[0], k);
    assert(components_view(paths@[0]@.take(k as int)) =~= pv[0].take(k as int));
    Some(res)
}

/// Whether the first `n` components of all paths agree, and the first path has
/// at least `n` components.
pub open spec fn common_prefix_of_len(paths: Seq<Seq<ComponentView>>, n: int) -> bool {
    &&& 0 <= n <= paths[0].len()
    &&& forall|k: int| 0 <= k < n ==> #[trigger] all_agree_at(paths, k)
}

proof fn lemma_common_prefix_len_from(paths: Seq<Seq<ComponentView>>, k: int)
    requires
        paths.len() > 0,
        common_prefix_of_len(paths, k),
    ensures
        k <= common_prefix_len_from(paths, k),
        common_prefix_of_len(paths, common_prefix_len_from(paths, k)),
        !(common_prefix_len_from(paths, k) < paths[0].len() && all_agree_at(
            paths,
            common_prefix_len_from(paths, k),
        )),
    decreases paths[0].len() - k,
{
    if k < paths[0].len() && all_agree_at(paths, k) {
        assert(common_prefix_of_len(paths, k + 1));
        lemma_common_prefix_len_from(paths, k + 1);
    }
}

/// The base directory of two or more paths is their longest common prefix:
/// every path starts with it, and they do not share one component more.
pub proof fn lemma_common_base_is_longest_common_prefix(paths: Seq<Seq<ComponentView>>)
    requires
        paths.len() >= 2,
    ensures
        match common_base_spec(paths) {
            Some(b) => {
                &&& b.len() > 0
                &&& forall|j: int| 0 <= j < paths.len() ==> b.len() <= (#[trigger] paths[j]).len() && paths[j].take(b.len() as int) == b
                &&& !(b.len() < paths[0].len() && all_agree_at(paths, b.len() as int))
            },
            None => paths[0].len() == 0 || !all_agree_at(paths, 0),
        },
{
    lemma_common_prefix_len_from(paths, 0);
    let n = common_prefix_len_from(paths, 0);
    if n > 0 {
        let b = paths[0].take(n);
        assert forall|j: int| 0 <= j < paths.len() implies b.len() <= (#[trigger] paths[j]).len() && paths[j].take(
            b.len() as int,
        ) == b by {
            assert(all_agree_at(paths, n - 1));
            assert(n - 1 < paths[j].len());
            assert forall|k: int| 0 <= k < n implies paths[j].take(n)[k] == b[k] by {
                assert(all_agree_at(paths, k));
            }
            assert(paths[j].take(n) =~= b);
        }
    }
}

/// What a copied path is on disk.
#[derive(Debug, Clone, Copy, PartialEq, Eq, Structural)]
pub enum PathKind {
    /// It does not exist.
    Missing,
    /// A regular file.
    File,
    /// A directory.
    Dir,
    /// Something else.
    Other,
}

/// A copied path and what it is on disk.
#[derive(Debug)]
pub struct PackSource {
    pub components: Vec<PathComponent>,
    pub kind: PathKind,
}

/// One entry to add to an archive: the source it comes from, under the name
/// `name`; a directory is added with all it holds.
#[derive(Debug)]
pub struct ArchiveEntry {
    pub source: usize,
    pub is_dir: bool,
    pub name: Vec<PathComponent>,
}

/// An archive entry, as plain values.
pub struct ArchiveEntryView {
    pub source: int,
    pub is_dir: bool,
    pub name: Seq<ComponentView>,
}

impl View for ArchiveEntry {
    type V = ArchiveEntryView;

    open spec fn view(&self) -> ArchiveEntryView {
        ArchiveEntryView { source: self.source as int, is_dir: self.is_dir, name: components_view(self.name@) }
    }
}

/// Why no archive can be made.
#[derive(Debug, Clone, Copy, PartialEq, Eq, Structural)]
pub enum PackError {
    /// There is no path to pack.
    NoPaths,
}

/// Whether `base` is a prefix of `p`.
pub open spec fn has_prefix(p: Seq<ComponentView>, base: Seq<ComponentView>) -> bool {
    base.len() <= p.len() && p.take(base.len() as int) == base
}

/// The name of `p` in an archive based at `base`, as
/// `p.strip_prefix(base).unwrap_or(p)` gives it.
pub open spec fn relative_name(p: Seq<ComponentView>, base: Seq<ComponentView>) -> Seq<ComponentView> {
    if has_prefix(p, base) {
        p.skip(base.len() as int)
    } else {
        p
    }
}

/// The entries of an archive based at `base` for the sources `s`: files and
/// directories in order, missing paths and other things skipped.
pub open spec fn plan_spec(s: Seq<(Seq<ComponentView>, PathKind)>, base: Seq<ComponentView>) -> Seq<ArchiveEntryView>
    decreases s.len(),
{
    if s.len() == 0 {
        seq![]
    } else {
        let rest = plan_spec(s.drop_last(), base);
        let (p, kind) = s.last();
        let i = s.len() - 1;
        match kind {
            PathKind::File => rest.push(ArchiveEntryView { source: i, is_dir: false, name: relative_name(p, base) }),
            PathKind::Dir => rest.push(ArchiveEntryView { source: i, is_dir: true, name: relative_name(p, base) }),
            _ => rest,
        }
    }
}

/// The sources as plain values.
pub open spec fn sources_view(s: Seq<PackSource>) -> Seq<(Seq<ComponentView>, PathKind)> {
    Seq::new(s.len(), |i: int| (components_view(s[i].components@), s[i].kind))
}

/// A copy of a path.
fn copy_path(p: &Vec<PathComponent>) -> (res: Vec<PathComponent>)
    ensures
        components_view(res@) == components_view(p@),
        raws_match(res@, p@, 0),
{
    let res = copy_prefix(p, p.len());
    assert(p@.take(p@.len() as int) =~= p@);
    res
}

/// Whether `base` is a prefix of `p`.
fn starts_with(p: &Vec<PathComponent>, base: &Vec<PathComponent>) -> (res: bool)
    ensures
        res == has_prefix(components_view(p@), components_view(base@)),
{
    let ghost pv = components_view(p@);
    let ghost bv = components_view(base@);
    if base.len() > p.len() {
        return false;
    }
    let mut i: usize = 0;
    while i < base.len()
        invariant
            base@.len() <= p@.len(),
            i <= base@.len(),
            pv == components_view(p@),
            bv == components_view(base@),
            forall|k: int| 0 <= k < i ==> pv[k] == bv[k],
        decreases base@.len() - i,
    {
        if !p[i].same(&base[i]) {
            assert(pv.take(bv.len() as int)[i as int] != bv[i as int]);
            return false;
        }
        i = i + 1;
    }
    assert(pv.take(bv.len() as int) =~= bv);
    true
}

/// The name of `p` in an archive based at `base`; see `relative_name`.
pub fn strip_base(p: &Vec<PathComponent>, base: &Vec<PathComponent>) -> (res: Vec<PathComponent>)
    ensures
        components_view(res@) == relative_name(components_view(p@), components_view(base@)),
        raws_match(
            res@,
            p@,
            if has_prefix(components_view(p@), components_view(base@)) { base@.len() as int } else { 0 },
        ),
{
    if !starts_with(p, base) {
        return copy_path(p);
    }
    let mut res: Vec<PathComponent> = Vec::new();
    let mut i: usize = base.len();
    let ghost pv = components_view(p@);
    let ghost start = base@.len() as int;
    assert(components_view(base@).len() == base@.len());
    while i < p.len()
        invariant
            start <= i <= p@.len(),
            pv == components_view(p@),
            res@.len() == i - start,
            forall|k: int| 0 <= k < res@.len() ==> #[trigger] res@[k]@ == pv[k + start],
            raws_match(res@, p@, start),
        decreases p@.len() - i,
    {
        let c = p[i].duplicate();
        res.push(c);
        i = i + 1;
    }
    assert(components_view(res@) =~= pv.skip(start));
    res
}

/// Whether each entry's name is written with the bytes of its source path,
/// from where the base ends (or from its start, where the base is not a
/// prefix of it).
pub open spec fn entries_written_as_sources(
    entries: Seq<ArchiveEntry>,
    sources: Seq<PackSource>,
    base: Seq<ComponentView>,
) -> bool {
    forall|i: int|
        0 <= i < entries.len() ==> {
            let e = #[trigger] entries[i];
            &&& e.source < sources.len()
            &&& raws_match(
                e.name@,
                sources[e.source as int].components@,
                if has_prefix(components_view(sources[e.source as int].components@), base) {
                    base.len() as int
                } else {
                    0
                },
            )
        }
}

/// Plans the archive of a file payload: `NoPaths` where there is no source;
/// `None` where the sources have no common base, and nothing is packed; else
/// one entry for each file and directory, named relative to the base.
pub fn plan_archive(sources: &Vec<PackSource>) -> (res: Result<Option<Vec<ArchiveEntry>>, PackError>)
    ensures
        match res {
            Err(e) => e == PackError::NoPaths && sources@.len() == 0,
            Ok(None) => sources@.len() > 0 && common_base_spec(view_paths(sources_view(sources@))) is None,
            Ok(Some(entries)) => sources@.len() > 0 && (common_base_spec(view_paths(sources_view(sources@))) matches Some(base)
                && entries@.map_values(|e: ArchiveEntry| e@) == plan_spec(sources_view(sources@), base)
                && entries_written_as_sources(entries@, sources@, base)),
        },
{
    if sources.len() == 0 {
        return Err(PackError::NoPaths);
    }
    let mut paths: Vec<Vec<PathComponent>> = Vec::new();
    let mut i: usize = 0;
    while i < sources.len()
        invariant
            i <= sources@.len(),
            paths@.len() == i,
            forall|k: int| 0 <= k < i ==> #[trigger] components_view(paths@[k]@) == components_view(sources@[k].components@),
        decreases sources@.len() - i,
    {
        paths.push(copy_path(&sources[i].components));
        i = i + 1;
    }
    assert(paths_view(paths@) =~= view_paths(sources_view(sources@)));
    let base = match find_common_base_path(&paths) {
        Some(b) => b,
        None => {
            return Ok(None);
        },
    };
    let ghost bv = components_view(base@);
    let ghost sv = sources_view(sources@);
    let mut entries: Vec<ArchiveEntry> = Vec::new();
    let mut i: usize = 0;
    while i < sources.len()
        invariant
            i <= sources@.len(),
            bv == components_view(base@),
            sv == sources_view(sources@),
            entries@.map_values(|e: ArchiveEntry| e@) == plan_spec(sv.take(i as int), bv),
            entries_written_as_sources(entries@, sources@, bv),
            bv.len() == base@.len(),
        decreases sources@.len() - i,
    {
        let ghost before = entries@;
        assert(sv.take(i + 1).drop_last() =~= sv.take(i as int));
        assert(sv.take(i + 1).last() == sv[i as int]);
        match sources[i].kind {
            PathKind::File => {
                let name = strip_base(&sources[i].components, &base);
                entries.push(ArchiveEntry { source: i, is_dir: false, name });
            },
            PathKind::Dir => {
                let name = strip_base(&sources[i].components, &base);
                entries.push(ArchiveEntry { source: i, is_dir: true, name });
            },
            _ => {},
        }
        assert forall|k: int| 0 <= k < entries@.len() implies {
            let e = #[trigger] entries@[k];
            &&& e.source < sources@.len()
            &&& raws_match(
                e.name@,
                sources@[e.source as int].components@,
                if has_prefix(components_view(sources@[e.source as int].components@), bv) {
                    bv.len() as int
                } else {
                    0
                },
            )
        } by {
            if k < before.len() {
                assert(entries@[k] == before[k]);
            }
        }
        i = i + 1;
        assert(entries@.map_values(|e: ArchiveEntry| e@) =~= plan_spec(sv.take(i as int), bv));
    }
    assert(sv.take(sources@.len() as int) =~= sv);
    Ok(Some(entries))
}

/// The paths of the sources, as plain values.
pub open spec fn view_paths(s: Seq<(Seq<ComponentView>, PathKind)>) -> Seq<Seq<ComponentView>> {
    Seq::new(s.len(), |i: int| s[i].0)
}

proof fn lemma_base_is_prefix(ps: Seq<Seq<ComponentView>>)
    ensures
        common_base_spec(ps) matches Some(b) ==> forall|j: int| 0 <= j < ps.len() ==> has_prefix(#[trigger] ps[j], b),
{
    if ps.len() == 1 {
        if let Some(b) = common_base_spec(ps) {
            assert(ps[0].take(b.len() as int) =~= b);
        }
    } else if ps.len() >= 2 {
        lemma_common_base_is_longest_common_prefix(ps);
    }
}

proof fn lemma_plan_entries(s: Seq<(Seq<ComponentView>, PathKind)>, base: Seq<ComponentView>)
    requires
        forall|j: int| 0 <= j < s.len() ==> has_prefix(#[trigger] s[j].0, base),
    ensures
        forall|k: int| 0 <= k < plan_spec(s, base).len() ==> {
            let e = #[trigger] plan_spec(s, base)[k];
            &&& 0 <= e.source < s.len()
            &&& base + e.name == s[e.source].0
            &&& s[e.source].1 == (if e.is_dir { PathKind::Dir } else { PathKind::File })
        },
    decreases s.len(),
{
    if s.len() > 0 {
        let d = s.drop_last();
        assert forall|j: int| 0 <= j < d.len() implies has_prefix(#[trigger] d[j].0, base) by {
            assert(d[j] == s[j]);
        }
        lemma_plan_entries(d, base);
        let p = s.last().0;
        assert(has_prefix(s[s.len() - 1].0, base));
        assert(base + p.skip(base.len() as int) =~= p);
        assert forall|k: int| 0 <= k < plan_spec(s, base).len() implies {
            let e = #[trigger] plan_spec(s, base)[k];
            &&& 0 <= e.source < s.len()
            &&& base + e.name == s[e.source].0
            &&& s[e.source].1 == (if e.is_dir { PathKind::Dir } else { PathKind::File })
        } by {
            if k < plan_spec(d, base).len() {
                let e = plan_spec(d, base)[k];
                assert(plan_spec(s, base)[k] == e);
                assert(d[e.source] == s[e.source]);
            }
        }
    }
}

/// The archive reproduces the copied paths: each entry comes from a file or
/// directory source of its kind, and the base followed by the entry's name is
/// the path of that source.
pub proof fn lemma_archive_rebuilds_sources(s: Seq<(Seq<ComponentView>, PathKind)>)
    ensures
        common_base_spec(view_paths(s)) matches Some(base) ==> forall|k: int|
            0 <= k < plan_spec(s, base).len() ==> {
                let e = #[trigger] plan_spec(s, base)[k];
                &&& 0 <= e.source < s.len()
                &&& base + e.name == s[e.source].0
                &&& s[e.source].1 == (if e.is_dir { PathKind::Dir } else { PathKind::File })
            },
{
    let ps = view_paths(s);
    lemma_base_is_prefix(ps);
    if let Some(base) = common_base_spec(ps) {
        assert forall|j: int| 0 <= j < s.len() implies has_prefix(#[trigger] s[j].0, base) by {
            assert(ps[j] == s[j].0);
        }
        lemma_plan_entries(s, base);
    }
}

/// Whether every path has at least `n` components and all paths agree on
/// their first `n`.
pub open spec fn share_prefix(paths: Seq<Seq<ComponentView>>, n: int) -> bool {
    &&& 0 <= n
    &&& forall|i: int| 0 <= i < paths.len() ==> n <= (#[trigger] paths[i]).len()
    &&& forall|i: int, j: int, k: int|
        0 <= i < paths.len() && 0 <= j < paths.len() && 0 <= k < n ==> #[trigger] paths[i][k]
            == #[trigger] paths[j][k]
}

proof fn lemma_share_prefix_of_common_len(paths: Seq<Seq<ComponentView>>)
    requires
        paths.len() > 0,
    ensures
        share_prefix(paths, common_prefix_len_from(paths, 0)),
        !share_prefix(paths, common_prefix_len_from(paths, 0) + 1),
{
    assert(common_prefix_of_len(paths, 0));
    lemma_common_prefix_len_from(paths, 0);
    let n = common_prefix_len_from(paths, 0);
    assert forall|i: int| 0 <= i < paths.len() implies n <= (#[trigger] paths[i]).len() by {
        if n > 0 {
            assert(all_agree_at(paths, n - 1));
            assert(n - 1 < paths[i].len());
        }
    }
    assert forall|i: int, j: int, k: int|
        0 <= i < paths.len() && 0 <= j < paths.len() && 0 <= k < n implies #[trigger] paths[i][k]
        == #[trigger] paths[j][k] by {
        assert(all_agree_at(paths, k));
        assert(paths[i][k] == paths[0][k]);
        assert(paths[j][k] == paths[0][k]);
    }
    if share_prefix(paths, n + 1) {
        assert(n < paths[0].len());
        assert forall|j: int| 0 <= j < paths.len() implies n < (#[trigger] paths[j]).len() && paths[j][n]
            == paths[0][n] by {
            assert(n + 1 <= paths[j].len());
            assert(paths[j][n] == paths[0][n]);
        }
        assert(all_agree_at(paths, n));
    }
}

proof fn lemma_share_prefix_down(paths: Seq<Seq<ComponentView>>, a: int, b: int)
    requires
        share_prefix(paths, b),
        0 <= a <= b,
    ensures
        share_prefix(paths, a),
{
    assert forall|i: int| 0 <= i < paths.len() implies a <= (#[trigger] paths[i]).len() by {
        assert(b <= paths[i].len());
    }
}

/// The common prefix length is the one length `n` that all paths share while
/// they do not share `n + 1`.
proof fn lemma_common_len_unique(paths: Seq<Seq<ComponentView>>, n: int)
    requires
        paths.len() > 0,
        share_prefix(paths, n),
        !share_prefix(paths, n + 1),
    ensures
        common_prefix_len_from(paths, 0) == n,
{
    lemma_share_prefix_of_common_len(paths);
    let c = common_prefix_len_from(paths, 0);
    if c < n {
        lemma_share_prefix_down(paths, c + 1, n);
    } else if n < c {
        lemma_share_prefix_down(paths, n + 1, c);
    }
}

proof fn lemma_share_prefix_same_paths(ps: Seq<Seq<ComponentView>>, q: Seq<Seq<ComponentView>>, n: int)
    requires
        forall|i: int| 0 <= i < q.len() ==> ps.contains(#[trigger] q[i]),
        share_prefix(ps, n),
    ensures
        share_prefix(q, n),
{
    assert forall|i: int| 0 <= i < q.len() implies n <= (#[trigger] q[i]).len() by {
        assert(ps.contains(q[i]));
        let a = choose|a: int| 0 <= a < ps.len() && ps[a] == q[i];
        assert(n <= ps[a].len());
    }
    assert forall|i: int, j: int, k: int|
        0 <= i < q.len() && 0 <= j < q.len() && 0 <= k < n implies #[trigger] q[i][k] == #[trigger] q[j][k] by {
        assert(ps.contains(q[i]));
        assert(ps.contains(q[j]));
        let a = choose|a: int| 0 <= a < ps.len() && ps[a] == q[i];
        let b = choose|b: int| 0 <= b < ps.len() && ps[b] == q[j];
        assert(ps[a][k] == ps[b][k]);
    }
}

proof fn lemma_base_from_share(ps: Seq<Seq<ComponentView>>)
    requires
        ps.len() >= 2,
    ensures
        ({
            let n = common_prefix_len_from(ps, 0);
            &&& share_prefix(ps, n)
            &&& !share_prefix(ps, n + 1)
            &&& common_base_spec(ps) == (if n == 0 { None } else { Some(ps[0].take(n)) })
        }),
{
    lemma_share_prefix_of_common_len(ps);
}

/// The base directory of two or more paths does not depend on their order:
/// any arrangement of the same paths has the same base.
pub proof fn lemma_common_base_order_independent(paths: Seq<Seq<ComponentView>>, q: Seq<Seq<ComponentView>>)
    requires
        paths.len() >= 2,
        q.to_multiset() == paths.to_multiset(),
    ensures
        common_base_spec(q) == common_base_spec(paths),
{
    paths.to_multiset_ensures();
    q.to_multiset_ensures();
    assert forall|i: int| 0 <= i < q.len() implies paths.contains(#[trigger] q[i]) by {
        assert(q.contains(q[i]));
        assert(q.to_multiset().count(q[i]) > 0);
    }
    assert forall|i: int| 0 <= i < paths.len() implies q.contains(#[trigger] paths[i]) by {
        assert(paths.contains(paths[i]));
        assert(paths.to_multiset().count(paths[i]) > 0);
    }
    lemma_base_from_share(paths);
    lemma_base_from_share(q);
    let n = common_prefix_len_from(paths, 0);
    lemma_share_prefix_same_paths(paths, q, n);
    if share_prefix(q, n + 1) {
        lemma_share_prefix_same_paths(q, paths, n + 1);
    }
    lemma_common_len_unique(q, n);
    if n > 0 {
        assert(q[0].take(n) =~= paths[0].take(n)) by {
            assert(paths.contains(q[0]));
            let a = choose|a: int| 0 <= a < paths.len() && paths[a] == q[0];
            assert forall|k: int| 0 <= k < n implies q[0].take(n)[k] == paths[0].take(n)[k] by {
                assert(paths[a][k] == paths[0][k]);
            }
        }
    }
}

/// The components of an optional base, no components for none.
pub open spec fn base_components(o: Option<Seq<ComponentView>>) -> Seq<ComponentView> {
    match o {
        Some(b) => b,
        None => Seq::empty(),
    }
}

/// Adding a path to two or more paths never lengthens their base: the new base
/// is a prefix of the old one; and adding the base itself leaves it as it was.
pub proof fn lemma_common_base_shrinks(paths: Seq<Seq<ComponentView>>, q: Seq<ComponentView>)
    requires
        paths.len() >= 2,
    ensures
        has_prefix(
            base_components(common_base_spec(paths)),
            base_components(common_base_spec(paths.push(q))),
        ),
        common_base_spec(paths) matches Some(b) ==> common_base_spec(paths.push(b)) == Some(b),
{
    let ext = paths.push(q);
    lemma_base_from_share(paths);
    lemma_base_from_share(ext);
    let n = common_prefix_len_from(paths, 0);
    let m = common_prefix_len_from(ext, 0);
    assert(share_prefix(paths, m)) by {
        assert forall|i: int| 0 <= i < paths.len() implies m <= (#[trigger] paths[i]).len() by {
            assert(ext[i] == paths[i]);
        }
        assert forall|i: int, j: int, k: int|
            0 <= i < paths.len() && 0 <= j < paths.len() && 0 <= k < m implies #[trigger] paths[i][k]
            == #[trigger] paths[j][k] by {
            assert(ext[i] == paths[i]);
            assert(ext[j] == paths[j]);
        }
    }
    if m > n {
        lemma_share_prefix_down(paths, n + 1, m);
    }
    assert(ext[0] == paths[0]);
    let old_base = base_components(common_base_spec(paths));
    let new_base = base_components(common_base_spec(ext));
    if m > 0 {
        assert(old_base.take(m) =~= new_base);
    } else {
        assert(old_base.take(0) =~= new_base);
    }
    if n > 0 {
        let b = paths[0].take(n);
        let eb = paths.push(b);
        lemma_base_from_share(eb);
        assert(share_prefix(eb, n)) by {
            assert forall|i: int| 0 <= i < eb.len() implies n <= (#[trigger] eb[i]).len() by {
                if i < paths.len() {
                    assert(eb[i] == paths[i]);
                }
            }
            assert forall|i: int, j: int, k: int|
                0 <= i < eb.len() && 0 <= j < eb.len() && 0 <= k < n implies #[trigger] eb[i][k]
                == #[trigger] eb[j][k] by {
                if i < paths.len() {
                    assert(eb[i] == paths[i]);
                    assert(paths[i][k] == paths[0][k]);
                } else {
                    assert(eb[i][k] == paths[0][k]);
                }
                if j < paths.len() {
                    assert(eb[j] == paths[j]);
                    assert(paths[j][k] == paths[0][k]);
                } else {
                    assert(eb[j][k] == paths[0][k]);
                }
            }
        }
        assert(!share_prefix(eb, n + 1)) by {
            if share_prefix(eb, n + 1) {
                assert(n + 1 <= eb[paths.len() as int].len());
            }
        }
        lemma_common_len_unique(eb, n);
        assert(eb[0] == paths[0]);
    }
}

/// The file name of a path, as `Path::file_name` gives it: its last
/// component, where that is a name.
pub open spec fn file_name_of(p: Seq<ComponentView>) -> Option<Seq<u8>> {
    if p.len() == 0 {
        None
    } else {
        match p.last() {
            ComponentView::Normal(n) => Some(n),
            _ => None,
        }
    }
}

/// The stem of a file name, as `Path::file_stem` gives it: `..` stays whole;
/// otherwise the name before its last `.`, or the whole name where it has no
/// `.` or its last `.` comes first.
pub open spec fn stem_bytes(f: Seq<u8>) -> Seq<u8> {
    if f == seq![46u8, 46u8] {
        f
    } else if exists|i: int| 1 <= i < f.len() && f[i] == 46u8 && forall|j: int| i < j < f.len() ==> f[j] != 46u8 {
        let i = choose|i: int| 1 <= i < f.len() && f[i] == 46u8 && forall|j: int| i < j < f.len() ==> f[j] != 46u8;
        f.take(i)
    } else {
        f
    }
}

/// The folder a received archive is unpacked into, from the components of
/// its name: the stem of its file name read lossily as text, or nothing where
/// it has no file name.
pub open spec fn archive_stem_spec(name: Seq<ComponentView>) -> Seq<char> {
    match file_name_of(name) {
        Some(f) => lossy_text(stem_bytes(f)),
        None => Seq::empty(),
    }
}

/// The name of the folder a received archive is unpacked into, from the
/// components of the archive's name; see `archive_stem_spec`.
pub fn archive_stem(name: &Vec<PathComponent>) -> (res: String)
    ensures
        res@ == archive_stem_spec(components_view(name@)),
{
    let ghost nv = components_view(name@);
    if name.len() == 0 {
        return String::new();
    }
    let last = &name[name.len() - 1];
    assert(nv.last() == last@);
    let f: &Vec<u8> = match last {
        PathComponent::Normal(n) => n,
        _ => {
            return String::new();
        },
    };
    if f.len() == 2 && f[0] == 46u8 && f[1] == 46u8 {
        assert(f@ =~= seq![46u8, 46u8]);
        return utf8_lossy_string(f.as_slice());
    }
    let mut k: usize = f.len();
    while k > 1 && f[k - 1] != 46u8
        invariant
            k <= f@.len(),
            f@.len() == 0 ==> k == 0,
            forall|j: int| k <= j < f@.len() ==> f@[j] != 46u8,
        decreases k,
    {
        k = k - 1;
    }
    let ghost fv = f@;
    if k > 1 {
        let i = k - 1;
        proof {
            assert(1 <= i < fv.len() && fv[i as int] == 46u8 && forall|j: int| i < j < fv.len() ==> fv[j] != 46u8);
            let c = choose|c: int| 1 <= c < fv.len() && fv[c] == 46u8 && forall|j: int| c < j < fv.len() ==> fv[j] != 46u8;
            if c < i {
                assert(fv[i as int] != 46u8);
            } else if c > i {
                assert(fv[c] != 46u8);
            }
            assert(fv != seq![46u8, 46u8]) by {
                if fv == seq![46u8, 46u8] {
                    assert(fv.len() == 2 && fv[0] == 46u8 && fv[1] == 46u8);
                }
            }
        }
        let stem = slice_prefix(f, i);
        return utf8_lossy_string(stem.as_slice());
    }
    proof {
        assert(!(exists|i: int| 1 <= i < fv.len() && fv[i] == 46u8 && forall|j: int| i < j < fv.len() ==> fv[j] != 46u8)) by {
            if exists|i: int| 1 <= i < fv.len() && fv[i] == 46u8 && forall|j: int| i < j < fv.len() ==> fv[j] != 46u8 {
                let c = choose|c: int| 1 <= c < fv.len() && fv[c] == 46u8 && forall|j: int| c < j < fv.len() ==> fv[j] != 46u8;
                assert(k <= 1);
                assert(fv[c] != 46u8);
            }
        }
    }
    utf8_lossy_string(f.as_slice())
}

/// The first `n` bytes of `v`.
fn slice_prefix(v: &Vec<u8>, n: usize) -> (res: Vec<u8>)
    requires
        n <= v@.len(),
    ensures
        res@ == v@.take(n as int),
{
    let mut res: Vec<u8> = Vec::new();
    let mut i: usize = 0;
    while i < n
        invariant
            i <= n <= v@.len(),
            res@ == v@.take(i as int),
        decreases n - i,
    {
        res.push(v[i]);
        i = i + 1;
        assert(res@ =~= v@.take(i as int));
    }
    res
}

/// Whether a source goes into the archive: it is a file or a directory.
pub open spec fn packed_kind(k: PathKind) -> bool {
    k == PathKind::File || k == PathKind::Dir
}

/// The plan of an archive packs every copied file and directory and nothing
/// else: each entry comes from a file or directory source, is marked a
/// directory exactly when its source is one, and is named relative to the
/// base; the entries follow the sources in order, each source at most once;
/// and every file or directory source has an entry.
pub proof fn lemma_plan_complete(s: Seq<(Seq<ComponentView>, PathKind)>, base: Seq<ComponentView>)
    ensures
        ({
            let plan = plan_spec(s, base);
            &&& forall|k: int| 0 <= k < plan.len() ==> {
                let e = #[trigger] plan[k];
                &&& 0 <= e.source < s.len()
                &&& packed_kind(s[e.source].1)
                &&& e.is_dir == (s[e.source].1 == PathKind::Dir)
                &&& e.name == relative_name(s[e.source].0, base)
            }
            &&& forall|k1: int, k2: int| 0 <= k1 < k2 < plan.len() ==> (#[trigger] plan[k1]).source < (#[trigger] plan[k2]).source
            &&& forall|i: int| 0 <= i < s.len() && packed_kind(#[trigger] s[i].1) ==> exists|k: int|
                0 <= k < plan.len() && (#[trigger] plan[k]).source == i
        }),
    decreases s.len(),
{
    if s.len() > 0 {
        let d = s.drop_last();
        lemma_plan_complete(d, base);
        let rest = plan_spec(d, base);
        let plan = plan_spec(s, base);
        let n = s.len() - 1;
        assert forall|k: int| 0 <= k < rest.len() implies rest[k].source < n && s[rest[k].source] == d[rest[k].source] by {
            assert(rest[k] == rest[k]);
        }
        assert forall|k: int| 0 <= k < plan.len() implies {
            let e = #[trigger] plan[k];
            &&& 0 <= e.source < s.len()
            &&& packed_kind(s[e.source].1)
            &&& e.is_dir == (s[e.source].1 == PathKind::Dir)
            &&& e.name == relative_name(s[e.source].0, base)
        } by {
            if k < rest.len() {
                assert(plan[k] == rest[k]);
            }
        }
        assert forall|k1: int, k2: int| 0 <= k1 < k2 < plan.len() implies (#[trigger] plan[k1]).source
            < (#[trigger] plan[k2]).source by {
            if k2 < rest.len() {
                assert(plan[k1] == rest[k1] && plan[k2] == rest[k2]);
            } else {
                assert(plan[k1] == rest[k1]);
            }
        }
        assert forall|i: int| 0 <= i < s.len() && packed_kind(#[trigger] s[i].1) implies exists|k: int|
            0 <= k < plan.len() && (#[trigger] plan[k]).source == i by {
            if i < n {
                assert(d[i] == s[i]);
                assert(packed_kind(d[i].1));
                let k = choose|k: int| 0 <= k < rest.len() && (#[trigger] rest[k]).source == i;
                assert(plan[k] == rest[k]);
            } else {
                assert(plan[rest.len() as int].source == n);
            }
        }
    }
}

} // verus!
