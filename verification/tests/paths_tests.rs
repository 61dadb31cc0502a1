use cliprtc::paths::{
    archive_stem, WinPrefix,
    find_common_base_path, plan_archive, strip_base, PackError, PackSource, PathComponent,
    PathKind,
};

fn path(s: &str) -> Vec<PathComponent> {
    let mut v = Vec::new();
    if s.starts_with('/') {
        v.push(PathComponent::RootDir);
    }
    for part in s.split('/').filter(|p| !p.is_empty()) {
        v.push(match part {
            "." => PathComponent::CurDir,
            ".." => PathComponent::ParentDir,
            n => PathComponent::Normal(n.as_bytes().to_vec()),
        });
    }
    v
}

fn show(p: &[PathComponent]) -> String {
    let mut s = String::new();
    for c in p {
        match c {
            PathComponent::RootDir => s.push('/'),
            PathComponent::Normal(n) => {
                if !s.is_empty() && !s.ends_with('/') {
                    s.push('/');
                }
                s.push_str(&String::from_utf8_lossy(n));
            }
            PathComponent::CurDir => s.push('.'),
            PathComponent::ParentDir => s.push_str(".."),
            PathComponent::Prefix { raw, .. } => s.push_str(&String::from_utf8_lossy(raw)),
        }
    }
    s
}

#[test]
fn common_base_of_siblings() {
    let b = find_common_base_path(&vec![path("/home/u/a.txt"), path("/home/u/b/c.txt")]).unwrap();
    assert_eq!(show(&b), "/home/u");
}

#[test]
fn common_base_of_single_path_is_parent() {
    let b = find_common_base_path(&vec![path("/home/u/a.txt")]).unwrap();
    assert_eq!(show(&b), "/home/u");
    assert!(find_common_base_path(&vec![path("/")]).is_none());
    assert!(find_common_base_path(&vec![vec![]]).is_none());
    let b = find_common_base_path(&vec![path("a")]).unwrap();
    assert!(b.is_empty());
}

#[test]
fn common_base_none() {
    assert!(find_common_base_path(&vec![]).is_none());
    assert!(find_common_base_path(&vec![path("a/x"), path("b/y")]).is_none());
    let b = find_common_base_path(&vec![path("/a/x"), path("/b/y")]).unwrap();
    assert_eq!(show(&b), "/");
}

#[test]
fn common_base_when_one_path_contains_another() {
    let b = find_common_base_path(&vec![path("/a/b"), path("/a/b/c")]).unwrap();
    assert_eq!(show(&b), "/a/b");
}

#[test]
fn strip_base_relative_or_whole() {
    assert_eq!(show(&strip_base(&path("/a/b/c"), &path("/a"))), "b/c");
    assert_eq!(show(&strip_base(&path("/x/y"), &path("/a"))), "/x/y");
    assert!(strip_base(&path("/a"), &path("/a")).is_empty());
}

#[test]
fn plan_errors_and_skips() {
    assert_eq!(plan_archive(&vec![]).unwrap_err(), PackError::NoPaths);
    let none = plan_archive(&vec![
        PackSource { components: path("a/x"), kind: PathKind::File },
        PackSource { components: path("b/y"), kind: PathKind::File },
    ])
    .unwrap();
    assert!(none.is_none());
}

#[test]
fn plan_entries_relative_to_base() {
    let plan = plan_archive(&vec![
        PackSource { components: path("/h/u/a.txt"), kind: PathKind::File },
        PackSource { components: path("/h/u/gone"), kind: PathKind::Missing },
        PackSource { components: path("/h/u/dir"), kind: PathKind::Dir },
        PackSource { components: path("/h/u/fifo"), kind: PathKind::Other },
    ])
    .unwrap()
    .unwrap();
    assert_eq!(plan.len(), 2);
    assert_eq!(plan[0].source, 0);
    assert!(!plan[0].is_dir);
    assert_eq!(show(&plan[0].name), "a.txt");
    assert_eq!(plan[1].source, 2);
    assert!(plan[1].is_dir);
    assert_eq!(show(&plan[1].name), "dir");
}

#[test]
fn non_utf8_names_compared_by_bytes() {
    let a = vec![PathComponent::RootDir, PathComponent::Normal(vec![0x66, 0xff]), PathComponent::Normal(b"x".to_vec())];
    let b = vec![PathComponent::RootDir, PathComponent::Normal(vec![0x66, 0xfe]), PathComponent::Normal(b"y".to_vec())];
    let base = find_common_base_path(&vec![a.clone_path(), b]).unwrap();
    assert_eq!(base.len(), 1);
    let c = vec![PathComponent::RootDir, PathComponent::Normal(vec![0x66, 0xff]), PathComponent::Normal(b"z".to_vec())];
    let base = find_common_base_path(&vec![a, c]).unwrap();
    assert_eq!(base.len(), 2);
    assert!(matches!(&base[1], PathComponent::Normal(n) if n == &vec![0x66, 0xff]));
}

trait ClonePath {
    fn clone_path(&self) -> Vec<PathComponent>;
}

impl ClonePath for Vec<PathComponent> {
    fn clone_path(&self) -> Vec<PathComponent> {
        self.iter().map(|c| c.duplicate()).collect()
    }
}

#[test]
fn common_base_ignores_order() {
    let a = find_common_base_path(&vec![path("/h/u/a"), path("/h/u/b/c"), path("/h/v")]).unwrap();
    let b = find_common_base_path(&vec![path("/h/v"), path("/h/u/a"), path("/h/u/b/c")]).unwrap();
    assert_eq!(show(&a), "/h");
    assert_eq!(show(&b), "/h");
}

#[test]
fn adding_a_path_never_lengthens_base() {
    let base = find_common_base_path(&vec![path("/h/u/a"), path("/h/u/b")]).unwrap();
    assert_eq!(show(&base), "/h/u");
    let wider = find_common_base_path(&vec![path("/h/u/a"), path("/h/u/b"), path("/h/x")]).unwrap();
    assert_eq!(show(&wider), "/h");
    let same = find_common_base_path(&vec![path("/h/u/a"), path("/h/u/b"), path("/h/u")]).unwrap();
    assert_eq!(show(&same), "/h/u");
}

fn std_components(p: &std::path::Path) -> Vec<PathComponent> {
    p.components()
        .map(|c| match c {
            std::path::Component::RootDir => PathComponent::RootDir,
            std::path::Component::CurDir => PathComponent::CurDir,
            std::path::Component::ParentDir => PathComponent::ParentDir,
            std::path::Component::Normal(n) => PathComponent::Normal(n.as_encoded_bytes().to_vec()),
            std::path::Component::Prefix(p) => PathComponent::Prefix {
                raw: p.as_os_str().as_encoded_bytes().to_vec(),
                parsed: WinPrefix::Verbatim(vec![]),
            },
        })
        .collect()
}

#[test]
fn archive_stem_matches_std() {
    for name in [
        "18c2f3a1b2c.tar", "a.b.tar", ".tar", "a.", "...", "noext", "", ".", "..", "/", "a/",
        "a/..", "./a.tar", "dir/x.y", "a/./.", "/x/y.z/", ".a.b", "é.tar",
    ] {
        let p = std::path::Path::new(name);
        let expected = p.file_stem().unwrap_or_default().to_string_lossy().to_string();
        assert_eq!(archive_stem(&std_components(p)), expected, "name {:?}", name);
    }
}

#[test]
fn archive_stem_of_unusual_names() {
    assert_eq!(archive_stem(&vec![PathComponent::Normal(b"..".to_vec())]), "..");
    assert_eq!(archive_stem(&vec![PathComponent::Normal(vec![0x61, 0xff, 0x2e, 0x74])]), "a\u{FFFD}");
    assert_eq!(archive_stem(&vec![PathComponent::ParentDir]), "");
}

#[test]
fn windows_prefixes_compare_by_parsed_form() {
    let lower = vec![
        PathComponent::Prefix { raw: b"c:".to_vec(), parsed: WinPrefix::Disk(b'C') },
        PathComponent::RootDir,
        PathComponent::Normal(b"a".to_vec()),
    ];
    let upper = vec![
        PathComponent::Prefix { raw: b"C:".to_vec(), parsed: WinPrefix::Disk(b'C') },
        PathComponent::RootDir,
        PathComponent::Normal(b"b".to_vec()),
    ];
    let base = find_common_base_path(&vec![lower, upper]).unwrap();
    assert_eq!(base.len(), 2);
    assert!(matches!(&base[0], PathComponent::Prefix { raw, .. } if raw == b"c:"));
    let other = vec![
        PathComponent::Prefix { raw: b"D:".to_vec(), parsed: WinPrefix::Disk(b'D') },
        PathComponent::RootDir,
    ];
    let c = vec![
        PathComponent::Prefix { raw: b"C:".to_vec(), parsed: WinPrefix::Disk(b'C') },
        PathComponent::RootDir,
    ];
    assert!(find_common_base_path(&vec![other, c]).is_none());
}
