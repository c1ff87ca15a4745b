use glas::fs::file::{is_hidden_path, Entry, EntryKind, FileMeta};
use glas::fs::git::{
    GitKind, STATUS_CONFLICTED, STATUS_IGNORED, STATUS_INDEX_MODIFIED, STATUS_INDEX_RENAMED,
    STATUS_WT_DELETED, STATUS_WT_MODIFIED, STATUS_WT_NEW, STATUS_WT_RENAMED, STATUS_WT_TYPECHANGE,
};
use glas::path::{component_to_path, FsPath};

fn path(s: &str) -> FsPath {
    FsPath {
        absolute: s.starts_with('/'),
        parts: s.split('/').filter(|p| !p.is_empty()).map(|p| p.to_string()).collect(),
    }
}

#[test]
fn test_entry_display_methods() {
    let entry_file = Entry::new_deleted(path("/a"), path("a"));
    assert_eq!(entry_file.display_mode(), Some(0o100644));
    assert_eq!(entry_file.display_uid(), Some(0));

    let entry_summary = Entry {
        abs_path: path("/a"),
        rel_to_target: path("a"),
        kind: EntryKind::Summary { modified_count: 5 },
        git: GitKind::Clean,
        mode: 0o100644,
        uid: 0,
        has_xattrs: false,
        size: 0,
        modified: None,
        stages: Vec::new(),
    };
    assert_eq!(entry_summary.display_mode(), None);
    assert_eq!(entry_summary.display_uid(), None);
}

#[test]
fn test_is_hidden_path() {
    assert!(is_hidden_path(".hidden"));
    assert!(is_hidden_path("dir/.hidden"));
    assert!(is_hidden_path("dir/.hidden/file"));
    assert!(!is_hidden_path("visible"));
    assert!(!is_hidden_path("dir/visible/file"));
}

#[test]
fn hidden_path_ignores_dot_components() {
    assert!(!is_hidden_path("."));
    assert!(!is_hidden_path(".."));
    assert!(!is_hidden_path("./visible"));
    assert!(!is_hidden_path("../a/b"));
    assert!(!is_hidden_path(""));
    assert!(is_hidden_path("a/..b"));
    assert!(is_hidden_path("/abs/.x/"));
}

#[test]
fn test_component_to_path() {
    let foo = component_to_path(&"foo".to_string());
    assert!(!foo.absolute);
    assert_eq!(foo.parts, vec!["foo".to_string()]);
    let cur = component_to_path(&".".to_string());
    assert!(cur.parts.is_empty() && !cur.absolute);
    let parent = component_to_path(&"..".to_string());
    assert!(parent.parts.is_empty() && !parent.absolute);
}

#[test]
fn new_file_or_dir_reads_metadata() {
    let meta = FileMeta {
        is_dir: true,
        mode: 0o40755,
        uid: 7,
        size: 4096,
        modified: None,
        has_xattrs: true,
    };
    let e = Entry::new_file_or_dir(path("/t/d"), path("d"), meta, false);
    assert_eq!(e.kind, EntryKind::Directory);
    assert_eq!(e.git, GitKind::Clean);
    assert_eq!(e.mode, 0o40755);
    assert_eq!(e.uid, 7);
    assert_eq!(e.size, 4096);
    assert!(!e.has_xattrs);
    let e = Entry::new_file_or_dir(path("/t/d"), path("d"), meta, true);
    assert!(e.has_xattrs);
}

#[test]
fn join_and_strip_undo_each_other() {
    let base = path("/repo/src");
    let rel = path("sub/a.txt");
    let joined = base.join(&rel);
    assert!(joined.same_as(&path("/repo/src/sub/a.txt")));
    assert!(joined.starts_with(&base));
    let back = joined.strip_prefix(&base).expect("prefix");
    assert!(back.same_as(&rel));
    assert!(base.join(&back).same_as(&joined));
    assert!(path("/repo/srcx").strip_prefix(&base).is_none());
    let dotted = FsPath { absolute: false, parts: vec![".".to_string(), "x".to_string()] };
    assert!(base.join(&dotted).same_as(&path("/repo/src/x")));
}

#[test]
fn merge_prefers_the_more_urgent_status() {
    let kinds = [
        GitKind::Conflicted,
        GitKind::Staged,
        GitKind::Deleted,
        GitKind::Modified,
        GitKind::Untracked,
        GitKind::Ignored,
        GitKind::Clean,
    ];
    for (i, a) in kinds.iter().enumerate() {
        for (j, b) in kinds.iter().enumerate() {
            let m = a.merge(*b);
            assert_eq!(m, if i <= j { *a } else { *b });
            assert_eq!(m, b.merge(*a));
        }
        assert_eq!(a.merge(*a), *a);
        assert_eq!(GitKind::Clean.merge(*a), *a);
        assert_eq!(GitKind::Conflicted.merge(*a), GitKind::Conflicted);
        assert_eq!(a.rank() as usize, i);
    }
}

#[test]
fn status_bits_map_to_the_most_urgent_kind() {
    assert_eq!(GitKind::from_status(0), GitKind::Clean);
    assert_eq!(GitKind::from_status(STATUS_WT_NEW), GitKind::Untracked);
    assert_eq!(GitKind::from_status(STATUS_IGNORED), GitKind::Ignored);
    assert_eq!(GitKind::from_status(STATUS_WT_MODIFIED), GitKind::Modified);
    assert_eq!(GitKind::from_status(STATUS_WT_RENAMED), GitKind::Modified);
    assert_eq!(GitKind::from_status(STATUS_WT_TYPECHANGE), GitKind::Modified);
    assert_eq!(GitKind::from_status(STATUS_WT_DELETED | STATUS_WT_MODIFIED), GitKind::Deleted);
    assert_eq!(GitKind::from_status(STATUS_INDEX_MODIFIED | STATUS_WT_DELETED), GitKind::Staged);
    assert_eq!(GitKind::from_status(STATUS_INDEX_RENAMED), GitKind::Staged);
    assert_eq!(GitKind::from_status(STATUS_CONFLICTED | STATUS_INDEX_MODIFIED), GitKind::Conflicted);
    assert_eq!(GitKind::from_status(STATUS_WT_NEW | STATUS_IGNORED), GitKind::Untracked);
}
