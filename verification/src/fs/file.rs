//! # fs/file
//!
//! The `Entry` record of a listed file or directory, the metadata it is built from,
//! and the hidden-name test on paths.
use vstd::prelude::*;

use crate::fs::git::{GitKind, StageInfo};
use crate::path::FsPath;

verus! {

/// Kinds of listed entries.
#[derive(Clone, Copy, Debug, PartialEq, Eq, Structural)]
pub enum EntryKind {
    /// A regular file (or anything that is not a directory).
    File,
    /// A directory.
    Directory,
    /// A directory that stands for the given number of nested changed files.
    Summary { modified_count: usize },
}

/// A point in time: nanoseconds since the Unix epoch (negative before it).
#[derive(Clone, Copy, Debug, PartialEq, Eq, Structural)]
pub struct FileTime {
    pub unix_nanos: i128,
}

/// What the listing reads from a file's metadata.
#[derive(Clone, Copy, Debug)]
pub struct FileMeta {
    /// Whether it is a directory.
    pub is_dir: bool,
    /// The file mode bits.
    pub mode: u32,
    /// The owner's user id.
    pub uid: u32,
    /// The size in bytes.
    pub size: u64,
    /// The last modification time, when the platform reports one.
    pub modified: Option<FileTime>,
    /// Whether the file has extended attributes (read only when they are shown).
    pub has_xattrs: bool,
}

/// A listed file or directory with its metadata.
#[derive(Debug)]
pub struct Entry {
    /// Absolute path.
    pub abs_path: FsPath,
    /// Path relative to the traversal target.
    pub rel_to_target: FsPath,
    /// The entry kind.
    pub kind: EntryKind,
    /// Git status.
    pub git: GitKind,
    /// File mode bits.
    pub mode: u32,
    /// Owner's user id.
    pub uid: u32,
    /// Whether the file has extended attributes.
    pub has_xattrs: bool,
    /// Size in bytes.
    pub size: u64,
    /// Last modification time.
    pub modified: Option<FileTime>,
    /// Index stage entries.
    pub stages: Vec<StageInfo>,
}

/// The mathematical value of an entry.
pub struct EntryModel {
    pub abs: crate::path::PathModel,
    pub rel: crate::path::PathModel,
    pub kind: EntryKind,
    pub git: GitKind,
    pub mode: u32,
    pub uid: u32,
    pub has_xattrs: bool,
    pub size: u64,
    pub modified: Option<FileTime>,
    pub stages: Seq<StageInfo>,
}

impl View for Entry {
    type V = EntryModel;

    open spec fn view(&self) -> EntryModel {
        EntryModel {
            abs: self.abs_path@,
            rel: self.rel_to_target@,
            kind: self.kind,
            git: self.git,
            mode: self.mode,
            uid: self.uid,
            has_xattrs: self.has_xattrs,
            size: self.size,
            modified: self.modified,
            stages: self.stages@,
        }
    }
}

/// The models of a list of entries.
pub open spec fn entry_models(es: Seq<Entry>) -> Seq<EntryModel> {
    es.map_values(|e: Entry| e@)
}

/// The model of the entry that `Entry::new_file_or_dir` builds.
pub open spec fn meta_entry_model(
    abs: crate::path::PathModel,
    rel: crate::path::PathModel,
    meta: FileMeta,
    include_xattrs: bool,
) -> EntryModel {
    EntryModel {
        abs,
        rel,
        kind: if meta.is_dir {
            EntryKind::Directory
        } else {
            EntryKind::File
        },
        git: GitKind::Clean,
        mode: meta.mode,
        uid: meta.uid,
        has_xattrs: include_xattrs && meta.has_xattrs,
        size: meta.size,
        modified: meta.modified,
        stages: Seq::empty(),
    }
}

/// The model of the placeholder entry of a deleted file.
pub open spec fn deleted_model(abs: crate::path::PathModel, rel: crate::path::PathModel) -> EntryModel {
    EntryModel {
        abs,
        rel,
        kind: EntryKind::File,
        git: GitKind::Deleted,
        mode: 0o100644,
        uid: 0,
        has_xattrs: false,
        size: 0,
        modified: None,
        stages: Seq::empty(),
    }
}

/// The entry that `Entry::new_file_or_dir` builds from metadata.
pub open spec fn entry_from_meta(
    e: Entry,
    abs: crate::path::PathModel,
    rel: crate::path::PathModel,
    meta: FileMeta,
    include_xattrs: bool,
) -> bool {
    &&& e.abs_path@ == abs
    &&& e.rel_to_target@ == rel
    &&& e.kind == (if meta.is_dir {
        EntryKind::Directory
    } else {
        EntryKind::File
    })
    &&& e.git == GitKind::Clean
    &&& e.mode == meta.mode
    &&& e.uid == meta.uid
    &&& e.has_xattrs == (include_xattrs && meta.has_xattrs)
    &&& e.size == meta.size
    &&& e.modified == meta.modified
    &&& e.stages@.len() == 0
}

/// The placeholder entry of a file that Git reports deleted from the work tree.
pub open spec fn deleted_entry(e: Entry, abs: crate::path::PathModel, rel: crate::path::PathModel) -> bool {
    &&& e.abs_path@ == abs
    &&& e.rel_to_target@ == rel
    &&& e.kind == EntryKind::File
    &&& e.git == GitKind::Deleted
    &&& e.mode == 0o100644
    &&& e.uid == 0
    &&& !e.has_xattrs
    &&& e.size == 0
    &&& e.modified.is_none()
    &&& e.stages@.len() == 0
}

impl Entry {
    /// An entry for a file or directory on disk; extended attributes count only when
    /// `include_xattrs` is set.
    pub fn new_file_or_dir(
        abs_path: FsPath,
        rel_to_target: FsPath,
        metadata: FileMeta,
        include_xattrs: bool,
    ) -> (r: Self)
        ensures
            entry_from_meta(r, abs_path@, rel_to_target@, metadata, include_xattrs),
            r@ == meta_entry_model(abs_path@, rel_to_target@, metadata, include_xattrs),
    {
        let kind = if metadata.is_dir {
            EntryKind::Directory
        } else {
            EntryKind::File
        };
        let has_xattrs = include_xattrs && metadata.has_xattrs;
        Entry {
            abs_path,
            rel_to_target,
            kind,
            git: GitKind::Clean,
            mode: metadata.mode,
            uid: metadata.uid,
            has_xattrs,
            size: metadata.size,
            modified: metadata.modified,
            stages: Vec::new(),
        }
    }

    /// The entry of a file that is deleted from the work tree.
    pub fn new_deleted(abs_path: FsPath, rel_to_target: FsPath) -> (r: Self)
        ensures
            deleted_entry(r, abs_path@, rel_to_target@),
            r@ == deleted_model(abs_path@, rel_to_target@),
    {
        Entry {
            abs_path,
            rel_to_target,
            kind: EntryKind::File,
            git: GitKind::Deleted,
            mode: 0o100644,
            uid: 0,
            has_xattrs: false,
            size: 0,
            modified: None,
            stages: Vec::new(),
        }
    }

    /// The mode shown for the entry: none for a summary.
    pub fn display_mode(&self) -> (r: Option<u32>)
        ensures
            r == (match self.kind {
                EntryKind::Summary { .. } => None,
                _ => Some(self.mode),
            }),
    {
        match self.kind {
            EntryKind::Summary { .. } => None,
            _ => Some(self.mode),
        }
    }

    /// The owner shown for the entry: none for a summary.
    pub fn display_uid(&self) -> (r: Option<u32>)
        ensures
            r == (match self.kind {
                EntryKind::Summary { .. } => None,
                _ => Some(self.uid),
            }),
    {
        match self.kind {
            EntryKind::Summary { .. } => None,
            _ => Some(self.uid),
        }
    }
}

/// `s[a..b]` is one `/`-separated segment of `s`.
pub open spec fn is_segment(s: Seq<char>, a: int, b: int) -> bool {
    &&& 0 <= a <= b <= s.len()
    &&& (a == 0 || s[a - 1] == '/')
    &&& (b == s.len() || s[b] == '/')
    &&& forall|k: int| a <= k < b ==> s[k] != '/'
}

/// Whether some `/`-separated segment of the path text is a name (not `.` or `..`)
/// that starts with a dot.
pub open spec fn text_path_hidden(s: Seq<char>) -> bool {
    exists|a: int, b: int|
        is_segment(s, a, b) && #[trigger] crate::path::is_hidden_part(s.subrange(a, b))
}

/// Whether some component of the path is a name that starts with a dot.
pub fn is_hidden_path(path: &str) -> (r: bool)
    ensures
        r == text_path_hidden(path@),
{
    let n = path.unicode_len();
    let mut start: usize = 0;
    let mut p: usize = 0;
    while p < n
        invariant
            n == path@.len(),
            start <= p <= n,
            start == 0 || path@[start - 1] == '/',
            forall|k: int| start <= k < p ==> path@[k] != '/',
            forall|a: int, b: int|
                is_segment(path@, a, b) && a < start ==> !crate::path::is_hidden_part(
                    #[trigger] path@.subrange(a, b),
                ),
        decreases n - p,
    {
        if path.get_char(p) == '/' {
            let seg = path.substring_char(start, p);
            let seg_string = crate::text::string_of(seg);
            let hidden = crate::path::part_is_hidden(&seg_string);
            proof {
                assert(is_segment(path@, start as int, p as int));
            }
            if hidden {
                return true;
            }
            proof {
                assert forall|a: int, b: int|
                    is_segment(path@, a, b) && a < p + 1 implies !crate::path::is_hidden_part(
                    #[trigger] path@.subrange(a, b),
                ) by {
                    if a >= start {
                        if a > start {
                            assert(path@[a - 1] != '/');
                        }
                        if b < p {
                            assert(path@[b] == '/');
                        }
                        if b > p {
                            assert(path@[p as int] == '/');
                        }
                        assert(b == p);
                    }
                }
            }
            start = p + 1;
        }
        p = p + 1;
    }
    let seg = path.substring_char(start, n);
    let seg_string = crate::text::string_of(seg);
    let hidden = crate::path::part_is_hidden(&seg_string);
    proof {
        assert(is_segment(path@, start as int, n as int));
        if !hidden {
            assert forall|a: int, b: int|
                is_segment(path@, a, b) implies !crate::path::is_hidden_part(
                #[trigger] path@.subrange(a, b),
            ) by {
                if a >= start {
                    if a > start {
                        assert(path@[a - 1] != '/');
                    }
                    if b < n {
                        assert(path@[b] == '/');
                    }
                    assert(b == n);
                }
            }
        }
    }
    hidden
}

} // verus!
