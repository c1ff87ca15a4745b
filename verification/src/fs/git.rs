//! # fs/git
//!
//! Git status kinds, how two kinds combine, and how the repository state is laid
//! over the listed entries.
use vstd::prelude::*;

use crate::fs::file::{
    deleted_model, entry_models, meta_entry_model, Entry, EntryKind, EntryModel, FileMeta,
};
use crate::options::config::{DirOptions, FlattenDepth};
use crate::path::{
    component_count, component_path_model, component_to_path, drop_cur, is_empty_model, join_model,
    path_hidden, starts_with_model, strip_model, FsPath, PathModel,
};

verus! {

/// The Git status of a file, from the most to the least urgent.
#[derive(Clone, Copy, Debug, PartialEq, Eq, Structural)]
pub enum GitKind {
    /// A merge conflict.
    Conflicted,
    /// Changes recorded in the index.
    Staged,
    /// Changes in the working tree that are not staged.
    Modified,
    /// Deleted from the working tree.
    Deleted,
    /// Not tracked by Git.
    Untracked,
    /// Matched by an ignore rule.
    Ignored,
    /// No change.
    Clean,
}

/// Urgency of a status: lower is more urgent.
pub open spec fn rank_of(kind: GitKind) -> nat {
    match kind {
        GitKind::Conflicted => 0,
        GitKind::Staged => 1,
        GitKind::Deleted => 2,
        GitKind::Modified => 3,
        GitKind::Untracked => 4,
        GitKind::Ignored => 5,
        GitKind::Clean => 6,
    }
}

/// The more urgent of two statuses (the left one on a tie).
pub open spec fn merge_of(a: GitKind, b: GitKind) -> GitKind {
    if rank_of(a) <= rank_of(b) {
        a
    } else {
        b
    }
}

/// The one-character tag shown for a status.
pub open spec fn tag_of(kind: GitKind) -> Seq<char> {
    match kind {
        GitKind::Conflicted => seq!['!'],
        GitKind::Staged => seq!['S'],
        GitKind::Modified => seq!['M'],
        GitKind::Deleted => seq!['D'],
        GitKind::Untracked => seq!['?'],
        GitKind::Ignored => seq!['I'],
        GitKind::Clean => seq![' '],
    }
}

/// Status bits of a Git status entry (the values that libgit2 and the `git2` crate use).
pub const STATUS_INDEX_NEW: u32 = 0x1;
pub const STATUS_INDEX_MODIFIED: u32 = 0x2;
pub const STATUS_INDEX_DELETED: u32 = 0x4;
pub const STATUS_INDEX_RENAMED: u32 = 0x8;
pub const STATUS_INDEX_TYPECHANGE: u32 = 0x10;
pub const STATUS_WT_NEW: u32 = 0x80;
pub const STATUS_WT_MODIFIED: u32 = 0x100;
pub const STATUS_WT_DELETED: u32 = 0x200;
pub const STATUS_WT_TYPECHANGE: u32 = 0x400;
pub const STATUS_WT_RENAMED: u32 = 0x800;
pub const STATUS_IGNORED: u32 = 0x4000;
pub const STATUS_CONFLICTED: u32 = 0x8000;

/// The status kind that a set of status bits stands for: a conflict first, then any
/// index change, then a working-tree deletion, other working-tree changes, a new
/// file, an ignored file, and otherwise a clean one.
pub open spec fn kind_from_bits(bits: u32) -> GitKind {
    if bits & STATUS_CONFLICTED != 0 {
        GitKind::Conflicted
    } else if bits & (STATUS_INDEX_NEW | STATUS_INDEX_MODIFIED | STATUS_INDEX_DELETED
        | STATUS_INDEX_RENAMED | STATUS_INDEX_TYPECHANGE) != 0 {
        GitKind::Staged
    } else if bits & STATUS_WT_DELETED != 0 {
        GitKind::Deleted
    } else if bits & (STATUS_WT_MODIFIED | STATUS_WT_RENAMED | STATUS_WT_TYPECHANGE) != 0 {
        GitKind::Modified
    } else if bits & STATUS_WT_NEW != 0 {
        GitKind::Untracked
    } else if bits & STATUS_IGNORED != 0 {
        GitKind::Ignored
    } else {
        GitKind::Clean
    }
}

impl GitKind {
    /// The kind for the status bits of one Git status entry.
    pub fn from_status(bits: u32) -> (r: Self)
        ensures
            r == kind_from_bits(bits),
    {
        if bits & STATUS_CONFLICTED != 0 {
            return GitKind::Conflicted;
        }
        if bits & (STATUS_INDEX_NEW | STATUS_INDEX_MODIFIED | STATUS_INDEX_DELETED
            | STATUS_INDEX_RENAMED | STATUS_INDEX_TYPECHANGE) != 0 {
            return GitKind::Staged;
        }
        if bits & STATUS_WT_DELETED != 0 {
            return GitKind::Deleted;
        }
        if bits & (STATUS_WT_MODIFIED | STATUS_WT_RENAMED | STATUS_WT_TYPECHANGE) != 0 {
            return GitKind::Modified;
        }
        if bits & STATUS_WT_NEW != 0 {
            return GitKind::Untracked;
        }
        if bits & STATUS_IGNORED != 0 {
            return GitKind::Ignored;
        }
        GitKind::Clean
    }

    pub fn rank(self) -> (r: u8)
        ensures
            r as nat == rank_of(self),
    {
        match self {
            GitKind::Conflicted => 0,
            GitKind::Staged => 1,
            GitKind::Deleted => 2,
            GitKind::Modified => 3,
            GitKind::Untracked => 4,
            GitKind::Ignored => 5,
            GitKind::Clean => 6,
        }
    }

    pub fn merge(self, other: Self) -> (r: Self)
        ensures
            r == merge_of(self, other),
    {
        if self.rank() <= other.rank() {
            self
        } else {
            other
        }
    }

    pub fn tag(self) -> (r: &'static str)
        ensures
            r@ == tag_of(self),
    {
        match self {
            GitKind::Conflicted => {
                proof {
                    reveal_strlit("!");
                }
                "!"
            },
            GitKind::Staged => {
                proof {
                    reveal_strlit("S");
                }
                "S"
            },
            GitKind::Modified => {
                proof {
                    reveal_strlit("M");
                }
                "M"
            },
            GitKind::Deleted => {
                proof {
                    reveal_strlit("D");
                }
                "D"
            },
            GitKind::Untracked => {
                proof {
                    reveal_strlit("?");
                }
                "?"
            },
            GitKind::Ignored => {
                proof {
                    reveal_strlit("I");
                }
                "I"
            },
            GitKind::Clean => {
                proof {
                    reveal_strlit(" ");
                }
                " "
            },
        }
    }
}

/// The stage information of one index entry of a path.
#[derive(Debug)]
pub struct StageInfo {
    /// The file mode bits.
    pub mode: u32,
    /// The object name (hexadecimal).
    pub object_id: String,
    /// The stage number (0 normally; 1, 2, 3 during a conflict).
    pub stage: i32,
}

impl StageInfo {
    /// A copy of this stage entry.
    pub fn duplicate(&self) -> (r: StageInfo)
        ensures
            r == *self,
    {
        StageInfo { mode: self.mode, object_id: self.object_id.clone(), stage: self.stage }
    }
}

/// A copy of a list of stage entries.
pub fn copy_stages(v: &Vec<StageInfo>) -> (r: Vec<StageInfo>)
    ensures
        r@ == v@,
{
    let mut r: Vec<StageInfo> = Vec::new();
    let mut i: usize = 0;
    while i < v.len()
        invariant
            i <= v.len(),
            r@ == v@.take(i as int),
        decreases v.len() - i,
    {
        r.push(v[i].duplicate());
        i = i + 1;
        proof {
            assert(v@.take(i as int) =~= v@.take(i - 1).push(v@[i - 1]));
        }
    }
    proof {
        assert(v@.take(v.len() as int) =~= v@);
    }
    r
}

/// The Git state of the repository around a target: its work-tree root, the status
/// of each repository-relative path, and the index stages of each absolute path.
#[derive(Debug)]
pub struct GitContext {
    /// The root of the work tree.
    pub repo_root: FsPath,
    /// The status of each path, relative to `repo_root`.
    pub statuses: Vec<(FsPath, GitKind)>,
    /// The index stage entries of each absolute path.
    pub stages: Vec<(FsPath, Vec<StageInfo>)>,
}

/// The position of the first key equal to `p`, or -1.
pub open spec fn find_path(keys: Seq<PathModel>, p: PathModel) -> int
    decreases keys.len(),
{
    if keys.len() == 0 {
        -1
    } else if keys[0] == p {
        0
    } else {
        let r = find_path(keys.drop_first(), p);
        if r < 0 {
            -1
        } else {
            r + 1
        }
    }
}

/// `find_path` gives the first position of `p`, or -1 when `p` is absent.
pub proof fn lemma_find_path(keys: Seq<PathModel>, p: PathModel)
    ensures
        -1 <= find_path(keys, p) < keys.len(),
        find_path(keys, p) >= 0 ==> keys[find_path(keys, p)] == p,
        forall|j: int| 0 <= j < keys.len() && (find_path(keys, p) < 0 || j < find_path(keys, p))
            ==> keys[j] != p,
    decreases keys.len(),
{
    if keys.len() > 0 && keys[0] != p {
        lemma_find_path(keys.drop_first(), p);
        assert forall|j: int| 0 <= j < keys.len() && (find_path(keys, p) < 0 || j < find_path(keys, p))
            implies keys[j] != p by {
            if j > 0 {
                assert(keys[j] == keys.drop_first()[j - 1]);
            }
        }
    }
}

/// The keys of a list of path-keyed records.
pub open spec fn keys_of<V>(records: Seq<(FsPath, V)>) -> Seq<PathModel> {
    records.map_values(|e: (FsPath, V)| e.0@)
}

/// No key occurs twice.
pub open spec fn distinct_keys(keys: Seq<PathModel>) -> bool {
    forall|i: int, j: int| 0 <= i < keys.len() && 0 <= j < keys.len() && i != j ==> keys[i] != keys[j]
}

/// With distinct keys, the position of a key is where `find_path` finds it.
pub proof fn lemma_find_distinct(keys: Seq<PathModel>, j: int)
    requires
        distinct_keys(keys),
        0 <= j < keys.len(),
    ensures
        find_path(keys, keys[j]) == j,
{
    lemma_find_path(keys, keys[j]);
}

/// The position of the first record with key `p`.
pub fn find_key<V>(records: &Vec<(FsPath, V)>, p: &FsPath) -> (r: Option<usize>)
    ensures
        match r {
            Some(i) => i as int == find_path(keys_of(records@), p@) && i < records@.len(),
            None => find_path(keys_of(records@), p@) == -1,
        },
{
    let ghost keys = keys_of(records@);
    proof {
        lemma_find_path(keys, p@);
    }
    let mut i: usize = 0;
    while i < records.len()
        invariant
            i <= records.len(),
            keys == keys_of(records@),
            forall|j: int| 0 <= j < i ==> keys[j] != p@,
            -1 <= find_path(keys, p@) < keys.len(),
            find_path(keys, p@) >= 0 ==> keys[find_path(keys, p@)] == p@,
            forall|j: int| 0 <= j < keys.len() && (find_path(keys, p@) < 0 || j < find_path(keys, p@))
                ==> keys[j] != p@,
        decreases records.len() - i,
    {
        if records[i].0.same_as(p) {
            proof {
                assert(keys[i as int] == p@);
            }
            return Some(i);
        }
        i = i + 1;
    }
    None
}

/// The stage entries recorded for `p`, if any (the first record of `p`).
pub open spec fn stages_for(stages: Seq<(FsPath, Vec<StageInfo>)>, p: PathModel) -> Option<Seq<StageInfo>> {
    let i = find_path(keys_of(stages), p);
    if i < 0 {
        None
    } else {
        Some(stages[i].1@)
    }
}

impl GitContext {
    /// The stage entries recorded for `p`, if any.
    pub fn stages_of(&self, p: &FsPath) -> (r: Option<&Vec<StageInfo>>)
        ensures
            match stages_for(self.stages@, p@) {
                Some(s) => r.is_some() && r.unwrap()@ == s,
                None => r.is_none(),
            },
    {
        match find_key(&self.stages, p) {
            Some(i) => Some(&self.stages[i].1),
            None => None,
        }
    }
}

/// One entry of the Git index: its repository-relative path, mode, object name and flags.
#[derive(Debug)]
pub struct IndexRecord {
    pub path: FsPath,
    pub mode: u32,
    pub object_id: String,
    pub flags: u16,
}

/// One entry of the Git status list: its repository-relative path (absent when it is not
/// valid UTF-8) and its status bits.
#[derive(Debug)]
pub struct StatusRecord {
    pub path: Option<FsPath>,
    pub bits: u32,
}

/// The stage number kept in bits 12 and 13 of the index flags.
pub open spec fn stage_number(flags: u16) -> i32 {
    ((flags & 0x3000) >> 12) as i32
}

/// The stage entry of an index record.
pub open spec fn stage_of_record(r: IndexRecord) -> StageInfo {
    StageInfo { mode: r.mode, object_id: r.object_id, stage: stage_number(r.flags) }
}

/// The stage entries of the first `k` index records whose absolute path is `p`, in order.
pub open spec fn index_stages(index: Seq<IndexRecord>, root: PathModel, p: PathModel, k: nat) -> Seq<StageInfo>
    decreases k,
{
    if k == 0 {
        Seq::empty()
    } else {
        let prev = index_stages(index, root, p, (k - 1) as nat);
        if crate::path::join_model(root, index[k - 1].path@) == p {
            prev.push(stage_of_record(index[k - 1]))
        } else {
            prev
        }
    }
}

/// Whether one of the first `k` index records has repository-relative path `p`.
pub open spec fn indexed(index: Seq<IndexRecord>, p: PathModel, k: nat) -> bool {
    exists|i: int| 0 <= i < k && (#[trigger] index[i]).path@ == p
}

/// The status of `p` after the first `k` status records: `Clean` when it is in the index,
/// merged with the status of each of its records that is not clean.
pub open spec fn status_of(index: Seq<IndexRecord>, statuses: Seq<StatusRecord>, p: PathModel, k: nat) -> Option<
    GitKind,
>
    decreases k,
{
    if k == 0 {
        if indexed(index, p, index.len()) {
            Some(GitKind::Clean)
        } else {
            None
        }
    } else {
        let prev = status_of(index, statuses, p, (k - 1) as nat);
        let rec = statuses[k - 1];
        let kind = kind_from_bits(rec.bits);
        if rec.path.is_some() && rec.path.unwrap()@ == p && kind != GitKind::Clean {
            match prev {
                Some(a) => Some(merge_of(a, kind)),
                None => Some(kind),
            }
        } else {
            prev
        }
    }
}

/// The status list holds exactly the statuses `f` gives, once per path.
pub open spec fn holds_statuses(v: Seq<(FsPath, GitKind)>, f: spec_fn(PathModel) -> Option<GitKind>) -> bool {
    &&& distinct_keys(keys_of(v))
    &&& forall|j: int| 0 <= j < v.len() ==> f(#[trigger] keys_of(v)[j]) == Some(v[j].1)
    &&& forall|p: PathModel| #[trigger] f(p).is_some() ==> exists|j: int| 0 <= j < v.len() && keys_of(v)[j] == p
}

/// The stage list holds exactly the non-empty stage lists `f` gives, once per path.
pub open spec fn holds_stages(v: Seq<(FsPath, Vec<StageInfo>)>, f: spec_fn(PathModel) -> Seq<StageInfo>) -> bool {
    &&& distinct_keys(keys_of(v))
    &&& forall|j: int| 0 <= j < v.len() ==> f(#[trigger] keys_of(v)[j]) == v[j].1@ && v[j].1@.len() > 0
    &&& forall|p: PathModel| #[trigger] f(p).len() > 0 ==> exists|j: int| 0 <= j < v.len() && keys_of(v)[j] == p
}

/// Builds the Git context of a work tree from its index records and status records:
/// each indexed path is clean unless a status record says otherwise (the most urgent
/// status wins), and each absolute path gets the stage entries of its index records.
pub fn build_git_context(repo_root: FsPath, index: &Vec<IndexRecord>, statuses: &Vec<StatusRecord>) -> (r:
    GitContext)
    ensures
        r.repo_root@ == repo_root@,
        holds_statuses(
            r.statuses@,
            |p: PathModel| status_of(index@, statuses@, p, statuses@.len()),
        ),
        holds_stages(r.stages@, |p: PathModel| index_stages(index@, repo_root@, p, index@.len())),
{
    let mut status_map: Vec<(FsPath, GitKind)> = Vec::new();
    let mut stage_map: Vec<(FsPath, Vec<StageInfo>)> = Vec::new();
    let ghost root = repo_root@;
    let mut i: usize = 0;
    while i < index.len()
        invariant
            i <= index.len(),
            root == repo_root@,
            holds_stages(stage_map@, |p: PathModel| index_stages(index@, root, p, i as nat)),
            distinct_keys(keys_of(status_map@)),
            forall|j: int| 0 <= j < status_map@.len() ==> status_map@[j].1 == GitKind::Clean,
            forall|j: int| 0 <= j < status_map@.len() ==> indexed(index@, #[trigger] keys_of(status_map@)[j], i as nat),
            forall|p: PathModel| #[trigger] indexed(index@, p, i as nat) ==> exists|j: int|
                0 <= j < status_map@.len() && keys_of(status_map@)[j] == p,
        decreases index.len() - i,
    {
        let rec = &index[i];
        let abs = repo_root.join(&rec.path);
        let info = StageInfo { mode: rec.mode, object_id: rec.object_id.clone(), stage: ((rec.flags & 0x3000) >> 12) as i32 };
        assert(info == stage_of_record(*rec));
        let ghost old_stages = stage_map@;
        let ghost f_old = |p: PathModel| index_stages(index@, root, p, i as nat);
        let ghost f_new = |p: PathModel| index_stages(index@, root, p, (i + 1) as nat);
        proof {
            lemma_find_path(keys_of(stage_map@), abs@);
            assert forall|p: PathModel| p != abs@ implies #[trigger] f_new(p) == f_old(p) by {}
            assert(f_new(abs@) == f_old(abs@).push(info));
        }
        match find_key(&stage_map, &abs) {
            Some(j) => {
                let (key, mut list) = stage_map.remove(j);
                list.push(info);
                stage_map.insert(j, (key, list));
                proof {
                    assert(keys_of(old_stages)[j as int] == abs@);
                    assert(keys_of(stage_map@) =~= keys_of(old_stages));
                    assert(stage_map@[j as int].1@ == old_stages[j as int].1@.push(info));
                    assert forall|m: int| 0 <= m < stage_map@.len() && m != j implies stage_map@[m]
                        == old_stages[m] by {}
                    assert forall|m: int| 0 <= m < stage_map@.len() implies f_new(
                        #[trigger] keys_of(stage_map@)[m],
                    ) == stage_map@[m].1@ && stage_map@[m].1@.len() > 0 by {
                        assert(keys_of(old_stages)[m] == keys_of(stage_map@)[m]);
                    }
                    assert forall|p: PathModel| #[trigger] f_new(p).len() > 0 implies exists|m: int|
                        0 <= m < stage_map@.len() && keys_of(stage_map@)[m] == p by {
                        if p != abs@ {
                            let m = choose|m: int| 0 <= m < old_stages.len() && keys_of(old_stages)[m] == p;
                            assert(keys_of(stage_map@)[m] == p);
                        } else {
                            assert(keys_of(stage_map@)[j as int] == p);
                        }
                    }
                }
            },
            None => {
                let mut list: Vec<StageInfo> = Vec::new();
                list.push(info);
                stage_map.push((abs, list));
                proof {
                    let n = old_stages.len() as int;
                    if f_old(abs@).len() > 0 {
                        let m = choose|m: int| 0 <= m < old_stages.len() && keys_of(old_stages)[m] == abs@;
                        assert(false);
                    }
                    assert(f_old(abs@) =~= Seq::<StageInfo>::empty());
                    assert(keys_of(stage_map@) =~= keys_of(old_stages).push(abs@));
                    assert(stage_map@[n].1@ =~= seq![info]);
                    assert forall|m: int| 0 <= m < stage_map@.len() implies f_new(
                        #[trigger] keys_of(stage_map@)[m],
                    ) == stage_map@[m].1@ && stage_map@[m].1@.len() > 0 by {
                        if m < n {
                            assert(keys_of(old_stages)[m] == keys_of(stage_map@)[m]);
                            assert(keys_of(old_stages)[m] != abs@);
                        }
                    }
                    assert forall|p: PathModel| #[trigger] f_new(p).len() > 0 implies exists|m: int|
                        0 <= m < stage_map@.len() && keys_of(stage_map@)[m] == p by {
                        if p != abs@ {
                            let m = choose|m: int| 0 <= m < old_stages.len() && keys_of(old_stages)[m] == p;
                            assert(keys_of(stage_map@)[m] == p);
                        } else {
                            assert(keys_of(stage_map@)[n] == p);
                        }
                    }
                    assert forall|a: int, b: int|
                        0 <= a < keys_of(stage_map@).len() && 0 <= b < keys_of(stage_map@).len() && a
                            != b implies keys_of(stage_map@)[a] != keys_of(stage_map@)[b] by {
                        if a < n && b < n {
                            assert(keys_of(old_stages)[a] == keys_of(stage_map@)[a]);
                            assert(keys_of(old_stages)[b] == keys_of(stage_map@)[b]);
                        } else if a < n {
                            assert(keys_of(old_stages)[a] == keys_of(stage_map@)[a]);
                        } else if b < n {
                            assert(keys_of(old_stages)[b] == keys_of(stage_map@)[b]);
                        }
                    }
                }
            },
        }
        let ghost old_status = status_map@;
        let ghost mut spos: int = 0;
        match find_key(&status_map, &rec.path) {
            Some(j) => {
                proof {
                    lemma_find_path(keys_of(status_map@), rec.path@);
                    spos = j as int;
                }
            },
            None => {
                proof {
                    lemma_find_path(keys_of(status_map@), rec.path@);
                    spos = status_map@.len() as int;
                }
                status_map.push((rec.path.duplicate(), GitKind::Clean));
            },
        }
        assert(0 <= spos < status_map@.len() && keys_of(status_map@)[spos] == rec.path@);
        proof {
            assert(indexed(index@, rec.path@, (i + 1) as nat)) by {
                assert(index@[i as int].path@ == rec.path@);
            }
            assert forall|j: int| 0 <= j < status_map@.len() implies indexed(
                index@,
                #[trigger] keys_of(status_map@)[j],
                (i + 1) as nat,
            ) by {
                if j < old_status.len() {
                    let p = keys_of(status_map@)[j];
                    assert(keys_of(old_status)[j] == p);
                    let k = choose|k: int| 0 <= k < i && (#[trigger] index@[k]).path@ == p;
                    assert(0 <= k < i + 1 && index@[k].path@ == p);
                }
            }
            assert forall|p: PathModel| #[trigger] indexed(index@, p, (i + 1) as nat) implies exists|j: int|
                0 <= j < status_map@.len() && keys_of(status_map@)[j] == p by {
                let k = choose|k: int| 0 <= k < i + 1 && (#[trigger] index@[k]).path@ == p;
                if k < i {
                    assert(indexed(index@, p, i as nat));
                    let j = choose|j: int| 0 <= j < old_status.len() && keys_of(old_status)[j] == p;
                    assert(keys_of(status_map@)[j] == p);
                } else {
                    assert(keys_of(status_map@)[spos] == p);
                }
            }
            assert forall|a: int, b: int|
                0 <= a < keys_of(status_map@).len() && 0 <= b < keys_of(status_map@).len() && a != b implies keys_of(
                status_map@,
            )[a] != keys_of(status_map@)[b] by {
                if a < old_status.len() && b < old_status.len() {
                    assert(keys_of(old_status)[a] == keys_of(status_map@)[a]);
                    assert(keys_of(old_status)[b] == keys_of(status_map@)[b]);
                } else if a < old_status.len() {
                    assert(keys_of(old_status)[a] == keys_of(status_map@)[a]);
                } else if b < old_status.len() {
                    assert(keys_of(old_status)[b] == keys_of(status_map@)[b]);
                }
            }
        }
        i = i + 1;
    }
    proof {
        let f0 = |p: PathModel| status_of(index@, statuses@, p, 0);
        assert forall|j: int| 0 <= j < status_map@.len() implies f0(#[trigger] keys_of(status_map@)[j])
            == Some(status_map@[j].1) by {
            assert(indexed(index@, keys_of(status_map@)[j], index@.len()));
        }
    }
    let mut k: usize = 0;
    while k < statuses.len()
        invariant
            k <= statuses.len(),
            holds_statuses(status_map@, |p: PathModel| status_of(index@, statuses@, p, k as nat)),
        decreases statuses.len() - k,
    {
        let rec = &statuses[k];
        let ghost old_status = status_map@;
        let ghost f_old = |p: PathModel| status_of(index@, statuses@, p, k as nat);
        let ghost f_new = |p: PathModel| status_of(index@, statuses@, p, (k + 1) as nat);
        let ghost mut touched: Option<PathModel> = None;
        let ghost mut spos: int = 0;
        if let Some(path) = &rec.path {
            let kind = GitKind::from_status(rec.bits);
            if kind != GitKind::Clean {
                proof {
                    touched = Some(path@);
                    lemma_find_path(keys_of(status_map@), path@);
                }
                match find_key(&status_map, path) {
                    Some(j) => {
                        proof {
                            spos = j as int;
                        }
                        let (key, existing) = status_map.remove(j);
                        status_map.insert(j, (key, existing.merge(kind)));
                    },
                    None => {
                        proof {
                            spos = status_map@.len() as int;
                        }
                        status_map.push((path.duplicate(), kind));
                    },
                }
            }
        }
        proof {
            match touched {
                None => {
                    assert(status_map@ == old_status);
                    assert forall|p: PathModel| #[trigger] f_new(p) == f_old(p) by {}
                    assert(holds_statuses(status_map@, f_new));
                },
                Some(q) => {
                    assert(0 <= spos < status_map@.len() && keys_of(status_map@)[spos] == q);
                    assert forall|p: PathModel| p != q implies #[trigger] f_new(p) == f_old(p) by {}
                    assert forall|j: int| 0 <= j < status_map@.len() implies f_new(
                        #[trigger] keys_of(status_map@)[j],
                    ) == Some(status_map@[j].1) by {
                        let p = keys_of(status_map@)[j];
                        if j < old_status.len() {
                            assert(keys_of(old_status)[j] == p);
                        }
                        if p == q && j >= old_status.len() && f_old(p).is_some() {
                            let m = choose|m: int| 0 <= m < old_status.len() && keys_of(old_status)[m] == p;
                            lemma_find_path(keys_of(old_status), p);
                        }
                    }
                    assert forall|p: PathModel| #[trigger] f_new(p).is_some() implies exists|j: int|
                        0 <= j < status_map@.len() && keys_of(status_map@)[j] == p by {
                        if p != q {
                            let m = choose|m: int| 0 <= m < old_status.len() && keys_of(old_status)[m] == p;
                            assert(keys_of(status_map@)[m] == p);
                        } else {
                            assert(keys_of(status_map@)[spos] == p);
                        }
                    }
                    assert forall|a: int, b: int|
                        0 <= a < keys_of(status_map@).len() && 0 <= b < keys_of(status_map@).len() && a
                            != b implies keys_of(status_map@)[a] != keys_of(status_map@)[b] by {
                        if a < old_status.len() && b < old_status.len() {
                            assert(keys_of(old_status)[a] == keys_of(status_map@)[a]);
                            assert(keys_of(old_status)[b] == keys_of(status_map@)[b]);
                        } else if a < old_status.len() {
                            assert(keys_of(old_status)[a] == keys_of(status_map@)[a]);
                        } else if b < old_status.len() {
                            assert(keys_of(old_status)[b] == keys_of(status_map@)[b]);
                        }
                    }
                },
            }
        }
        k = k + 1;
    }
    GitContext { repo_root, statuses: status_map, stages: stage_map }
}

/// What the overlay needs besides the entries: the target, the repository state, the
/// metadata read for paths that may be listed individually, the options used, and
/// whether the target is listed by its contents (rather than as itself).
pub struct OverlayEnv {
    pub target: PathModel,
    pub contents: bool,
    pub root: PathModel,
    pub stages: Seq<(FsPath, Vec<StageInfo>)>,
    pub metas: Seq<(FsPath, FileMeta)>,
    pub all: bool,
    pub long: bool,
    pub flatten: FlattenDepth,
}

/// The entries so far and the count of nested changes under each top-level directory.
pub struct OverlayState {
    pub entries: Seq<EntryModel>,
    pub summaries: Seq<(PathModel, nat)>,
}

/// The position of the last entry whose absolute path is `p`, or -1.
pub open spec fn last_entry_index(es: Seq<EntryModel>, p: PathModel) -> int
    decreases es.len(),
{
    if es.len() == 0 {
        -1
    } else if es.last().abs == p {
        es.len() - 1
    } else {
        last_entry_index(es.drop_last(), p)
    }
}

/// The entry with its stage entries replaced, when there are any.
pub open spec fn with_stages(e: EntryModel, stages: Option<Seq<StageInfo>>) -> EntryModel {
    match stages {
        Some(s) => EntryModel { stages: s, ..e },
        None => e,
    }
}

/// The entry with `kind` merged into its status.
pub open spec fn merged(e: EntryModel, kind: GitKind) -> EntryModel {
    EntryModel { git: merge_of(e.git, kind), ..e }
}

/// Merges `kind` into the last entry at `p`, if there is one.
pub open spec fn merge_into(es: Seq<EntryModel>, p: PathModel, kind: GitKind) -> Seq<EntryModel> {
    let i = last_entry_index(es, p);
    if i >= 0 {
        es.update(i, merged(es[i], kind))
    } else {
        es
    }
}

/// Merges `kind` (and the stage entries) into the last entry at `abs`; without such an
/// entry, a deleted file gets a placeholder entry.
pub open spec fn merge_or_add(
    es: Seq<EntryModel>,
    abs: PathModel,
    rel: PathModel,
    kind: GitKind,
    stages: Option<Seq<StageInfo>>,
) -> Seq<EntryModel> {
    let i = last_entry_index(es, abs);
    if i >= 0 {
        es.update(i, with_stages(merged(es[i], kind), stages))
    } else if kind == GitKind::Deleted {
        es.push(with_stages(deleted_model(abs, rel), stages))
    } else {
        es
    }
}

/// The metadata read for `p`, if any (the first record of `p`).
pub open spec fn meta_for(metas: Seq<(FsPath, FileMeta)>, p: PathModel) -> Option<FileMeta> {
    let i = find_path(keys_of(metas), p);
    if i < 0 {
        None
    } else {
        Some(metas[i].1)
    }
}

/// Whether a change `depth` components below the target is listed individually.
pub open spec fn reaches(flatten: FlattenDepth, depth: nat) -> bool {
    match flatten {
        FlattenDepth::All => true,
        FlattenDepth::Depth(d) => depth <= (if d == usize::MAX {
            d as nat
        } else {
            (d + 1) as nat
        }),
    }
}

/// The first component of a non-empty path as a path (empty for the root, `.` and `..`).
pub open spec fn first_component_path(rel: PathModel) -> PathModel {
    if rel.absolute {
        PathModel { absolute: false, parts: Seq::empty() }
    } else {
        component_path_model(rel.parts[0])
    }
}

/// One more nested change under `p`.
pub open spec fn add_count(sums: Seq<(PathModel, nat)>, p: PathModel) -> Seq<(PathModel, nat)> {
    let keys = sums.map_values(|e: (PathModel, nat)| e.0);
    let i = find_path(keys, p);
    if i >= 0 {
        sums.update(i, (p, sums[i].1 + 1))
    } else {
        sums.push((p, 1))
    }
}

/// How the status `kind` of the repository-relative path `key` changes the listing: the
/// entry at the path (or its top-level directory under the target) takes on the status;
/// below a target listed as itself nothing else changes;
/// a deleted file without an entry gets one (unless its name is hidden and `--all` is
/// not given); a nested change within the flatten depth
/// is listed with the metadata read for it; a deeper one counts towards a summary of its
/// top-level directory. Hidden names are skipped without `--all`.
pub open spec fn overlay_step(st: OverlayState, key: PathModel, kind: GitKind, env: OverlayEnv) -> OverlayState {
    let abs = join_model(env.root, key);
    if !starts_with_model(abs, env.target) {
        st
    } else {
        let rel = strip_model(abs, env.target);
        let stages = stages_for(env.stages, abs);
        if is_empty_model(rel) {
            OverlayState { entries: merge_or_add(st.entries, abs, rel, kind, stages), ..st }
        } else if !env.contents {
            st
        } else {
            let depth = component_count(rel);
            let top = join_model(env.target, first_component_path(rel));
            let es1 = merge_into(st.entries, top, kind);
            if depth <= 1 {
                if last_entry_index(es1, abs) < 0 && !env.all && path_hidden(rel) {
                    OverlayState { entries: es1, ..st }
                } else {
                    OverlayState { entries: merge_or_add(es1, abs, rel, kind, stages), ..st }
                }
            } else if reaches(env.flatten, depth) {
                if !env.all && path_hidden(rel) {
                    OverlayState { entries: es1, ..st }
                } else if last_entry_index(es1, abs) >= 0 {
                    OverlayState { entries: es1, ..st }
                } else {
                    match meta_for(env.metas, abs) {
                        None => if kind == GitKind::Deleted {
                            OverlayState {
                                entries: es1.push(with_stages(deleted_model(abs, rel), stages)),
                                ..st
                            }
                        } else {
                            OverlayState { entries: es1, ..st }
                        },
                        Some(m) => OverlayState {
                            entries: es1.push(
                                with_stages(
                                    EntryModel { git: kind, ..meta_entry_model(abs, rel, m, env.long) },
                                    stages,
                                ),
                            ),
                            ..st
                        },
                    }
                }
            } else if !env.all && path_hidden(first_component_path(rel)) {
                OverlayState { entries: es1, ..st }
            } else {
                OverlayState { entries: es1, summaries: add_count(st.summaries, top) }
            }
        }
    }
}

/// The state after the first `k` status records.
pub open spec fn overlay_fold(
    st: OverlayState,
    statuses: Seq<(FsPath, GitKind)>,
    env: OverlayEnv,
    k: nat,
) -> OverlayState
    decreases k,
{
    if k == 0 {
        st
    } else {
        overlay_step(
            overlay_fold(st, statuses, env, (k - 1) as nat),
            statuses[k - 1].0@,
            statuses[k - 1].1,
            env,
        )
    }
}

/// Whether some changed path lies under the directory `rel` of the target.
pub open spec fn has_changes_under(
    keys: Seq<PathModel>,
    root: PathModel,
    target: PathModel,
    rel: PathModel,
) -> bool {
    exists|i: int|
        0 <= i < keys.len() && starts_with_model(
            join_model(root, #[trigger] keys[i]),
            join_model(target, rel),
        )
}

/// A clean directory with changes below it is shown modified.
pub open spec fn marked_dir(e: EntryModel, keys: Seq<PathModel>, root: PathModel, target: PathModel) -> EntryModel {
    if e.kind == EntryKind::Directory && e.git == GitKind::Clean && has_changes_under(
        keys,
        root,
        target,
        e.rel,
    ) {
        EntryModel { git: GitKind::Modified, ..e }
    } else {
        e
    }
}

/// The entry that summarizes `count` nested changes under the directory `top`.
pub open spec fn summary_model(top: PathModel, rel: PathModel, count: nat) -> EntryModel {
    EntryModel {
        abs: top,
        rel,
        kind: EntryKind::Summary { modified_count: count as usize },
        git: GitKind::Modified,
        mode: 0,
        uid: 0,
        has_xattrs: false,
        size: 0,
        modified: None,
        stages: Seq::empty(),
    }
}

/// The entries after adding a summary for each of the first `k` counted directories that
/// has no entry yet.
pub open spec fn add_summaries(
    es: Seq<EntryModel>,
    sums: Seq<(PathModel, nat)>,
    target: PathModel,
    k: nat,
) -> Seq<EntryModel>
    decreases k,
{
    if k == 0 {
        es
    } else {
        let prev = add_summaries(es, sums, target, (k - 1) as nat);
        let (top, count) = sums[k - 1];
        if last_entry_index(prev, top) >= 0 || !starts_with_model(top, target) {
            prev
        } else {
            prev.push(summary_model(top, strip_model(top, target), count))
        }
    }
}

/// The entries after the Git overlay: stage entries attached, every status record
/// applied in order, clean directories with changes below marked modified, and the
/// summaries of deeper changes added.
pub open spec fn overlay_result(es: Seq<EntryModel>, statuses: Seq<(FsPath, GitKind)>, env: OverlayEnv) -> Seq<
    EntryModel,
> {
    let staged = es.map_values(|e: EntryModel| with_stages(e, stages_for(env.stages, e.abs)));
    let st = overlay_fold(
        OverlayState { entries: staged, summaries: Seq::empty() },
        statuses,
        env,
        statuses.len(),
    );
    let marked = st.entries.map_values(
        |e: EntryModel| marked_dir(e, keys_of(statuses), env.root, env.target),
    );
    add_summaries(marked, st.summaries, env.target, st.summaries.len())
}

/// The view of optional borrowed stage entries.
pub open spec fn stages_view(s: Option<&Vec<StageInfo>>) -> Option<Seq<StageInfo>> {
    match s {
        Some(v) => Some(v@),
        None => None,
    }
}

/// The view of the summary counts.
pub open spec fn sums_model(v: Seq<(FsPath, usize)>) -> Seq<(PathModel, nat)> {
    v.map_values(|e: (FsPath, usize)| (e.0@, e.1 as nat))
}

/// The environment of the overlay for these arguments.
pub open spec fn overlay_env(
    target: PathModel,
    git: GitContext,
    options: DirOptions,
    metas: Seq<(FsPath, FileMeta)>,
    contents: bool,
) -> OverlayEnv {
    OverlayEnv {
        target,
        contents,
        root: git.repo_root@,
        stages: git.stages@,
        metas,
        all: options.all,
        long: options.long,
        flatten: options.flatten,
    }
}

/// The position of the last entry at `p`.
fn find_last_entry(entries: &Vec<Entry>, p: &FsPath) -> (r: Option<usize>)
    ensures
        match r {
            Some(i) => i < entries@.len() && i as int == last_entry_index(entry_models(entries@), p@),
            None => last_entry_index(entry_models(entries@), p@) == -1,
        },
{
    let ghost ms = entry_models(entries@);
    let mut i = entries.len();
    proof {
        assert(ms.take(i as int) =~= ms);
    }
    while i > 0
        invariant
            i <= entries@.len(),
            ms == entry_models(entries@),
            last_entry_index(ms, p@) == last_entry_index(ms.take(i as int), p@),
        decreases i,
    {
        proof {
            assert(ms.take(i as int).last() == entries@[i - 1]@);
            assert(ms.take(i as int).drop_last() =~= ms.take(i - 1));
        }
        if entries[i - 1].abs_path.same_as(p) {
            return Some(i - 1);
        }
        i = i - 1;
    }
    None
}

/// Merges `kind` into the status of entry `idx` and attaches the stage entries, if any.
fn merge_entry(entries: &mut Vec<Entry>, idx: usize, kind: GitKind, stages: Option<&Vec<StageInfo>>)
    requires
        idx < old(entries)@.len(),
    ensures
        entry_models(final(entries)@) == entry_models(old(entries)@).update(
            idx as int,
            with_stages(merged(old(entries)@[idx as int]@, kind), stages_view(stages)),
        ),
{
    let mut e = entries.remove(idx);
    e.git = e.git.merge(kind);
    if let Some(st) = stages {
        e.stages = copy_stages(st);
    }
    entries.insert(idx, e);
    proof {
        assert(entry_models(final(entries)@) =~= entry_models(old(entries)@).update(
            idx as int,
            with_stages(merged(old(entries)@[idx as int]@, kind), stages_view(stages)),
        ));
    }
}

fn push_entry(entries: &mut Vec<Entry>, e: Entry)
    ensures
        entry_models(final(entries)@) == entry_models(old(entries)@).push(e@),
{
    entries.push(e);
    proof {
        assert(entry_models(final(entries)@) =~= entry_models(old(entries)@).push(e@));
    }
}

fn merge_or_add_entry(
    entries: &mut Vec<Entry>,
    abs: &FsPath,
    rel: &FsPath,
    kind: GitKind,
    stages: Option<&Vec<StageInfo>>,
)
    ensures
        entry_models(final(entries)@) == merge_or_add(
            entry_models(old(entries)@),
            abs@,
            rel@,
            kind,
            stages_view(stages),
        ),
{
    match find_last_entry(entries, abs) {
        Some(idx) => {
            merge_entry(entries, idx, kind, stages);
        },
        None => {
            if kind == GitKind::Deleted {
                let mut e = Entry::new_deleted(abs.duplicate(), rel.duplicate());
                if let Some(st) = stages {
                    e.stages = copy_stages(st);
                }
                push_entry(entries, e);
            }
        },
    }
}

fn first_component(rel: &FsPath) -> (r: FsPath)
    requires
        !is_empty_model(rel@),
    ensures
        r@ == first_component_path(rel@),
{
    if rel.absolute {
        let r = FsPath::empty();
        proof {
            assert(r@.parts =~= Seq::<Seq<char>>::empty());
        }
        r
    } else {
        component_to_path(&rel.parts[0])
    }
}

fn reaches_depth(flatten: FlattenDepth, rel: &FsPath) -> (r: bool)
    ensures
        r == reaches(flatten, component_count(rel@)),
{
    let depth: u128 = if rel.absolute {
        rel.parts.len() as u128 + 1
    } else {
        rel.parts.len() as u128
    };
    match flatten {
        FlattenDepth::All => true,
        FlattenDepth::Depth(d) => {
            let limit: u128 = if d == usize::MAX {
                d as u128
            } else {
                d as u128 + 1
            };
            depth <= limit
        },
    }
}

fn add_count_exec(sums: &mut Vec<(FsPath, usize)>, top: &FsPath, bound: usize)
    requires
        bound >= 1,
        forall|j: int| 0 <= j < old(sums)@.len() ==> (#[trigger] old(sums)@[j]).1 < bound,
    ensures
        sums_model(final(sums)@) == add_count(sums_model(old(sums)@), top@),
        forall|j: int| 0 <= j < final(sums)@.len() ==> (#[trigger] final(sums)@[j]).1 <= bound,
{
    proof {
        assert(sums_model(sums@).map_values(|e: (PathModel, nat)| e.0) =~= keys_of(sums@));
    }
    match find_key(sums, top) {
        Some(i) => {
            let ghost before = sums@;
            let (key, count) = sums.remove(i);
            sums.insert(i, (key, count + 1));
            proof {
                assert forall|j: int| 0 <= j < final(sums)@.len() implies (#[trigger] final(sums)@[j]).1
                    <= bound by {
                    if j != i {
                        assert(final(sums)@[j] == before[j]);
                    }
                }
                lemma_find_path(keys_of(old(sums)@), top@);
                assert(sums_model(final(sums)@) =~= add_count(sums_model(old(sums)@), top@));
            }
        },
        None => {
            sums.push((top.duplicate(), 1));
            proof {
                assert(sums_model(final(sums)@) =~= add_count(sums_model(old(sums)@), top@));
            }
        },
    }
}

/// Applies one status record to the entries and summary counts.
fn apply_status(
    entries: &mut Vec<Entry>,
    sums: &mut Vec<(FsPath, usize)>,
    key: &FsPath,
    kind: GitKind,
    target_abs: &FsPath,
    git: &GitContext,
    options: &DirOptions,
    metas: &Vec<(FsPath, FileMeta)>,
    by_contents: bool,
    bound: usize,
)
    requires
        bound >= 1,
        forall|j: int| 0 <= j < old(sums)@.len() ==> (#[trigger] old(sums)@[j]).1 < bound,
    ensures
        (OverlayState { entries: entry_models(final(entries)@), summaries: sums_model(final(sums)@) })
            == overlay_step(
            OverlayState {
                entries: entry_models(old(entries)@),
                summaries: sums_model(old(sums)@),
            },
            key@,
            kind,
            overlay_env(target_abs@, *git, *options, metas@, by_contents),
        ),
        forall|j: int| 0 <= j < final(sums)@.len() ==> (#[trigger] final(sums)@[j]).1 <= bound,
{
    let abs = git.repo_root.join(key);
    if !abs.starts_with(target_abs) {
        return;
    }
    let rel = match abs.strip_prefix(target_abs) {
        Some(r) => r,
        None => {
            return;
        },
    };
    let stages = git.stages_of(&abs);
    if rel.is_empty() {
        merge_or_add_entry(entries, &abs, &rel, kind, stages);
        return;
    }
    if !by_contents {
        return;
    }
    let first = first_component(&rel);
    let top = target_abs.join(&first);
    if let Some(ti) = find_last_entry(entries, &top) {
        merge_entry(entries, ti, kind, None);
    }
    let small = (rel.absolute && rel.parts.len() == 0) || (!rel.absolute && rel.parts.len() <= 1);
    if small {
        if !options.all && rel.is_hidden() && find_last_entry(entries, &abs).is_none() {
            return;
        }
        merge_or_add_entry(entries, &abs, &rel, kind, stages);
        return;
    }
    if reaches_depth(options.flatten, &rel) {
        if !options.all && rel.is_hidden() {
            return;
        }
        if find_last_entry(entries, &abs).is_some() {
            return;
        }
        match find_key(metas, &abs) {
            None => {
                if kind == GitKind::Deleted {
                    let mut e = Entry::new_deleted(abs.duplicate(), rel.duplicate());
                    if let Some(st) = stages {
                        e.stages = copy_stages(st);
                    }
                    push_entry(entries, e);
                }
            },
            Some(mi) => {
                let mut e = Entry::new_file_or_dir(abs.duplicate(), rel.duplicate(), metas[mi].1, options.long);
                e.git = kind;
                if let Some(st) = stages {
                    e.stages = copy_stages(st);
                }
                push_entry(entries, e);
            },
        }
        return;
    }
    if !options.all && first.is_hidden() {
        return;
    }
    add_count_exec(sums, &top, bound);
}

fn has_changes_below(git: &GitContext, target_abs: &FsPath, rel: &FsPath) -> (r: bool)
    ensures
        r == has_changes_under(keys_of(git.statuses@), git.repo_root@, target_abs@, rel@),
{
    let dir = target_abs.join(rel);
    let ghost keys = keys_of(git.statuses@);
    let mut i: usize = 0;
    while i < git.statuses.len()
        invariant
            i <= git.statuses.len(),
            keys == keys_of(git.statuses@),
            dir@ == join_model(target_abs@, rel@),
            forall|j: int|
                0 <= j < i ==> !starts_with_model(join_model(git.repo_root@, #[trigger] keys[j]), dir@),
        decreases git.statuses.len() - i,
    {
        let path = git.repo_root.join(&git.statuses[i].0);
        if path.starts_with(&dir) {
            proof {
                assert(keys[i as int] == git.statuses@[i as int].0@);
            }
            return true;
        }
        i = i + 1;
    }
    false
}

/// Lays the Git state over the listed entries: attaches stage entries, applies every
/// status record (merging statuses into existing entries, adding deleted files and
/// flattened nested changes, counting deeper changes), marks clean directories with
/// changes below them as modified, and adds a summary entry per directory of deeper
/// changes. When the target is listed as itself (`by_contents` false), only the status
/// of the target's own path applies. `metas` holds the metadata read for the paths that `flatten_candidates`
/// names; a path without a record counts as missing from disk.
pub fn apply_git_overlay(
    entries: &mut Vec<Entry>,
    target_abs: &FsPath,
    git: &GitContext,
    options: &DirOptions,
    metas: &Vec<(FsPath, FileMeta)>,
    by_contents: bool,
)
    ensures
        entry_models(final(entries)@) == overlay_result(
            entry_models(old(entries)@),
            git.statuses@,
            overlay_env(target_abs@, *git, *options, metas@, by_contents),
        ),
        annotates(entry_models(old(entries)@), entry_models(final(entries)@)),
        distinct_abs(entry_models(old(entries)@)) ==> distinct_abs(entry_models(final(entries)@)),
        !options.all ==> visible_from(entry_models(final(entries)@), old(entries)@.len() as int),
{
    let ghost env = overlay_env(target_abs@, *git, *options, metas@, by_contents);
    let ghost orig = entry_models(entries@);
    let ghost staged = orig.map_values(|e: EntryModel| with_stages(e, stages_for(env.stages, e.abs)));
    let n = entries.len();
    let mut i: usize = 0;
    while i < n
        invariant
            i <= n,
            n == orig.len(),
            env == overlay_env(target_abs@, *git, *options, metas@, by_contents),
            staged == orig.map_values(|e: EntryModel| with_stages(e, stages_for(env.stages, e.abs))),
            entry_models(entries@).len() == n,
            forall|j: int| 0 <= j < i ==> entry_models(entries@)[j] == staged[j],
            forall|j: int| i <= j < n ==> entry_models(entries@)[j] == orig[j],
        decreases n - i,
    {
        let stages = git.stages_of(&entries[i].abs_path);
        if stages.is_some() {
            let ghost before = entry_models(entries@);
            let mut e = entries.remove(i);
            e.stages = copy_stages(stages.unwrap());
            entries.insert(i, e);
            proof {
                assert(entry_models(entries@) =~= before.update(i as int, staged[i as int]));
            }
        }
        i = i + 1;
    }
    proof {
        assert(entry_models(entries@) =~= staged);
    }
    let mut sums: Vec<(FsPath, usize)> = Vec::new();
    proof {
        assert(sums_model(sums@) =~= Seq::<(PathModel, nat)>::empty());
    }
    let ghost st0 = OverlayState { entries: staged, summaries: Seq::empty() };
    let mut k: usize = 0;
    while k < git.statuses.len()
        invariant
            k <= git.statuses.len(),
            env == overlay_env(target_abs@, *git, *options, metas@, by_contents),
            (OverlayState { entries: entry_models(entries@), summaries: sums_model(sums@) })
                == overlay_fold(st0, git.statuses@, env, k as nat),
            forall|j: int| 0 <= j < sums@.len() ==> (#[trigger] sums@[j]).1 <= k,
        decreases git.statuses.len() - k,
    {
        apply_status(
            entries,
            &mut sums,
            &git.statuses[k].0,
            git.statuses[k].1,
            target_abs,
            git,
            options,
            metas,
            by_contents,
            k + 1,
        );
        k = k + 1;
    }
    let ghost st = overlay_fold(st0, git.statuses@, env, git.statuses@.len());
    let ghost marked = st.entries.map_values(
        |e: EntryModel| marked_dir(e, keys_of(git.statuses@), env.root, env.target),
    );
    let m = entries.len();
    let mut i: usize = 0;
    while i < m
        invariant
            i <= m,
            m == st.entries.len(),
            marked == st.entries.map_values(
                |e: EntryModel| marked_dir(e, keys_of(git.statuses@), env.root, env.target),
            ),
            env == overlay_env(target_abs@, *git, *options, metas@, by_contents),
            entry_models(entries@).len() == m,
            forall|j: int| 0 <= j < i ==> entry_models(entries@)[j] == marked[j],
            forall|j: int| i <= j < m ==> entry_models(entries@)[j] == st.entries[j],
        decreases m - i,
    {
        if entries[i].kind == EntryKind::Directory && entries[i].git == GitKind::Clean {
            if has_changes_below(git, target_abs, &entries[i].rel_to_target) {
                let ghost before = entry_models(entries@);
                let mut e = entries.remove(i);
                e.git = GitKind::Modified;
                entries.insert(i, e);
                proof {
                    assert(entry_models(entries@) =~= before.update(i as int, marked[i as int]));
                }
            }
        }
        i = i + 1;
    }
    proof {
        assert(entry_models(entries@) =~= marked);
    }
    let mut j: usize = 0;
    while j < sums.len()
        invariant
            j <= sums@.len(),
            sums_model(sums@) == st.summaries,
            env == overlay_env(target_abs@, *git, *options, metas@, by_contents),
            entry_models(entries@) == add_summaries(marked, st.summaries, env.target, j as nat),
        decreases sums@.len() - j,
    {
        let top = &sums[j].0;
        let count = sums[j].1;
        if find_last_entry(entries, top).is_none() {
            if let Some(rel) = top.strip_prefix(target_abs) {
                let e = Entry {
                    abs_path: top.duplicate(),
                    rel_to_target: rel,
                    kind: EntryKind::Summary { modified_count: count },
                    git: GitKind::Modified,
                    mode: 0,
                    uid: 0,
                    has_xattrs: false,
                    size: 0,
                    modified: None,
                    stages: Vec::new(),
                };
                proof {
                    assert(e@ == summary_model(
                        st.summaries[j as int].0,
                        strip_model(st.summaries[j as int].0, env.target),
                        st.summaries[j as int].1,
                    ));
                }
                push_entry(entries, e);
            }
        }
        j = j + 1;
    }
    proof {
        lemma_overlay_annotates(orig, git.statuses@, env);
        if distinct_abs(orig) {
            lemma_overlay_keeps_paths_distinct(orig, git.statuses@, env);
        }
        if !options.all {
            lemma_overlay_adds_no_hidden(orig, git.statuses@, env);
        }
    }
}

/// Whether `b` is the same listed item as `a`: same place, same kind, same metadata.
pub open spec fn same_item(a: EntryModel, b: EntryModel) -> bool {
    &&& a.abs == b.abs
    &&& a.rel == b.rel
    &&& a.kind == b.kind
    &&& a.mode == b.mode
    &&& a.uid == b.uid
    &&& a.has_xattrs == b.has_xattrs
    &&& a.size == b.size
    &&& a.modified == b.modified
}

/// Whether `out` keeps every entry of `es` in place, as the same item with a status at
/// least as urgent, and only appends after them.
pub open spec fn annotates(es: Seq<EntryModel>, out: Seq<EntryModel>) -> bool {
    &&& es.len() <= out.len()
    &&& forall|i: int|
        0 <= i < es.len() ==> same_item(es[i], #[trigger] out[i]) && rank_of(out[i].git) <= rank_of(
            es[i].git,
        )
}

proof fn lemma_annotates_trans(a: Seq<EntryModel>, b: Seq<EntryModel>, c: Seq<EntryModel>)
    requires
        annotates(a, b),
        annotates(b, c),
    ensures
        annotates(a, c),
{
    assert forall|i: int| 0 <= i < a.len() implies same_item(a[i], #[trigger] c[i]) && rank_of(
        c[i].git,
    ) <= rank_of(a[i].git) by {
        assert(same_item(b[i], c[i]));
    }
}

proof fn lemma_annotates_push(es: Seq<EntryModel>, e: EntryModel)
    ensures
        annotates(es, es.push(e)),
{
    assert forall|i: int| 0 <= i < es.len() implies same_item(es[i], #[trigger] es.push(e)[i])
        && rank_of(es.push(e)[i].git) <= rank_of(es[i].git) by {
        assert(es.push(e)[i] == es[i]);
    }
}

proof fn lemma_last_entry_index_bounds(es: Seq<EntryModel>, p: PathModel)
    ensures
        -1 <= last_entry_index(es, p) < es.len(),
    decreases es.len(),
{
    if es.len() > 0 && es.last().abs != p {
        lemma_last_entry_index_bounds(es.drop_last(), p);
    }
}

proof fn lemma_merge_into_annotates(es: Seq<EntryModel>, p: PathModel, kind: GitKind)
    ensures
        annotates(es, merge_into(es, p, kind)),
{
    lemma_last_entry_index_bounds(es, p);
    let i = last_entry_index(es, p);
    if i >= 0 {
        lemma_merge_picks_min(es[i].git, kind);
    }
}

proof fn lemma_merge_or_add_annotates(
    es: Seq<EntryModel>,
    abs: PathModel,
    rel: PathModel,
    kind: GitKind,
    stages: Option<Seq<StageInfo>>,
)
    ensures
        annotates(es, merge_or_add(es, abs, rel, kind, stages)),
{
    lemma_last_entry_index_bounds(es, abs);
    let i = last_entry_index(es, abs);
    if i >= 0 {
        lemma_merge_picks_min(es[i].git, kind);
    } else if kind == GitKind::Deleted {
        lemma_annotates_push(es, with_stages(deleted_model(abs, rel), stages));
    }
}

proof fn lemma_overlay_step_annotates(st: OverlayState, key: PathModel, kind: GitKind, env: OverlayEnv)
    ensures
        annotates(st.entries, overlay_step(st, key, kind, env).entries),
{
    let abs = join_model(env.root, key);
    if starts_with_model(abs, env.target) {
        let rel = strip_model(abs, env.target);
        let stages = stages_for(env.stages, abs);
        if is_empty_model(rel) {
            lemma_merge_or_add_annotates(st.entries, abs, rel, kind, stages);
        } else if env.contents {
            let top = join_model(env.target, first_component_path(rel));
            let es1 = merge_into(st.entries, top, kind);
            lemma_merge_into_annotates(st.entries, top, kind);
            lemma_merge_or_add_annotates(es1, abs, rel, kind, stages);
            lemma_annotates_trans(
                st.entries,
                es1,
                merge_or_add(es1, abs, rel, kind, stages),
            );
            lemma_annotates_push(es1, with_stages(deleted_model(abs, rel), stages));
            lemma_annotates_trans(
                st.entries,
                es1,
                es1.push(with_stages(deleted_model(abs, rel), stages)),
            );
            match meta_for(env.metas, abs) {
                Some(m) => {
                    let e = with_stages(
                        EntryModel { git: kind, ..meta_entry_model(abs, rel, m, env.long) },
                        stages,
                    );
                    lemma_annotates_push(es1, e);
                    lemma_annotates_trans(st.entries, es1, es1.push(e));
                },
                None => {},
            }
        }
    }
}

proof fn lemma_overlay_fold_annotates(
    st: OverlayState,
    statuses: Seq<(FsPath, GitKind)>,
    env: OverlayEnv,
    k: nat,
)
    requires
        k <= statuses.len(),
    ensures
        annotates(st.entries, overlay_fold(st, statuses, env, k).entries),
    decreases k,
{
    if k > 0 {
        let prev = overlay_fold(st, statuses, env, (k - 1) as nat);
        lemma_overlay_fold_annotates(st, statuses, env, (k - 1) as nat);
        lemma_overlay_step_annotates(prev, statuses[k - 1].0@, statuses[k - 1].1, env);
        lemma_annotates_trans(
            st.entries,
            prev.entries,
            overlay_fold(st, statuses, env, k).entries,
        );
    }
}

proof fn lemma_add_summaries_annotates(
    es: Seq<EntryModel>,
    sums: Seq<(PathModel, nat)>,
    target: PathModel,
    k: nat,
)
    ensures
        annotates(es, add_summaries(es, sums, target, k)),
    decreases k,
{
    if k > 0 {
        let prev = add_summaries(es, sums, target, (k - 1) as nat);
        lemma_add_summaries_annotates(es, sums, target, (k - 1) as nat);
        let (top, count) = sums[k - 1];
        if !(last_entry_index(prev, top) >= 0 || !starts_with_model(top, target)) {
            let e = summary_model(top, strip_model(top, target), count);
            lemma_annotates_push(prev, e);
            lemma_annotates_trans(es, prev, prev.push(e));
        }
    }
}

/// The Git overlay only annotates the listing: every entry stays in its place as the same
/// item (path, kind and metadata unchanged), its status can only become more urgent,
/// and whatever the overlay adds comes after the entries that were there.
pub proof fn lemma_overlay_annotates(es: Seq<EntryModel>, statuses: Seq<(FsPath, GitKind)>, env: OverlayEnv)
    ensures
        annotates(es, overlay_result(es, statuses, env)),
{
    let staged = es.map_values(|e: EntryModel| with_stages(e, stages_for(env.stages, e.abs)));
    let st = overlay_fold(
        OverlayState { entries: staged, summaries: Seq::empty() },
        statuses,
        env,
        statuses.len(),
    );
    let marked = st.entries.map_values(
        |e: EntryModel| marked_dir(e, keys_of(statuses), env.root, env.target),
    );
    assert(annotates(es, staged));
    lemma_overlay_fold_annotates(
        OverlayState { entries: staged, summaries: Seq::empty() },
        statuses,
        env,
        statuses.len(),
    );
    assert(annotates(st.entries, marked));
    lemma_add_summaries_annotates(marked, st.summaries, env.target, st.summaries.len());
    lemma_annotates_trans(es, staged, st.entries);
    lemma_annotates_trans(es, st.entries, marked);
    lemma_annotates_trans(es, marked, overlay_result(es, statuses, env));
}

/// No two entries share an absolute path.
pub open spec fn distinct_abs(es: Seq<EntryModel>) -> bool {
    forall|i: int, j: int| 0 <= i < j < es.len() ==> (#[trigger] es[i]).abs != (#[trigger] es[j]).abs
}

proof fn lemma_last_entry_absent(es: Seq<EntryModel>, p: PathModel)
    requires
        last_entry_index(es, p) < 0,
    ensures
        forall|i: int| 0 <= i < es.len() ==> (#[trigger] es[i]).abs != p,
    decreases es.len(),
{
    if es.len() > 0 {
        lemma_last_entry_absent(es.drop_last(), p);
        assert forall|i: int| 0 <= i < es.len() implies (#[trigger] es[i]).abs != p by {
            if i < es.len() - 1 {
                assert(es[i] == es.drop_last()[i]);
            }
        }
    }
}

proof fn lemma_push_distinct(es: Seq<EntryModel>, e: EntryModel)
    requires
        distinct_abs(es),
        last_entry_index(es, e.abs) < 0,
    ensures
        distinct_abs(es.push(e)),
{
    lemma_last_entry_absent(es, e.abs);
    let r = es.push(e);
    assert forall|i: int, j: int| 0 <= i < j < r.len() implies (#[trigger] r[i]).abs != (
    #[trigger] r[j]).abs by {
        assert(r[i] == es[i]);
        if j < es.len() {
            assert(r[j] == es[j]);
        }
    }
}

proof fn lemma_same_abs_distinct(a: Seq<EntryModel>, b: Seq<EntryModel>)
    requires
        distinct_abs(a),
        a.len() == b.len(),
        forall|i: int| 0 <= i < a.len() ==> (#[trigger] b[i]).abs == a[i].abs,
    ensures
        distinct_abs(b),
{
    assert forall|i: int, j: int| 0 <= i < j < b.len() implies (#[trigger] b[i]).abs != (
    #[trigger] b[j]).abs by {
        assert(a[i].abs != a[j].abs);
    }
}

proof fn lemma_merge_into_distinct(es: Seq<EntryModel>, p: PathModel, kind: GitKind)
    requires
        distinct_abs(es),
    ensures
        distinct_abs(merge_into(es, p, kind)),
{
    lemma_last_entry_index_bounds(es, p);
    lemma_same_abs_distinct(es, merge_into(es, p, kind));
}

proof fn lemma_merge_or_add_distinct(
    es: Seq<EntryModel>,
    abs: PathModel,
    rel: PathModel,
    kind: GitKind,
    stages: Option<Seq<StageInfo>>,
)
    requires
        distinct_abs(es),
    ensures
        distinct_abs(merge_or_add(es, abs, rel, kind, stages)),
{
    lemma_last_entry_index_bounds(es, abs);
    if last_entry_index(es, abs) >= 0 {
        lemma_same_abs_distinct(es, merge_or_add(es, abs, rel, kind, stages));
    } else if kind == GitKind::Deleted {
        lemma_push_distinct(es, with_stages(deleted_model(abs, rel), stages));
    }
}

proof fn lemma_overlay_step_distinct(st: OverlayState, key: PathModel, kind: GitKind, env: OverlayEnv)
    requires
        distinct_abs(st.entries),
    ensures
        distinct_abs(overlay_step(st, key, kind, env).entries),
{
    let abs = join_model(env.root, key);
    if starts_with_model(abs, env.target) {
        let rel = strip_model(abs, env.target);
        let stages = stages_for(env.stages, abs);
        if is_empty_model(rel) {
            lemma_merge_or_add_distinct(st.entries, abs, rel, kind, stages);
        } else if env.contents {
            let top = join_model(env.target, first_component_path(rel));
            let es1 = merge_into(st.entries, top, kind);
            lemma_merge_into_distinct(st.entries, top, kind);
            lemma_merge_or_add_distinct(es1, abs, rel, kind, stages);
            if last_entry_index(es1, abs) < 0 {
                lemma_push_distinct(es1, with_stages(deleted_model(abs, rel), stages));
                match meta_for(env.metas, abs) {
                    Some(m) => {
                        lemma_push_distinct(
                            es1,
                            with_stages(
                                EntryModel { git: kind, ..meta_entry_model(abs, rel, m, env.long) },
                                stages,
                            ),
                        );
                    },
                    None => {},
                }
            }
        }
    }
}

proof fn lemma_overlay_fold_distinct(
    st: OverlayState,
    statuses: Seq<(FsPath, GitKind)>,
    env: OverlayEnv,
    k: nat,
)
    requires
        k <= statuses.len(),
        distinct_abs(st.entries),
    ensures
        distinct_abs(overlay_fold(st, statuses, env, k).entries),
    decreases k,
{
    if k > 0 {
        lemma_overlay_fold_distinct(st, statuses, env, (k - 1) as nat);
        lemma_overlay_step_distinct(
            overlay_fold(st, statuses, env, (k - 1) as nat),
            statuses[k - 1].0@,
            statuses[k - 1].1,
            env,
        );
    }
}

proof fn lemma_add_summaries_distinct(
    es: Seq<EntryModel>,
    sums: Seq<(PathModel, nat)>,
    target: PathModel,
    k: nat,
)
    requires
        distinct_abs(es),
    ensures
        distinct_abs(add_summaries(es, sums, target, k)),
    decreases k,
{
    if k > 0 {
        let prev = add_summaries(es, sums, target, (k - 1) as nat);
        lemma_add_summaries_distinct(es, sums, target, (k - 1) as nat);
        let (top, count) = sums[k - 1];
        if !(last_entry_index(prev, top) >= 0 || !starts_with_model(top, target)) {
            lemma_push_distinct(prev, summary_model(top, strip_model(top, target), count));
        }
    }
}

/// The Git overlay never lists a path twice: when no two entries share an absolute path
/// before it, none do after it.
pub proof fn lemma_overlay_keeps_paths_distinct(
    es: Seq<EntryModel>,
    statuses: Seq<(FsPath, GitKind)>,
    env: OverlayEnv,
)
    requires
        distinct_abs(es),
    ensures
        distinct_abs(overlay_result(es, statuses, env)),
{
    let staged = es.map_values(|e: EntryModel| with_stages(e, stages_for(env.stages, e.abs)));
    let st0 = OverlayState { entries: staged, summaries: Seq::empty() };
    let st = overlay_fold(st0, statuses, env, statuses.len());
    let marked = st.entries.map_values(
        |e: EntryModel| marked_dir(e, keys_of(statuses), env.root, env.target),
    );
    lemma_same_abs_distinct(es, staged);
    lemma_overlay_fold_distinct(st0, statuses, env, statuses.len());
    lemma_same_abs_distinct(st.entries, marked);
    lemma_add_summaries_distinct(marked, st.summaries, env.target, st.summaries.len());
}

/// Every entry from position `n` on has a relative path with no hidden name.
pub open spec fn visible_from(es: Seq<EntryModel>, n: int) -> bool {
    forall|j: int| n <= j < es.len() ==> !path_hidden(#[trigger] es[j].rel)
}

/// Every counted directory lies at a path below the target with no hidden name.
spec fn sums_visible(sums: Seq<(PathModel, nat)>, target: PathModel) -> bool {
    forall|k: int| 0 <= k < sums.len() ==> !path_hidden(strip_model(#[trigger] sums[k].0, target))
}

proof fn lemma_strip_top(target: PathModel, rel: PathModel)
    requires
        !is_empty_model(rel),
    ensures
        strip_model(join_model(target, first_component_path(rel)), target) == first_component_path(rel),
{
    let f = first_component_path(rel);
    if target.absolute || target.parts.len() > 0 {
        crate::path::lemma_strip_after_join(target, f);
        assert(drop_cur(f.parts) == f.parts);
    }
}

proof fn lemma_update_keeps_visible(es: Seq<EntryModel>, i: int, e: EntryModel, n: int)
    requires
        0 <= n,
        visible_from(es, n),
        0 <= i < es.len(),
        e.rel == es[i].rel,
    ensures
        visible_from(es.update(i, e), n),
{
    assert forall|j: int| n <= j < es.update(i, e).len() implies !path_hidden(
        #[trigger] es.update(i, e)[j].rel,
    ) by {
        if j != i {
            assert(es.update(i, e)[j] == es[j]);
        }
    }
}

proof fn lemma_push_keeps_visible(es: Seq<EntryModel>, e: EntryModel, n: int)
    requires
        0 <= n,
        visible_from(es, n),
        !path_hidden(e.rel),
    ensures
        visible_from(es.push(e), n),
{
    assert forall|j: int| n <= j < es.push(e).len() implies !path_hidden(#[trigger] es.push(e)[j].rel) by {
        if j < es.len() {
            assert(es.push(e)[j] == es[j]);
        }
    }
}

proof fn lemma_add_count_visible(sums: Seq<(PathModel, nat)>, p: PathModel, target: PathModel)
    requires
        sums_visible(sums, target),
        !path_hidden(strip_model(p, target)),
    ensures
        sums_visible(add_count(sums, p), target),
{
    let keys = sums.map_values(|e: (PathModel, nat)| e.0);
    lemma_find_path(keys, p);
    let i = find_path(keys, p);
    let r = add_count(sums, p);
    assert forall|k: int| 0 <= k < r.len() implies !path_hidden(strip_model(#[trigger] r[k].0, target)) by {
        if i >= 0 {
            if k != i {
                assert(r[k] == sums[k]);
            }
        } else if k < sums.len() {
            assert(r[k] == sums[k]);
        }
    }
}

proof fn lemma_overlay_step_visible(st: OverlayState, key: PathModel, kind: GitKind, env: OverlayEnv, n: int)
    requires
        !env.all,
        0 <= n <= st.entries.len(),
        visible_from(st.entries, n),
        sums_visible(st.summaries, env.target),
    ensures
        ({
            let r = overlay_step(st, key, kind, env);
            &&& n <= r.entries.len()
            &&& visible_from(r.entries, n)
            &&& sums_visible(r.summaries, env.target)
        }),
{
    let abs = join_model(env.root, key);
    if starts_with_model(abs, env.target) {
        let rel = strip_model(abs, env.target);
        let stages = stages_for(env.stages, abs);
        let es = st.entries;
        lemma_last_entry_index_bounds(es, abs);
        if is_empty_model(rel) {
            assert(!path_hidden(rel));
            if last_entry_index(es, abs) >= 0 {
                let i = last_entry_index(es, abs);
                lemma_update_keeps_visible(es, i, with_stages(merged(es[i], kind), stages), n);
            } else {
                lemma_push_keeps_visible(es, with_stages(deleted_model(abs, rel), stages), n);
            }
        } else if env.contents {
            let top = join_model(env.target, first_component_path(rel));
            let es1 = merge_into(es, top, kind);
            lemma_last_entry_index_bounds(es, top);
            if last_entry_index(es, top) >= 0 {
                let t = last_entry_index(es, top);
                lemma_update_keeps_visible(es, t, merged(es[t], kind), n);
            }
            assert(visible_from(es1, n) && es1.len() == es.len());
            lemma_last_entry_index_bounds(es1, abs);
            if last_entry_index(es1, abs) >= 0 {
                let i = last_entry_index(es1, abs);
                lemma_update_keeps_visible(es1, i, with_stages(merged(es1[i], kind), stages), n);
            } else if !path_hidden(rel) {
                lemma_push_keeps_visible(es1, with_stages(deleted_model(abs, rel), stages), n);
                match meta_for(env.metas, abs) {
                    Some(m) => {
                        lemma_push_keeps_visible(
                            es1,
                            with_stages(
                                EntryModel { git: kind, ..meta_entry_model(abs, rel, m, env.long) },
                                stages,
                            ),
                            n,
                        );
                    },
                    None => {},
                }
            }
            lemma_strip_top(env.target, rel);
            if !path_hidden(first_component_path(rel)) {
                lemma_add_count_visible(st.summaries, top, env.target);
            }
        }
    }
}

proof fn lemma_overlay_fold_visible(
    st: OverlayState,
    statuses: Seq<(FsPath, GitKind)>,
    env: OverlayEnv,
    k: nat,
    n: int,
)
    requires
        !env.all,
        k <= statuses.len(),
        0 <= n <= st.entries.len(),
        visible_from(st.entries, n),
        sums_visible(st.summaries, env.target),
    ensures
        ({
            let r = overlay_fold(st, statuses, env, k);
            &&& n <= r.entries.len()
            &&& visible_from(r.entries, n)
            &&& sums_visible(r.summaries, env.target)
        }),
    decreases k,
{
    if k > 0 {
        lemma_overlay_fold_visible(st, statuses, env, (k - 1) as nat, n);
        lemma_overlay_step_visible(
            overlay_fold(st, statuses, env, (k - 1) as nat),
            statuses[k - 1].0@,
            statuses[k - 1].1,
            env,
            n,
        );
    }
}

proof fn lemma_add_summaries_visible(
    es: Seq<EntryModel>,
    sums: Seq<(PathModel, nat)>,
    target: PathModel,
    k: nat,
    n: int,
)
    requires
        k <= sums.len(),
        0 <= n <= es.len(),
        visible_from(es, n),
        sums_visible(sums, target),
    ensures
        n <= add_summaries(es, sums, target, k).len(),
        visible_from(add_summaries(es, sums, target, k), n),
    decreases k,
{
    if k > 0 {
        let prev = add_summaries(es, sums, target, (k - 1) as nat);
        lemma_add_summaries_visible(es, sums, target, (k - 1) as nat, n);
        let (top, count) = sums[k - 1];
        assert(!path_hidden(strip_model(sums[k - 1].0, target)));
        lemma_push_keeps_visible(prev, summary_model(top, strip_model(top, target), count), n);
    }
}

/// Hidden names need `--all` in the overlay too: without it, nothing the overlay adds to
/// the listing has a hidden name in its path below the target.
pub proof fn lemma_overlay_adds_no_hidden(es: Seq<EntryModel>, statuses: Seq<(FsPath, GitKind)>, env: OverlayEnv)
    requires
        !env.all,
    ensures
        visible_from(overlay_result(es, statuses, env), es.len() as int),
{
    let staged = es.map_values(|e: EntryModel| with_stages(e, stages_for(env.stages, e.abs)));
    let st0 = OverlayState { entries: staged, summaries: Seq::empty() };
    let st = overlay_fold(st0, statuses, env, statuses.len());
    let marked = st.entries.map_values(
        |e: EntryModel| marked_dir(e, keys_of(statuses), env.root, env.target),
    );
    let n = es.len() as int;
    lemma_overlay_fold_visible(st0, statuses, env, statuses.len(), n);
    assert(visible_from(marked, n)) by {
        assert forall|j: int| n <= j < marked.len() implies !path_hidden(#[trigger] marked[j].rel) by {
            assert(marked[j].rel == st.entries[j].rel);
        }
    }
    lemma_add_summaries_visible(marked, st.summaries, env.target, st.summaries.len(), n);
}

/// `--flatten=N` lists a change individually only when its path below the target has
/// at most N + 1 components (and at least two: shallower changes are merged into their
/// entries). In particular the default `--flatten=0` lists no nested change on its own.
/// Within that depth, a change that is not hidden (or with `--all`) is a candidate.
pub proof fn lemma_flatten_depth_bound(key: PathModel, target: PathModel, root: PathModel, options: DirOptions, d: usize)
    requires
        options.flatten == FlattenDepth::Depth(d),
    ensures
        ({
            let abs = join_model(root, key);
            let rel = strip_model(abs, target);
            &&& is_flatten_candidate(key, target, root, options) ==> 2 <= component_count(rel) <= d + 1
            &&& d == 0 ==> !is_flatten_candidate(key, target, root, options)
            &&& (starts_with_model(abs, target) && 2 <= component_count(rel) <= d + 1
                && component_count(rel) <= usize::MAX && (options.all || !path_hidden(rel)))
                ==> is_flatten_candidate(key, target, root, options)
        }),
{
    let rel = strip_model(join_model(root, key), target);
    if component_count(rel) >= 2 {
        assert(!is_empty_model(rel));
    }
}

/// A status record whose path lies more than N + 1 components below the target adds no
/// entry under `--flatten=N` (it may only mark its top-level directory and count towards
/// its summary); one within that depth whose metadata was read, not hidden (or with
/// `--all`) and not listed yet is appended with that path.
pub proof fn lemma_flatten_depth_listing(st: OverlayState, key: PathModel, kind: GitKind, env: OverlayEnv, d: usize)
    requires
        env.flatten == FlattenDepth::Depth(d),
        env.contents,
    ensures
        ({
            let abs = join_model(env.root, key);
            let rel = strip_model(abs, env.target);
            let n = component_count(rel);
            let r = overlay_step(st, key, kind, env);
            &&& n > d + 1 && n >= 2 ==> r.entries.len() == st.entries.len()
            &&& (starts_with_model(abs, env.target) && 2 <= n <= d + 1 && n <= usize::MAX && (env.all
                || !path_hidden(rel))
                && meta_for(env.metas, abs).is_some() && (forall|i: int|
                0 <= i < st.entries.len() ==> (#[trigger] st.entries[i]).abs != abs))
                ==> r.entries.len() == st.entries.len() + 1 && r.entries.last().abs == abs
                && r.entries.last().rel == rel && r.entries.last().git == kind
        }),
{
    let abs = join_model(env.root, key);
    let rel = strip_model(abs, env.target);
    if starts_with_model(abs, env.target) && component_count(rel) >= 2 {
        assert(!is_empty_model(rel));
        let top = join_model(env.target, first_component_path(rel));
        lemma_last_entry_index_bounds(st.entries, top);
        let es1 = merge_into(st.entries, top, kind);
        assert(es1.len() == st.entries.len());
        assert forall|i: int| 0 <= i < es1.len() implies es1[i].abs == st.entries[i].abs by {}
        if forall|i: int| 0 <= i < st.entries.len() ==> (#[trigger] st.entries[i]).abs != abs {
            lemma_last_entry_index_bounds(es1, abs);
            if last_entry_index(es1, abs) >= 0 {
                lemma_last_entry_found(es1, abs);
                assert(st.entries[last_entry_index(es1, abs)].abs == abs);
            }
        }
    }
}

/// `--flatten=all` lists every nested change individually: a change at least two
/// components below the target whose metadata was read, not hidden (or with `--all`)
/// and not listed yet is appended with its own path, and every such change is a
/// flatten candidate.
pub proof fn lemma_flatten_all_listing(st: OverlayState, key: PathModel, kind: GitKind, env: OverlayEnv, options: DirOptions)
    requires
        env.flatten == FlattenDepth::All,
        options.flatten == FlattenDepth::All,
        env.contents,
    ensures
        ({
            let abs = join_model(env.root, key);
            let rel = strip_model(abs, env.target);
            let n = component_count(rel);
            let r = overlay_step(st, key, kind, env);
            &&& (starts_with_model(abs, env.target) && n >= 2 && (options.all || !path_hidden(rel)))
                ==> is_flatten_candidate(key, env.target, env.root, options)
            &&& (starts_with_model(abs, env.target) && n >= 2 && (env.all || !path_hidden(rel))
                && meta_for(env.metas, abs).is_some() && (forall|i: int|
                0 <= i < st.entries.len() ==> (#[trigger] st.entries[i]).abs != abs))
                ==> r.entries.len() == st.entries.len() + 1 && r.entries.last().abs == abs
                && r.entries.last().rel == rel && r.entries.last().git == kind
        }),
{
    let abs = join_model(env.root, key);
    let rel = strip_model(abs, env.target);
    if starts_with_model(abs, env.target) && component_count(rel) >= 2 {
        assert(!is_empty_model(rel));
        let top = join_model(env.target, first_component_path(rel));
        lemma_last_entry_index_bounds(st.entries, top);
        let es1 = merge_into(st.entries, top, kind);
        assert forall|i: int| 0 <= i < es1.len() implies es1[i].abs == st.entries[i].abs by {}
        if forall|i: int| 0 <= i < st.entries.len() ==> (#[trigger] st.entries[i]).abs != abs {
            lemma_last_entry_index_bounds(es1, abs);
            if last_entry_index(es1, abs) >= 0 {
                lemma_last_entry_found(es1, abs);
                assert(st.entries[last_entry_index(es1, abs)].abs == abs);
            }
        }
    }
}

/// The statuses from the most to the least urgent: conflicted, staged, deleted,
/// modified, untracked, ignored, clean. Merging two statuses keeps the one listed first.
pub proof fn lemma_urgency_order(i: int, j: int)
    requires
        0 <= i <= j < 7,
    ensures
        ({
            let order = seq![
                GitKind::Conflicted,
                GitKind::Staged,
                GitKind::Deleted,
                GitKind::Modified,
                GitKind::Untracked,
                GitKind::Ignored,
                GitKind::Clean,
            ];
            &&& merge_of(order[i], order[j]) == order[i]
            &&& merge_of(order[j], order[i]) == order[i]
            &&& i < j ==> rank_of(order[i]) < rank_of(order[j])
        }),
{
}

/// The total of the summary counts.
pub open spec fn count_total(sums: Seq<(PathModel, nat)>) -> nat
    decreases sums.len(),
{
    if sums.len() == 0 {
        0
    } else {
        count_total(sums.drop_last()) + sums.last().1
    }
}

proof fn lemma_count_total_bump(sums: Seq<(PathModel, nat)>, i: int, e: (PathModel, nat))
    requires
        0 <= i < sums.len(),
        e.1 == sums[i].1 + 1,
    ensures
        count_total(sums.update(i, e)) == count_total(sums) + 1,
    decreases sums.len(),
{
    let u = sums.update(i, e);
    if i < sums.len() - 1 {
        lemma_count_total_bump(sums.drop_last(), i, e);
        assert(u.drop_last() =~= sums.drop_last().update(i, e));
    } else {
        assert(u.drop_last() =~= sums.drop_last());
    }
}

/// Each deeper change counts once towards a summary: counting a change under `p` raises
/// the total of the counts by exactly one, keeps every counted directory, and leaves `p`
/// counted.
pub proof fn lemma_add_count_counts_once(sums: Seq<(PathModel, nat)>, p: PathModel)
    ensures
        count_total(add_count(sums, p)) == count_total(sums) + 1,
        add_count(sums, p).len() >= sums.len(),
        forall|k: int| 0 <= k < sums.len() ==> (#[trigger] add_count(sums, p)[k]).0 == sums[k].0,
        exists|k: int| 0 <= k < add_count(sums, p).len() && (#[trigger] add_count(sums, p)[k]).0 == p,
{
    let keys = sums.map_values(|e: (PathModel, nat)| e.0);
    lemma_find_path(keys, p);
    let i = find_path(keys, p);
    let r = add_count(sums, p);
    if i >= 0 {
        assert(keys[i] == sums[i].0);
        lemma_count_total_bump(sums, i, (p, sums[i].1 + 1));
        assert(r[i].0 == p);
    } else {
        assert(r.drop_last() =~= sums);
        assert(r[sums.len() as int].0 == p);
    }
}

proof fn lemma_last_entry_found(es: Seq<EntryModel>, p: PathModel)
    requires
        last_entry_index(es, p) >= 0,
    ensures
        es[last_entry_index(es, p)].abs == p,
    decreases es.len(),
{
    lemma_last_entry_index_bounds(es, p);
    if es.last().abs != p {
        lemma_last_entry_found(es.drop_last(), p);
        lemma_last_entry_index_bounds(es.drop_last(), p);
        assert(es[last_entry_index(es, p)] == es.drop_last()[last_entry_index(es, p)]);
    }
}

proof fn lemma_or_mask(a: u32, b: u32, m: u32)
    by (bit_vector)
    ensures
        ((a | b) & m != 0) == ((a & m != 0) || (b & m != 0)),
{
}

/// Status bits combine by urgency: the status of a combination of bits is the more urgent
/// of the statuses of its parts. With the single-bit statuses below this fixes every
/// combination.
pub proof fn lemma_status_bits_combine(a: u32, b: u32)
    ensures
        kind_from_bits(a | b) == merge_of(kind_from_bits(a), kind_from_bits(b)),
{
    lemma_or_mask(a, b, STATUS_CONFLICTED);
    lemma_or_mask(
        a,
        b,
        STATUS_INDEX_NEW | STATUS_INDEX_MODIFIED | STATUS_INDEX_DELETED | STATUS_INDEX_RENAMED
            | STATUS_INDEX_TYPECHANGE,
    );
    lemma_or_mask(a, b, STATUS_WT_DELETED);
    lemma_or_mask(a, b, STATUS_WT_MODIFIED | STATUS_WT_RENAMED | STATUS_WT_TYPECHANGE);
    lemma_or_mask(a, b, STATUS_WT_NEW);
    lemma_or_mask(a, b, STATUS_IGNORED);
}

/// What each status bit stands for: a conflict; any change staged in the index (new,
/// modified, deleted, renamed or type-changed); a deletion, modification, rename or
/// type change in the work tree; a new file; an ignored file. Bits that stand for none
/// of these leave a file clean; and without a conflict, any index bit means staged.
pub proof fn lemma_status_bits_meaning(bits: u32)
    ensures
        kind_from_bits(0x8000) == GitKind::Conflicted,
        kind_from_bits(0x1) == GitKind::Staged,
        kind_from_bits(0x2) == GitKind::Staged,
        kind_from_bits(0x4) == GitKind::Staged,
        kind_from_bits(0x8) == GitKind::Staged,
        kind_from_bits(0x10) == GitKind::Staged,
        kind_from_bits(0x200) == GitKind::Deleted,
        kind_from_bits(0x100) == GitKind::Modified,
        kind_from_bits(0x800) == GitKind::Modified,
        kind_from_bits(0x400) == GitKind::Modified,
        kind_from_bits(0x80) == GitKind::Untracked,
        kind_from_bits(0x4000) == GitKind::Ignored,
        bits & 0xcf9f == 0 ==> kind_from_bits(bits) == GitKind::Clean,
        bits & 0x8000 == 0 && bits & 0x1f != 0 ==> kind_from_bits(bits) == GitKind::Staged,
        bits & 0x8000 != 0 ==> kind_from_bits(bits) == GitKind::Conflicted,
{
    assert(0x8000u32 & STATUS_CONFLICTED != 0) by (bit_vector);
    assert(bits & 0xcf9f == 0 ==> bits & 0x8000 == 0 && bits & 0x1f == 0 && bits & 0x200 == 0
        && bits & 0xd00 == 0 && bits & 0x80 == 0 && bits & 0x4000 == 0) by (bit_vector);
    assert(STATUS_INDEX_NEW | STATUS_INDEX_MODIFIED | STATUS_INDEX_DELETED | STATUS_INDEX_RENAMED
        | STATUS_INDEX_TYPECHANGE == 0x1f) by (bit_vector);
    assert(STATUS_WT_MODIFIED | STATUS_WT_RENAMED | STATUS_WT_TYPECHANGE == 0xd00) by (bit_vector);
    assert(0x1u32 & 0x8000 == 0 && 0x1u32 & 0x1f != 0) by (bit_vector);
    assert(0x2u32 & 0x8000 == 0 && 0x2u32 & 0x1f != 0) by (bit_vector);
    assert(0x4u32 & 0x8000 == 0 && 0x4u32 & 0x1f != 0) by (bit_vector);
    assert(0x8u32 & 0x8000 == 0 && 0x8u32 & 0x1f != 0) by (bit_vector);
    assert(0x10u32 & 0x8000 == 0 && 0x10u32 & 0x1f != 0) by (bit_vector);
    assert(0x200u32 & 0x8000 == 0 && 0x200u32 & 0x1f == 0 && 0x200u32 & 0x200 != 0) by (bit_vector);
    assert(0x100u32 & 0x8000 == 0 && 0x100u32 & 0x1f == 0 && 0x100u32 & 0x200 == 0 && 0x100u32 & 0xd00
        != 0) by (bit_vector);
    assert(0x800u32 & 0x8000 == 0 && 0x800u32 & 0x1f == 0 && 0x800u32 & 0x200 == 0 && 0x800u32 & 0xd00
        != 0) by (bit_vector);
    assert(0x400u32 & 0x8000 == 0 && 0x400u32 & 0x1f == 0 && 0x400u32 & 0x200 == 0 && 0x400u32 & 0xd00
        != 0) by (bit_vector);
    assert(0x80u32 & 0x8000 == 0 && 0x80u32 & 0x1f == 0 && 0x80u32 & 0x200 == 0 && 0x80u32 & 0xd00 == 0
        && 0x80u32 & 0x80 != 0) by (bit_vector);
    assert(0x4000u32 & 0x8000 == 0 && 0x4000u32 & 0x1f == 0 && 0x4000u32 & 0x200 == 0 && 0x4000u32
        & 0xd00 == 0 && 0x4000u32 & 0x80 == 0 && 0x4000u32 & 0x4000 != 0) by (bit_vector);
}

/// The absolute paths whose metadata the overlay may read: changed paths under the
/// target, nested at least two levels and within the flatten depth, not hidden unless
/// `--all` is given.
pub open spec fn is_flatten_candidate(key: PathModel, target: PathModel, root: PathModel, options: DirOptions) -> bool {
    let abs = join_model(root, key);
    let rel = strip_model(abs, target);
    &&& starts_with_model(abs, target)
    &&& !is_empty_model(rel)
    &&& component_count(rel) > 1
    &&& reaches(options.flatten, component_count(rel))
    &&& (options.all || !path_hidden(rel))
}

/// The absolute paths of the changes that may be listed individually, in status order.
pub fn flatten_candidates(target_abs: &FsPath, git: &GitContext, options: &DirOptions) -> (r: Vec<FsPath>)
    ensures
        r@.map_values(|p: FsPath| p@) == git.statuses@.filter(
            |e: (FsPath, GitKind)| is_flatten_candidate(e.0@, target_abs@, git.repo_root@, *options),
        ).map_values(|e: (FsPath, GitKind)| join_model(git.repo_root@, e.0@)),
{
    let ghost pred = |e: (FsPath, GitKind)| is_flatten_candidate(e.0@, target_abs@, git.repo_root@, *options);
    let ghost conv = |e: (FsPath, GitKind)| join_model(git.repo_root@, e.0@);
    let mut out: Vec<FsPath> = Vec::new();
    let mut k: usize = 0;
    while k < git.statuses.len()
        invariant
            k <= git.statuses.len(),
            pred == (|e: (FsPath, GitKind)| is_flatten_candidate(e.0@, target_abs@, git.repo_root@, *options)),
            conv == (|e: (FsPath, GitKind)| join_model(git.repo_root@, e.0@)),
            out@.map_values(|p: FsPath| p@) == git.statuses@.take(k as int).filter(pred).map_values(conv),
        decreases git.statuses.len() - k,
    {
        let abs = git.repo_root.join(&git.statuses[k].0);
        let mut keep = false;
        if abs.starts_with(target_abs) {
            if let Some(rel) = abs.strip_prefix(target_abs) {
                if !rel.is_empty() {
                    let small = (rel.absolute && rel.parts.len() == 0) || (!rel.absolute && rel.parts.len()
                        <= 1);
                    if !small && reaches_depth(options.flatten, &rel) && (options.all || !rel.is_hidden()) {
                        keep = true;
                    }
                }
            }
        }
        let ghost before = out@;
        proof {
            assert(keep == pred(git.statuses@[k as int]));
            assert(git.statuses@.take(k + 1).drop_last() =~= git.statuses@.take(k as int));
            reveal(Seq::filter);
        }
        if keep {
            out.push(abs);
            proof {
                assert(out@.map_values(|p: FsPath| p@) =~= before.map_values(|p: FsPath| p@).push(
                    conv(git.statuses@[k as int]),
                ));
            }
        }
        k = k + 1;
    }
    proof {
        assert(git.statuses@.take(git.statuses@.len() as int) =~= git.statuses@);
    }
    out
}

/// Distinct statuses have distinct ranks, so the rank orders statuses totally.
pub proof fn lemma_rank_injective(a: GitKind, b: GitKind)
    ensures
        rank_of(a) == rank_of(b) <==> a == b,
        rank_of(a) <= 6,
{
}

/// Merging keeps one of the two statuses, the one of lower rank.
pub proof fn lemma_merge_picks_min(a: GitKind, b: GitKind)
    ensures
        merge_of(a, b) == a || merge_of(a, b) == b,
        rank_of(merge_of(a, b)) <= rank_of(a),
        rank_of(merge_of(a, b)) <= rank_of(b),
{
}

/// Merging statuses is commutative: the order in which two statuses of one path are
/// seen does not matter.
pub proof fn lemma_merge_commutative(a: GitKind, b: GitKind)
    ensures
        merge_of(a, b) == merge_of(b, a),
{
}

/// Merging statuses is associative.
pub proof fn lemma_merge_associative(a: GitKind, b: GitKind, c: GitKind)
    ensures
        merge_of(merge_of(a, b), c) == merge_of(a, merge_of(b, c)),
{
}

/// Merging a status with itself changes nothing.
pub proof fn lemma_merge_idempotent(a: GitKind)
    ensures
        merge_of(a, a) == a,
{
}

/// `Clean` is neutral for merging, and `Conflicted` absorbs every other status.
pub proof fn lemma_merge_clean_and_conflicted(a: GitKind)
    ensures
        merge_of(a, GitKind::Clean) == a,
        merge_of(GitKind::Clean, a) == a,
        merge_of(a, GitKind::Conflicted) == GitKind::Conflicted,
        merge_of(GitKind::Conflicted, a) == GitKind::Conflicted,
{
}

} // verus!
