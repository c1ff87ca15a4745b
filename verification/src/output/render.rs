//! # output/render
//!
//! The rendered form of an entry, how its path is shown, and the order of the listing.
use vstd::prelude::*;

use crate::fs::file::{Entry, EntryKind, FileTime};
use crate::fs::git::{GitContext, GitKind, StageInfo};
use crate::options::cli::SortField;
use crate::options::config::RenderOptions;
use crate::path::{display_of, starts_with_model, strip_model, FsPath, PathModel};
use crate::text::{dec_digits, decimal, push_char, push_str};

verus! {

/// An entry ready for output: its shown path and the metadata the renderers use.
#[derive(Debug)]
pub struct RenderedEntry {
    pub path: String,
    pub kind: EntryKind,
    pub git: GitKind,
    pub mode: Option<u32>,
    pub uid: Option<u32>,
    pub has_xattrs: bool,
    pub size: u64,
    pub modified: Option<FileTime>,
    pub stages: Vec<StageInfo>,
}

/// The path shown for an entry before any summary suffix: the absolute path with
/// `--absolute`; with `--full-name` the path relative to the repository root (or, outside
/// a repository, to the target) when the entry lies under it; otherwise the path
/// relative to the target.
pub open spec fn base_path_text(
    abs: PathModel,
    rel: PathModel,
    target: PathModel,
    repo_root: Option<PathModel>,
    absolute: bool,
    full_name: bool,
) -> Seq<char> {
    if absolute {
        display_of(abs)
    } else if full_name {
        let root = match repo_root {
            Some(r) => r,
            None => target,
        };
        if starts_with_model(abs, root) {
            display_of(strip_model(abs, root))
        } else {
            display_of(rel)
        }
    } else {
        display_of(rel)
    }
}

/// The text ` modified files)`.
pub open spec fn modified_files_suffix() -> Seq<char> {
    seq![' ', 'm', 'o', 'd', 'i', 'f', 'i', 'e', 'd', ' ', 'f', 'i', 'l', 'e', 's', ')']
}

/// The shown path: a summary gets a trailing `/` (unless there is one) and
/// ` (N modified files)`.
pub open spec fn path_text(base: Seq<char>, kind: EntryKind) -> Seq<char> {
    match kind {
        EntryKind::Summary { modified_count } => {
            let prefix = if base.len() > 0 && base.last() == '/' {
                base
            } else {
                base.push('/')
            };
            prefix + seq![' ', '('] + dec_digits(modified_count as nat) + modified_files_suffix()
        },
        _ => base,
    }
}

/// The repository root of an optional Git context.
pub open spec fn root_of(git: Option<&GitContext>) -> Option<PathModel> {
    match git {
        Some(g) => Some(g.repo_root@),
        None => None,
    }
}

/// Formats the path of an entry as configured: absolute, relative to the repository
/// root, or relative to the target; summaries get their count of modified files.
pub fn render_path(
    entry: &Entry,
    target_abs: &FsPath,
    git: Option<&GitContext>,
    options: &RenderOptions,
) -> (r: String)
    ensures
        r@ == path_text(
            base_path_text(
                entry.abs_path@,
                entry.rel_to_target@,
                target_abs@,
                root_of(git),
                options.absolute,
                options.full_name,
            ),
            entry.kind,
        ),
{
    let base_path = if options.absolute {
        entry.abs_path.to_display_string()
    } else if options.full_name {
        let root = match git {
            Some(g) => &g.repo_root,
            None => target_abs,
        };
        match entry.abs_path.strip_prefix(root) {
            Some(path) => path.to_display_string(),
            None => entry.rel_to_target.to_display_string(),
        }
    } else {
        entry.rel_to_target.to_display_string()
    };
    match entry.kind {
        EntryKind::Summary { modified_count } => {
            let n = base_path.as_str().unicode_len();
            let mut prefix = base_path;
            if !(n > 0 && prefix.as_str().get_char(n - 1) == '/') {
                push_char(&mut prefix, '/');
            }
            push_str(&mut prefix, " (");
            let count = decimal(modified_count as u64);
            push_str(&mut prefix, count.as_str());
            push_str(&mut prefix, " modified files)");
            proof {
                reveal_strlit(" (");
                reveal_strlit(" modified files)");
                assert(" ("@ =~= seq![' ', '(']);
                assert(" modified files)"@ =~= modified_files_suffix());
            }
            prefix
        },
        _ => base_path,
    }
}

/// Lexicographic order of two texts by characters: -1, 0 or 1. (Ordering strings by
/// their UTF-8 bytes gives the same order, as UTF-8 preserves code point order.)
pub open spec fn text_order(a: Seq<char>, b: Seq<char>) -> int
    decreases a.len(),
{
    if a.len() == 0 {
        if b.len() == 0 {
            0
        } else {
            -1
        }
    } else if b.len() == 0 {
        1
    } else if (a[0] as u32) < (b[0] as u32) {
        -1
    } else if (a[0] as u32) > (b[0] as u32) {
        1
    } else {
        text_order(a.drop_first(), b.drop_first())
    }
}

/// Order of two integers: -1, 0 or 1.
pub open spec fn num_order(a: int, b: int) -> int {
    if a < b {
        -1
    } else if a > b {
        1
    } else {
        0
    }
}

/// Order of two optional times: a missing time comes first, then earlier before later.
pub open spec fn time_order(a: Option<FileTime>, b: Option<FileTime>) -> int {
    match (a, b) {
        (Some(l), Some(r)) => num_order(l.unix_nanos as int, r.unix_nanos as int),
        (Some(_), None) => 1,
        (None, Some(_)) => -1,
        (None, None) => 0,
    }
}

/// `first` unless it is 0, then `second`.
pub open spec fn then_order(first: int, second: int) -> int {
    if first != 0 {
        first
    } else {
        second
    }
}

/// The order of two entries under a sort key: by name; by size (largest first); by
/// time (newest first); or by Git status urgency (also without a key); ties by name.
pub open spec fn entry_order(l: RenderedEntry, r: RenderedEntry, sort: Option<SortField>) -> int {
    let by_path = text_order(l.path@, r.path@);
    match sort {
        Some(SortField::Name) => by_path,
        Some(SortField::Size) => then_order(num_order(r.size as int, l.size as int), by_path),
        Some(SortField::Time) => then_order(time_order(r.modified, l.modified), by_path),
        _ => then_order(
            num_order(crate::fs::git::rank_of(l.git) as int, crate::fs::git::rank_of(r.git) as int),
            by_path,
        ),
    }
}

/// The position before which `x` goes in `s`: the first element that orders after `x`.
pub open spec fn insert_position(s: Seq<RenderedEntry>, x: RenderedEntry, sort: Option<SortField>) -> int
    decreases s.len(),
{
    if s.len() == 0 {
        0
    } else if entry_order(s[0], x, sort) > 0 {
        0
    } else {
        1 + insert_position(s.drop_first(), x, sort)
    }
}

/// `s` sorted by `sort`, keeping entries that order equally in the order they came in.
pub open spec fn sorted_by(s: Seq<RenderedEntry>, sort: Option<SortField>) -> Seq<RenderedEntry>
    decreases s.len(),
{
    if s.len() == 0 {
        s
    } else {
        let rest = sorted_by(s.drop_last(), sort);
        rest.insert(insert_position(rest, s.last(), sort), s.last())
    }
}

proof fn lemma_insert_position(s: Seq<RenderedEntry>, x: RenderedEntry, sort: Option<SortField>)
    ensures
        0 <= insert_position(s, x, sort) <= s.len(),
        forall|j: int| 0 <= j < insert_position(s, x, sort) ==> entry_order(s[j], x, sort) <= 0,
        insert_position(s, x, sort) < s.len() ==> entry_order(
            s[insert_position(s, x, sort)],
            x,
            sort,
        ) > 0,
    decreases s.len(),
{
    if s.len() > 0 && entry_order(s[0], x, sort) <= 0 {
        lemma_insert_position(s.drop_first(), x, sort);
        assert forall|j: int| 0 <= j < insert_position(s, x, sort) implies entry_order(
            s[j],
            x,
            sort,
        ) <= 0 by {
            if j > 0 {
                assert(s[j] == s.drop_first()[j - 1]);
            }
        }
    }
}

fn text_order_exec(a: &str, b: &str) -> (r: i8)
    ensures
        r as int == text_order(a@, b@),
{
    let na = a.unicode_len();
    let nb = b.unicode_len();
    let mut i: usize = 0;
    proof {
        assert(a@.skip(0) =~= a@);
        assert(b@.skip(0) =~= b@);
    }
    while i < na && i < nb
        invariant
            na == a@.len(),
            nb == b@.len(),
            i <= na,
            i <= nb,
            text_order(a@, b@) == text_order(a@.skip(i as int), b@.skip(i as int)),
        decreases na - i,
    {
        let ca = a.get_char(i);
        let cb = b.get_char(i);
        proof {
            assert(a@.skip(i as int)[0] == ca);
            assert(b@.skip(i as int)[0] == cb);
            assert(a@.skip(i as int).drop_first() =~= a@.skip(i + 1));
            assert(b@.skip(i as int).drop_first() =~= b@.skip(i + 1));
        }
        if (ca as u32) < (cb as u32) {
            return -1;
        }
        if (ca as u32) > (cb as u32) {
            return 1;
        }
        i = i + 1;
    }
    if i == na {
        if i == nb {
            0
        } else {
            -1
        }
    } else {
        1
    }
}

fn num_order_exec(a: u64, b: u64) -> (r: i8)
    ensures
        r as int == num_order(a as int, b as int),
{
    if a < b {
        -1
    } else if a > b {
        1
    } else {
        0
    }
}

fn compare_modified(left: Option<FileTime>, right: Option<FileTime>) -> (r: i8)
    ensures
        r as int == time_order(left, right),
{
    match (left, right) {
        (Some(l), Some(r)) => {
            if l.unix_nanos < r.unix_nanos {
                -1
            } else if l.unix_nanos > r.unix_nanos {
                1
            } else {
                0
            }
        },
        (Some(_), None) => 1,
        (None, Some(_)) => -1,
        (None, None) => 0,
    }
}

fn entry_order_exec(l: &RenderedEntry, r: &RenderedEntry, sort: Option<SortField>) -> (o: i8)
    ensures
        o as int == entry_order(*l, *r, sort),
{
    let by_path = text_order_exec(l.path.as_str(), r.path.as_str());
    let first = match sort {
        Some(SortField::Name) => 0,
        Some(SortField::Size) => num_order_exec(r.size, l.size),
        Some(SortField::Time) => compare_modified(r.modified, l.modified),
        _ => num_order_exec(l.git.rank() as u64, r.git.rank() as u64),
    };
    if first != 0 {
        first
    } else {
        by_path
    }
}

/// Sorts the entries by the sort key (Git status urgency when there is none), ties by
/// path; entries that order equally keep their order.
pub fn sort_entries(entries: &mut Vec<RenderedEntry>, sort: Option<SortField>)
    ensures
        final(entries)@ == sorted_by(old(entries)@, sort),
        is_sorted_by(final(entries)@, sort),
        final(entries)@.to_multiset() == old(entries)@.to_multiset(),
        forall|x: RenderedEntry| #[trigger] ties_of(final(entries)@, x, sort) == ties_of(old(entries)@, x, sort),
{
    let ghost orig = entries@;
    let mut input: Vec<RenderedEntry> = Vec::new();
    std::mem::swap(entries, &mut input);
    let mut out: Vec<RenderedEntry> = Vec::new();
    let n = input.len();
    let mut k: usize = 0;
    while k < n
        invariant
            k <= n,
            n == orig.len(),
            input@ == orig.skip(k as int),
            out@ == sorted_by(orig.take(k as int), sort),
        decreases n - k,
    {
        let x = input.remove(0);
        let ghost sorted_prefix = out@;
        proof {
            lemma_insert_position(sorted_prefix, x, sort);
        }
        let mut pos: usize = 0;
        while pos < out.len() && entry_order_exec(&out[pos], &x, sort) <= 0
            invariant
                out@ == sorted_prefix,
                pos <= out.len(),
                0 <= insert_position(sorted_prefix, x, sort) <= sorted_prefix.len(),
                forall|j: int| 0 <= j < insert_position(sorted_prefix, x, sort) ==> entry_order(
                    sorted_prefix[j],
                    x,
                    sort,
                ) <= 0,
                insert_position(sorted_prefix, x, sort) < sorted_prefix.len() ==> entry_order(
                    sorted_prefix[insert_position(sorted_prefix, x, sort)],
                    x,
                    sort,
                ) > 0,
                pos <= insert_position(sorted_prefix, x, sort),
            decreases out.len() - pos,
        {
            pos = pos + 1;
        }
        out.insert(pos, x);
        k = k + 1;
        proof {
            assert(orig.take(k as int).drop_last() =~= orig.take(k - 1));
            assert(orig.take(k as int).last() == x);
            assert(input@ =~= orig.skip(k as int));
        }
    }
    proof {
        assert(orig.take(n as int) =~= orig);
        lemma_sorted_by_is_sorted(orig, sort);
        lemma_sorted_by_permutes(orig, sort);
        assert forall|x: RenderedEntry| #[trigger] ties_of(out@, x, sort) == ties_of(orig, x, sort) by {
            lemma_sorted_by_stable(orig, x, sort);
        }
    }
    *entries = out;
}

/// Whether `s` is in order under `sort`: no entry orders after a later one.
pub open spec fn is_sorted_by(s: Seq<RenderedEntry>, sort: Option<SortField>) -> bool {
    forall|i: int, j: int| 0 <= i < j < s.len() ==> #[trigger] entry_order(s[i], s[j], sort) <= 0
}

proof fn lemma_text_order_antisymmetric(a: Seq<char>, b: Seq<char>)
    ensures
        text_order(a, b) == -text_order(b, a),
    decreases a.len(),
{
    if a.len() > 0 && b.len() > 0 && (a[0] as u32) == (b[0] as u32) {
        lemma_text_order_antisymmetric(a.drop_first(), b.drop_first());
    }
}

proof fn lemma_text_order_transitive(a: Seq<char>, b: Seq<char>, c: Seq<char>)
    requires
        text_order(a, b) <= 0,
        text_order(b, c) <= 0,
    ensures
        text_order(a, c) <= 0,
    decreases a.len(),
{
    if a.len() > 0 && b.len() > 0 && c.len() > 0 && (a[0] as u32) == (b[0] as u32) && (b[0] as u32)
        == (c[0] as u32) {
        lemma_text_order_transitive(a.drop_first(), b.drop_first(), c.drop_first());
    }
}

/// Two entries compare in opposite ways depending on which comes first.
pub proof fn lemma_entry_order_antisymmetric(a: RenderedEntry, b: RenderedEntry, sort: Option<SortField>)
    ensures
        entry_order(a, b, sort) == -entry_order(b, a, sort),
{
    lemma_text_order_antisymmetric(a.path@, b.path@);
}

/// If `a` orders no later than `b` and `b` no later than `c`, then `a` orders no later than `c`.
pub proof fn lemma_entry_order_transitive(
    a: RenderedEntry,
    b: RenderedEntry,
    c: RenderedEntry,
    sort: Option<SortField>,
)
    requires
        entry_order(a, b, sort) <= 0,
        entry_order(b, c, sort) <= 0,
    ensures
        entry_order(a, c, sort) <= 0,
{
    let ab = text_order(a.path@, b.path@);
    let bc = text_order(b.path@, c.path@);
    if ab <= 0 && bc <= 0 {
        lemma_text_order_transitive(a.path@, b.path@, c.path@);
    }
}

proof fn lemma_insert_keeps_sorted(s: Seq<RenderedEntry>, x: RenderedEntry, sort: Option<SortField>)
    requires
        is_sorted_by(s, sort),
    ensures
        is_sorted_by(s.insert(insert_position(s, x, sort), x), sort),
{
    lemma_insert_position(s, x, sort);
    let p = insert_position(s, x, sort);
    let r = s.insert(p, x);
    assert forall|i: int, j: int| 0 <= i < j < r.len() implies #[trigger] entry_order(
        r[i],
        r[j],
        sort,
    ) <= 0 by {
        if j < p {
            assert(entry_order(s[i], s[j], sort) <= 0);
        } else if j == p {
            assert(r[i] == s[i]);
        } else if i > p {
            assert(entry_order(s[i - 1], s[j - 1], sort) <= 0);
        } else if i < p {
            assert(entry_order(s[i], s[j - 1], sort) <= 0);
        } else {
            lemma_entry_order_antisymmetric(s[p], x, sort);
            if j - 1 > p {
                assert(entry_order(s[p], s[j - 1], sort) <= 0);
                lemma_entry_order_transitive(x, s[p], s[j - 1], sort);
            }
        }
    }
}

/// Sorting puts the entries in order: no entry orders after one that follows it.
pub proof fn lemma_sorted_by_is_sorted(s: Seq<RenderedEntry>, sort: Option<SortField>)
    ensures
        is_sorted_by(sorted_by(s, sort), sort),
    decreases s.len(),
{
    if s.len() > 0 {
        lemma_sorted_by_is_sorted(s.drop_last(), sort);
        lemma_insert_keeps_sorted(sorted_by(s.drop_last(), sort), s.last(), sort);
    }
}

/// Sorting neither adds nor drops an entry: the result holds the same entries, each as
/// often as the input does.
pub proof fn lemma_sorted_by_permutes(s: Seq<RenderedEntry>, sort: Option<SortField>)
    ensures
        sorted_by(s, sort).to_multiset() == s.to_multiset(),
    decreases s.len(),
{
    broadcast use vstd::seq_lib::to_multiset_build, vstd::seq_lib::to_multiset_insert;

    if s.len() > 0 {
        let rest = sorted_by(s.drop_last(), sort);
        lemma_sorted_by_permutes(s.drop_last(), sort);
        lemma_insert_position(rest, s.last(), sort);
        assert(s.drop_last().push(s.last()) =~= s);
    } else {
        assert(sorted_by(s, sort) == s);
    }
}

/// The entries of `s` that order equally with `x`, in the order they appear.
pub open spec fn ties_of(s: Seq<RenderedEntry>, x: RenderedEntry, sort: Option<SortField>) -> Seq<RenderedEntry>
    decreases s.len(),
{
    if s.len() == 0 {
        Seq::empty()
    } else {
        let prev = ties_of(s.drop_last(), x, sort);
        if entry_order(s.last(), x, sort) == 0 {
            prev.push(s.last())
        } else {
            prev
        }
    }
}

proof fn lemma_ties_append(a: Seq<RenderedEntry>, b: Seq<RenderedEntry>, x: RenderedEntry, sort: Option<SortField>)
    ensures
        ties_of(a + b, x, sort) == ties_of(a, x, sort) + ties_of(b, x, sort),
    decreases b.len(),
{
    if b.len() == 0 {
        assert(a + b =~= a);
        assert(ties_of(a, x, sort) + ties_of(b, x, sort) =~= ties_of(a, x, sort));
    } else {
        lemma_ties_append(a, b.drop_last(), x, sort);
        assert((a + b).drop_last() =~= a + b.drop_last());
        assert((a + b).last() == b.last());
        if entry_order(b.last(), x, sort) == 0 {
            assert(ties_of(a, x, sort) + ties_of(b.drop_last(), x, sort).push(b.last()) =~= (ties_of(
                a,
                x,
                sort,
            ) + ties_of(b.drop_last(), x, sort)).push(b.last()));
        }
    }
}

proof fn lemma_no_ties(b: Seq<RenderedEntry>, x: RenderedEntry, sort: Option<SortField>)
    requires
        forall|j: int| 0 <= j < b.len() ==> entry_order(#[trigger] b[j], x, sort) != 0,
    ensures
        ties_of(b, x, sort) == Seq::<RenderedEntry>::empty(),
    decreases b.len(),
{
    if b.len() > 0 {
        assert(entry_order(b[b.len() - 1], x, sort) != 0);
        lemma_no_ties(b.drop_last(), x, sort);
    }
}

proof fn lemma_ties_share_class(a: RenderedEntry, x: RenderedEntry, y: RenderedEntry, sort: Option<SortField>)
    requires
        entry_order(a, x, sort) == 0,
        entry_order(y, x, sort) == 0,
    ensures
        entry_order(a, y, sort) == 0,
{
    lemma_entry_order_antisymmetric(a, x, sort);
    lemma_entry_order_antisymmetric(y, x, sort);
    lemma_entry_order_antisymmetric(a, y, sort);
    lemma_entry_order_transitive(a, x, y, sort);
    lemma_entry_order_transitive(y, x, a, sort);
}

proof fn lemma_insert_ties(s: Seq<RenderedEntry>, y: RenderedEntry, x: RenderedEntry, sort: Option<SortField>)
    requires
        is_sorted_by(s, sort),
    ensures
        ties_of(s.insert(insert_position(s, y, sort), y), x, sort) == ties_of(s.push(y), x, sort),
{
    lemma_insert_position(s, y, sort);
    let p = insert_position(s, y, sort);
    let front = s.take(p);
    let back = s.skip(p);
    assert(s =~= front + back);
    assert(s.insert(p, y) =~= front + seq![y] + back);
    assert(s.push(y) =~= front + back + seq![y]);
    if entry_order(y, x, sort) == 0 {
        assert forall|j: int| 0 <= j < back.len() implies entry_order(#[trigger] back[j], x, sort) != 0 by {
            assert(back[j] == s[p + j]);
            if j > 0 {
                assert(entry_order(s[p], s[p + j], sort) <= 0);
            }
            lemma_entry_order_antisymmetric(s[p], y, sort);
            if entry_order(s[p + j], y, sort) <= 0 {
                if j > 0 {
                    lemma_entry_order_transitive(s[p], s[p + j], y, sort);
                }
            }
            if entry_order(back[j], x, sort) == 0 {
                lemma_ties_share_class(back[j], x, y, sort);
            }
        }
        lemma_no_ties(back, x, sort);
    }
    lemma_ties_append(front + seq![y], back, x, sort);
    lemma_ties_append(front, seq![y], x, sort);
    lemma_ties_append(front + back, seq![y], x, sort);
    lemma_ties_append(front, back, x, sort);
    assert(seq![y].drop_last() =~= Seq::<RenderedEntry>::empty());
    assert(seq![y].last() == y);
    assert(ties_of(seq![y].drop_last(), x, sort) =~= Seq::<RenderedEntry>::empty());
    assert(ties_of(front, x, sort) + ties_of(seq![y], x, sort) + ties_of(back, x, sort) =~= ties_of(
        front,
        x,
        sort,
    ) + ties_of(back, x, sort) + ties_of(seq![y], x, sort));
}

/// Sorting is stable: the entries that order equally with any given entry come out in
/// the order they came in.
pub proof fn lemma_sorted_by_stable(s: Seq<RenderedEntry>, x: RenderedEntry, sort: Option<SortField>)
    ensures
        ties_of(sorted_by(s, sort), x, sort) == ties_of(s, x, sort),
    decreases s.len(),
{
    if s.len() > 0 {
        let rest = sorted_by(s.drop_last(), sort);
        lemma_sorted_by_stable(s.drop_last(), x, sort);
        lemma_sorted_by_is_sorted(s.drop_last(), sort);
        lemma_insert_ties(rest, s.last(), x, sort);
        assert(rest.push(s.last()).drop_last() =~= rest);
        assert(s.drop_last().push(s.last()) =~= s);
    }
}

/// The sorted listing follows its key: grouped by Git status from the most urgent (also
/// without a key), largest first by size, newest first by time (entries without a time
/// last), and by name.
pub proof fn lemma_sorted_by_key(s: Seq<RenderedEntry>, sort: Option<SortField>, i: int, j: int)
    requires
        0 <= i < j < s.len(),
    ensures
        ({
            let r = sorted_by(s, sort);
            &&& (sort.is_none() || sort == Some(SortField::Git)) ==> crate::fs::git::rank_of(r[i].git)
                <= crate::fs::git::rank_of(r[j].git)
            &&& sort == Some(SortField::Size) ==> r[i].size >= r[j].size
            &&& sort == Some(SortField::Time) ==> time_order(r[i].modified, r[j].modified) >= 0
            &&& sort == Some(SortField::Time) && r[i].modified.is_some() && r[j].modified.is_some()
                ==> r[i].modified.unwrap().unix_nanos >= r[j].modified.unwrap().unix_nanos
            &&& sort == Some(SortField::Time) && r[i].modified.is_none() ==> r[j].modified.is_none()
            &&& sort == Some(SortField::Name) ==> text_order(r[i].path@, r[j].path@) <= 0
        }),
{
    lemma_sorted_by_is_sorted(s, sort);
    lemma_sort_len(s, sort);
    let r = sorted_by(s, sort);
    assert(entry_order(r[i], r[j], sort) <= 0);
    if sort == Some(SortField::Time) {
        assert(time_order(r[j].modified, r[i].modified) == -time_order(r[i].modified, r[j].modified));
    }
}

proof fn lemma_sort_len(s: Seq<RenderedEntry>, sort: Option<SortField>)
    ensures
        sorted_by(s, sort).len() == s.len(),
    decreases s.len(),
{
    if s.len() > 0 {
        lemma_sort_len(s.drop_last(), sort);
        lemma_insert_position(sorted_by(s.drop_last(), sort), s.last(), sort);
    }
}

/// Names order character by character: a name comes before every longer name that
/// starts with it, and at the first differing character the smaller character decides;
/// equal names tie.
pub proof fn lemma_text_order_meaning(a: Seq<char>, b: Seq<char>, k: int)
    ensures
        text_order(a, a) == 0,
        a.len() < b.len() && b.take(a.len() as int) == a ==> text_order(a, b) == -1,
        0 <= k < a.len() && k < b.len() && a.take(k) == b.take(k) && (a[k] as u32) < (b[k] as u32)
            ==> text_order(a, b) == -1,
    decreases a.len(),
{
    if a.len() > 0 {
        lemma_text_order_meaning(a.drop_first(), a.drop_first(), 0);
        if a.len() < b.len() && b.take(a.len() as int) == a {
            assert(b[0] == b.take(a.len() as int)[0]);
            assert(b.drop_first().take(a.len() - 1) =~= a.drop_first()) by {
                assert forall|i: int| 0 <= i < a.len() - 1 implies #[trigger] b.drop_first().take(a.len() - 1)[i]
                    == a.drop_first()[i] by {
                    assert(b.take(a.len() as int)[i + 1] == a[i + 1]);
                }
            }
            lemma_text_order_meaning(a.drop_first(), b.drop_first(), 0);
        }
        if 0 <= k < a.len() && k < b.len() && a.take(k) == b.take(k) && (a[k] as u32) < (b[k] as u32) {
            if k > 0 {
                assert(a[0] == a.take(k)[0] && b[0] == b.take(k)[0]);
                assert(a.drop_first().take(k - 1) =~= b.drop_first().take(k - 1)) by {
                    assert forall|i: int| 0 <= i < k - 1 implies #[trigger] a.drop_first().take(k - 1)[i]
                        == b.drop_first().take(k - 1)[i] by {
                        assert(a.take(k)[i + 1] == b.take(k)[i + 1]);
                    }
                }
                lemma_text_order_meaning(a.drop_first(), b.drop_first(), k - 1);
            }
        }
    }
}

} // verus!
