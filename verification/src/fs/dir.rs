//! # fs/dir
//!
//! Decides which entries of a traversal target are listed: hidden names, the
//! file/directory filters, and the Git selectors.
use vstd::prelude::*;

use crate::fs::file::{entry_models, meta_entry_model, Entry, EntryKind, EntryModel, FileMeta};
use crate::fs::git::{apply_git_overlay, copy_stages, overlay_env, overlay_result, GitContext, GitKind};
use crate::options::config::{selectors_consistent, DirOptions, RenderOptions};
use crate::output::render::{base_path_text, path_text, render_path, root_of, RenderedEntry};
use crate::path::{is_name_part, join_model, path_hidden, FsPath, PathModel};

verus! {

/// Whether an entry with Git status `kind` passes the Git selectors of `options`;
/// `has_git` tells whether the target lies in a Git work tree.
///
/// Outside a repository everything passes, except under `--ignored`, or when the only
/// selectors are `--deleted`/`--modified`. In a repository without selectors, deleted
/// files are hidden and ignored ones shown only with `--include-ignored`. With
/// `--ignored` only ignored files pass; otherwise an entry passes when one of the given
/// selectors (`--cached`, or `--stage` alone; `--deleted`; `--modified`; `--others`;
/// `--include-ignored`) accepts its status.
pub open spec fn git_selected(kind: GitKind, options: DirOptions, has_git: bool) -> bool {
    if !has_git {
        !options.ignored && !(options.git_select_mode && (options.deleted || options.modified)
            && !options.cached && !options.others && !options.stage)
    } else if !options.git_select_mode {
        match kind {
            GitKind::Ignored => options.include_ignored,
            GitKind::Deleted => false,
            _ => true,
        }
    } else if options.ignored {
        kind == GitKind::Ignored
    } else {
        let cached_active = options.cached || (options.stage && !options.deleted
            && !options.modified && !options.others);
        ||| cached_active && (kind == GitKind::Clean || kind == GitKind::Staged || kind
            == GitKind::Modified || kind == GitKind::Deleted || kind == GitKind::Conflicted)
        ||| options.deleted && kind == GitKind::Deleted
        ||| options.modified && (kind == GitKind::Modified || kind == GitKind::Deleted)
        ||| options.others && kind == GitKind::Untracked
        ||| options.include_ignored && kind == GitKind::Ignored
    }
}

pub fn matches_git_selectors(kind: GitKind, options: &DirOptions, has_git: bool) -> (r: bool)
    ensures
        r == git_selected(kind, *options, has_git),
{
    if !has_git {
        if options.ignored {
            return false;
        }
        if options.git_select_mode && (options.deleted || options.modified) && !options.cached
            && !options.others && !options.stage {
            return false;
        }
        return true;
    }
    if !options.git_select_mode {
        if kind == GitKind::Ignored {
            return options.include_ignored;
        }
        if kind == GitKind::Deleted {
            return false;
        }
        return true;
    }
    if options.ignored {
        return kind == GitKind::Ignored;
    }
    let mut matched = false;
    let is_cached_active = options.cached || (options.stage && !options.deleted
        && !options.modified && !options.others);
    if is_cached_active {
        matched = matched || matches!(
            kind,
            GitKind::Clean | GitKind::Staged | GitKind::Modified | GitKind::Deleted
                | GitKind::Conflicted
        );
    }
    if options.deleted {
        matched = matched || matches!(kind, GitKind::Deleted);
    }
    if options.modified {
        matched = matched || matches!(kind, GitKind::Modified | GitKind::Deleted);
    }
    if options.others {
        matched = matched || matches!(kind, GitKind::Untracked);
    }
    if options.include_ignored {
        matched = matched || matches!(kind, GitKind::Ignored);
    }
    matched
}

/// Whether an entry of this kind is listed: `--only-dirs` keeps directories (and
/// summaries), `--only-files` keeps files, and both together keep everything.
pub open spec fn kind_selected(kind: EntryKind, options: DirOptions) -> bool {
    match kind {
        EntryKind::File => !options.only_dirs || options.only_files,
        _ => !options.only_files || options.only_dirs,
    }
}

pub fn kind_allowed(kind: EntryKind, options: &DirOptions) -> (r: bool)
    ensures
        r == kind_selected(kind, *options),
{
    match kind {
        EntryKind::File => !options.only_dirs || options.only_files,
        _ => !options.only_files || options.only_dirs,
    }
}

/// One item of a directory listing: its name and its metadata.
#[derive(Debug)]
pub struct DirItem {
    pub name: String,
    pub meta: FileMeta,
}

/// The path made of a single name.
pub open spec fn name_path(name: Seq<char>) -> PathModel {
    PathModel { absolute: false, parts: seq![name] }
}

/// The entries of the first `k` items of a directory listing: hidden names only with
/// `--all`, and only the kinds that the options select.
pub open spec fn listing_models(
    target: PathModel,
    listing: Seq<DirItem>,
    options: DirOptions,
    k: nat,
) -> Seq<EntryModel>
    decreases k,
{
    if k == 0 {
        Seq::empty()
    } else {
        let prev = listing_models(target, listing, options, (k - 1) as nat);
        let item = listing[k - 1];
        let rel = name_path(item.name@);
        let e = meta_entry_model(join_model(target, rel), rel, item.meta, options.long);
        if (!options.all && path_hidden(rel)) || !kind_selected(e.kind, options) {
            prev
        } else {
            prev.push(e)
        }
    }
}

fn name_to_path(name: &String) -> (r: FsPath)
    ensures
        r@ == name_path(name@),
{
    let mut parts: Vec<String> = Vec::new();
    parts.push(name.clone());
    let r = FsPath { absolute: false, parts };
    proof {
        assert(r@.parts =~= seq![name@]);
    }
    r
}

/// The entries of a directory listing of `target_abs`.
pub fn collect_directory_entries(target_abs: &FsPath, listing: &Vec<DirItem>, dir_options: &DirOptions) -> (r: Vec<
    Entry,
>)
    ensures
        entry_models(r@) == listing_models(target_abs@, listing@, *dir_options, listing@.len()),
{
    let mut entries: Vec<Entry> = Vec::new();
    let mut i: usize = 0;
    while i < listing.len()
        invariant
            i <= listing.len(),
            entry_models(entries@) == listing_models(target_abs@, listing@, *dir_options, i as nat),
        decreases listing.len() - i,
    {
        let item = &listing[i];
        let rel = name_to_path(&item.name);
        if !dir_options.all && rel.is_hidden() {
            i = i + 1;
            continue;
        }
        let item_path = target_abs.join(&rel);
        let entry = Entry::new_file_or_dir(item_path, rel, item.meta, dir_options.long);
        if !kind_allowed(entry.kind, dir_options) {
            i = i + 1;
            continue;
        }
        let ghost before = entries@;
        entries.push(entry);
        proof {
            assert(entry_models(entries@) =~= entry_models(before).push(entries@.last()@));
        }
        i = i + 1;
    }
    entries
}

/// The path that names a single target: its final name, or `.` when it has none.
pub open spec fn target_name(target: PathModel) -> PathModel {
    if target.parts.len() > 0 && is_name_part(target.parts.last()) {
        name_path(target.parts.last())
    } else {
        PathModel { absolute: false, parts: seq![seq!['.']] }
    }
}

fn target_name_path(target_abs: &FsPath) -> (r: FsPath)
    ensures
        r@ == target_name(target_abs@),
{
    let n = target_abs.parts.len();
    if n > 0 && !crate::path::part_is_cur(&target_abs.parts[n - 1]) && !crate::path::part_is_parent(
        &target_abs.parts[n - 1],
    ) {
        name_to_path(&target_abs.parts[n - 1])
    } else {
        let dot = crate::text::string_of(".");
        proof {
            reveal_strlit(".");
            assert(dot@ =~= seq!['.']);
        }
        name_to_path(&dot)
    }
}

/// Whether the target is listed through its directory contents (rather than as itself).
pub open spec fn lists_contents(target_meta: FileMeta, options: DirOptions) -> bool {
    target_meta.is_dir && !options.treat_dirs_as_files
}

pub fn lists_directory(target_meta: &FileMeta, dir_options: &DirOptions) -> (r: bool)
    ensures
        r == lists_contents(*target_meta, *dir_options),
{
    target_meta.is_dir && !dir_options.treat_dirs_as_files
}

/// The entries of a target before filtering: its directory listing, or the target itself,
/// with the Git state laid over them when there is a repository.
pub open spec fn target_models(
    target: PathModel,
    target_meta: FileMeta,
    listing: Seq<DirItem>,
    git: Option<&GitContext>,
    metas: Seq<(FsPath, FileMeta)>,
    options: DirOptions,
) -> Seq<EntryModel> {
    let initial = if lists_contents(target_meta, options) {
        listing_models(target, listing, options, listing.len())
    } else {
        seq![meta_entry_model(target, target_name(target), target_meta, options.long)]
    };
    match git {
        Some(g) => overlay_result(initial, g.statuses@, overlay_env(target, *g, options, metas, lists_contents(target_meta, options))),
        None => initial,
    }
}

/// Whether an entry passes the kind and Git filters.
pub open spec fn entry_selected(e: EntryModel, options: DirOptions, has_git: bool) -> bool {
    kind_selected(e.kind, options) && git_selected(e.git, options, has_git)
}

/// A rendered entry shows an entry model as the render options ask.
pub open spec fn renders(
    r: RenderedEntry,
    e: EntryModel,
    target: PathModel,
    repo_root: Option<PathModel>,
    options: RenderOptions,
) -> bool {
    &&& r.path@ == path_text(
        base_path_text(e.abs, e.rel, target, repo_root, options.absolute, options.full_name),
        e.kind,
    )
    &&& r.kind == e.kind
    &&& r.git == e.git
    &&& r.mode == (match e.kind {
        EntryKind::Summary { .. } => None,
        _ => Some(e.mode),
    })
    &&& r.uid == (match e.kind {
        EntryKind::Summary { .. } => None,
        _ => Some(e.uid),
    })
    &&& r.has_xattrs == e.has_xattrs
    &&& r.size == e.size
    &&& r.modified == e.modified
    &&& r.stages@ == e.stages
}

/// Collects the rendered entries of one target from what was read of it: its metadata,
/// its directory listing (used when the target is a directory listed by contents), the
/// Git context of its work tree, and the metadata of nested changed paths. A target
/// listed as itself (`-d`, or not a directory) shows no entries below it. The entries
/// are filtered by kind and by the Git selectors.
pub fn collect_target_entries(
    target_abs: &FsPath,
    target_meta: FileMeta,
    listing: &Vec<DirItem>,
    git: Option<&GitContext>,
    metas: &Vec<(FsPath, FileMeta)>,
    dir_options: &DirOptions,
    render_options: &RenderOptions,
) -> (r: Vec<RenderedEntry>)
    ensures
        ({
            let sel = target_models(target_abs@, target_meta, listing@, git, metas@, *dir_options).filter(
                |e: EntryModel| entry_selected(e, *dir_options, git.is_some()),
            );
            &&& r@.len() == sel.len()
            &&& forall|i: int|
                0 <= i < sel.len() ==> renders(
                    #[trigger] r@[i],
                    sel[i],
                    target_abs@,
                    root_of(git),
                    *render_options,
                )
        }),
{
    let by_contents = lists_directory(&target_meta, dir_options);
    let mut entries = if by_contents {
        collect_directory_entries(target_abs, listing, dir_options)
    } else {
        let rel = target_name_path(target_abs);
        let mut v: Vec<Entry> = Vec::new();
        v.push(Entry::new_file_or_dir(target_abs.duplicate(), rel, target_meta, dir_options.long));
        proof {
            assert(entry_models(v@) =~= seq![
                meta_entry_model(target_abs@, target_name(target_abs@), target_meta, dir_options.long),
            ]);
        }
        v
    };
    if let Some(g) = git {
        apply_git_overlay(&mut entries, target_abs, g, dir_options, metas, by_contents);
    }
    let has_git = git.is_some();
    let ghost all = entry_models(entries@);
    let ghost pred = |e: EntryModel| entry_selected(e, *dir_options, has_git);
    proof {
        assert(all == target_models(target_abs@, target_meta, listing@, git, metas@, *dir_options));
    }
    let mut rendered: Vec<RenderedEntry> = Vec::new();
    let mut i: usize = 0;
    while i < entries.len()
        invariant
            i <= entries@.len(),
            all == entry_models(entries@),
            pred == (|e: EntryModel| entry_selected(e, *dir_options, has_git)),
            has_git == git.is_some(),
            rendered@.len() == all.take(i as int).filter(pred).len(),
            forall|j: int|
                0 <= j < rendered@.len() ==> renders(
                    #[trigger] rendered@[j],
                    all.take(i as int).filter(pred)[j],
                    target_abs@,
                    root_of(git),
                    *render_options,
                ),
        decreases entries@.len() - i,
    {
        let entry = &entries[i];
        proof {
            assert(all.take(i + 1).drop_last() =~= all.take(i as int));
            assert(all.take(i + 1).last() == entry@);
            reveal(Seq::filter);
        }
        if kind_allowed(entry.kind, dir_options) && matches_git_selectors(entry.git, dir_options, has_git) {
            let r = RenderedEntry {
                path: render_path(entry, target_abs, git, render_options),
                kind: entry.kind,
                git: entry.git,
                mode: entry.display_mode(),
                uid: entry.display_uid(),
                has_xattrs: entry.has_xattrs,
                size: entry.size,
                modified: entry.modified,
                stages: copy_stages(&entry.stages),
            };
            let ghost before = rendered@;
            rendered.push(r);
            proof {
                assert forall|j: int| 0 <= j < rendered@.len() implies renders(
                    #[trigger] rendered@[j],
                    all.take(i + 1).filter(pred)[j],
                    target_abs@,
                    root_of(git),
                    *render_options,
                ) by {
                    if j < before.len() {
                        assert(rendered@[j] == before[j]);
                    }
                }
            }
        }
        i = i + 1;
    }
    proof {
        assert(all.take(entries@.len() as int) =~= all);
    }
    rendered
}

/// With `--ignored`, a repository lists its ignored files and nothing else, and a
/// target outside a repository lists nothing.
pub proof fn lemma_ignored_lists_only_ignored(kind: GitKind, options: DirOptions)
    requires
        selectors_consistent(options),
        options.ignored,
    ensures
        git_selected(kind, options, true) <==> kind == GitKind::Ignored,
        !git_selected(kind, options, false),
{
}

/// Without Git selectors, a repository lists everything but unstaged deletions, and
/// ignored files only with `--include-ignored`; outside a repository everything is listed.
pub proof fn lemma_default_selection(kind: GitKind, options: DirOptions)
    requires
        selectors_consistent(options),
        !options.cached,
        !options.stage,
        !options.deleted,
        !options.modified,
        !options.others,
        !options.ignored,
    ensures
        git_selected(kind, options, true) <==> (kind != GitKind::Deleted && (kind
            != GitKind::Ignored || options.include_ignored)),
        git_selected(kind, options, false),
{
}

/// `--others` lists untracked files, and `--deleted` (or `--modified`) lists unstaged
/// deletions, in a repository.
pub proof fn lemma_selectors_accept_their_kind(options: DirOptions)
    requires
        selectors_consistent(options),
        !options.ignored,
    ensures
        options.others ==> git_selected(GitKind::Untracked, options, true),
        options.deleted || options.modified ==> git_selected(GitKind::Deleted, options, true),
        options.modified ==> git_selected(GitKind::Modified, options, true),
        options.include_ignored && options.git_select_mode ==> git_selected(
            GitKind::Ignored,
            options,
            true,
        ),
{
}

/// `--cached` (or `--stage` alone) lists every tracked file in a repository, whatever its
/// status: clean, staged, modified, deleted or conflicted; and it does not by itself
/// list untracked or ignored files.
pub proof fn lemma_cached_lists_tracked_files(kind: GitKind, options: DirOptions)
    requires
        selectors_consistent(options),
        !options.ignored,
        options.cached || (options.stage && !options.deleted && !options.modified && !options.others),
    ensures
        (kind == GitKind::Clean || kind == GitKind::Staged || kind == GitKind::Modified || kind
            == GitKind::Deleted || kind == GitKind::Conflicted) ==> git_selected(kind, options, true),
        kind == GitKind::Untracked && !options.others ==> !git_selected(kind, options, true),
        kind == GitKind::Ignored && !options.include_ignored ==> !git_selected(kind, options, true),
{
}

/// `--only-dirs` together with `--only-files` filters nothing out.
pub proof fn lemma_both_kind_filters_keep_all(kind: EntryKind, options: DirOptions)
    requires
        options.only_dirs,
        options.only_files,
    ensures
        kind_selected(kind, options),
{
}

/// Every entry of a directory listing comes from an item of the listing, is hidden only
/// with `--all`, and is of a kind the options select.
pub proof fn lemma_listing_filters(target: PathModel, listing: Seq<DirItem>, options: DirOptions, k: nat)
    requires
        k <= listing.len(),
    ensures
        forall|i: int|
            0 <= i < listing_models(target, listing, options, k).len() ==> {
                let e = #[trigger] listing_models(target, listing, options, k)[i];
                &&& exists|j: int| 0 <= j < k && e.rel == name_path(#[trigger] listing[j].name@)
                &&& options.all || !path_hidden(e.rel)
                &&& kind_selected(e.kind, options)
                &&& e.abs == join_model(target, e.rel)
            },
    decreases k,
{
    if k > 0 {
        lemma_listing_filters(target, listing, options, (k - 1) as nat);
        let prev = listing_models(target, listing, options, (k - 1) as nat);
        let cur = listing_models(target, listing, options, k);
        assert forall|i: int| 0 <= i < cur.len() implies {
            let e = #[trigger] cur[i];
            &&& exists|j: int| 0 <= j < k && e.rel == name_path(#[trigger] listing[j].name@)
            &&& options.all || !path_hidden(e.rel)
            &&& kind_selected(e.kind, options)
            &&& e.abs == join_model(target, e.rel)
        } by {
            if i < prev.len() {
                assert(cur[i] == prev[i]);
                let e = prev[i];
                let j = choose|j: int| 0 <= j < k - 1 && e.rel == name_path(#[trigger] listing[j].name@);
                assert(0 <= j < k && e.rel == name_path(listing[j].name@));
            } else {
                assert(cur == prev.push(cur[i]));
                assert(0 <= k - 1 < k && cur[i].rel == name_path(listing[k - 1].name@));
            }
        }
    }
}

} // verus!
