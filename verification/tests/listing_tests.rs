use glas::fs::dir::{collect_target_entries, kind_allowed, matches_git_selectors, DirItem};
use glas::fs::file::{EntryKind, FileMeta, FileTime};
use glas::fs::git::{
    build_git_context, flatten_candidates, GitContext, GitKind, IndexRecord, StatusRecord,
    STATUS_IGNORED, STATUS_INDEX_NEW, STATUS_WT_DELETED, STATUS_WT_MODIFIED, STATUS_WT_NEW,
};
use glas::options::cli::{ColorWhen, Cli};
use glas::options::config::{DirOptions, RenderOptions};
use glas::options::layout::OutputLayout;
use glas::output::render::RenderedEntry;
use glas::output::table::render_output;
use glas::path::FsPath;
use glas::theme::color::apply_color;
use rustc_hash::FxHashMap;

fn path(s: &str) -> FsPath {
    FsPath {
        absolute: s.starts_with('/'),
        parts: s.split('/').filter(|p| !p.is_empty()).map(|p| p.to_string()).collect(),
    }
}

fn file_meta() -> FileMeta {
    FileMeta {
        is_dir: false,
        mode: 0o100644,
        uid: 0,
        size: 5,
        modified: Some(FileTime { unix_nanos: 1_700_000_000_000_000_000 }),
        has_xattrs: false,
    }
}

fn dir_meta() -> FileMeta {
    FileMeta { is_dir: true, mode: 0o040755, ..file_meta() }
}

fn item(name: &str, meta: FileMeta) -> DirItem {
    DirItem { name: name.to_string(), meta }
}

fn index_record(p: &str) -> IndexRecord {
    IndexRecord {
        path: path(p),
        mode: 0o100644,
        object_id: "0123456789abcdef0123456789abcdef01234567".to_string(),
        flags: 0,
    }
}

fn status_record(p: &str, bits: u32) -> StatusRecord {
    StatusRecord { path: Some(path(p)), bits }
}

fn context(root: &str, index: &[&str], statuses: &[(&str, u32)]) -> GitContext {
    let index: Vec<IndexRecord> = index.iter().map(|p| index_record(p)).collect();
    let statuses: Vec<StatusRecord> = statuses.iter().map(|(p, b)| status_record(p, *b)).collect();
    build_git_context(path(root), &index, &statuses)
}

fn cli_with(set: impl FnOnce(&mut Cli)) -> Cli {
    let mut cli = Cli::default();
    cli.color = ColorWhen::Never;
    set(&mut cli);
    cli
}

fn list(
    target: &str,
    target_meta: FileMeta,
    listing: &[DirItem],
    git: Option<&GitContext>,
    metas: &Vec<(FsPath, FileMeta)>,
    cli: &Cli,
) -> Vec<RenderedEntry> {
    let listing: Vec<DirItem> =
        listing.iter().map(|i| DirItem { name: i.name.clone(), meta: i.meta }).collect();
    collect_target_entries(
        &path(target),
        target_meta,
        &listing,
        git,
        metas,
        &DirOptions::from_cli(cli),
        &RenderOptions::from_cli(cli),
    )
}

fn names(entries: &[RenderedEntry]) -> Vec<String> {
    entries.iter().map(|e| e.path.clone()).collect()
}

fn output(entries: &[RenderedEntry], cli: &Cli, layout: OutputLayout, color: bool) -> String {
    let mut cache: FxHashMap<u32, String> = FxHashMap::default();
    cache.insert(0, "root".to_string());
    render_output(entries, &RenderOptions::from_cli(cli), color, layout, 0, None, &mut cache)
}

fn selectors_repo() -> (GitContext, Vec<DirItem>) {
    let git = context(
        "/repo",
        &["cached.txt", "modified.txt", "deleted.txt", ".gitignore"],
        &[
            ("modified.txt", STATUS_WT_MODIFIED),
            ("deleted.txt", STATUS_WT_DELETED),
            ("untracked.txt", STATUS_WT_NEW),
            ("ignored.txt", STATUS_IGNORED),
        ],
    );
    let listing = vec![
        item("cached.txt", file_meta()),
        item("modified.txt", file_meta()),
        item(".gitignore", file_meta()),
        item("untracked.txt", file_meta()),
        item("ignored.txt", file_meta()),
    ];
    (git, listing)
}

#[test]
fn git_ls_files_selectors_behavior() {
    let (git, listing) = selectors_repo();
    let none = Vec::new();
    let run = |cli: Cli| names(&list("/repo", dir_meta(), &listing, Some(&git), &none, &cli));

    let text = run(cli_with(|_| {}));
    assert!(text.contains(&"cached.txt".to_string()));
    assert!(text.contains(&"modified.txt".to_string()));
    assert!(!text.contains(&"deleted.txt".to_string()));
    assert!(text.contains(&"untracked.txt".to_string()));
    assert!(!text.contains(&"ignored.txt".to_string()));

    let text = run(cli_with(|c| c.cached = true));
    assert!(text.contains(&"cached.txt".to_string()));
    assert!(text.contains(&"modified.txt".to_string()));
    assert!(text.contains(&"deleted.txt".to_string()));
    assert!(!text.contains(&"untracked.txt".to_string()));

    let text = run(cli_with(|c| c.deleted = true));
    assert!(!text.contains(&"cached.txt".to_string()));
    assert!(!text.contains(&"modified.txt".to_string()));
    assert!(text.contains(&"deleted.txt".to_string()));

    let text = run(cli_with(|c| c.modified = true));
    assert!(!text.contains(&"cached.txt".to_string()));
    assert!(text.contains(&"modified.txt".to_string()));
    assert!(text.contains(&"deleted.txt".to_string()));

    let text = run(cli_with(|c| c.others = true));
    assert!(!text.contains(&"cached.txt".to_string()));
    assert!(text.contains(&"untracked.txt".to_string()));

    let text = run(cli_with(|c| c.ignored = true));
    assert!(!text.contains(&"cached.txt".to_string()));
    assert_eq!(text, vec!["ignored.txt".to_string()]);

    let text = run(cli_with(|c| {
        c.others = true;
        c.include_ignored = true;
    }));
    assert!(text.contains(&"untracked.txt".to_string()));
    assert!(text.contains(&"ignored.txt".to_string()));

    let cli = cli_with(|c| c.stage = true);
    let entries = list("/repo", dir_meta(), &listing, Some(&git), &none, &cli);
    let text = output(&entries, &cli, OutputLayout::OneLine, false);
    assert!(text.contains("100644"));
    assert!(text.contains("cached.txt"));
    assert!(text.contains(
        "100644 0123456789abcdef0123456789abcdef01234567 0\tcached.txt\n"
    ));
}

#[test]
fn git_only_filters_out_untracked_files() {
    let git = context("/repo", &["tracked.txt"], &[("tracked.txt", STATUS_WT_MODIFIED), ("new.txt", STATUS_WT_NEW)]);
    let listing = vec![item("tracked.txt", file_meta()), item("new.txt", file_meta())];
    let cli = cli_with(|c| c.cached = true);
    let text = names(&list("/repo", dir_meta(), &listing, Some(&git), &Vec::new(), &cli));
    assert!(text.contains(&"tracked.txt".to_string()));
    assert!(!text.contains(&"new.txt".to_string()));
}

#[test]
fn full_name_prints_repo_relative_paths() {
    let git = context("/repo", &["sub/file.txt"], &[("sub/file.txt", STATUS_WT_MODIFIED)]);
    let listing = vec![item("file.txt", file_meta())];
    let cli = cli_with(|c| {
        c.cached = true;
        c.full_name = true;
    });
    let entries = list("/repo/sub", dir_meta(), &listing, Some(&git), &Vec::new(), &cli);
    assert_eq!(names(&entries), vec!["sub/file.txt".to_string()]);
    assert_eq!(entries[0].git, GitKind::Modified);
}

#[test]
fn git_ls_files_flatten_all_behavior() {
    let git = context(
        "/repo",
        &["dir1/dir2/dir3/file.txt"],
        &[("dir1/dir2/dir3/file.txt", STATUS_WT_MODIFIED)],
    );
    let listing = vec![item("dir1", dir_meta())];

    let cli = cli_with(|c| c.modified = true);
    let candidates = flatten_candidates(&path("/repo"), &git, &DirOptions::from_cli(&cli));
    assert!(candidates.is_empty());
    let text = names(&list("/repo", dir_meta(), &listing, Some(&git), &Vec::new(), &cli));
    assert!(!text.contains(&"dir1/dir2/dir3/file.txt".to_string()));
    assert_eq!(text, vec!["dir1".to_string()]);

    let cli = cli_with(|c| {
        c.modified = true;
        c.flatten = "all".to_string();
    });
    let candidates = flatten_candidates(&path("/repo"), &git, &DirOptions::from_cli(&cli));
    assert_eq!(candidates.len(), 1);
    assert!(candidates[0].same_as(&path("/repo/dir1/dir2/dir3/file.txt")));
    let metas = vec![(path("/repo/dir1/dir2/dir3/file.txt"), file_meta())];
    let text = names(&list("/repo", dir_meta(), &listing, Some(&git), &metas, &cli));
    assert!(text.contains(&"dir1/dir2/dir3/file.txt".to_string()));
}

#[test]
fn nested_changes_are_summarized_under_their_top_directory() {
    let git = context(
        "/repo",
        &["lib/a/x.rs", "lib/b/y.rs"],
        &[("lib/a/x.rs", STATUS_WT_MODIFIED), ("lib/b/y.rs", STATUS_WT_MODIFIED)],
    );
    let entries = list("/repo", dir_meta(), &[], Some(&git), &Vec::new(), &cli_with(|_| {}));
    assert_eq!(names(&entries), vec!["lib/ (2 modified files)".to_string()]);
    assert_eq!(entries[0].kind, EntryKind::Summary { modified_count: 2 });
    assert_eq!(entries[0].git, GitKind::Modified);
    assert_eq!(entries[0].mode, None);
}

#[test]
fn clean_directory_with_changes_below_is_modified() {
    let git = context("/repo", &["src/sub/a.txt"], &[("src/sub/a.txt", STATUS_WT_MODIFIED)]);
    let listing = vec![item("src", dir_meta()), item("README", file_meta())];
    let entries = list("/repo", dir_meta(), &listing, Some(&git), &Vec::new(), &cli_with(|_| {}));
    assert_eq!(names(&entries), vec!["src".to_string(), "README".to_string()]);
    assert_eq!(entries[0].git, GitKind::Modified);
    assert_eq!(entries[1].git, GitKind::Clean);
}

#[test]
fn test_treat_dirs_as_files_eza_behavior() {
    let git = context("/repo", &["src/sub/a.txt"], &[("src/sub/a.txt", STATUS_WT_MODIFIED)]);
    let listing = vec![item("sub", dir_meta())];
    let cli = cli_with(|c| c.treat_dirs_as_files = true);
    let entries = list("/repo/src", dir_meta(), &listing, Some(&git), &Vec::new(), &cli);
    let text = names(&entries);
    assert_eq!(text, vec!["src".to_string()]);
    assert!(!text.iter().any(|t| t.contains("modified files")));
    assert!(!text.iter().any(|t| t.contains("a.txt")));
    assert_eq!(entries[0].kind, EntryKind::Directory);
}

#[test]
fn test_only_dirs_and_only_files_coexist() {
    let listing = vec![item("a.txt", file_meta()), item("subdir", dir_meta())];
    let cli = cli_with(|c| {
        c.no_git = true;
        c.only_dirs = true;
        c.only_files = true;
    });
    let text = names(&list("/tmp/x", dir_meta(), &listing, None, &Vec::new(), &cli));
    assert!(text.contains(&"a.txt".to_string()));
    assert!(text.contains(&"subdir".to_string()));

    let only_dirs = DirOptions::from_cli(&cli_with(|c| c.only_dirs = true));
    assert!(kind_allowed(EntryKind::Directory, &only_dirs));
    assert!(kind_allowed(EntryKind::Summary { modified_count: 1 }, &only_dirs));
    assert!(!kind_allowed(EntryKind::File, &only_dirs));
    let only_files = DirOptions::from_cli(&cli_with(|c| c.only_files = true));
    assert!(kind_allowed(EntryKind::File, &only_files));
    assert!(!kind_allowed(EntryKind::Directory, &only_files));
}

#[test]
fn hidden_entries_need_all() {
    let listing = vec![item(".env", file_meta()), item("main.rs", file_meta())];
    let cli = cli_with(|c| c.no_git = true);
    assert_eq!(
        names(&list("/p", dir_meta(), &listing, None, &Vec::new(), &cli)),
        vec!["main.rs".to_string()]
    );
    let cli = cli_with(|c| {
        c.no_git = true;
        c.all = true;
    });
    assert_eq!(
        names(&list("/p", dir_meta(), &listing, None, &Vec::new(), &cli)),
        vec![".env".to_string(), "main.rs".to_string()]
    );
}

#[test]
fn git_status_and_coloring_for_direct_file_path() {
    let git = context("/repo", &["tracked.txt"], &[("tracked.txt", STATUS_WT_MODIFIED)]);
    let cli = cli_with(|c| c.long = true);
    let entries = list("/repo/tracked.txt", file_meta(), &[], Some(&git), &Vec::new(), &cli);
    assert_eq!(names(&entries), vec!["tracked.txt".to_string()]);
    let text = output(&entries, &cli, OutputLayout::Long, false);
    assert!(text.starts_with("M"), "long output should start with M: {text:?}");

    let cli = cli_with(|c| c.color = ColorWhen::Always);
    let entries = list("/repo/tracked.txt", file_meta(), &[], Some(&git), &Vec::new(), &cli);
    let colored = apply_color(&entries[0].path, &entries[0], true, false);
    assert_eq!(colored, "\u{1b}[33mtracked.txt\u{1b}[39m");
}

#[test]
fn long_format_git_column_is_left_aligned() {
    let git = context("/repo", &["a.txt"], &[("a.txt", STATUS_WT_MODIFIED)]);
    let listing = vec![item("a.txt", file_meta())];
    let cli = cli_with(|c| {
        c.modified = true;
        c.long = true;
    });
    let entries = list("/repo", dir_meta(), &listing, Some(&git), &Vec::new(), &cli);
    let text = output(&entries, &cli, OutputLayout::Long, false);
    assert!(text.starts_with("M   "), "stdout was: {text:?}");
}

#[test]
fn deleted_file_gets_placeholder_entry() {
    let git = context("/repo", &["gone.txt"], &[("gone.txt", STATUS_WT_DELETED)]);
    let cli = cli_with(|c| c.deleted = true);
    let entries = list("/repo", dir_meta(), &[], Some(&git), &Vec::new(), &cli);
    assert_eq!(names(&entries), vec!["gone.txt".to_string()]);
    assert_eq!(entries[0].git, GitKind::Deleted);
    assert_eq!(entries[0].mode, Some(0o100644));
    assert_eq!(entries[0].size, 0);
    assert_eq!(entries[0].stages.len(), 1);
}

#[test]
fn most_urgent_status_wins_in_context() {
    let index: Vec<IndexRecord> = vec![index_record("a.txt")];
    let statuses = vec![
        status_record("a.txt", STATUS_WT_MODIFIED),
        status_record("a.txt", STATUS_INDEX_NEW),
        StatusRecord { path: None, bits: STATUS_WT_DELETED },
    ];
    let git = build_git_context(path("/repo"), &index, &statuses);
    assert_eq!(git.statuses.len(), 1);
    assert!(git.statuses[0].0.same_as(&path("a.txt")));
    assert_eq!(git.statuses[0].1, GitKind::Staged);
    assert_eq!(git.stages.len(), 1);
    assert!(git.stages[0].0.same_as(&path("/repo/a.txt")));
}

#[test]
fn selector_laws_on_examples() {
    let kinds = [
        GitKind::Conflicted,
        GitKind::Staged,
        GitKind::Deleted,
        GitKind::Modified,
        GitKind::Untracked,
        GitKind::Ignored,
        GitKind::Clean,
    ];
    let ignored = DirOptions::from_cli(&cli_with(|c| c.ignored = true));
    let default = DirOptions::from_cli(&cli_with(|_| {}));
    for kind in kinds {
        assert_eq!(matches_git_selectors(kind, &ignored, true), kind == GitKind::Ignored);
        assert!(!matches_git_selectors(kind, &ignored, false));
        assert_eq!(
            matches_git_selectors(kind, &default, true),
            kind != GitKind::Deleted && kind != GitKind::Ignored
        );
        assert!(matches_git_selectors(kind, &default, false));
    }
}

#[test]
fn hidden_deleted_file_needs_all() {
    let git = context("/repo", &[".env", "gone.txt"], &[(".env", STATUS_WT_DELETED), ("gone.txt", STATUS_WT_DELETED)]);
    let cli = cli_with(|c| c.deleted = true);
    let entries = list("/repo", dir_meta(), &[], Some(&git), &Vec::new(), &cli);
    assert_eq!(names(&entries), vec!["gone.txt".to_string()]);
    let cli = cli_with(|c| {
        c.deleted = true;
        c.all = true;
    });
    let entries = list("/repo", dir_meta(), &[], Some(&git), &Vec::new(), &cli);
    assert_eq!(names(&entries), vec![".env".to_string(), "gone.txt".to_string()]);
}

#[test]
fn overlay_lists_each_path_once() {
    let git = context(
        "/repo",
        &["a.txt", "dir/b.txt"],
        &[("a.txt", STATUS_WT_MODIFIED), ("dir/b.txt", STATUS_WT_MODIFIED), ("dir/c.txt", STATUS_WT_NEW)],
    );
    let listing = vec![item("a.txt", file_meta()), item("dir", dir_meta())];
    let entries = list("/repo", dir_meta(), &listing, Some(&git), &Vec::new(), &cli_with(|_| {}));
    assert_eq!(names(&entries), vec!["a.txt".to_string(), "dir".to_string()]);
    assert_eq!(entries[1].git, GitKind::Modified);
}
