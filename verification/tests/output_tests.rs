use glas::fs::file::{Entry, EntryKind, FileTime};
use glas::fs::git::{GitContext, GitKind, StageInfo};
use glas::options::cli::SortField;
use glas::options::config::RenderOptions;
use glas::options::layout::OutputLayout;
use glas::output::custom::render_custom_format;
use glas::output::grid::render_grid;
use glas::output::render::{render_path, sort_entries, RenderedEntry};
use glas::output::table::{render_output, LongDisplayRow, TableRenderer, TableWidths};
use glas::path::FsPath;
use rustc_hash::FxHashMap;

fn path(s: &str) -> FsPath {
    FsPath {
        absolute: s.starts_with('/'),
        parts: s.split('/').filter(|p| !p.is_empty()).map(|p| p.to_string()).collect(),
    }
}

fn secs(n: i128) -> Option<FileTime> {
    Some(FileTime { unix_nanos: n * 1_000_000_000 })
}

fn dummy_entry(path: &str) -> RenderedEntry {
    RenderedEntry {
        path: path.to_string(),
        kind: EntryKind::File,
        git: GitKind::Clean,
        mode: Some(0o100644),
        uid: Some(0),
        has_xattrs: false,
        size: 0,
        modified: None,
        stages: Vec::new(),
    }
}

fn options(absolute: bool, full_name: bool) -> RenderOptions {
    RenderOptions {
        long: false,
        header: false,
        null: false,
        format: None,
        absolute,
        full_name,
        sort: None,
        stage: false,
    }
}

fn dummy_entry_with_path(abs_path: &str, rel_path: &str) -> Entry {
    Entry {
        abs_path: path(abs_path),
        rel_to_target: path(rel_path),
        kind: EntryKind::File,
        git: GitKind::Clean,
        mode: 0o100644,
        uid: 0,
        has_xattrs: false,
        size: 0,
        modified: None,
        stages: Vec::new(),
    }
}

#[test]
fn test_render_custom_format_file() {
    let entry = RenderedEntry {
        path: "test_file.txt".to_string(),
        kind: EntryKind::File,
        git: GitKind::Modified,
        mode: Some(0o100644),
        uid: Some(1000),
        has_xattrs: false,
        size: 1234,
        modified: secs(100000),
        stages: Vec::new(),
    };
    let template = "Path: %(path), Size: %(size), Modified: %(modified), Git: %(git), Type: %(type)";
    let result = render_custom_format(template, &entry);
    assert_eq!(result, "Path: test_file.txt, Size: 1234, Modified: 100000, Git: M, Type: file");
}

#[test]
fn test_render_custom_format_directory_no_modified() {
    let entry = RenderedEntry {
        path: "test_dir".to_string(),
        kind: EntryKind::Directory,
        git: GitKind::Clean,
        mode: Some(0o40755),
        uid: Some(1000),
        has_xattrs: false,
        size: 4096,
        modified: None,
        stages: Vec::new(),
    };
    let template = "%(type) %(path) %(size) %(modified) %(git)";
    let result = render_custom_format(template, &entry);
    assert_eq!(result, "dir test_dir 4096 -  ");
}

#[test]
fn test_render_custom_format_summary() {
    let entry = RenderedEntry {
        path: "summary_path".to_string(),
        kind: EntryKind::Summary { modified_count: 5 },
        git: GitKind::Conflicted,
        mode: None,
        uid: None,
        has_xattrs: false,
        size: 0,
        modified: None,
        stages: Vec::new(),
    };
    let template = "%(type) %(path) %(git)";
    let result = render_custom_format(template, &entry);
    assert_eq!(result, "summary summary_path !");
}

#[test]
fn custom_format_edge_cases() {
    let mut entry = dummy_entry("%(size)");
    entry.size = 7;
    entry.modified = Some(FileTime { unix_nanos: -1 });
    assert_eq!(render_custom_format("%(path)|%(modified)|%(%(type))", &entry), "7|-|%(file)");
    entry.modified = Some(FileTime { unix_nanos: 1_999_999_999 });
    assert_eq!(render_custom_format("%(modified)%(modified", &entry), "1%(modified");
}

#[test]
fn test_render_grid_empty() {
    let mut out = String::new();
    render_grid(&[], false, None, &mut out);
    assert!(out.is_empty());
}

#[test]
fn test_render_grid_fallback_no_term_width() {
    let entries = vec![dummy_entry("a"), dummy_entry("bb"), dummy_entry("ccc")];
    let mut out = String::new();
    render_grid(&entries, false, None, &mut out);
    assert_eq!(out, "a  bb  ccc\n");
}

#[test]
fn test_render_grid_with_width() {
    let entries = vec![
        dummy_entry("a"),
        dummy_entry("bb"),
        dummy_entry("ccc"),
        dummy_entry("d"),
        dummy_entry("e"),
    ];
    let mut out = String::new();
    render_grid(&entries, false, Some(20), &mut out);
    let lines: Vec<&str> = out.lines().collect();
    assert_eq!(lines.len(), 2);
    assert_eq!(lines[0], "a    ccc  e");
    assert_eq!(lines[1], "bb   d");
}

#[test]
fn tty_default_renderer_outputs_single_row() {
    let entries = vec![
        dummy_entry("Cargo.lock"),
        dummy_entry("Cargo.toml"),
        dummy_entry("README.md"),
        dummy_entry("README_ja.md"),
        dummy_entry("justfile"),
        dummy_entry("src"),
        dummy_entry("tests"),
    ];
    let mut out = String::new();
    render_grid(&entries, false, Some(9999), &mut out);
    assert_eq!(out.lines().count(), 1, "output was: {out:?}");
}

#[test]
fn grid_narrow_terminal_is_one_column() {
    let entries = vec![dummy_entry("alpha"), dummy_entry("b")];
    let mut out = String::new();
    render_grid(&entries, false, Some(3), &mut out);
    assert_eq!(out, "alpha\nb\n");
}

#[test]
fn test_render_path_absolute() {
    let entry = dummy_entry_with_path("/home/user/file.txt", "file.txt");
    let rendered = render_path(&entry, &path("/home/user"), None, &options(true, false));
    assert_eq!(rendered, "/home/user/file.txt");
}

#[test]
fn test_render_path_full_name_with_git() {
    let entry = dummy_entry_with_path("/repo/sub/file.txt", "file.txt");
    let git = GitContext { repo_root: path("/repo"), statuses: Vec::new(), stages: Vec::new() };
    let rendered = render_path(&entry, &path("/repo/sub"), Some(&git), &options(false, true));
    assert_eq!(rendered, "sub/file.txt");
}

#[test]
fn test_render_path_full_name_without_git() {
    let entry = dummy_entry_with_path("/dir/sub/file.txt", "file.txt");
    let rendered = render_path(&entry, &path("/dir"), None, &options(false, true));
    assert_eq!(rendered, "sub/file.txt");
}

#[test]
fn test_render_path_summary() {
    let mut entry = dummy_entry_with_path("/dir/sub", "sub");
    entry.kind = EntryKind::Summary { modified_count: 3 };
    let rendered = render_path(&entry, &path("/dir"), None, &options(false, false));
    assert_eq!(rendered, "sub/ (3 modified files)");
}

#[test]
fn test_sort_entries_by_size() {
    let mut small = dummy_entry("small");
    small.size = 10;
    let mut large = dummy_entry("large");
    large.size = 100;
    let mut medium = dummy_entry("medium");
    medium.size = 50;
    let mut entries = vec![small, large, medium];
    sort_entries(&mut entries, Some(SortField::Size));
    assert_eq!(entries[0].path, "large");
    assert_eq!(entries[1].path, "medium");
    assert_eq!(entries[2].path, "small");
}

#[test]
fn test_sort_entries_by_time() {
    let mut old = dummy_entry("old");
    old.modified = secs(10);
    let mut new = dummy_entry("new");
    new.modified = secs(20);
    let no_time = dummy_entry("no_time");
    let mut entries = vec![old, new, no_time];
    sort_entries(&mut entries, Some(SortField::Time));
    assert_eq!(entries[0].path, "new");
    assert_eq!(entries[1].path, "old");
    assert_eq!(entries[2].path, "no_time");
}

#[test]
fn sort_by_git_then_name() {
    let mut a = dummy_entry("b");
    a.git = GitKind::Untracked;
    let mut b = dummy_entry("a");
    b.git = GitKind::Untracked;
    let mut c = dummy_entry("z");
    c.git = GitKind::Conflicted;
    let d = dummy_entry("c");
    let mut entries = vec![a, b, c, d];
    sort_entries(&mut entries, None);
    let names: Vec<&str> = entries.iter().map(|e| e.path.as_str()).collect();
    assert_eq!(names, vec!["z", "a", "b", "c"]);
    sort_entries(&mut entries, Some(SortField::Name));
    let names: Vec<&str> = entries.iter().map(|e| e.path.as_str()).collect();
    assert_eq!(names, vec!["a", "b", "c", "z"]);
}

#[test]
fn table_widths_and_lines() {
    let rows = vec![LongDisplayRow {
        permissions: ".rw-r--r-- ".to_string(),
        size: "12345".to_string(),
        user: "someone".to_string(),
        modified: "01 Jan 00:00".to_string(),
        name: "f".to_string(),
        git: " ".to_string(),
    }];
    let widths = TableWidths::calculate(&rows);
    assert_eq!((widths.git, widths.permissions, widths.size, widths.user, widths.modified), (3, 11, 5, 7, 13));
    let options = options(false, false);
    let renderer = TableRenderer::new(&options, widths, false);
    assert_eq!(renderer.render_header(), "GIT Permissions  Size User    Date Modified Name");
    let entry = dummy_entry("f");
    assert_eq!(renderer.render_row(&entry, &rows[0]), "    .rw-r--r--  12345 someone 01 Jan 00:00  f");
}

#[test]
fn output_stage_and_plain_layouts() {
    let mut e = dummy_entry("a.txt");
    e.stages.push(StageInfo { mode: 0o100644, object_id: "abc".to_string(), stage: 0 });
    let plain = dummy_entry("b.txt");
    let entries = vec![e, plain];
    let mut cache = FxHashMap::default();
    let mut opts = options(false, false);
    opts.stage = true;
    let out = render_output(&entries, &opts, false, OutputLayout::OneLine, 0, None, &mut cache);
    assert_eq!(out, "100644 abc 0\ta.txt\nb.txt\n");
    opts.stage = false;
    opts.null = true;
    let out = render_output(&entries, &opts, false, OutputLayout::OneLine, 0, None, &mut cache);
    assert_eq!(out, "a.txt\0b.txt\0");
    opts.null = false;
    opts.format = Some("<%(path)>".to_string());
    let out = render_output(&entries, &opts, false, OutputLayout::Custom, 0, None, &mut cache);
    assert_eq!(out, "<a.txt>\n<b.txt>\n");
}

#[test]
fn output_long_layout_with_header() {
    let mut e = dummy_entry("a.txt");
    e.uid = Some(4000000000);
    e.size = 2048;
    e.modified = secs(0);
    let entries = vec![e];
    let mut cache = FxHashMap::default();
    cache.insert(4000000000u32, "who".to_string());
    let mut opts = options(false, false);
    opts.long = true;
    opts.header = true;
    let out = render_output(&entries, &opts, false, OutputLayout::Long, 0, None, &mut cache);
    assert_eq!(
        out,
        "GIT Permissions Size User Date Modified Name\n    .rw-r--r--    2k who  01 Jan 00:00  a.txt\n"
    );
}

#[test]
fn long_table_puts_every_name_in_one_column() {
    let rows = vec![
        LongDisplayRow {
            permissions: ".rw-r--r--".to_string(),
            size: "7".to_string(),
            user: "al".to_string(),
            modified: "01 Jan 00:00".to_string(),
            name: "short".to_string(),
            git: "M".to_string(),
        },
        LongDisplayRow {
            permissions: ".rw-r--r--@".to_string(),
            size: "1.5M".to_string(),
            user: "someone-long".to_string(),
            modified: "-".to_string(),
            name: "much-longer-name".to_string(),
            git: "?".to_string(),
        },
    ];
    let widths = TableWidths::calculate(&rows);
    let column = widths.git + widths.permissions + widths.size + widths.user + widths.modified + 5;
    let options = options(false, false);
    let renderer = TableRenderer::new(&options, widths, false);
    let header = renderer.render_header();
    assert_eq!(&header[column..], "Name");
    for row in &rows {
        let line = renderer.render_row(&dummy_entry(&row.name), row);
        assert_eq!(&line[column..], row.name);
    }
}

#[test]
fn sorting_orders_and_keeps_every_entry() {
    let mut entries = vec![dummy_entry("b"), dummy_entry("a"), dummy_entry("c"), dummy_entry("a")];
    entries[1].git = GitKind::Untracked;
    entries[2].git = GitKind::Conflicted;
    sort_entries(&mut entries, None);
    let got: Vec<(String, GitKind)> = entries.iter().map(|e| (e.path.clone(), e.git)).collect();
    assert_eq!(
        got,
        vec![
            ("c".to_string(), GitKind::Conflicted),
            ("a".to_string(), GitKind::Untracked),
            ("a".to_string(), GitKind::Clean),
            ("b".to_string(), GitKind::Clean),
        ]
    );
    let mut by_name = vec![dummy_entry("é"), dummy_entry("z"), dummy_entry("Z"), dummy_entry("")];
    sort_entries(&mut by_name, Some(SortField::Name));
    let got: Vec<String> = by_name.iter().map(|e| e.path.clone()).collect();
    assert_eq!(got, vec!["".to_string(), "Z".to_string(), "z".to_string(), "é".to_string()]);
}

#[test]
fn template_without_placeholders_is_printed_as_is() {
    let mut e = dummy_entry("a.txt");
    e.size = 42;
    e.git = GitKind::Modified;
    assert_eq!(render_custom_format("plain text (path) size", &e), "plain text (path) size");
    assert_eq!(render_custom_format("", &e), "");
}

#[test]
fn piped_output_is_raw_paths() {
    let mut a = dummy_entry("src");
    a.kind = EntryKind::Directory;
    a.git = GitKind::Modified;
    let mut b = dummy_entry("Cargo.toml");
    b.git = GitKind::Clean;
    let entries = vec![a, b];
    let mut cache = FxHashMap::default();
    let color = glas::color_enabled(glas::options::cli::ColorWhen::Auto, false);
    let opts = options(false, false);
    let out = render_output(&entries, &opts, color, OutputLayout::OneLine, 0, None, &mut cache);
    assert_eq!(out, "src\nCargo.toml\n");
}

#[test]
fn sorting_keeps_ties_in_input_order() {
    let mut first = dummy_entry("same");
    first.size = 1;
    let mut second = dummy_entry("same");
    second.size = 2;
    let mut other = dummy_entry("other");
    other.size = 3;
    let mut entries = vec![first, other, second];
    sort_entries(&mut entries, None);
    let got: Vec<(String, u64)> = entries.iter().map(|e| (e.path.clone(), e.size)).collect();
    assert_eq!(got, vec![("other".to_string(), 3), ("same".to_string(), 1), ("same".to_string(), 2)]);
    sort_entries(&mut entries, Some(SortField::Time));
    let got: Vec<u64> = entries.iter().map(|e| e.size).collect();
    assert_eq!(got, vec![3, 1, 2]);
}
