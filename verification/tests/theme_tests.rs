use glas::fs::file::EntryKind;
use glas::fs::git::GitKind;
use glas::output::render::RenderedEntry;
use glas::theme::color::apply_color;
use owo_colors::OwoColorize;

fn dummy_entry_with_git(git: GitKind) -> RenderedEntry {
    RenderedEntry {
        path: "test".to_string(),
        kind: EntryKind::File,
        git,
        mode: Some(0o100644),
        uid: Some(0),
        has_xattrs: false,
        size: 0,
        modified: None,
        stages: Vec::new(),
    }
}

#[test]
fn test_apply_color_disabled() {
    let entry = dummy_entry_with_git(GitKind::Modified);
    assert_eq!(apply_color("hello", &entry, false, false), "hello");
}

#[test]
fn test_apply_color_git_kinds() {
    let entry = dummy_entry_with_git(GitKind::Conflicted);
    assert_eq!(apply_color("hello", &entry, true, false), "hello".red().to_string());

    let entry = dummy_entry_with_git(GitKind::Staged);
    assert_eq!(apply_color("hello", &entry, true, false), "hello".green().to_string());

    let entry = dummy_entry_with_git(GitKind::Deleted);
    assert_eq!(apply_color("hello", &entry, true, false), "hello".red().to_string());

    let entry = dummy_entry_with_git(GitKind::Modified);
    assert_eq!(apply_color("hello", &entry, true, false), "hello".yellow().to_string());

    let entry = dummy_entry_with_git(GitKind::Untracked);
    assert_eq!(apply_color("hello", &entry, true, false), "hello".cyan().to_string());

    let entry = dummy_entry_with_git(GitKind::Ignored);
    assert_eq!(apply_color("hello", &entry, true, false), "hello".bright_black().to_string());

    let entry = dummy_entry_with_git(GitKind::Clean);
    assert_eq!(apply_color("hello", &entry, true, false), "hello");
}

#[test]
fn clean_directories_are_blue_and_special_files_bold() {
    let mut dir = dummy_entry_with_git(GitKind::Clean);
    dir.kind = EntryKind::Directory;
    dir.path = "clean_dir".to_string();
    assert_eq!(apply_color("clean_dir", &dir, true, false), "\u{1b}[34mclean_dir\u{1b}[39m");

    let mut special = dummy_entry_with_git(GitKind::Clean);
    special.path = "sub/Cargo.toml".to_string();
    assert_eq!(apply_color("x", &special, true, false), "\u{1b}[1mx\u{1b}[0m");
    special.path = "justfile/.".to_string();
    assert_eq!(apply_color("x", &special, true, false), "\u{1b}[1mx\u{1b}[0m");
    special.path = "Cargo.toml/..".to_string();
    assert_eq!(apply_color("x", &special, true, false), "x");
    special.path = "justfile".to_string();
    assert_eq!(apply_color("justfile", &special, true, false), "\u{1b}[1mjustfile\u{1b}[0m");
}
