//! # options/cli
//!
//! The parsed command line. Argument parsing itself happens outside the library; this
//! type holds its result, and `Cli::default()` is what an empty command line gives.
use vstd::prelude::*;

verus! {

/// When to color the output.
#[derive(Clone, Copy, Debug, PartialEq, Eq, Structural)]
pub enum ColorWhen {
    Always,
    Auto,
    Never,
}

/// The key that orders the listing.
#[derive(Clone, Copy, Debug, PartialEq, Eq, Structural)]
pub enum SortField {
    Name,
    Size,
    Time,
    Git,
}

/// The parsed command line.
#[derive(Debug)]
pub struct Cli {
    /// `-?`: show the list of options.
    pub help: Option<bool>,
    /// `-v`, `--version`: show the version.
    pub version: Option<bool>,
    /// `-1`, `--oneline`: one entry per line.
    pub oneline: bool,
    /// `-l`, `--long`: extended metadata as a table.
    pub long: bool,
    /// `-h`, `-H`, `--header`: a header row in long format.
    pub header: bool,
    /// `--color`: when to color (default `auto`).
    pub color: ColorWhen,
    /// `--absolute`: show absolute paths.
    pub absolute: bool,
    /// `-z`, `--null`: terminate lines with a NUL byte.
    pub null: bool,
    /// `--format`: a custom output template.
    pub format: Option<String>,
    /// `-a`, `--all`: show hidden and dot-files.
    pub all: bool,
    /// `-d`, `--treat-dirs-as-files`: list directories as files.
    pub treat_dirs_as_files: bool,
    /// `-D`, `--only-dirs`: list only directories.
    pub only_dirs: bool,
    /// `-f`, `--only-files`: list only files.
    pub only_files: bool,
    /// `-s`, `--sort`: the sort key.
    pub sort: Option<SortField>,
    /// `-c`, `--cached`: show files in the index.
    pub cached: bool,
    /// `--stage`: show stage entries of the index.
    pub stage: bool,
    /// `--deleted`: show files with an unstaged deletion.
    pub deleted: bool,
    /// `-m`, `--modified`: show files with an unstaged modification.
    pub modified: bool,
    /// `-o`, `--others`: show untracked files.
    pub others: bool,
    /// `--ignored`: show only ignored files.
    pub ignored: bool,
    /// `--include-ignored`: include ignored files.
    pub include_ignored: bool,
    /// `--no-git`: do not read Git state.
    pub no_git: bool,
    /// `--flatten[=N|all]`: how deep nested changes are listed (default `0`, bare flag `all`).
    pub flatten: String,
    /// `--full-name`: paths relative to the repository root.
    pub full_name: bool,
    /// The targets to list.
    pub files: Vec<String>,
}

impl Default for Cli {
    /// The command line with no arguments.
    fn default() -> (r: Self)
        ensures
            r.help.is_none(),
            r.version.is_none(),
            !r.oneline && !r.long && !r.header && !r.absolute && !r.null,
            r.color == ColorWhen::Auto,
            r.format.is_none(),
            !r.all && !r.treat_dirs_as_files && !r.only_dirs && !r.only_files,
            r.sort.is_none(),
            !r.cached && !r.stage && !r.deleted && !r.modified && !r.others && !r.ignored,
            !r.include_ignored && !r.no_git && !r.full_name,
            r.flatten@ == seq!['0'],
            r.files@.len() == 0,
    {
        proof {
            reveal_strlit("0");
        }
        Cli {
            help: None,
            version: None,
            oneline: false,
            long: false,
            header: false,
            color: ColorWhen::Auto,
            absolute: false,
            null: false,
            format: None,
            all: false,
            treat_dirs_as_files: false,
            only_dirs: false,
            only_files: false,
            sort: None,
            cached: false,
            stage: false,
            deleted: false,
            modified: false,
            others: false,
            ignored: false,
            include_ignored: false,
            no_git: false,
            flatten: String::from_str("0"),
            full_name: false,
            files: Vec::new(),
        }
    }
}

} // verus!
