//! # options/config
//!
//! `DirOptions` for filtering and traversal during directory scanning, and
//! `RenderOptions` for output formatting and sorting.
use vstd::prelude::*;

use crate::options::cli::{Cli, SortField};

verus! {

/// How deep nested changes are listed individually.
#[derive(Clone, Copy, Debug, PartialEq, Eq, Structural)]
pub enum FlattenDepth {
    /// Flatten up to the given depth.
    Depth(usize),
    /// Flatten all nested levels.
    All,
}

/// ASCII lower-casing of one character (other characters are kept).
pub open spec fn ascii_lower(c: char) -> char {
    if 'A' <= c && c <= 'Z' {
        ((c as u32) + 32) as char
    } else {
        c
    }
}

/// Whether `s` is `all` in any ASCII case.
pub open spec fn is_all_word(s: Seq<char>) -> bool {
    &&& s.len() == 3
    &&& ascii_lower(s[0]) == 'a'
    &&& ascii_lower(s[1]) == 'l'
    &&& ascii_lower(s[2]) == 'l'
}

pub open spec fn is_digit(c: char) -> bool {
    '0' <= c && c <= '9'
}

pub open spec fn digit_value(c: char) -> nat {
    ((c as u32) - 48) as nat
}

/// The value of a string of decimal digits.
pub open spec fn digits_value(s: Seq<char>) -> nat
    decreases s.len(),
{
    if s.len() == 0 {
        0
    } else {
        digits_value(s.drop_last()) * 10 + digit_value(s.last())
    }
}

/// `s` without a leading `+` sign.
pub open spec fn unsigned_body(s: Seq<char>) -> Seq<char> {
    if s.len() > 0 && s[0] == '+' {
        s.drop_first()
    } else {
        s
    }
}

/// Every character of `s` is a decimal digit.
pub open spec fn all_digits(s: Seq<char>) -> bool {
    forall|i: int| 0 <= i < s.len() ==> is_digit(#[trigger] s[i])
}

/// What parsing `s` as a `usize` gives: an optional `+` sign followed by one or more
/// decimal digits whose value fits in a `usize`.
pub open spec fn parsed_usize(s: Seq<char>) -> Option<nat> {
    let body = unsigned_body(s);
    if body.len() > 0 && all_digits(body) && digits_value(body) <= usize::MAX {
        Some(digits_value(body))
    } else {
        None
    }
}

/// The flatten depth that a `--flatten` value selects: `all` in any ASCII case,
/// else the number it spells, else zero.
pub open spec fn flatten_of(s: Seq<char>) -> FlattenDepth {
    if is_all_word(s) {
        FlattenDepth::All
    } else {
        match parsed_usize(s) {
            Some(n) => FlattenDepth::Depth(n as usize),
            None => FlattenDepth::Depth(0),
        }
    }
}

/// `--flatten=N` for a decimal N selects depth N, and `--flatten=all` (in any case)
/// selects every depth; a value that is neither selects depth 0.
pub proof fn lemma_flatten_value_meaning(n: nat, s: Seq<char>)
    requires
        n <= usize::MAX,
    ensures
        flatten_of(crate::text::dec_digits(n)) == FlattenDepth::Depth(n as usize),
        flatten_of(seq!['a', 'l', 'l']) == FlattenDepth::All,
        flatten_of(seq!['A', 'L', 'L']) == FlattenDepth::All,
        s.len() == 0 ==> flatten_of(s) == FlattenDepth::Depth(0),
        s.len() > 0 && s[0] == '-' ==> flatten_of(s) == FlattenDepth::Depth(0),
{
    lemma_dec_digits_value(n);
    let d = crate::text::dec_digits(n);
    assert(d[0] != '+');
    assert(unsigned_body(d) == d);
    if s.len() > 0 && s[0] == '-' {
        assert(!is_digit(unsigned_body(s)[0]));
    }
}

proof fn lemma_dec_digits_value(n: nat)
    ensures
        crate::text::dec_digits(n).len() > 0,
        all_digits(crate::text::dec_digits(n)),
        digits_value(crate::text::dec_digits(n)) == n,
        is_digit(crate::text::dec_digits(n)[0]),
        crate::text::dec_digits(n).len() != 3 || !is_all_word(crate::text::dec_digits(n)),
    decreases n,
{
    let d = crate::text::dec_digits(n);
    if n < 10 {
        assert(digits_value(d.drop_last()) == 0);
    } else {
        lemma_dec_digits_value(n / 10);
        let p = crate::text::dec_digits(n / 10);
        assert(d.drop_last() =~= p);
        assert(d[0] == p[0]);
        assert forall|i: int| 0 <= i < d.len() implies is_digit(#[trigger] d[i]) by {
            if i < p.len() {
                assert(d[i] == p[i]);
            }
        }
    }
}

fn lower(c: char) -> (r: char)
    ensures
        r == ascii_lower(c),
{
    if 'A' <= c && c <= 'Z' {
        let b: u8 = (c as u8) + 32;
        b as char
    } else {
        c
    }
}

/// Parses `s` as a `usize` the way `str::parse` does.
pub fn parse_usize(s: &str) -> (r: Option<usize>)
    ensures
        match parsed_usize(s@) {
            Some(n) => r == Some(n as usize),
            None => r.is_none(),
        },
{
    let len = s.unicode_len();
    let start: usize = if len > 0 && s.get_char(0) == '+' { 1 } else { 0 };
    let ghost body = unsigned_body(s@);
    proof {
        assert(body =~= s@.subrange(start as int, len as int));
    }
    if start == len {
        return None;
    }
    let mut acc: usize = 0;
    let mut overflow = false;
    let mut i = start;
    while i < len
        invariant
            start <= i <= len,
            len == s@.len(),
            body == unsigned_body(s@),
            body =~= s@.subrange(start as int, len as int),
            forall|j: int| start <= j < i ==> is_digit(#[trigger] s@[j]),
            !overflow ==> acc as nat == digits_value(s@.subrange(start as int, i as int)),
            overflow ==> digits_value(s@.subrange(start as int, i as int)) > usize::MAX,
        decreases len - i,
    {
        let c = s.get_char(i);
        if !('0' <= c && c <= '9') {
            proof {
                assert(body[i - start] == c);
                assert(!is_digit(body[i - start]));
            }
            return None;
        }
        let d: usize = ((c as u32) - 48) as usize;
        proof {
            assert(s@.subrange(start as int, i + 1) =~= s@.subrange(start as int, i as int).push(c));
            assert(s@.subrange(start as int, i + 1).drop_last() =~= s@.subrange(start as int, i as int));
            assert(digits_value(s@.subrange(start as int, i + 1)) == digits_value(
                s@.subrange(start as int, i as int),
            ) * 10 + d);
        }
        if !overflow {
            if acc > (usize::MAX - d) / 10 {
                overflow = true;
                proof {
                    assert(acc * 10 + d > usize::MAX) by (nonlinear_arith)
                        requires
                            acc > (usize::MAX - d) / 10,
                            d <= 9;
                }
            } else {
                proof {
                    assert(acc * 10 + d <= usize::MAX) by (nonlinear_arith)
                        requires
                            acc <= (usize::MAX - d) / 10,
                            d <= 9;
                }
                acc = acc * 10 + d;
            }
        }
        i = i + 1;
    }
    proof {
        assert(s@.subrange(start as int, len as int) =~= body);
        assert forall|j: int| 0 <= j < body.len() implies is_digit(#[trigger] body[j]) by {
            assert(body[j] == s@[j + start]);
        }
    }
    if overflow {
        None
    } else {
        Some(acc)
    }
}

impl FlattenDepth {
    /// Reads a `--flatten` value: `all` (in any ASCII case) flattens every level; a
    /// number flattens that many levels; anything else flattens none.
    pub fn from_str(s: &str) -> (r: Self)
        ensures
            r == flatten_of(s@),
    {
        let is_all = s.unicode_len() == 3 && lower(s.get_char(0)) == 'a' && lower(s.get_char(1))
            == 'l' && lower(s.get_char(2)) == 'l';
        if is_all {
            FlattenDepth::All
        } else {
            match parse_usize(s) {
                Some(n) => FlattenDepth::Depth(n),
                None => FlattenDepth::Depth(0),
            }
        }
    }
}

/// Configuration for directory traversal and entry filtering.
#[derive(Clone, Debug)]
pub struct DirOptions {
    /// Whether to disable Git integration.
    pub no_git: bool,
    /// Whether to list directories as if they were regular files.
    pub treat_dirs_as_files: bool,
    /// Whether the long (table) mode is active.
    pub long: bool,
    /// Whether to include hidden files.
    pub all: bool,
    /// Whether to list only directories.
    pub only_dirs: bool,
    /// Whether to list only files.
    pub only_files: bool,
    /// Select files in the index.
    pub cached: bool,
    /// Select stage entries.
    pub stage: bool,
    /// Select unstaged deletions.
    pub deleted: bool,
    /// Select unstaged modifications.
    pub modified: bool,
    /// Select untracked files.
    pub others: bool,
    /// Select only ignored files.
    pub ignored: bool,
    /// Include ignored files.
    pub include_ignored: bool,
    /// Flattening depth.
    pub flatten: FlattenDepth,
    /// Whether any Git selector is given.
    pub git_select_mode: bool,
}

impl DirOptions {
    /// Builds `DirOptions` from the command line.
    pub fn from_cli(cli: &Cli) -> (r: Self)
        ensures
            r.no_git == cli.no_git,
            r.treat_dirs_as_files == cli.treat_dirs_as_files,
            r.long == cli.long,
            r.all == cli.all,
            r.only_dirs == cli.only_dirs,
            r.only_files == cli.only_files,
            r.cached == cli.cached,
            r.stage == cli.stage,
            r.deleted == cli.deleted,
            r.modified == cli.modified,
            r.others == cli.others,
            r.ignored == cli.ignored,
            r.include_ignored == cli.include_ignored,
            r.flatten == flatten_of(cli.flatten@),
            r.git_select_mode == (cli.cached || cli.stage || cli.deleted || cli.modified
                || cli.others || cli.ignored),
            selectors_consistent(r),
    {
        let cached = cli.cached;
        let stage = cli.stage;
        let deleted = cli.deleted;
        let modified = cli.modified;
        let others = cli.others;
        let ignored = cli.ignored;

        let git_select_mode = cached || stage || deleted || modified || others || ignored;

        DirOptions {
            no_git: cli.no_git,
            treat_dirs_as_files: cli.treat_dirs_as_files,
            long: cli.long,
            all: cli.all,
            only_dirs: cli.only_dirs,
            only_files: cli.only_files,
            cached,
            stage,
            deleted,
            modified,
            others,
            ignored,
            include_ignored: cli.include_ignored,
            flatten: FlattenDepth::from_str(cli.flatten.as_str()),
            git_select_mode,
        }
    }
}

/// Whether `git_select_mode` records exactly whether a Git selector is given, as
/// `DirOptions::from_cli` sets it.
pub open spec fn selectors_consistent(o: DirOptions) -> bool {
    o.git_select_mode == (o.cached || o.stage || o.deleted || o.modified || o.others || o.ignored)
}

/// Options that control rendering.
#[derive(Debug)]
pub struct RenderOptions {
    /// Long (table) format.
    pub long: bool,
    /// Header row.
    pub header: bool,
    /// NUL-terminated lines.
    pub null: bool,
    /// Custom template.
    pub format: Option<String>,
    /// Absolute paths.
    pub absolute: bool,
    /// Paths relative to the repository root.
    pub full_name: bool,
    /// Sort key.
    pub sort: Option<SortField>,
    /// Stage listing.
    pub stage: bool,
}

/// The views of two optional strings agree.
pub open spec fn same_opt_text(a: Option<String>, b: Option<String>) -> bool {
    match (a, b) {
        (Some(x), Some(y)) => x@ == y@,
        (None, None) => true,
        _ => false,
    }
}

impl RenderOptions {
    /// Builds `RenderOptions` from the command line.
    pub fn from_cli(cli: &Cli) -> (r: Self)
        ensures
            r.long == cli.long,
            r.header == cli.header,
            r.null == cli.null,
            same_opt_text(r.format, cli.format),
            r.absolute == cli.absolute,
            r.full_name == cli.full_name,
            r.sort == cli.sort,
            r.stage == cli.stage,
    {
        let format = match &cli.format {
            Some(f) => Some(f.clone()),
            None => None,
        };
        RenderOptions {
            long: cli.long,
            header: cli.header,
            null: cli.null,
            format,
            absolute: cli.absolute,
            full_name: cli.full_name,
            sort: cli.sort,
            stage: cli.stage,
        }
    }
}

} // verus!
