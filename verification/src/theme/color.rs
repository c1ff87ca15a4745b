//! # theme/color
//!
//! Applies ANSI colors or bold styling to the rendered text of an entry, based on its
//! Git status, whether it is a directory, and special file names.
use vstd::prelude::*;

use owo_colors::OwoColorize;

use crate::fs::file::EntryKind;
use crate::fs::git::GitKind;
use crate::output::render::RenderedEntry;
use crate::text::{push_str, string_of};

verus! {

/// `text` between the escape that selects foreground color `code` and the escape that
/// restores the default foreground color.
pub open spec fn fg_text(code: Seq<char>, text: Seq<char>) -> Seq<char> {
    seq!['\u{1b}', '['] + code + seq!['m'] + text + seq!['\u{1b}', '[', '3', '9', 'm']
}

/// `text` in bold, followed by the escape that resets all attributes.
pub open spec fn bold_text(text: Seq<char>) -> Seq<char> {
    seq!['\u{1b}', '[', '1', 'm'] + text + seq!['\u{1b}', '[', '0', 'm']
}

/// `text` colored red. Trusted: `OwoColorize::red` wraps its argument so that
/// displaying it writes the red foreground escape (code 31), the text, and the
/// default-foreground escape (code 39).
#[verifier::external_body]
fn red(text: &str) -> (r: String)
    ensures
        r@ == fg_text(seq!['3', '1'], text@),
{
    text.red().to_string()
}

/// `text` colored green. Trusted: `OwoColorize::green` (code 32), as for `red`.
#[verifier::external_body]
fn green(text: &str) -> (r: String)
    ensures
        r@ == fg_text(seq!['3', '2'], text@),
{
    text.green().to_string()
}

/// `text` colored yellow. Trusted: `OwoColorize::yellow` (code 33), as for `red`.
#[verifier::external_body]
fn yellow(text: &str) -> (r: String)
    ensures
        r@ == fg_text(seq!['3', '3'], text@),
{
    text.yellow().to_string()
}

/// `text` colored blue. Trusted: `OwoColorize::blue` (code 34), as for `red`.
#[verifier::external_body]
fn blue(text: &str) -> (r: String)
    ensures
        r@ == fg_text(seq!['3', '4'], text@),
{
    text.blue().to_string()
}

/// `text` colored cyan. Trusted: `OwoColorize::cyan` (code 36), as for `red`.
#[verifier::external_body]
fn cyan(text: &str) -> (r: String)
    ensures
        r@ == fg_text(seq!['3', '6'], text@),
{
    text.cyan().to_string()
}

/// `text` colored bright black. Trusted: `OwoColorize::bright_black` (code 90), as for
/// `red`.
#[verifier::external_body]
fn bright_black(text: &str) -> (r: String)
    ensures
        r@ == fg_text(seq!['9', '0'], text@),
{
    text.bright_black().to_string()
}

/// The text `Cargo.toml`.
pub open spec fn cargo_toml_text() -> Seq<char> {
    seq!['C', 'a', 'r', 'g', 'o', '.', 't', 'o', 'm', 'l']
}

/// The text `justfile`.
pub open spec fn justfile_text() -> Seq<char> {
    seq!['j', 'u', 's', 't', 'f', 'i', 'l', 'e']
}

/// The path text without trailing separators and trailing `.` components.
pub open spec fn trim_path_tail(s: Seq<char>) -> Seq<char>
    decreases s.len(),
{
    if s.len() > 0 && s.last() == '/' {
        trim_path_tail(s.drop_last())
    } else if s.len() >= 2 && s.last() == '.' && s[s.len() - 2] == '/' {
        trim_path_tail(s.drop_last())
    } else {
        s
    }
}

/// The index just after the last `/` of `s` (0 when there is none).
pub open spec fn after_last_slash(s: Seq<char>) -> int
    decreases s.len(),
{
    if s.len() == 0 {
        0
    } else if s.last() == '/' {
        s.len() as int
    } else {
        after_last_slash(s.drop_last())
    }
}

/// The final name of a path text, if its last component is a name (not the root, `.`
/// or `..`).
pub open spec fn file_name_text(s: Seq<char>) -> Option<Seq<char>> {
    let t = trim_path_tail(s);
    let seg = t.skip(after_last_slash(t));
    if seg.len() == 0 || seg == seq!['.'] || seg == seq!['.', '.'] {
        None
    } else {
        Some(seg)
    }
}

/// Whether the final name of the path text is `Cargo.toml` or `justfile` (the whole
/// text counts when the path has no final name).
pub open spec fn is_special_path(s: Seq<char>) -> bool {
    let name = match file_name_text(s) {
        Some(n) => n,
        None => s,
    };
    name == cargo_toml_text() || name == justfile_text()
}

/// The colored form of `rendered` for an entry with status `git`, kind `kind` and path
/// text `path`: red for conflicts and deletions, green for staged, yellow for
/// modified, cyan for untracked, bright black for ignored; a clean directory is blue
/// and a clean `Cargo.toml` or `justfile` bold.
pub open spec fn colored_text(
    rendered: Seq<char>,
    git: GitKind,
    kind: EntryKind,
    path: Seq<char>,
    color_enabled: bool,
) -> Seq<char> {
    if !color_enabled {
        rendered
    } else {
        match git {
            GitKind::Conflicted => fg_text(seq!['3', '1'], rendered),
            GitKind::Staged => fg_text(seq!['3', '2'], rendered),
            GitKind::Modified => fg_text(seq!['3', '3'], rendered),
            GitKind::Deleted => fg_text(seq!['3', '1'], rendered),
            GitKind::Untracked => fg_text(seq!['3', '6'], rendered),
            GitKind::Ignored => fg_text(seq!['9', '0'], rendered),
            GitKind::Clean => if kind == EntryKind::Directory {
                fg_text(seq!['3', '4'], rendered)
            } else if is_special_path(path) {
                bold_text(rendered)
            } else {
                rendered
            },
        }
    }
}

fn trimmed_len(s: &str) -> (n: usize)
    ensures
        n <= s@.len(),
        trim_path_tail(s@) == s@.take(n as int),
{
    let mut n = s.unicode_len();
    proof {
        assert(s@.take(n as int) =~= s@);
    }
    while n > 0 && (s.get_char(n - 1) == '/' || (n >= 2 && s.get_char(n - 1) == '.'
        && s.get_char(n - 2) == '/'))
        invariant
            n <= s@.len(),
            trim_path_tail(s@) == trim_path_tail(s@.take(n as int)),
        decreases n,
    {
        proof {
            let t = s@.take(n as int);
            assert(t.drop_last() =~= s@.take(n - 1));
            assert(t.last() == s@[n - 1]);
            if n >= 2 {
                assert(t[t.len() - 2] == s@[n - 2]);
            }
        }
        n = n - 1;
    }
    proof {
        let t = s@.take(n as int);
        if n >= 2 {
            assert(t[t.len() - 2] == s@[n - 2]);
        }
        if n > 0 {
            assert(t.last() == s@[n - 1]);
        }
    }
    n
}

fn slash_end(s: &str, n: usize) -> (k: usize)
    requires
        n <= s@.len(),
    ensures
        k <= n,
        k as int == after_last_slash(s@.take(n as int)),
{
    let mut k = n;
    while k > 0 && s.get_char(k - 1) != '/'
        invariant
            k <= n <= s@.len(),
            after_last_slash(s@.take(n as int)) == after_last_slash(s@.take(k as int)),
        decreases k,
    {
        proof {
            let t = s@.take(k as int);
            assert(t.drop_last() =~= s@.take(k - 1));
            assert(t.last() == s@[k - 1]);
        }
        k = k - 1;
    }
    proof {
        if k > 0 {
            assert(s@.take(k as int).last() == s@[k - 1]);
        }
    }
    k
}

fn text_equals(a: &str, b: &str) -> (r: bool)
    ensures
        r == (a@ == b@),
{
    let n = a.unicode_len();
    if n != b.unicode_len() {
        return false;
    }
    let mut i: usize = 0;
    while i < n
        invariant
            n == a@.len(),
            n == b@.len(),
            i <= n,
            forall|j: int| 0 <= j < i ==> a@[j] == b@[j],
        decreases n - i,
    {
        if a.get_char(i) != b.get_char(i) {
            return false;
        }
        i = i + 1;
    }
    proof {
        assert(a@ =~= b@);
    }
    true
}

fn is_special_file(path: &str) -> (r: bool)
    ensures
        r == is_special_path(path@),
{
    let n = trimmed_len(path);
    let k = slash_end(path, n);
    let seg = path.substring_char(k, n);
    let ghost t = trim_path_tail(path@);
    proof {
        assert(seg@ =~= t.skip(after_last_slash(t)));
        reveal_strlit(".");
        reveal_strlit("..");
        reveal_strlit("Cargo.toml");
        reveal_strlit("justfile");
        assert("."@ =~= seq!['.']);
        assert(".."@ =~= seq!['.', '.']);
        assert("Cargo.toml"@ =~= cargo_toml_text());
        assert("justfile"@ =~= justfile_text());
    }
    let has_name = !(k == n || text_equals(seg, ".") || text_equals(seg, ".."));
    let name = if has_name {
        seg
    } else {
        path
    };
    text_equals(name, "Cargo.toml") || text_equals(name, "justfile")
}

/// Applies the ANSI color or style of the entry to `rendered` when coloring is on.
pub fn apply_color(rendered: &str, entry: &RenderedEntry, color_enabled: bool, _long: bool) -> (r:
    String)
    ensures
        r@ == colored_text(rendered@, entry.git, entry.kind, entry.path@, color_enabled),
{
    if !color_enabled {
        return string_of(rendered);
    }
    match entry.git {
        GitKind::Conflicted => red(rendered),
        GitKind::Staged => green(rendered),
        GitKind::Modified => yellow(rendered),
        GitKind::Deleted => red(rendered),
        GitKind::Untracked => cyan(rendered),
        GitKind::Ignored => bright_black(rendered),
        GitKind::Clean => {
            if entry.kind == EntryKind::Directory {
                blue(rendered)
            } else if is_special_file(entry.path.as_str()) {
                let mut s = string_of("\u{1b}[1m");
                push_str(&mut s, rendered);
                push_str(&mut s, "\u{1b}[0m");
                proof {
                    reveal_strlit("\u{1b}[1m");
                    reveal_strlit("\u{1b}[0m");
                    assert("\u{1b}[1m"@ =~= seq!['\u{1b}', '[', '1', 'm']);
                    assert("\u{1b}[0m"@ =~= seq!['\u{1b}', '[', '0', 'm']);
                    assert(s@ =~= bold_text(rendered@));
                }
                s
            } else {
                string_of(rendered)
            }
        },
    }
}

/// Coloring only wraps the text: with coloring off the text is returned as it is, and
/// with coloring on it stands unchanged between a leading and a trailing escape (either
/// of which may be empty).
pub proof fn lemma_color_wraps_text(
    rendered: Seq<char>,
    git: GitKind,
    kind: EntryKind,
    path: Seq<char>,
    color_enabled: bool,
)
    ensures
        !color_enabled ==> colored_text(rendered, git, kind, path, color_enabled) == rendered,
        exists|pre: Seq<char>, post: Seq<char>|
            colored_text(rendered, git, kind, path, color_enabled) == pre + rendered + post,
{
    let out = colored_text(rendered, git, kind, path, color_enabled);
    let none = Seq::<char>::empty();
    let reset_fg = seq!['\u{1b}', '[', '3', '9', 'm'];
    let code = match git {
        GitKind::Conflicted => seq!['3', '1'],
        GitKind::Staged => seq!['3', '2'],
        GitKind::Modified => seq!['3', '3'],
        GitKind::Deleted => seq!['3', '1'],
        GitKind::Untracked => seq!['3', '6'],
        GitKind::Ignored => seq!['9', '0'],
        GitKind::Clean => seq!['3', '4'],
    };
    if !color_enabled || (git == GitKind::Clean && kind != EntryKind::Directory && !is_special_path(
        path,
    )) {
        assert(out =~= none + rendered + none);
    } else if git == GitKind::Clean && kind != EntryKind::Directory {
        assert(out =~= seq!['\u{1b}', '[', '1', 'm'] + rendered + seq!['\u{1b}', '[', '0', 'm']);
    } else {
        assert(out =~= (seq!['\u{1b}', '['] + code + seq!['m']) + rendered + reset_fg);
    }
}

} // verus!
