//! # output/table
//!
//! The long table (column widths, header and rows) and the whole output text of a
//! listing in each layout: stage lines, long table, grid, custom template, or one path
//! per line.
use vstd::prelude::*;

use rustc_hash::FxHashMap;

use crate::fs::git::{tag_of, StageInfo};
use crate::info::perms::{permission_string, permission_text};
use crate::info::size::{long_size, long_size_text};
use crate::info::time::{long_modified, modified_showable, modified_text, offset_in_range};
use crate::info::user::long_user;
use crate::options::config::RenderOptions;
use crate::options::cli::ColorWhen;
use crate::options::layout::{layout_for, OutputLayout};
use crate::output::custom::{custom_text, render_custom_format};
use crate::output::grid::{byte_len, grid_text, render_grid};
use crate::output::render::RenderedEntry;
use crate::text::{
    lemma_pad_len, oct_digits, octal, pad_left, pad_right, push_char, push_padded_left, push_padded_right,
    push_repeat, push_str, repeat_char, signed_dec_digits, signed_decimal, zero_pad,
};
use crate::theme::color::{apply_color, colored_text};

verus! {

/// The texts of one row of the long table.
#[derive(Debug)]
pub struct LongDisplayRow {
    pub permissions: String,
    pub size: String,
    pub user: String,
    pub modified: String,
    pub name: String,
    pub git: String,
}

/// The widths of the padded columns.
#[derive(Debug)]
pub struct TableWidths {
    pub git: usize,
    pub permissions: usize,
    pub size: usize,
    pub user: usize,
    pub modified: usize,
}

/// The length of a text as `str::len` reports it (its UTF-8 bytes).
pub open spec fn str_len(s: Seq<char>) -> usize {
    byte_len(s) as usize
}

/// The largest of `init` and the lengths of the chosen field over the rows.
pub open spec fn max_field(rows: Seq<LongDisplayRow>, field: spec_fn(LongDisplayRow) -> Seq<char>, init: usize) -> usize
    decreases rows.len(),
{
    if rows.len() == 0 {
        init
    } else {
        let m = max_field(rows.drop_last(), field, init);
        let l = str_len(field(rows.last()));
        if l > m {
            l
        } else {
            m
        }
    }
}

pub open spec fn git_field() -> spec_fn(LongDisplayRow) -> Seq<char> {
    |r: LongDisplayRow| r.git@
}

pub open spec fn permissions_field() -> spec_fn(LongDisplayRow) -> Seq<char> {
    |r: LongDisplayRow| r.permissions@
}

pub open spec fn size_field() -> spec_fn(LongDisplayRow) -> Seq<char> {
    |r: LongDisplayRow| r.size@
}

pub open spec fn user_field() -> spec_fn(LongDisplayRow) -> Seq<char> {
    |r: LongDisplayRow| r.user@
}

pub open spec fn modified_field() -> spec_fn(LongDisplayRow) -> Seq<char> {
    |r: LongDisplayRow| r.modified@
}

/// The column widths are those of the header titles (`GIT`, `Permissions`, `Size`,
/// `User`, `Date Modified`) or of the longest cell below them.
pub open spec fn widths_of(w: TableWidths, rows: Seq<LongDisplayRow>) -> bool {
    &&& w.git == max_field(rows, git_field(), 3)
    &&& w.permissions == max_field(rows, permissions_field(), 11)
    &&& w.size == max_field(rows, size_field(), 4)
    &&& w.user == max_field(rows, user_field(), 4)
    &&& w.modified == max_field(rows, modified_field(), 13)
}

fn max_usize(a: usize, b: usize) -> (r: usize)
    ensures
        r == (if b > a {
            b
        } else {
            a
        }),
{
    if b > a {
        b
    } else {
        a
    }
}

impl TableWidths {
    /// The widths needed by the header and all rows.
    pub fn calculate(rows: &[LongDisplayRow]) -> (r: Self)
        ensures
            widths_of(r, rows@),
    {
        let mut widths = TableWidths { git: 3, permissions: 11, size: 4, user: 4, modified: 13 };
        let mut i: usize = 0;
        while i < rows.len()
            invariant
                i <= rows.len(),
                widths_of(widths, rows@.take(i as int)),
            decreases rows.len() - i,
        {
            let row = &rows[i];
            widths.git = max_usize(widths.git, row.git.as_str().len());
            widths.permissions = max_usize(widths.permissions, row.permissions.as_str().len());
            widths.size = max_usize(widths.size, row.size.as_str().len());
            widths.user = max_usize(widths.user, row.user.as_str().len());
            widths.modified = max_usize(widths.modified, row.modified.as_str().len());
            proof {
                let t = rows@.take(i + 1);
                assert(t.drop_last() =~= rows@.take(i as int));
                assert(t.last() == rows@[i as int]);
            }
            i = i + 1;
        }
        proof {
            assert(rows@.take(rows.len() as int) =~= rows@);
        }
        widths
    }
}

/// One line of the table: the five padded columns (size right-aligned) and the name,
/// separated by single spaces.
pub open spec fn table_line(
    w: TableWidths,
    git: Seq<char>,
    permissions: Seq<char>,
    size: Seq<char>,
    user: Seq<char>,
    modified: Seq<char>,
    name: Seq<char>,
) -> Seq<char> {
    pad_right(git, w.git as nat) + seq![' '] + pad_right(permissions, w.permissions as nat) + seq![
        ' ',
    ] + pad_left(size, w.size as nat) + seq![' '] + pad_right(user, w.user as nat) + seq![' ']
        + pad_right(modified, w.modified as nat) + seq![' '] + name
}

pub open spec fn header_line(w: TableWidths) -> Seq<char> {
    table_line(
        w,
        seq!['G', 'I', 'T'],
        seq!['P', 'e', 'r', 'm', 'i', 's', 's', 'i', 'o', 'n', 's'],
        seq!['S', 'i', 'z', 'e'],
        seq!['U', 's', 'e', 'r'],
        seq!['D', 'a', 't', 'e', ' ', 'M', 'o', 'd', 'i', 'f', 'i', 'e', 'd'],
        seq!['N', 'a', 'm', 'e'],
    )
}

/// The colored line of one entry: its status tag and row texts, colored as the entry.
pub open spec fn row_line(w: TableWidths, entry: RenderedEntry, row: LongDisplayRow, color_enabled: bool) -> Seq<
    char,
> {
    colored_text(
        table_line(
            w,
            crate::fs::git::tag_of(entry.git),
            row.permissions@,
            row.size@,
            row.user@,
            row.modified@,
            row.name@,
        ),
        entry.git,
        entry.kind,
        entry.path@,
        color_enabled,
    )
}

/// Renders the header and rows of the long table.
pub struct TableRenderer<'a> {
    pub widths: TableWidths,
    pub options: &'a RenderOptions,
    pub color_enabled: bool,
}

fn push_line(
    out: &mut String,
    w: &TableWidths,
    git: &str,
    permissions: &str,
    size: &str,
    user: &str,
    modified: &str,
    name: &str,
)
    ensures
        final(out)@ == old(out)@ + table_line(*w, git@, permissions@, size@, user@, modified@, name@),
{
    push_padded_right(out, git, w.git);
    push_char(out, ' ');
    push_padded_right(out, permissions, w.permissions);
    push_char(out, ' ');
    push_padded_left(out, size, w.size);
    push_char(out, ' ');
    push_padded_right(out, user, w.user);
    push_char(out, ' ');
    push_padded_right(out, modified, w.modified);
    push_char(out, ' ');
    push_str(out, name);
    proof {
        assert(final(out)@ =~= old(out)@ + table_line(*w, git@, permissions@, size@, user@, modified@, name@));
    }
}

impl<'a> TableRenderer<'a> {
    pub fn new(options: &'a RenderOptions, widths: TableWidths, color_enabled: bool) -> (r: Self)
        ensures
            r.widths == widths,
            r.options == options,
            r.color_enabled == color_enabled,
    {
        TableRenderer { widths, options, color_enabled }
    }

    /// The header line.
    pub fn render_header(&self) -> (r: String)
        ensures
            r@ == header_line(self.widths),
    {
        let mut out = String::new();
        push_line(&mut out, &self.widths, "GIT", "Permissions", "Size", "User", "Date Modified", "Name");
        proof {
            reveal_strlit("GIT");
            reveal_strlit("Permissions");
            reveal_strlit("Size");
            reveal_strlit("User");
            reveal_strlit("Date Modified");
            reveal_strlit("Name");
            assert("GIT"@ =~= seq!['G', 'I', 'T']);
            assert("Permissions"@ =~= seq!['P', 'e', 'r', 'm', 'i', 's', 's', 'i', 'o', 'n', 's']);
            assert("Size"@ =~= seq!['S', 'i', 'z', 'e']);
            assert("User"@ =~= seq!['U', 's', 'e', 'r']);
            assert("Date Modified"@ =~= seq!['D', 'a', 't', 'e', ' ', 'M', 'o', 'd', 'i', 'f', 'i', 'e', 'd']);
            assert("Name"@ =~= seq!['N', 'a', 'm', 'e']);
            assert(out@ =~= header_line(self.widths));
        }
        out
    }

    /// The line of one entry, colored as the entry.
    pub fn render_row(&self, entry: &RenderedEntry, row: &LongDisplayRow) -> (r: String)
        ensures
            r@ == row_line(self.widths, *entry, *row, self.color_enabled),
    {
        let mut line = String::new();
        push_line(
            &mut line,
            &self.widths,
            entry.git.tag(),
            row.permissions.as_str(),
            row.size.as_str(),
            row.user.as_str(),
            row.modified.as_str(),
            row.name.as_str(),
        );
        proof {
            assert(line@ =~= table_line(
                self.widths,
                crate::fs::git::tag_of(entry.git),
                row.permissions@,
                row.size@,
                row.user@,
                row.modified@,
                row.name@,
            ));
        }
        apply_color(line.as_str(), entry, self.color_enabled, self.options.long)
    }
}

/// The line terminator: NUL with `--null`, else a newline.
pub open spec fn separator_text(null: bool) -> Seq<char> {
    if null {
        seq!['\0']
    } else {
        seq!['\n']
    }
}

/// The path of an entry colored as the entry.
pub open spec fn colored_path(e: RenderedEntry, color_enabled: bool) -> Seq<char> {
    colored_text(e.path@, e.git, e.kind, e.path@, color_enabled)
}

/// One stage line: the mode in six octal digits, the object name, the stage number, a
/// tab and the colored path.
pub open spec fn stage_line(st: StageInfo, path: Seq<char>) -> Seq<char> {
    zero_pad(oct_digits(st.mode as nat), 6) + seq![' '] + st.object_id@ + seq![' ']
        + signed_dec_digits(st.stage as int) + seq!['\t'] + path
}

/// The stage lines of the first `k` stage entries of an entry, each terminated.
pub open spec fn stage_lines(stages: Seq<StageInfo>, path: Seq<char>, sep: Seq<char>, k: nat) -> Seq<char>
    decreases k,
{
    if k == 0 {
        Seq::empty()
    } else {
        stage_lines(stages, path, sep, (k - 1) as nat) + stage_line(stages[k - 1], path) + sep
    }
}

/// The stage listing of one entry: its colored path when it has no stage entries, else
/// one line per stage entry.
pub open spec fn stage_block(e: RenderedEntry, color_enabled: bool, sep: Seq<char>) -> Seq<char> {
    if e.stages@.len() == 0 {
        colored_path(e, color_enabled) + sep
    } else {
        stage_lines(e.stages@, colored_path(e, color_enabled), sep, e.stages@.len())
    }
}

/// The stage listing of the first `k` entries.
pub open spec fn stage_listing(es: Seq<RenderedEntry>, color_enabled: bool, sep: Seq<char>, k: nat) -> Seq<char>
    decreases k,
{
    if k == 0 {
        Seq::empty()
    } else {
        stage_listing(es, color_enabled, sep, (k - 1) as nat) + stage_block(es[k - 1], color_enabled, sep)
    }
}

/// The owner text of a uid given the names known for uids.
pub open spec fn user_text(uid: Option<u32>, names: Map<u32, String>) -> Seq<char> {
    match uid {
        None => seq!['-'],
        Some(u) => names[u]@,
    }
}

/// The permission, size, owner and time texts of an entry.
pub open spec fn entry_permissions(e: RenderedEntry) -> Seq<char> {
    permission_text(e.kind, e.mode, e.has_xattrs)
}

/// A row holds the texts of its entry.
pub open spec fn row_models(
    row: LongDisplayRow,
    e: RenderedEntry,
    names: Map<u32, String>,
    offset_secs: i32,
) -> bool {
    &&& row.permissions@ == entry_permissions(e)
    &&& row.size@ == long_size_text(e.kind, e.size)
    &&& row.user@ == user_text(e.uid, names)
    &&& row.modified@ == modified_text(e.modified, offset_secs)
    &&& row.name@ == e.path@
    &&& row.git@ == tag_of(e.git)
}

/// The largest of `init` and the lengths of a text of the first `k` entries.
pub open spec fn max_entry_text(
    es: Seq<RenderedEntry>,
    text: spec_fn(RenderedEntry) -> Seq<char>,
    init: usize,
    k: nat,
) -> usize
    decreases k,
{
    if k == 0 {
        init
    } else {
        let m = max_entry_text(es, text, init, (k - 1) as nat);
        let l = str_len(text(es[k - 1]));
        if l > m {
            l
        } else {
            m
        }
    }
}

/// The column widths of the long table of `es`.
pub open spec fn long_widths(es: Seq<RenderedEntry>, names: Map<u32, String>, offset_secs: i32) -> TableWidths {
    TableWidths {
        git: max_entry_text(es, |e: RenderedEntry| tag_of(e.git), 3, es.len()),
        permissions: max_entry_text(es, |e: RenderedEntry| entry_permissions(e), 11, es.len()),
        size: max_entry_text(es, |e: RenderedEntry| long_size_text(e.kind, e.size), 4, es.len()),
        user: max_entry_text(es, |e: RenderedEntry| user_text(e.uid, names), 4, es.len()),
        modified: max_entry_text(
            es,
            |e: RenderedEntry| modified_text(e.modified, offset_secs),
            13,
            es.len(),
        ),
    }
}

/// The colored table line of an entry.
pub open spec fn entry_line(
    w: TableWidths,
    e: RenderedEntry,
    names: Map<u32, String>,
    offset_secs: i32,
    color_enabled: bool,
) -> Seq<char> {
    colored_text(
        table_line(
            w,
            tag_of(e.git),
            entry_permissions(e),
            long_size_text(e.kind, e.size),
            user_text(e.uid, names),
            modified_text(e.modified, offset_secs),
            e.path@,
        ),
        e.git,
        e.kind,
        e.path@,
        color_enabled,
    )
}

/// The terminated table lines of the first `k` entries.
pub open spec fn table_lines(
    es: Seq<RenderedEntry>,
    w: TableWidths,
    names: Map<u32, String>,
    offset_secs: i32,
    color_enabled: bool,
    sep: Seq<char>,
    k: nat,
) -> Seq<char>
    decreases k,
{
    if k == 0 {
        Seq::empty()
    } else {
        table_lines(es, w, names, offset_secs, color_enabled, sep, (k - 1) as nat) + entry_line(
            w,
            es[k - 1],
            names,
            offset_secs,
            color_enabled,
        ) + sep
    }
}

/// The long table: an optional header line, then a line per entry.
pub open spec fn long_listing(
    es: Seq<RenderedEntry>,
    names: Map<u32, String>,
    offset_secs: i32,
    header: bool,
    color_enabled: bool,
    sep: Seq<char>,
) -> Seq<char> {
    let w = long_widths(es, names, offset_secs);
    (if header {
        header_line(w) + sep
    } else {
        Seq::empty()
    }) + table_lines(es, w, names, offset_secs, color_enabled, sep, es.len())
}

/// The text of one entry outside the table and the grid: the template result in the
/// custom layout (the template defaults to `%(path)`), else the path.
pub open spec fn plain_text(e: RenderedEntry, format: Option<String>, layout: OutputLayout) -> Seq<char> {
    if layout == OutputLayout::Custom {
        let template = match format {
            Some(f) => f@,
            None => seq!['%', '(', 'p', 'a', 't', 'h', ')'],
        };
        custom_text(template, e)
    } else {
        e.path@
    }
}

/// One terminated line per entry.
pub open spec fn plain_listing(
    es: Seq<RenderedEntry>,
    format: Option<String>,
    layout: OutputLayout,
    color_enabled: bool,
    sep: Seq<char>,
    k: nat,
) -> Seq<char>
    decreases k,
{
    if k == 0 {
        Seq::empty()
    } else {
        plain_listing(es, format, layout, color_enabled, sep, (k - 1) as nat) + colored_text(
            plain_text(es[k - 1], format, layout),
            es[k - 1].git,
            es[k - 1].kind,
            es[k - 1].path@,
            color_enabled,
        ) + sep
    }
}

/// The whole output of a listing: stage lines with `--stage`; else the long table, the
/// grid, or a line per entry, according to the layout.
pub open spec fn output_text(
    es: Seq<RenderedEntry>,
    options: RenderOptions,
    color_enabled: bool,
    layout: OutputLayout,
    offset_secs: i32,
    term_width: Option<usize>,
    names: Map<u32, String>,
) -> Seq<char> {
    let sep = separator_text(options.null);
    if options.stage {
        stage_listing(es, color_enabled, sep, es.len())
    } else if layout == OutputLayout::Long {
        long_listing(es, names, offset_secs, options.header, color_enabled, sep)
    } else if layout == OutputLayout::Grid {
        grid_text(es, color_enabled, term_width)
    } else {
        plain_listing(es, options.format, layout, color_enabled, sep, es.len())
    }
}

proof fn lemma_max_field_matches(
    rows: Seq<LongDisplayRow>,
    es: Seq<RenderedEntry>,
    field: spec_fn(LongDisplayRow) -> Seq<char>,
    text: spec_fn(RenderedEntry) -> Seq<char>,
    init: usize,
    k: nat,
)
    requires
        k <= rows.len(),
        rows.len() == es.len(),
        forall|i: int| 0 <= i < rows.len() ==> field(#[trigger] rows[i]) == text(es[i]),
    ensures
        max_field(rows.take(k as int), field, init) == max_entry_text(es, text, init, k),
    decreases k,
{
    if k > 0 {
        lemma_max_field_matches(rows, es, field, text, init, (k - 1) as nat);
        assert(rows.take(k as int).drop_last() =~= rows.take(k - 1));
        assert(rows.take(k as int).last() == rows[k - 1]);
        assert(field(rows[k - 1]) == text(es[k - 1]));
    }
}

/// Writes one stage block for `entry`.
fn push_stage_block(out: &mut String, entry: &RenderedEntry, color_enabled: bool, long: bool, sep: &str)
    ensures
        final(out)@ == old(out)@ + stage_block(*entry, color_enabled, sep@),
{
    if entry.stages.len() == 0 {
        let rendered = apply_color(entry.path.as_str(), entry, color_enabled, long);
        push_str(out, rendered.as_str());
        push_str(out, sep);
        proof {
            assert(final(out)@ =~= old(out)@ + stage_block(*entry, color_enabled, sep@));
        }
        return;
    }
    let mut j: usize = 0;
    while j < entry.stages.len()
        invariant
            j <= entry.stages.len(),
            entry.stages.len() > 0,
            out@ == old(out)@ + stage_lines(
                entry.stages@,
                colored_path(*entry, color_enabled),
                sep@,
                j as nat,
            ),
        decreases entry.stages.len() - j,
    {
        let stage_info = &entry.stages[j];
        let path = apply_color(entry.path.as_str(), entry, color_enabled, long);
        let mode_text = octal(stage_info.mode as u64);
        let n = mode_text.as_str().unicode_len();
        let ghost before = out@;
        if n < 6 {
            push_repeat(out, '0', 6 - n);
        }
        push_str(out, mode_text.as_str());
        push_char(out, ' ');
        push_str(out, stage_info.object_id.as_str());
        push_char(out, ' ');
        let stage_text = signed_decimal(stage_info.stage);
        push_str(out, stage_text.as_str());
        push_char(out, '\t');
        push_str(out, path.as_str());
        push_str(out, sep);
        j = j + 1;
        proof {
            assert(out@ =~= before + stage_line(entry.stages@[j - 1], colored_path(*entry, color_enabled))
                + sep@);
        }
    }
}

/// The text of a listing in the given layout; owner names come from `user_cache`, which
/// keeps the names it had and, in the long table, gains a name for every uid shown (as
/// `long_user` looks them up).
pub fn render_output(
    entries: &[RenderedEntry],
    options: &RenderOptions,
    color_enabled: bool,
    layout: OutputLayout,
    offset_secs: i32,
    term_width: Option<usize>,
    user_cache: &mut FxHashMap<u32, String>,
) -> (r: String)
    requires
        offset_in_range(offset_secs as int),
        layout == OutputLayout::Long && !options.stage ==> forall|i: int|
            0 <= i < entries@.len() ==> modified_showable(#[trigger] entries@[i].modified, offset_secs),
        forall|i: int| 0 <= i < entries@.len() ==> byte_len(#[trigger] entries@[i].path@) < usize::MAX - 2,
    ensures
        r@ == output_text(
            entries@,
            *options,
            color_enabled,
            layout,
            offset_secs,
            term_width,
            final(user_cache)@,
        ),
        forall|u: u32| #[trigger]
            old(user_cache)@.contains_key(u) ==> final(user_cache)@.contains_key(u)
                && final(user_cache)@[u] == old(user_cache)@[u],
        layout == OutputLayout::Long && !options.stage ==> forall|i: int|
            0 <= i < entries@.len() && (#[trigger] entries@[i]).uid.is_some()
                ==> final(user_cache)@.contains_key(entries@[i].uid.unwrap()),
{
    let separator = if options.null {
        "\0"
    } else {
        "\n"
    };
    proof {
        reveal_strlit("\0");
        reveal_strlit("\n");
        assert(separator@ =~= separator_text(options.null));
    }
    let mut out = String::new();
    if options.stage {
        let mut i: usize = 0;
        while i < entries.len()
            invariant
                i <= entries.len(),
                separator@ == separator_text(options.null),
                out@ == stage_listing(entries@, color_enabled, separator@, i as nat),
            decreases entries.len() - i,
        {
            push_stage_block(&mut out, &entries[i], color_enabled, options.long, separator);
            i = i + 1;
        }
        return out;
    }
    if layout == OutputLayout::Long {
        let mut rows: Vec<LongDisplayRow> = Vec::new();
        let mut i: usize = 0;
        while i < entries.len()
            invariant
                i <= entries.len(),
                rows@.len() == i,
                offset_in_range(offset_secs as int),
                forall|k: int|
                    0 <= k < entries@.len() ==> modified_showable(
                        #[trigger] entries@[k].modified,
                        offset_secs,
                    ),
                forall|j: int|
                    0 <= j < i ==> row_models(
                        #[trigger] rows@[j],
                        entries@[j],
                        user_cache@,
                        offset_secs,
                    ),
                forall|j: int|
                    0 <= j < i ==> (#[trigger] entries@[j]).uid.is_some() ==> user_cache@.contains_key(
                        entries@[j].uid.unwrap(),
                    ),
                forall|u: u32| #[trigger]
                    old(user_cache)@.contains_key(u) ==> user_cache@.contains_key(u)
                        && user_cache@[u] == old(user_cache)@[u],
            decreases entries.len() - i,
        {
            let entry = &entries[i];
            let ghost before = user_cache@;
            let user = long_user(entry, user_cache);
            let row = LongDisplayRow {
                permissions: permission_string(entry),
                size: long_size(entry),
                user,
                modified: long_modified(entry.modified, offset_secs),
                name: entry.path.clone(),
                git: crate::text::string_of(entry.git.tag()),
            };
            proof {
                assert forall|k: u32| #[trigger] before.contains_key(k) implies user_cache@.contains_key(k)
                    && user_cache@[k] == before[k] by {
                    if entry.uid.is_some() && !before.contains_key(entry.uid.unwrap()) && k != entry.uid.unwrap() {
                        assert(user_cache@.remove(entry.uid.unwrap())[k] == user_cache@[k]);
                        assert(before.remove(entry.uid.unwrap())[k] == before[k]);
                    }
                }
            }
            rows.push(row);
            i = i + 1;
        }
        let ghost names = user_cache@;
        let widths = TableWidths::calculate(rows.as_slice());
        proof {
            assert(rows@.take(rows@.len() as int) =~= rows@);
            assert forall|j: int| 0 <= j < rows@.len() implies git_field()(#[trigger] rows@[j]) == (|
                e: RenderedEntry,
            | tag_of(e.git))(entries@[j]) by {
                assert(row_models(rows@[j], entries@[j], names, offset_secs));
            }
            lemma_max_field_matches(rows@, entries@, git_field(), |e: RenderedEntry| tag_of(e.git), 3, rows@.len());
            assert forall|j: int| 0 <= j < rows@.len() implies permissions_field()(#[trigger] rows@[j]) == (|
                e: RenderedEntry,
            | entry_permissions(e))(entries@[j]) by {
                assert(row_models(rows@[j], entries@[j], names, offset_secs));
            }
            lemma_max_field_matches(
                rows@,
                entries@,
                permissions_field(),
                |e: RenderedEntry| entry_permissions(e),
                11,
                rows@.len(),
            );
            assert forall|j: int| 0 <= j < rows@.len() implies size_field()(#[trigger] rows@[j]) == (|
                e: RenderedEntry,
            | long_size_text(e.kind, e.size))(entries@[j]) by {
                assert(row_models(rows@[j], entries@[j], names, offset_secs));
            }
            lemma_max_field_matches(
                rows@,
                entries@,
                size_field(),
                |e: RenderedEntry| long_size_text(e.kind, e.size),
                4,
                rows@.len(),
            );
            assert forall|j: int| 0 <= j < rows@.len() implies user_field()(#[trigger] rows@[j]) == (|
                e: RenderedEntry,
            | user_text(e.uid, names))(entries@[j]) by {
                assert(row_models(rows@[j], entries@[j], names, offset_secs));
            }
            lemma_max_field_matches(
                rows@,
                entries@,
                user_field(),
                |e: RenderedEntry| user_text(e.uid, names),
                4,
                rows@.len(),
            );
            assert forall|j: int| 0 <= j < rows@.len() implies modified_field()(#[trigger] rows@[j]) == (|
                e: RenderedEntry,
            | modified_text(e.modified, offset_secs))(entries@[j]) by {
                assert(row_models(rows@[j], entries@[j], names, offset_secs));
            }
            lemma_max_field_matches(
                rows@,
                entries@,
                modified_field(),
                |e: RenderedEntry| modified_text(e.modified, offset_secs),
                13,
                rows@.len(),
            );
            assert(widths == long_widths(entries@, names, offset_secs));
        }
        let renderer = TableRenderer::new(options, widths, color_enabled);
        if options.header {
            let header = renderer.render_header();
            push_str(&mut out, header.as_str());
            push_str(&mut out, separator);
        }
        let ghost start = out@;
        let ghost w = long_widths(entries@, names, offset_secs);
        let mut i: usize = 0;
        while i < entries.len()
            invariant
                i <= entries.len(),
                rows@.len() == entries@.len(),
                renderer.widths == w,
                renderer.color_enabled == color_enabled,
                separator@ == separator_text(options.null),
                forall|j: int|
                    0 <= j < rows@.len() ==> row_models(#[trigger] rows@[j], entries@[j], names, offset_secs),
                out@ == start + table_lines(entries@, w, names, offset_secs, color_enabled, separator@, i as nat),
            decreases entries.len() - i,
        {
            let line = renderer.render_row(&entries[i], &rows[i]);
            proof {
                assert(row_models(rows@[i as int], entries@[i as int], names, offset_secs));
            }
            push_str(&mut out, line.as_str());
            push_str(&mut out, separator);
            i = i + 1;
        }
        proof {
            assert(out@ =~= long_listing(entries@, names, offset_secs, options.header, color_enabled, separator@));
        }
        return out;
    }
    if layout == OutputLayout::Grid {
        render_grid(entries, color_enabled, term_width, &mut out);
        proof {
            assert(out@ =~= grid_text(entries@, color_enabled, term_width));
        }
        return out;
    }
    let mut i: usize = 0;
    while i < entries.len()
        invariant
            i <= entries.len(),
            separator@ == separator_text(options.null),
            out@ == plain_listing(entries@, options.format, layout, color_enabled, separator@, i as nat),
        decreases entries.len() - i,
    {
        let entry = &entries[i];
        let rendered = if layout == OutputLayout::Custom {
            match &options.format {
                Some(f) => render_custom_format(f.as_str(), entry),
                None => {
                    proof {
                        reveal_strlit("%(path)");
                        assert("%(path)"@ =~= seq!['%', '(', 'p', 'a', 't', 'h', ')']);
                    }
                    render_custom_format("%(path)", entry)
                },
            }
        } else {
            entry.path.clone()
        };
        let colored = apply_color(rendered.as_str(), entry, color_enabled, options.long);
        push_str(&mut out, colored.as_str());
        push_str(&mut out, separator);
        i = i + 1;
    }
    out
}

proof fn lemma_byte_len_at_least_chars(s: Seq<char>)
    ensures
        s.len() <= byte_len(s),
    decreases s.len(),
{
    if s.len() > 0 {
        lemma_byte_len_at_least_chars(s.drop_first());
    }
}

proof fn lemma_max_field_bounds(rows: Seq<LongDisplayRow>, field: spec_fn(LongDisplayRow) -> Seq<char>, init: usize)
    ensures
        init <= max_field(rows, field, init),
        forall|i: int| 0 <= i < rows.len() ==> str_len(field(#[trigger] rows[i])) <= max_field(rows, field, init),
    decreases rows.len(),
{
    if rows.len() > 0 {
        lemma_max_field_bounds(rows.drop_last(), field, init);
        assert forall|i: int| 0 <= i < rows.len() implies str_len(field(#[trigger] rows[i])) <= max_field(
            rows,
            field,
            init,
        ) by {
            if i < rows.len() - 1 {
                assert(rows[i] == rows.drop_last()[i]);
            }
        }
    }
}

/// The column at which the name starts on every line of the table.
pub open spec fn name_column(w: TableWidths) -> nat {
    (w.git + w.permissions + w.size + w.user + w.modified + 5) as nat
}

/// Whether the texts of a row each fit in a `usize` count of bytes, as the texts of
/// strings do.
pub open spec fn row_fits(r: LongDisplayRow) -> bool {
    &&& byte_len(r.permissions@) <= usize::MAX
    &&& byte_len(r.size@) <= usize::MAX
    &&& byte_len(r.user@) <= usize::MAX
    &&& byte_len(r.modified@) <= usize::MAX
    &&& byte_len(r.git@) <= usize::MAX
}

/// The long table is aligned: with the widths calculated from the rows, the header and
/// every row (whatever status tag of up to three characters it carries) put the name at
/// the same column, after the padded columns.
pub proof fn lemma_table_columns_aligned(w: TableWidths, rows: Seq<LongDisplayRow>, i: int, tag: Seq<char>)
    requires
        widths_of(w, rows),
        0 <= i < rows.len(),
        row_fits(rows[i]),
        tag.len() <= 3,
    ensures
        ({
            let r = rows[i];
            let line = table_line(w, tag, r.permissions@, r.size@, r.user@, r.modified@, r.name@);
            &&& line.len() == name_column(w) + r.name@.len()
            &&& line.skip(name_column(w) as int) == r.name@
        }),
        header_line(w).len() == name_column(w) + 4,
        header_line(w).skip(name_column(w) as int) == seq!['N', 'a', 'm', 'e'],
{
    let r = rows[i];
    lemma_max_field_bounds(rows, git_field(), 3);
    lemma_max_field_bounds(rows, permissions_field(), 11);
    lemma_max_field_bounds(rows, size_field(), 4);
    lemma_max_field_bounds(rows, user_field(), 4);
    lemma_max_field_bounds(rows, modified_field(), 13);
    assert(str_len(permissions_field()(r)) <= w.permissions);
    assert(str_len(size_field()(r)) <= w.size);
    assert(str_len(user_field()(r)) <= w.user);
    assert(str_len(modified_field()(r)) <= w.modified);
    lemma_byte_len_at_least_chars(r.permissions@);
    lemma_byte_len_at_least_chars(r.size@);
    lemma_byte_len_at_least_chars(r.user@);
    lemma_byte_len_at_least_chars(r.modified@);
    lemma_pad_len(tag, w.git as nat);
    lemma_pad_len(r.permissions@, w.permissions as nat);
    lemma_pad_len(r.size@, w.size as nat);
    lemma_pad_len(r.user@, w.user as nat);
    lemma_pad_len(r.modified@, w.modified as nat);
    let line = table_line(w, tag, r.permissions@, r.size@, r.user@, r.modified@, r.name@);
    assert(line.skip(name_column(w) as int) =~= r.name@);
    let title = seq!['N', 'a', 'm', 'e'];
    let perm_title = seq!['P', 'e', 'r', 'm', 'i', 's', 's', 'i', 'o', 'n', 's'];
    let date_title = seq!['D', 'a', 't', 'e', ' ', 'M', 'o', 'd', 'i', 'f', 'i', 'e', 'd'];
    lemma_pad_len(seq!['G', 'I', 'T'], w.git as nat);
    lemma_pad_len(perm_title, w.permissions as nat);
    lemma_pad_len(seq!['S', 'i', 'z', 'e'], w.size as nat);
    lemma_pad_len(seq!['U', 's', 'e', 'r'], w.user as nat);
    lemma_pad_len(date_title, w.modified as nat);
    assert(header_line(w).skip(name_column(w) as int) =~= title);
}

/// The paths of the first `k` entries, each followed by `sep`.
pub open spec fn raw_paths(es: Seq<RenderedEntry>, sep: Seq<char>, k: nat) -> Seq<char>
    decreases k,
{
    if k == 0 {
        Seq::empty()
    } else {
        raw_paths(es, sep, (k - 1) as nat) + es[k - 1].path@ + sep
    }
}

proof fn lemma_plain_listing_raw(es: Seq<RenderedEntry>, sep: Seq<char>, k: nat)
    requires
        k <= es.len(),
    ensures
        plain_listing(es, None, OutputLayout::OneLine, false, sep, k) == raw_paths(es, sep, k),
    decreases k,
{
    if k > 0 {
        lemma_plain_listing_raw(es, sep, (k - 1) as nat);
    }
}

/// Piped output is plain: when standard output is not a terminal, with automatic
/// coloring and without `--long`, `--format` or `--stage`, the output is the raw paths,
/// each followed by a newline (or by a NUL byte with `--null`).
pub proof fn lemma_piped_output_is_raw_paths(
    es: Seq<RenderedEntry>,
    options: RenderOptions,
    oneline: bool,
    offset_secs: i32,
    term_width: Option<usize>,
    names: Map<u32, String>,
)
    requires
        !options.long,
        options.format.is_none(),
        !options.stage,
    ensures
        output_text(
            es,
            options,
            crate::color_for(ColorWhen::Auto, false),
            layout_for(options.long, options.format.is_some(), oneline, options.null, false),
            offset_secs,
            term_width,
            names,
        ) == raw_paths(es, separator_text(options.null), es.len()),
{
    lemma_plain_listing_raw(es, separator_text(options.null), es.len());
}

/// `--stage` lists one line per stage entry: giving an entry one more stage entry adds
/// exactly one line after its others, made of that entry's mode (octal, at least six
/// digits), object name and stage number, a tab and the colored path; an entry without
/// stage entries shows its colored path alone.
pub proof fn lemma_stage_block_one_line_per_stage(
    e: RenderedEntry,
    more: RenderedEntry,
    st: StageInfo,
    color_enabled: bool,
    sep: Seq<char>,
)
    requires
        more.path == e.path,
        more.git == e.git,
        more.kind == e.kind,
        more.stages@ == e.stages@.push(st),
    ensures
        e.stages@.len() == 0 ==> stage_block(e, color_enabled, sep) == colored_text(
            e.path@,
            e.git,
            e.kind,
            e.path@,
            color_enabled,
        ) + sep,
        ({
            let line = zero_pad(oct_digits(st.mode as nat), 6) + seq![' '] + st.object_id@ + seq![' ']
                + signed_dec_digits(st.stage as int) + seq!['\t'] + colored_text(
                e.path@,
                e.git,
                e.kind,
                e.path@,
                color_enabled,
            );
            stage_block(more, color_enabled, sep) == if e.stages@.len() == 0 {
                line + sep
            } else {
                stage_block(e, color_enabled, sep) + line + sep
            }
        }),
{
    let path = colored_path(e, color_enabled);
    assert(colored_path(more, color_enabled) == path);
    lemma_stage_lines_prefix(e.stages@, st, path, sep, e.stages@.len());
    assert(more.stages@[e.stages@.len() as int] == st);
    if e.stages@.len() == 0 {
        assert(stage_lines(more.stages@, path, sep, 0) == Seq::<char>::empty());
        assert(Seq::<char>::empty() + stage_line(st, path) + sep =~= stage_line(st, path) + sep);
    }
}

proof fn lemma_stage_lines_prefix(stages: Seq<StageInfo>, st: StageInfo, path: Seq<char>, sep: Seq<char>, k: nat)
    requires
        k <= stages.len(),
    ensures
        stage_lines(stages.push(st), path, sep, k) == stage_lines(stages, path, sep, k),
    decreases k,
{
    if k > 0 {
        lemma_stage_lines_prefix(stages, st, path, sep, (k - 1) as nat);
        assert(stages.push(st)[k - 1] == stages[k - 1]);
    }
}

} // verus!
