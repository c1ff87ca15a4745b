//! # output/grid
//!
//! Arranges entries in columns that fit a terminal width, filled column by column
//! (like `ls`), or in a single row when the width is unknown.
use vstd::prelude::*;

use crate::output::render::RenderedEntry;
use crate::text::{push_char, push_repeat, push_str, repeat_char};
use crate::theme::color::{apply_color, colored_text};

verus! {

/// The number of bytes of the UTF-8 encoding of a text.
pub open spec fn byte_len(s: Seq<char>) -> nat {
    vstd::utf8::encode_utf8(s).len()
}

/// The path of an entry as it is colored in the grid.
pub open spec fn grid_name(e: RenderedEntry, color_enabled: bool) -> Seq<char> {
    colored_text(e.path@, e.git, e.kind, e.path@, color_enabled)
}

/// The longest path, in bytes.
pub open spec fn max_path_len(es: Seq<RenderedEntry>) -> nat
    decreases es.len(),
{
    if es.len() == 0 {
        0
    } else {
        let m = max_path_len(es.drop_last());
        let l = byte_len(es.last().path@);
        if l > m {
            l
        } else {
            m
        }
    }
}

/// One grid cell: the colored path, padded with spaces to the column width by the
/// byte length of the path, except in the last column of its row.
pub open spec fn cell_text(e: RenderedEntry, color_enabled: bool, col_width: nat, is_last: bool) -> Seq<char> {
    if is_last {
        grid_name(e, color_enabled)
    } else {
        grid_name(e, color_enabled) + repeat_char(
            ' ',
            if col_width >= byte_len(e.path@) {
                (col_width - byte_len(e.path@)) as nat
            } else {
                0
            },
        )
    }
}

/// The first `c` cells of row `r`; the entry in column `k` of row `r` is the one at
/// `k * rows + r`, when there is one.
pub open spec fn row_cells(
    es: Seq<RenderedEntry>,
    color_enabled: bool,
    rows: nat,
    cols: nat,
    col_width: nat,
    r: nat,
    c: nat,
) -> Seq<char>
    decreases c,
{
    if c == 0 {
        Seq::empty()
    } else {
        let k = (c - 1) as nat;
        let idx = k * rows + r;
        row_cells(es, color_enabled, rows, cols, col_width, r, k) + if idx < es.len() {
            cell_text(es[idx as int], color_enabled, col_width, k + 1 == cols || idx + rows >= es.len())
        } else {
            Seq::empty()
        }
    }
}

/// The first `k` rows of the grid, each ended by a newline.
pub open spec fn grid_rows(
    es: Seq<RenderedEntry>,
    color_enabled: bool,
    rows: nat,
    cols: nat,
    col_width: nat,
    k: nat,
) -> Seq<char>
    decreases k,
{
    if k == 0 {
        Seq::empty()
    } else {
        grid_rows(es, color_enabled, rows, cols, col_width, (k - 1) as nat) + row_cells(
            es,
            color_enabled,
            rows,
            cols,
            col_width,
            (k - 1) as nat,
            cols,
        ) + seq!['\n']
    }
}

/// The first `k` colored paths separated by two spaces.
pub open spec fn single_row(es: Seq<RenderedEntry>, color_enabled: bool, k: nat) -> Seq<char>
    decreases k,
{
    if k == 0 {
        Seq::empty()
    } else if k == 1 {
        grid_name(es[0], color_enabled)
    } else {
        single_row(es, color_enabled, (k - 1) as nat) + seq![' ', ' '] + grid_name(
            es[k - 1],
            color_enabled,
        )
    }
}

/// The number of columns: as many columns of `col_width` as fit in the width, at least one.
pub open spec fn grid_cols(width: nat, col_width: nat) -> nat {
    if width / col_width >= 1 {
        width / col_width
    } else {
        1
    }
}

/// The whole grid text: nothing for no entries; a single row when the width is unknown;
/// otherwise rows of columns whose width is the longest path plus two.
pub open spec fn grid_text(es: Seq<RenderedEntry>, color_enabled: bool, term_width: Option<usize>) -> Seq<char> {
    if es.len() == 0 {
        Seq::empty()
    } else {
        match term_width {
            None => single_row(es, color_enabled, es.len()) + seq!['\n'],
            Some(w) => {
                let col_width = max_path_len(es) + 2;
                let cols = grid_cols(w as nat, col_width);
                let rows = ((es.len() + cols - 1) as int / (cols as int)) as nat;
                grid_rows(es, color_enabled, rows, cols, col_width, rows)
            },
        }
    }
}

fn path_len(e: &RenderedEntry) -> (n: usize)
    requires
        byte_len(e.path@) < usize::MAX,
    ensures
        n as nat == byte_len(e.path@),
{
    e.path.as_str().len()
}

fn max_len(entries: &[RenderedEntry]) -> (m: usize)
    requires
        forall|i: int| 0 <= i < entries@.len() ==> byte_len(#[trigger] entries@[i].path@) < usize::MAX - 2,
    ensures
        m as nat == max_path_len(entries@),
{
    let mut m: usize = 0;
    let mut i: usize = 0;
    while i < entries.len()
        invariant
            i <= entries.len(),
            m as nat == max_path_len(entries@.take(i as int)),
            forall|i: int| 0 <= i < entries@.len() ==> byte_len(#[trigger] entries@[i].path@) < usize::MAX - 2,
        decreases entries.len() - i,
    {
        let l = path_len(&entries[i]);
        proof {
            assert(entries@.take(i + 1).drop_last() =~= entries@.take(i as int));
        }
        if l > m {
            m = l;
        }
        i = i + 1;
    }
    proof {
        assert(entries@.take(entries.len() as int) =~= entries@);
    }
    m
}

fn render_grid_cell(
    entry: &RenderedEntry,
    color_enabled: bool,
    col_width: usize,
    is_last_col: bool,
    out: &mut String,
)
    requires
        byte_len(entry.path@) < usize::MAX,
    ensures
        final(out)@ == old(out)@ + cell_text(*entry, color_enabled, col_width as nat, is_last_col),
{
    let rendered = apply_color(entry.path.as_str(), entry, color_enabled, false);
    if is_last_col {
        push_str(out, rendered.as_str());
    } else {
        let l = path_len(entry);
        let padding = if col_width >= l {
            col_width - l
        } else {
            0
        };
        push_str(out, rendered.as_str());
        push_repeat(out, ' ', padding);
        proof {
            assert(final(out)@ =~= old(out)@ + cell_text(
                *entry,
                color_enabled,
                col_width as nat,
                is_last_col,
            ));
        }
    }
}

/// Writes the entries as a grid for a terminal `term_width` columns wide, filled column
/// by column, or in a single row separated by two spaces when the width is unknown.
pub fn render_grid(
    entries: &[RenderedEntry],
    color_enabled: bool,
    term_width: Option<usize>,
    out: &mut String,
)
    requires
        forall|i: int| 0 <= i < entries@.len() ==> byte_len(#[trigger] entries@[i].path@) < usize::MAX - 2,
    ensures
        final(out)@ == old(out)@ + grid_text(entries@, color_enabled, term_width),
{
    if entries.len() == 0 {
        proof {
            assert(final(out)@ =~= old(out)@ + grid_text(entries@, color_enabled, term_width));
        }
        return;
    }
    let term_width = match term_width {
        None => {
            let mut idx: usize = 0;
            while idx < entries.len()
                invariant
                    idx <= entries.len(),
                    entries.len() > 0,
                    out@ == old(out)@ + single_row(entries@, color_enabled, idx as nat),
                decreases entries.len() - idx,
            {
                if idx > 0 {
                    push_str(out, "  ");
                }
                let rendered = apply_color(entries[idx].path.as_str(), &entries[idx], color_enabled, false);
                push_str(out, rendered.as_str());
                idx = idx + 1;
                proof {
                    reveal_strlit("  ");
                    assert("  "@ =~= seq![' ', ' ']);
                    assert(out@ =~= old(out)@ + single_row(entries@, color_enabled, idx as nat));
                }
            }
            push_char(out, '\n');
            return;
        },
        Some(w) => w,
    };
    let m = max_len(entries);
    proof {
        lemma_max_is_some_len(entries@);
    }
    let col_width = m + 2;
    let num_cols = if term_width / col_width >= 1 {
        term_width / col_width
    } else {
        1
    };
    let n = entries.len();
    let num_rows = ((n as u128 + num_cols as u128 - 1) / num_cols as u128) as usize;
    proof {
        assert((n + num_cols - 1) as int / (num_cols as int) <= n) by (nonlinear_arith)
            requires
                num_cols >= 1,
                n >= 1;
    }
    let mut r: usize = 0;
    while r < num_rows
        invariant
            r <= num_rows,
            n == entries@.len(),
            forall|i: int| 0 <= i < entries@.len() ==> byte_len(#[trigger] entries@[i].path@) < usize::MAX - 2,
            num_cols >= 1,
            out@ == old(out)@ + grid_rows(
                entries@,
                color_enabled,
                num_rows as nat,
                num_cols as nat,
                col_width as nat,
                r as nat,
            ),
        decreases num_rows - r,
    {
        let mut c: usize = 0;
        let ghost before = out@;
        while c < num_cols
            invariant
                c <= num_cols,
                r < num_rows,
                forall|i: int| 0 <= i < entries@.len() ==> byte_len(#[trigger] entries@[i].path@) < usize::MAX - 2,
                n == entries@.len(),
                out@ == before + row_cells(
                    entries@,
                    color_enabled,
                    num_rows as nat,
                    num_cols as nat,
                    col_width as nat,
                    r as nat,
                    c as nat,
                ),
            decreases num_cols - c,
        {
            proof {
                assert(c as u128 * num_rows as u128 <= 0xffff_ffff_ffff_ffff * 0xffff_ffff_ffff_ffffu128) by (nonlinear_arith)
                    requires
                        c <= 0xffff_ffff_ffff_ffffu128,
                        num_rows <= 0xffff_ffff_ffff_ffffu128;
            }
            let idx: u128 = c as u128 * num_rows as u128 + r as u128;
            if idx < n as u128 {
                let i = idx as usize;
                let is_last_col = c == num_cols - 1 || idx + num_rows as u128 >= n as u128;
                render_grid_cell(&entries[i], color_enabled, col_width, is_last_col, out);
            }
            c = c + 1;
            proof {
                assert(out@ =~= before + row_cells(
                    entries@,
                    color_enabled,
                    num_rows as nat,
                    num_cols as nat,
                    col_width as nat,
                    r as nat,
                    c as nat,
                ));
            }
        }
        push_char(out, '\n');
        r = r + 1;
        proof {
            assert(out@ =~= old(out)@ + grid_rows(
                entries@,
                color_enabled,
                num_rows as nat,
                num_cols as nat,
                col_width as nat,
                r as nat,
            ));
        }
    }
}

proof fn lemma_max_is_some_len(es: Seq<RenderedEntry>)
    requires
        forall|i: int| 0 <= i < es.len() ==> byte_len(#[trigger] es[i].path@) < usize::MAX - 2,
    ensures
        max_path_len(es) < usize::MAX - 2,
    decreases es.len(),
{
    if es.len() > 0 {
        assert forall|i: int| 0 <= i < es.drop_last().len() implies byte_len(
            #[trigger] es.drop_last()[i].path@,
        ) < usize::MAX - 2 by {
            assert(es.drop_last()[i] == es[i]);
        }
        lemma_max_is_some_len(es.drop_last());
        assert(byte_len(es[es.len() - 1].path@) < usize::MAX - 2);
    }
}

} // verus!
