//! # options/layout
//!
//! Chooses between the long table, a custom template, one entry per line, and the grid.
use vstd::prelude::*;

use crate::options::cli::Cli;

verus! {

/// The output layouts.
#[derive(Clone, Copy, Debug, PartialEq, Eq, Structural)]
pub enum OutputLayout {
    Long,
    Custom,
    OneLine,
    Grid,
}

/// The layout that a command line asks for: `--long` first, then `--format`, then
/// `--oneline`/`--null`; otherwise a grid on a terminal and one entry per line elsewhere.
pub open spec fn layout_for(long: bool, has_format: bool, oneline: bool, null: bool, tty: bool) -> OutputLayout {
    if long {
        OutputLayout::Long
    } else if has_format {
        OutputLayout::Custom
    } else if oneline || null {
        OutputLayout::OneLine
    } else if tty {
        OutputLayout::Grid
    } else {
        OutputLayout::OneLine
    }
}

pub fn resolve_layout_mode(cli: &Cli, stdout_is_tty: bool) -> (r: OutputLayout)
    ensures
        r == layout_for(cli.long, cli.format.is_some(), cli.oneline, cli.null, stdout_is_tty),
{
    if cli.long {
        return OutputLayout::Long;
    }
    if cli.format.is_some() {
        return OutputLayout::Custom;
    }
    if cli.oneline || cli.null {
        return OutputLayout::OneLine;
    }
    if stdout_is_tty {
        OutputLayout::Grid
    } else {
        OutputLayout::OneLine
    }
}

/// The layout follows the display options in order of precedence: `--long` gives the
/// table; otherwise `--format` gives the template; otherwise `--oneline` or `--null`
/// gives one entry per line whatever the terminal; with none of them, a terminal gets
/// the grid and anything else one entry per line. Only then does the terminal matter.
pub proof fn lemma_layout_precedence(long: bool, has_format: bool, oneline: bool, null: bool, tty: bool)
    ensures
        long ==> layout_for(long, has_format, oneline, null, tty) == OutputLayout::Long,
        !long && has_format ==> layout_for(long, has_format, oneline, null, tty) == OutputLayout::Custom,
        !long && !has_format && (oneline || null) ==> layout_for(long, has_format, oneline, null, tty)
            == OutputLayout::OneLine,
        !long && !has_format && !oneline && !null ==> layout_for(long, has_format, oneline, null, tty)
            == (if tty {
            OutputLayout::Grid
        } else {
            OutputLayout::OneLine
        }),
        (long || has_format || oneline || null) ==> layout_for(long, has_format, oneline, null, tty)
            == layout_for(long, has_format, oneline, null, !tty),
        layout_for(long, has_format, oneline, null, tty) == OutputLayout::Grid ==> tty,
{
}

} // verus!
