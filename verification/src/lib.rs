//! # glas
//!
//! `glas` is a Git-status-aware modern replacement for the `ls` command.
//! It displays file permissions, size, modification time, and Git status in a colorful list.
//! This crate holds the library: the rules that decide what is listed and how each line reads.
pub mod fs;
pub mod info;
pub mod options;
pub mod output;
pub mod path;
pub mod text;
pub mod theme;

use vstd::prelude::*;

use options::cli::ColorWhen;

verus! {

/// The failure of a run in which some targets could not be listed (the others were).
#[derive(Debug)]
pub struct PartialFailure;

/// Whether output is colored: always, never, or when standard output is a terminal.
pub open spec fn color_for(when: ColorWhen, stdout_is_tty: bool) -> bool {
    match when {
        ColorWhen::Always => true,
        ColorWhen::Never => false,
        ColorWhen::Auto => stdout_is_tty,
    }
}

pub fn color_enabled(when: ColorWhen, stdout_is_tty: bool) -> (r: bool)
    ensures
        r == color_for(when, stdout_is_tty),
{
    match when {
        ColorWhen::Always => true,
        ColorWhen::Never => false,
        ColorWhen::Auto => stdout_is_tty,
    }
}

/// The targets to list: the given files, or the current directory when there are none.
pub fn targets_of(files: &Vec<String>) -> (r: Vec<String>)
    ensures
        files@.len() == 0 ==> r@.len() == 1 && r@[0]@ == seq!['.'],
        files@.len() > 0 ==> r@ == files@,
{
    if files.len() == 0 {
        let mut v: Vec<String> = Vec::new();
        let dot = text::string_of(".");
        proof {
            reveal_strlit(".");
            assert(dot@ =~= seq!['.']);
        }
        v.push(dot);
        v
    } else {
        path::copy_texts(files)
    }
}

} // verus!
