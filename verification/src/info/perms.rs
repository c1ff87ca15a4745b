//! # info/perms
//!
//! The permission column: file type, the nine mode bits with set-id and sticky bits,
//! and a marker for extended attributes (e.g. `.rw-r--r--@`).
use vstd::prelude::*;

use crate::fs::file::EntryKind;
use crate::output::render::RenderedEntry;
use crate::text::push_char;

verus! {

/// The file-type character of a mode.
pub open spec fn type_char(mode: u32) -> char {
    let t = mode & 0o170000;
    if t == 0o040000 {
        'd'
    } else if t == 0o120000 {
        'l'
    } else if t == 0o010000 {
        'p'
    } else if t == 0o020000 {
        'c'
    } else if t == 0o060000 {
        'b'
    } else if t == 0o140000 {
        's'
    } else {
        '.'
    }
}

/// `c` when `bit` is set in `mode`, else `-`.
pub open spec fn flag_char(mode: u32, bit: u32, c: char) -> char {
    if mode & bit != 0 {
        c
    } else {
        '-'
    }
}

/// The execute position: `x` when executable; with the special bit, `set` (executable)
/// or `unset` (not executable).
pub open spec fn exec_char(mode: u32, exec_bit: u32, special_bit: u32, set: char, unset: char) -> char {
    if mode & exec_bit != 0 {
        if mode & special_bit != 0 {
            set
        } else {
            'x'
        }
    } else {
        if mode & special_bit != 0 {
            unset
        } else {
            '-'
        }
    }
}

/// The eleven-character permission text of an entry.
pub open spec fn permission_text(kind: EntryKind, mode: Option<u32>, has_xattrs: bool) -> Seq<char> {
    match kind {
        EntryKind::Summary { .. } => seq!['d', '-', '-', '-', '-', '-', '-', '-', '-', '-', ' '],
        _ => match mode {
            None => seq!['-', '-', '-', '-', '-', '-', '-', '-', '-', '-', ' '],
            Some(m) => seq![
                type_char(m),
                flag_char(m, 0o400, 'r'),
                flag_char(m, 0o200, 'w'),
                exec_char(m, 0o100, 0o4000, 's', 'S'),
                flag_char(m, 0o040, 'r'),
                flag_char(m, 0o020, 'w'),
                exec_char(m, 0o010, 0o2000, 's', 'S'),
                flag_char(m, 0o004, 'r'),
                flag_char(m, 0o002, 'w'),
                exec_char(m, 0o001, 0o1000, 't', 'T'),
                if has_xattrs {
                    '@'
                } else {
                    ' '
                },
            ],
        },
    }
}

fn file_type_char(mode: u32) -> (c: char)
    ensures
        c == type_char(mode),
{
    let t = mode & 0o170000;
    if t == 0o040000 {
        'd'
    } else if t == 0o120000 {
        'l'
    } else if t == 0o010000 {
        'p'
    } else if t == 0o020000 {
        'c'
    } else if t == 0o060000 {
        'b'
    } else if t == 0o140000 {
        's'
    } else {
        '.'
    }
}

fn flag(mode: u32, bit: u32, c: char) -> (r: char)
    ensures
        r == flag_char(mode, bit, c),
{
    if mode & bit != 0 {
        c
    } else {
        '-'
    }
}

fn exec_flag(mode: u32, exec_bit: u32, special_bit: u32, set: char, unset: char) -> (r: char)
    ensures
        r == exec_char(mode, exec_bit, special_bit, set, unset),
{
    match (mode & exec_bit != 0, mode & special_bit != 0) {
        (true, true) => set,
        (false, true) => unset,
        (true, false) => 'x',
        (false, false) => '-',
    }
}

/// The eleven-character permission text: file type, mode bits, and `@` when the entry
/// has extended attributes.
pub fn permission_string(entry: &RenderedEntry) -> (r: String)
    ensures
        r@ == permission_text(entry.kind, entry.mode, entry.has_xattrs),
{
    if matches!(entry.kind, EntryKind::Summary { .. }) {
        let s = crate::text::string_of("d--------- ");
        proof {
            reveal_strlit("d--------- ");
            assert(s@ =~= seq!['d', '-', '-', '-', '-', '-', '-', '-', '-', '-', ' ']);
        }
        return s;
    }
    let mode = match entry.mode {
        Some(m) => m,
        None => {
            let s = crate::text::string_of("---------- ");
            proof {
                reveal_strlit("---------- ");
                assert(s@ =~= seq!['-', '-', '-', '-', '-', '-', '-', '-', '-', '-', ' ']);
            }
            return s;
        },
    };
    let mut buf = String::new();
    push_char(&mut buf, file_type_char(mode));
    push_char(&mut buf, flag(mode, 0o400, 'r'));
    push_char(&mut buf, flag(mode, 0o200, 'w'));
    push_char(&mut buf, exec_flag(mode, 0o100, 0o4000, 's', 'S'));
    push_char(&mut buf, flag(mode, 0o040, 'r'));
    push_char(&mut buf, flag(mode, 0o020, 'w'));
    push_char(&mut buf, exec_flag(mode, 0o010, 0o2000, 's', 'S'));
    push_char(&mut buf, flag(mode, 0o004, 'r'));
    push_char(&mut buf, flag(mode, 0o002, 'w'));
    push_char(&mut buf, exec_flag(mode, 0o001, 0o1000, 't', 'T'));
    push_char(
        &mut buf,
        if entry.has_xattrs {
            '@'
        } else {
            ' '
        },
    );
    proof {
        assert(buf@ =~= permission_text(entry.kind, entry.mode, entry.has_xattrs));
    }
    buf
}

/// The permission column of a file or directory reads its mode: the first character is
/// `d` exactly for a directory mode, position `1 + i` (for `i` below 9, in the order
/// owner, group, other and read, write, execute) shows a letter exactly when its
/// permission bit is set, or for an execute position also when the set-user-id,
/// set-group-id or sticky bit of that class is set, and the last character is `@`
/// exactly when the file has extended attributes.
pub proof fn lemma_permission_positions(kind: EntryKind, m: u32, has_xattrs: bool, i: int)
    requires
        !(kind is Summary),
        0 <= i < 9,
    ensures
        ({
            let t = permission_text(kind, Some(m), has_xattrs);
            let bits = seq![0o400u32, 0o200, 0o100, 0o040, 0o020, 0o010, 0o004, 0o002, 0o001];
            let special = seq![0o4000u32, 0o2000, 0o1000];
            &&& t.len() == 11
            &&& (t[1 + i] != '-') == (m & bits[i] != 0 || (i % 3 == 2 && m & special[i / 3] != 0))
            &&& (t[10] == '@') == has_xattrs
            &&& (t[0] == 'd') == (m & 0o170000 == 0o040000)
        }),
{
}

} // verus!
