//! # info/time
//!
//! The modification-time column, `[day] [month] [hour]:[minute]` in a given UTC offset.
use vstd::prelude::*;

use crate::fs::file::FileTime;
use crate::text::string_of;

verus! {

/// The earliest and just-past-latest instants (in nanoseconds since the Unix epoch) that
/// the date library represents: -9999-01-01T00:00:00 and 10000-01-01T00:00:00.
pub open spec fn min_unix_nanos() -> int {
    -377_705_116_800_000_000_000
}

pub open spec fn end_unix_nanos() -> int {
    253_402_300_800_000_000_000
}

/// Whether a time and its local time at `offset_secs` lie in the representable range.
pub open spec fn mtime_in_range(unix_nanos: int, offset_secs: int) -> bool {
    &&& min_unix_nanos() <= unix_nanos < end_unix_nanos()
    &&& min_unix_nanos() <= unix_nanos + offset_secs * 1_000_000_000 < end_unix_nanos()
}

/// Whether `offset_secs` is a valid UTC offset (less than 26 hours either way).
pub open spec fn offset_in_range(offset_secs: int) -> bool {
    -93_599 <= offset_secs <= 93_599
}

/// The layout of the date column: day of month (two digits), short month name, then
/// hour and minute.
pub open spec fn date_layout() -> Seq<char> {
    seq![
        '[', 'd', 'a', 'y', ' ', 'p', 'a', 'd', 'd', 'i', 'n', 'g', ':', 'z', 'e', 'r', 'o', ']',
        ' ', '[', 'm', 'o', 'n', 't', 'h', ' ', 'r', 'e', 'p', 'r', ':', 's', 'h', 'o', 'r', 't',
        ']', ' ', '[', 'h', 'o', 'u', 'r', ']', ':', '[', 'm', 'i', 'n', 'u', 't', 'e', ']',
    ]
}

/// What the date library writes for the instant `unix_nanos` shown at UTC offset
/// `offset_secs` in the format description `description`, or `None` when it reports an
/// error.
pub uninterp spec fn mtime_text(description: Seq<char>, unix_nanos: i128, offset_secs: i32) -> Option<Seq<char>>;

/// Formats an instant at a UTC offset. Trusted: parses `description` with the `time`
/// crate, builds its `OffsetDateTime` from the nanoseconds since the epoch, moves it to
/// the offset and formats it; the text is named `mtime_text`, and any error gives `None`.
#[verifier::external_body]
fn format_mtime(description: &str, unix_nanos: i128, offset_secs: i32) -> (r: Option<String>)
    requires
        mtime_in_range(unix_nanos as int, offset_secs as int),
        offset_in_range(offset_secs as int),
    ensures
        match r {
            Some(t) => mtime_text(description@, unix_nanos, offset_secs) == Some(t@),
            None => mtime_text(description@, unix_nanos, offset_secs).is_none(),
        },
{
    let items = time::format_description::parse_borrowed::<1>(description).ok()?;
    let offset = time::UtcOffset::from_whole_seconds(offset_secs).ok()?;
    let date = time::OffsetDateTime::from_unix_timestamp_nanos(unix_nanos).ok()?;
    date.to_offset(offset).format(&items).ok()
}

/// The column text for a formatted time: the text, or `-` when formatting failed.
pub fn mtime_or_dash(formatted: Option<String>) -> (r: String)
    ensures
        r@ == match formatted {
            Some(t) => t@,
            None => seq!['-'],
        },
{
    match formatted {
        Some(t) => t,
        None => {
            let s = string_of("-");
            proof {
                reveal_strlit("-");
                assert(s@ =~= seq!['-']);
            }
            s
        },
    }
}

/// The modification-time column: `-` without a time, else the local time written in
/// `date_layout` (or `-` when the date library reports an error).
pub open spec fn modified_text(modified: Option<FileTime>, offset_secs: i32) -> Seq<char> {
    match modified {
        None => seq!['-'],
        Some(t) => match mtime_text(date_layout(), t.unix_nanos, offset_secs) {
            Some(text) => text,
            None => seq!['-'],
        },
    }
}

/// Whether a time can be shown at an offset without leaving the representable range.
pub open spec fn modified_showable(modified: Option<FileTime>, offset_secs: i32) -> bool {
    match modified {
        None => true,
        Some(t) => mtime_in_range(t.unix_nanos as int, offset_secs as int),
    }
}

/// Whether a modification time can be shown at the UTC offset `offset_secs` (as
/// `long_modified` requires).
pub fn can_show_modified(modified: Option<FileTime>, offset_secs: i32) -> (r: bool)
    ensures
        r == modified_showable(modified, offset_secs),
{
    match modified {
        None => true,
        Some(t) => {
            let min: i128 = -377_705_116_800_000_000_000;
            let end: i128 = 253_402_300_800_000_000_000;
            if t.unix_nanos < min || t.unix_nanos >= end {
                return false;
            }
            let local = t.unix_nanos + (offset_secs as i128) * 1_000_000_000;
            min <= local && local < end
        },
    }
}

/// Formats the last modification time as `[day] [month] [hour]:[minute]` at the UTC
/// offset `offset_secs` (in seconds), or `-` when there is no time.
pub fn long_modified(modified: Option<FileTime>, offset_secs: i32) -> (r: String)
    requires
        offset_in_range(offset_secs as int),
        modified_showable(modified, offset_secs),
    ensures
        r@ == modified_text(modified, offset_secs),
{
    match modified {
        None => mtime_or_dash(None),
        Some(t) => {
            let layout = "[day padding:zero] [month repr:short] [hour]:[minute]";
            proof {
                reveal_strlit("[day padding:zero] [month repr:short] [hour]:[minute]");
                assert(layout@ =~= date_layout());
            }
            mtime_or_dash(format_mtime(layout, t.unix_nanos, offset_secs))
        },
    }
}

} // verus!
