use glas::fs::file::{EntryKind, FileTime};
use glas::fs::git::GitKind;
use glas::info::perms::permission_string;
use glas::info::size::{human_size, long_size};
use glas::info::time::{can_show_modified, long_modified};
use glas::info::user::{long_user, user_label};
use glas::output::render::RenderedEntry;
use rustc_hash::FxHashMap;

fn dummy_entry_with_mode(mode: u32) -> RenderedEntry {
    RenderedEntry {
        path: "test".to_string(),
        kind: EntryKind::File,
        git: GitKind::Clean,
        mode: Some(mode),
        uid: Some(0),
        has_xattrs: false,
        size: 0,
        modified: None,
        stages: Vec::new(),
    }
}

fn dummy_entry_with_uid(uid: Option<u32>) -> RenderedEntry {
    RenderedEntry {
        path: "test".to_string(),
        kind: EntryKind::File,
        git: GitKind::Clean,
        mode: Some(0o100644),
        uid,
        has_xattrs: false,
        size: 0,
        modified: None,
        stages: Vec::new(),
    }
}

#[test]
fn test_permission_string() {
    let entry = dummy_entry_with_mode(0o100644);
    assert_eq!(permission_string(&entry), ".rw-r--r-- ");

    let mut entry = dummy_entry_with_mode(0o040755);
    entry.kind = EntryKind::Directory;
    assert_eq!(permission_string(&entry), "drwxr-xr-x ");

    let entry = dummy_entry_with_mode(0o104755);
    assert_eq!(permission_string(&entry), ".rwsr-xr-x ");

    let entry = dummy_entry_with_mode(0o102755);
    assert_eq!(permission_string(&entry), ".rwxr-sr-x ");

    let entry = dummy_entry_with_mode(0o101755);
    assert_eq!(permission_string(&entry), ".rwxr-xr-t ");

    let mut entry = dummy_entry_with_mode(0o100644);
    entry.has_xattrs = true;
    assert_eq!(permission_string(&entry), ".rw-r--r--@");

    let mut entry_none = dummy_entry_with_mode(0);
    entry_none.mode = None;
    assert_eq!(permission_string(&entry_none), "---------- ");

    let mut entry_summary = dummy_entry_with_mode(0o100644);
    entry_summary.kind = EntryKind::Summary { modified_count: 1 };
    assert_eq!(permission_string(&entry_summary), "d--------- ");

    assert_eq!(permission_string(&dummy_entry_with_mode(0o120777)), "lrwxrwxrwx ");
    assert_eq!(permission_string(&dummy_entry_with_mode(0o010666)), "prw-rw-rw- ");
    assert_eq!(permission_string(&dummy_entry_with_mode(0o020600)), "crw------- ");
    assert_eq!(permission_string(&dummy_entry_with_mode(0o060640)), "brw-r----- ");
    assert_eq!(permission_string(&dummy_entry_with_mode(0o140755)), "srwxr-xr-x ");
    assert_eq!(permission_string(&dummy_entry_with_mode(0o000755)), ".rwxr-xr-x ");

    assert_eq!(permission_string(&dummy_entry_with_mode(0o104644)), ".rwSr--r-- ");
    assert_eq!(permission_string(&dummy_entry_with_mode(0o102644)), ".rw-r-Sr-- ");
    assert_eq!(permission_string(&dummy_entry_with_mode(0o101644)), ".rw-r--r-T ");
}

#[test]
fn test_human_size() {
    assert_eq!(human_size(0), "0");
    assert_eq!(human_size(500), "500");
    assert_eq!(human_size(1023), "1023");
    assert_eq!(human_size(1024), "1k");
    assert_eq!(human_size(1500), "1.5k");
    assert_eq!(human_size(10240), "10k");
    assert_eq!(human_size(1048576), "1M");
}

/// The size text agrees with the floating-point computation it models.
fn float_human_size(size: u64) -> String {
    if size < 1024 {
        return size.to_string();
    }
    const UNITS: [&str; 6] = ["k", "M", "G", "T", "P", "E"];
    let mut value = size as f64;
    let mut unit_index = 0usize;
    while value >= 1024.0 && unit_index < UNITS.len() - 1 {
        value /= 1024.0;
        if value >= 1024.0 {
            unit_index += 1;
        }
    }
    if value >= 10.0 || value.fract() < 0.05 {
        format!("{value:.0}{}", UNITS[unit_index])
    } else {
        format!("{value:.1}{}", UNITS[unit_index])
    }
}

#[test]
fn human_size_matches_float_formatting() {
    let mut samples: Vec<u64> = vec![
        1024, 1075, 1076, 1126, 1127, 1535, 1536, 1537, 10239, 10240, 10751, 10752, 1048575,
        1048576, 1101004, 1101005, 1073741823, 1073741824, 1099511627776, 1125899906842623,
        1125899906842624, (1 << 53) + 1, (1 << 60) - 1, 1 << 60, (1 << 60) + 12345, u64::MAX,
        u64::MAX - 1024, 9_007_199_254_740_993, 18_000_000_000_000_000_000,
    ];
    let mut x: u64 = 1;
    for _ in 0..2000 {
        x = x.wrapping_mul(6364136223846793005).wrapping_add(1442695040888963407);
        samples.push(x >> (x % 60));
        samples.push(1024 + (x % 20000));
    }
    for s in samples {
        assert_eq!(human_size(s), float_human_size(s), "size {s}");
    }
}

#[test]
fn long_size_is_dash_for_non_files() {
    let mut e = dummy_entry_with_mode(0o40755);
    e.size = 4096;
    e.kind = EntryKind::Directory;
    assert_eq!(long_size(&e), "-");
    e.kind = EntryKind::File;
    assert_eq!(long_size(&e), "4k");
}

#[test]
fn test_long_modified_none() {
    assert_eq!(long_modified(None, 0), "-");
}

#[test]
fn test_long_modified_some() {
    let t = FileTime { unix_nanos: 0 };
    assert_eq!(long_modified(Some(t), 0), "01 Jan 00:00");
}

#[test]
fn long_modified_uses_offset() {
    let t = FileTime { unix_nanos: 0 };
    assert_eq!(long_modified(Some(t), 9 * 3600 + 30 * 60), "01 Jan 09:30");
    assert_eq!(long_modified(Some(t), -3600), "31 Dec 23:00");
}

#[test]
fn test_long_user_none() {
    let entry = dummy_entry_with_uid(None);
    let mut cache = FxHashMap::default();
    assert_eq!(long_user(&entry, &mut cache), "-");
}

#[test]
fn test_long_user_cached() {
    let entry = dummy_entry_with_uid(Some(1000));
    let mut cache = FxHashMap::default();
    cache.insert(1000, "cached_user".to_string());
    assert_eq!(long_user(&entry, &mut cache), "cached_user");
}

#[test]
fn test_long_user_not_cached_missing() {
    let entry = dummy_entry_with_uid(Some(99999));
    let mut cache = FxHashMap::default();
    let result = long_user(&entry, &mut cache);
    assert_eq!(cache.get(&99999).unwrap(), &result);
}

#[test]
fn user_label_falls_back_to_uid() {
    assert_eq!(user_label(4242, None), "4242");
    assert_eq!(user_label(4242, Some("alice".to_string())), "alice");
}

#[test]
fn showable_times_respect_the_date_range() {
    assert!(can_show_modified(None, 0));
    assert!(can_show_modified(Some(FileTime { unix_nanos: 0 }), 93_599));
    let last = 253_402_300_800_000_000_000i128 - 1;
    assert!(can_show_modified(Some(FileTime { unix_nanos: last }), 0));
    assert!(!can_show_modified(Some(FileTime { unix_nanos: last }), 1));
    assert!(!can_show_modified(Some(FileTime { unix_nanos: last + 1 }), 0));
    let first = -377_705_116_800_000_000_000i128;
    assert!(can_show_modified(Some(FileTime { unix_nanos: first }), 0));
    assert!(!can_show_modified(Some(FileTime { unix_nanos: first }), -1));
}
