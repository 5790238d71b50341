use webdav_backup::plan::archive_name_for;
use webdav_backup::retention::{parse_timestamp, stamp_order_key, RetentionPolicy};
use webdav_backup::stamp::Stamp;

fn st(year: i32, month: u32, day: u32, hour: u32, minute: u32, second: u32) -> Stamp {
    Stamp { year, month, day, hour, minute, second, nanosecond: 0 }
}

#[test]
fn parses_archive_timestamps() {
    assert_eq!(parse_timestamp("backup_20240115_103000.zip"), Some(st(2024, 1, 15, 10, 30, 0)));
    assert_eq!(parse_timestamp("my_db_20231231_235959.zip"), Some(st(2023, 12, 31, 23, 59, 59)));
}

#[test]
fn refuses_names_without_timestamp() {
    assert_eq!(parse_timestamp("backup_20240115_103000.tar"), None);
    assert_eq!(parse_timestamp("backup.zip"), None);
    assert_eq!(parse_timestamp("20240115_103000.zip"), None);
    assert_eq!(parse_timestamp("backup_20240230_103000.zip"), None);
    assert_eq!(parse_timestamp("backup_20240115_250000.zip"), None);
}

#[test]
fn archive_names_read_back() {
    let t = st(2025, 2, 28, 7, 5, 9);
    let name = archive_name_for(&t);
    assert_eq!(name, "backup_20250228_070509.zip");
    assert_eq!(parse_timestamp(&name), Some(t));
}

#[test]
fn keys_follow_calendar_order() {
    assert!(stamp_order_key(&st(2024, 1, 1, 0, 0, 0)) > stamp_order_key(&st(2023, 12, 31, 23, 59, 59)));
    assert!(stamp_order_key(&st(2024, 3, 1, 0, 0, 0)) > stamp_order_key(&st(2024, 2, 29, 23, 0, 0)));
    assert_eq!(stamp_order_key(&st(2024, 1, 15, 10, 30, 0)), 20240115103000 * 2_000_000_000);
}

fn names(v: &[&str]) -> Vec<String> {
    v.iter().map(|s| s.to_string()).collect()
}

#[test]
fn keeps_newest_and_deletes_the_rest() {
    let files = names(&[
        "backup_20240101_000000.zip",
        "/backup_20240301_000000.zip",
        "notes.txt",
        "backup_20240201_000000.zip",
        "backup_broken.zip",
        "other_20200101_000000.zip",
        "backup_20231201_000000.zip",
    ]);
    let del = RetentionPolicy::select(&files, "backup", "backup_", 2);
    assert_eq!(
        del,
        names(&["backup/backup_20240101_000000.zip", "backup/backup_20231201_000000.zip"])
    );
}

#[test]
fn zero_keeps_everything() {
    let files = names(&["backup_20240101_000000.zip", "backup_20240201_000000.zip"]);
    assert!(RetentionPolicy::select(&files, "d", "backup_", 0).is_empty());
}

#[test]
fn nothing_to_delete_when_few_backups() {
    let files = names(&["backup_20240101_000000.zip", "backup_20240201_000000.zip"]);
    assert!(RetentionPolicy::select(&files, "d", "backup_", 2).is_empty());
    assert!(RetentionPolicy::select(&files, "d", "backup_", 5).is_empty());
}

#[test]
fn equal_timestamps_keep_listing_order() {
    let files = names(&[
        "backup_a_20240101_000000.zip",
        "backup_b_20240101_000000.zip",
        "backup_c_20240101_000000.zip",
    ]);
    let del = RetentionPolicy::select(&files, "r", "backup_", 1);
    assert_eq!(del, names(&["r/backup_b_20240101_000000.zip", "r/backup_c_20240101_000000.zip"]));
}

#[test]
fn backups_lists_candidates() {
    let files = names(&["x.zip", "backup_20240101_000000.zip", "backup_20240102_000000.txt"]);
    let c = RetentionPolicy::backups(&files, "backup_");
    assert_eq!(c, vec![(1usize, 20240101000000i128 * 2_000_000_000)]);
}

#[test]
fn retention_settles_after_deleting() {
    let files = names(&[
        "backup_20240101_000000.zip",
        "backup_20240301_000000.zip",
        "readme.txt",
        "backup_20240201_000000.zip",
        "backup_20231201_000000.zip",
    ]);
    let del = RetentionPolicy::select(&files, "backup", "backup_", 2);
    assert_eq!(del.len(), 2);
    let left: Vec<String> = files
        .iter()
        .filter(|f| !del.contains(&format!("backup/{}", f)))
        .cloned()
        .collect();
    assert_eq!(RetentionPolicy::backups(&left, "backup_").len(), 2);
    assert!(RetentionPolicy::select(&left, "backup", "backup_", 2).is_empty());
}

#[test]
fn leap_second_comes_after_fifty_nine() {
    let leap = parse_timestamp("x_20231231_235960.zip").unwrap();
    assert_eq!(leap.second, 59);
    assert_eq!(leap.nanosecond, 1_000_000_000);
    assert!(stamp_order_key(&leap) > stamp_order_key(&st(2023, 12, 31, 23, 59, 59)));
    assert!(stamp_order_key(&leap) < stamp_order_key(&st(2024, 1, 1, 0, 0, 0)));
    let files = names(&["x_20231231_235959.zip", "x_20231231_235960.zip"]);
    assert_eq!(RetentionPolicy::select(&files, "d", "x_", 1), names(&["d/x_20231231_235959.zip"]));
    let swapped = names(&["x_20231231_235960.zip", "x_20231231_235959.zip"]);
    assert_eq!(RetentionPolicy::select(&swapped, "d", "x_", 1), names(&["d/x_20231231_235959.zip"]));
}

#[test]
fn retention_settles_in_any_listing_order() {
    let files = names(&[
        "backup_20240101_000000.zip",
        "backup_20240301_000000.zip",
        "backup_20240201_000000.zip",
        "backup_20231201_000000.zip",
    ]);
    let del = RetentionPolicy::select(&files, "r", "backup_", 2);
    let mut left: Vec<String> = files
        .iter()
        .filter(|f| !del.contains(&format!("r/{}", f)))
        .cloned()
        .collect();
    left.reverse();
    assert_eq!(left, names(&["backup_20240201_000000.zip", "backup_20240301_000000.zip"]));
    assert!(RetentionPolicy::select(&left, "r", "backup_", 2).is_empty());
}
