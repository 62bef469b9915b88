use hbak::error::{SnapshotParseError, VolumeParseError};
use hbak::identity::{str_eq, Mode, Snapshot, Volume};
use hbak::timestamp::Timestamp;

fn ts(year: i32, month: u32, day: u32, hour: u32, minute: u32, second: u32) -> Timestamp {
    Timestamp { year, month, day, hour, minute, second }
}

#[test]
fn snapshot_parses_canonical_text() {
    let s = Snapshot::try_from("A_home_full_20240101000000").unwrap();
    assert_eq!(s.node_name(), "A");
    assert_eq!(s.subvol(), "home");
    assert!(!s.is_incremental());
    assert_eq!(s.taken(), ts(2024, 1, 1, 0, 0, 0));
}

#[test]
fn snapshot_round_trip() {
    for text in [
        "A_home_full_20240101000000",
        "A_home_incr_20240102000000",
        "node7_var-log_incr_19991231235959",
        "x_y_full_00040229120000",
    ] {
        let s = Snapshot::try_from(text).unwrap();
        assert_eq!(s.to_string(), text);
        assert_eq!(Snapshot::try_from(s.to_string().as_str()).unwrap(), s);
    }
}

#[test]
fn snapshot_round_trip_through_path() {
    let s = Snapshot::try_from("A_home_incr_20240102030405").unwrap();
    for dir in ["/mnt/hbak/backups", "relative/dir", ""] {
        let path = format!("{}/{}", dir, s.to_string());
        assert_eq!(Snapshot::try_from_path(&path).unwrap(), s);
    }
    assert_eq!(Snapshot::try_from_path("A_home_incr_20240102030405").unwrap(), s);
}

#[test]
fn snapshot_missing_fields() {
    assert_eq!(Snapshot::try_from(""), Err(SnapshotParseError::MissingSubvolume));
    assert_eq!(Snapshot::try_from("A"), Err(SnapshotParseError::MissingSubvolume));
    assert_eq!(Snapshot::try_from("A_home"), Err(SnapshotParseError::MissingType));
    assert_eq!(Snapshot::try_from("A_home_full"), Err(SnapshotParseError::MissingTimeTaken));
}

#[test]
fn snapshot_invalid_type() {
    assert_eq!(
        Snapshot::try_from("A_home_diff_20240101000000"),
        Err(SnapshotParseError::InvalidType("diff".to_string()))
    );
    assert_eq!(
        Snapshot::try_from("A_home__20240101000000"),
        Err(SnapshotParseError::InvalidType(String::new()))
    );
}

#[test]
fn snapshot_malformed_time() {
    for text in [
        "A_home_full_2024",
        "A_home_full_2024010100000x",
        "A_home_full_20240230000000",
        "A_home_full_20230229000000",
        "A_home_full_20241301000000",
        "A_home_full_20240101240000",
        "A_home_full_20240101006000",
        "A_home_full_202401010000000",
        "A_home_full_",
    ] {
        assert_eq!(Snapshot::try_from(text), Err(SnapshotParseError::MalformedTimeTaken), "{}", text);
    }
    assert!(Snapshot::try_from("A_home_full_20240229000000").is_ok());
    assert!(Snapshot::try_from("A_home_full_20000229000000").is_ok());
}

#[test]
fn snapshot_extra_field_is_rejected() {
    assert_eq!(
        Snapshot::try_from("A_home_full_20240101000000_x"),
        Err(SnapshotParseError::MalformedTimeTaken)
    );
}

#[test]
fn snapshot_path_without_file_name() {
    assert_eq!(Snapshot::try_from_path("/mnt/hbak/.."), Err(SnapshotParseError::NoFileName));
    assert_eq!(Snapshot::try_from_path("/mnt/hbak/"), Err(SnapshotParseError::NoFileName));
    assert_eq!(Snapshot::try_from_path(""), Err(SnapshotParseError::NoFileName));
}

#[test]
fn snapshot_paths_per_role() {
    let s = Snapshot::try_from("A_home_full_20240101000000").unwrap();
    assert_eq!(s.snapshot_path(Mode::Client), "/mnt/hbak/snapshots/A_home_full_20240101000000");
    assert_eq!(s.snapshot_path(Mode::Server), "/mnt/hbakd/snapshots/A_home_full_20240101000000");
    assert_eq!(s.backup_path(Mode::Client), "/mnt/hbak/backups/A_home_full_20240101000000");
    assert_eq!(s.backup_path(Mode::Server), "/mnt/hbakd/backups/A_home_full_20240101000000");
    assert_eq!(
        s.streaming_path(Mode::Server),
        "/mnt/hbakd/backups/A_home_full_20240101000000.part"
    );
}

#[test]
fn snapshot_volume_membership() {
    let s = Snapshot::try_from("A_home_incr_20240101000000").unwrap();
    assert!(s.is_of_volume(&Volume::try_from("A_home").unwrap()));
    assert!(!s.is_of_volume(&Volume::try_from("B_home").unwrap()));
    assert!(!s.is_of_volume(&Volume::try_from("A_var").unwrap()));
    assert_eq!(s.volume(), Volume::try_from("A_home").unwrap());
}

#[test]
fn volume_round_trip() {
    let v = Volume::try_from("A_home").unwrap();
    assert_eq!(v.node_name(), "A");
    assert_eq!(v.subvol(), "home");
    assert_eq!(v.to_string(), "A_home");
    assert_eq!(Volume::try_from(v.to_string().as_str()).unwrap(), v);
    assert_eq!(Volume::new("A".to_string(), "home".to_string()), v);
}

#[test]
fn volume_missing_subvolume() {
    assert_eq!(Volume::try_from("A"), Err(VolumeParseError::MissingSubvolume));
    assert_eq!(Volume::try_from(""), Err(VolumeParseError::MissingSubvolume));
    assert_eq!(Volume::try_from("A_home_x"), Err(VolumeParseError::ExtraToken));
    assert_eq!(Volume::try_from("A_"), Ok(Volume::new("A".to_string(), String::new())));
}

#[test]
fn volume_bulk() {
    let vs = Volume::try_from_bulk(vec!["A_home".to_string(), "B_var".to_string()]).unwrap();
    assert_eq!(vs, vec![Volume::try_from("A_home").unwrap(), Volume::try_from("B_var").unwrap()]);
    assert_eq!(
        Volume::try_from_bulk(vec!["A_home".to_string(), "B".to_string()]),
        Err(VolumeParseError::MissingSubvolume)
    );
}

#[test]
fn timestamp_order_and_text() {
    let a = ts(2024, 1, 1, 0, 0, 0);
    let b = ts(2024, 1, 2, 0, 0, 0);
    let c = ts(2023, 12, 31, 23, 59, 59);
    assert!(a.is_before(&b));
    assert!(!b.is_before(&a));
    assert!(c.is_before(&a));
    assert!(!a.is_before(&a));
    assert!(Timestamp::min_value().is_before(&ts(0, 1, 1, 0, 0, 0)));
    assert_eq!(b.to_string(), "20240102000000");
    assert_eq!(ts(7, 3, 4, 5, 6, 7).to_string(), "00070304050607");
    assert_eq!(Timestamp::parse("20240102000000"), Some(b));
    assert_eq!(Timestamp::parse("202401020000"), None);
    assert_eq!(Timestamp::parse("2024010200000x"), None);
    assert!(ts(2024, 2, 29, 0, 0, 0).is_valid());
    assert!(!ts(2100, 2, 29, 0, 0, 0).is_valid());
}

#[test]
fn text_equality() {
    assert!(str_eq("abc", "abc"));
    assert!(!str_eq("abc", "abd"));
    assert!(!str_eq("abc", "ab"));
}
