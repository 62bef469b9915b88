use hbak::catalogue::{LatestSnapshots, LocalNode};
use hbak::config::NodeConfig;
use hbak::error::{LocalNodeError, SnapshotParseError};
use hbak::identity::{Mode, Snapshot, Volume};
use hbak::timestamp::Timestamp;

fn ts(text: &str) -> Timestamp {
    Timestamp::parse(text).unwrap()
}

fn snap(text: &str) -> Snapshot {
    Snapshot::try_from(text).unwrap()
}

fn strings(items: &[&str]) -> Vec<String> {
    items.iter().map(|s| s.to_string()).collect()
}

fn node(name: &str, subvols: &[&str], snapshots: &[&str], backups: &[&str]) -> LocalNode {
    let mut config = NodeConfig::new(
        "/dev/sda1".to_string(),
        None,
        name.to_string(),
        "secret".to_string(),
    );
    config.subvols = strings(subvols);
    LocalNode::new(config, Mode::Server, strings(snapshots), strings(backups))
}

fn vol(text: &str) -> Volume {
    Volume::try_from(text).unwrap()
}

#[test]
fn full_push_tips() {
    let b = node(
        "B",
        &[],
        &[],
        &["A_home_full_20240101000000", "A_home_incr_20240102000000"],
    );
    let tips = b.latest_snapshots(vol("A_home")).unwrap();
    assert_eq!(
        tips,
        LatestSnapshots { last_full: ts("20240101000000"), last_incremental: ts("20240102000000") }
    );
}

#[test]
fn incremental_delta_tips() {
    let b = node(
        "B",
        &[],
        &[],
        &[
            "A_home_full_20240101000000",
            "A_home_incr_20240103000000",
            "A_home_incr_20240102000000",
        ],
    );
    let tips = b.latest_snapshots(vol("A_home")).unwrap();
    assert_eq!(tips.last_full, ts("20240101000000"));
    assert_eq!(tips.last_incremental, ts("20240103000000"));
}

#[test]
fn tips_never_move_back_when_entries_are_added() {
    let before = node("B", &[], &[], &["A_home_full_20240105000000", "A_home_incr_20240106000000"]);
    let after = node(
        "B",
        &[],
        &[],
        &[
            "A_home_full_20240105000000",
            "A_home_incr_20240106000000",
            "A_home_full_20240101000000",
            "A_home_incr_20240102000000",
        ],
    );
    let t0 = before.latest_snapshots(vol("A_home")).unwrap();
    let t1 = after.latest_snapshots(vol("A_home")).unwrap();
    assert!(!t1.last_full.is_before(&t0.last_full));
    assert!(!t1.last_incremental.is_before(&t0.last_incremental));
    assert_eq!(t1, t0);
}

#[test]
fn missing_kinds_are_the_sentinel() {
    let b = node("B", &[], &[], &["C_data_incr_20240102000000"]);
    assert_eq!(b.latest_snapshots(vol("A_home")).unwrap(), LatestSnapshots::none());
    let t = b.latest_snapshots(vol("C_data")).unwrap();
    assert_eq!(t.last_full, Timestamp::min_value());
    assert_eq!(t.last_incremental, ts("20240102000000"));
}

#[test]
fn part_files_are_never_listed() {
    let b = node(
        "B",
        &[],
        &[],
        &["A_home_full_20240101000000", "A_home_full_20240109000000.part"],
    );
    let all = b.all_backups(None).unwrap();
    assert_eq!(all, vec![snap("A_home_full_20240101000000")]);
    assert_eq!(b.latest_full(vol("A_home")).unwrap(), snap("A_home_full_20240101000000"));
}

#[test]
fn backups_filtered_by_volume() {
    let b = node(
        "B",
        &[],
        &[],
        &["A_home_full_20240101000000", "C_var_full_20240101000000"],
    );
    let v = vol("C_var");
    assert_eq!(b.all_backups(Some(&v)).unwrap(), vec![snap("C_var_full_20240101000000")]);
    assert_eq!(b.all_backups(None).unwrap().len(), 2);
}

#[test]
fn unparseable_entry_bubbles_up() {
    let b = node("B", &[], &[], &["A_home_full_20240101000000", "garbage"]);
    assert_eq!(
        b.all_backups(None),
        Err(LocalNodeError::SnapshotParseError(SnapshotParseError::MissingSubvolume))
    );
}

#[test]
fn own_snapshots_and_foreign_subvolume() {
    let a = node(
        "A",
        &["home"],
        &[
            "A_home_full_20240101000000",
            "A_home_incr_20240102000000",
            "A_var_full_20240101000000",
        ],
        &[],
    );
    let all = a.all_snapshots("home".to_string()).unwrap();
    assert_eq!(all, vec![snap("A_home_full_20240101000000"), snap("A_home_incr_20240102000000")]);
    assert_eq!(
        a.all_snapshots("var".to_string()),
        Err(LocalNodeError::ForeignSubvolume("var".to_string()))
    );
    assert_eq!(
        a.latest_snapshot_full("home".to_string()).unwrap(),
        snap("A_home_full_20240101000000")
    );
    assert_eq!(
        a.latest_snapshot_incremental("home".to_string()).unwrap(),
        snap("A_home_incr_20240102000000")
    );
}

#[test]
fn missing_latest_errors() {
    let a = node("A", &["home"], &["A_home_incr_20240102000000"], &[]);
    assert_eq!(
        a.latest_full(vol("A_home")),
        Err(LocalNodeError::NoFullSnapshot("home".to_string()))
    );
    assert_eq!(
        a.latest_backup_full(vol("C_var")),
        Err(LocalNodeError::NoFullBackup("C_var".to_string()))
    );
    assert_eq!(
        a.latest_backup_incremental(vol("C_var")),
        Err(LocalNodeError::NoIncrementalBackup("C_var".to_string()))
    );
    let b = node("B", &["data"], &[], &[]);
    assert_eq!(
        b.latest_snapshot_incremental("data".to_string()),
        Err(LocalNodeError::NoIncrementalSnapshot("data".to_string()))
    );
}

#[test]
fn latest_backups_by_kind() {
    let b = node(
        "B",
        &[],
        &[],
        &[
            "A_home_full_20240101000000",
            "A_home_incr_20240103000000",
            "A_home_incr_20240102000000",
            "A_home_full_20231231000000",
        ],
    );
    assert_eq!(b.latest_backup_full(vol("A_home")).unwrap(), snap("A_home_full_20240101000000"));
    assert_eq!(
        b.latest_backup_incremental(vol("A_home")).unwrap(),
        snap("A_home_incr_20240103000000")
    );
    assert_eq!(b.latest_incremental(vol("A_home")).unwrap(), snap("A_home_incr_20240103000000"));
}

#[test]
fn after_filters_by_kind_and_time() {
    let a = node(
        "A",
        &["home"],
        &[
            "A_home_full_20240101000000",
            "A_home_incr_20240102000000",
            "A_home_incr_20240103000000",
            "A_home_full_20240104000000",
        ],
        &[],
    );
    let incs = a.all_incremental_after(vol("A_home"), ts("20240102000000")).unwrap();
    assert_eq!(incs, vec![snap("A_home_incr_20240103000000")]);
    let fulls = a.all_full_after(vol("A_home"), Timestamp::min_value()).unwrap();
    assert_eq!(fulls.len(), 2);
    let none = a.snapshot_full_after("home".to_string(), ts("20240104000000")).unwrap();
    assert!(none.is_empty());
    let b = node("B", &[], &[], &["A_home_incr_20240102000000", "A_home_incr_20240105000000"]);
    assert_eq!(
        b.backup_incremental_after(vol("A_home"), ts("20240103000000")).unwrap(),
        vec![snap("A_home_incr_20240105000000")]
    );
    assert!(b.backup_full_after(vol("A_home"), Timestamp::min_value()).unwrap().is_empty());
}

#[test]
fn parent_of_incremental() {
    let a = node(
        "A",
        &["home"],
        &[
            "A_home_full_20240101000000",
            "A_home_incr_20240102000000",
            "A_home_full_20240103000000",
            "A_home_incr_20240104000000",
        ],
        &[],
    );
    for s in a.all_incremental_after(vol("A_home"), Timestamp::min_value()).unwrap() {
        let p = a.parent_of(&s).unwrap();
        assert!(p.taken().is_before(&s.taken()));
    }
    assert_eq!(
        a.parent_of(&snap("A_home_incr_20240102000000")).unwrap(),
        snap("A_home_full_20240101000000")
    );
    assert_eq!(
        a.parent_of(&snap("A_home_incr_20240104000000")).unwrap(),
        snap("A_home_full_20240103000000")
    );
    assert_eq!(
        a.parent_of(&snap("A_home_incr_20240105000000")).unwrap(),
        snap("A_home_incr_20240104000000")
    );
}

#[test]
fn parent_of_without_older_full() {
    let a = node("A", &["home"], &["A_home_incr_20240102000000", "A_home_full_20240103000000"], &[]);
    assert_eq!(
        a.parent_of(&snap("A_home_incr_20240102000000")),
        Err(LocalNodeError::NoFullSnapshot("home".to_string()))
    );
    let b = node("B", &[], &[], &["A_home_incr_20240102000000"]);
    assert_eq!(
        b.parent_of(&snap("A_home_incr_20240102000000")),
        Err(LocalNodeError::NoFullBackup("A_home".to_string()))
    );
}

#[test]
fn snapshot_creation_rules() {
    let a = node("A", &["home"], &["A_home_full_20240101000000"], &[]);
    let t = ts("20240102000000");
    let s = a.snapshot_at("home".to_string(), true, t).unwrap();
    assert_eq!(s, snap("A_home_incr_20240102000000"));
    assert_eq!(
        a.snapshot_at("var".to_string(), false, t),
        Err(LocalNodeError::ForeignSubvolume("var".to_string()))
    );
    assert_eq!(
        a.snapshot_at("home".to_string(), false, ts("20240101000000")),
        Err(LocalNodeError::SnapshotExists("A_home_full_20240101000000".to_string()))
    );
    assert_eq!(
        a.snapshot_at("home".to_string(), false, Timestamp::min_value()),
        Err(LocalNodeError::ClockOutOfRange)
    );
    let now = a.snapshot_now("home".to_string(), false).unwrap();
    assert_eq!(now.node_name(), "A");
    assert!(!now.is_incremental());
}

#[test]
fn ownership_queries() {
    let a = node("A", &["home"], &[], &[]);
    assert!(a.owns_subvol(&"home".to_string()));
    assert!(!a.owns_subvol(&"var".to_string()));
    assert!(a.owns_backup(&snap("A_var_full_20240101000000")));
    assert!(!a.owns_backup(&snap("B_home_full_20240101000000")));
    assert_eq!(Volume::new_local(&a, "home".to_string()).unwrap(), vol("A_home"));
    assert_eq!(
        Volume::new_local(&a, "var".to_string()),
        Err(LocalNodeError::NoSuchSubvolume("var".to_string()))
    );
    assert_eq!(a.name(), "A");
}
