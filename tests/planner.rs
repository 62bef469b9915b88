use hbak::catalogue::{LatestSnapshots, LocalNode};
use hbak::config::{NodeConfig, RemoteNode, RemoteNodeAuth};
use hbak::error::{LocalNodeError, RemoteError};
use hbak::identity::{Mode, Snapshot, Volume};
use hbak::message::SyncInfo;
use hbak::planner::{
    accept_backup, accept_restore, client_sync_info, plan_client, plan_server, server_sync_info,
};
use hbak::timestamp::Timestamp;

fn ts(text: &str) -> Timestamp {
    Timestamp::parse(text).unwrap()
}

fn snap(text: &str) -> Snapshot {
    Snapshot::try_from(text).unwrap()
}

fn vol(text: &str) -> Volume {
    Volume::try_from(text).unwrap()
}

fn strings(items: &[&str]) -> Vec<String> {
    items.iter().map(|s| s.to_string()).collect()
}

fn node(name: &str, subvols: &[&str], snapshots: &[&str], backups: &[&str]) -> LocalNode {
    let mut config = NodeConfig::new(
        "/dev/sda1".to_string(),
        None,
        name.to_string(),
        "secret".to_string(),
    );
    config.subvols = strings(subvols);
    LocalNode::new(config, Mode::Client, strings(snapshots), strings(backups))
}

fn grant(name: &str, push: &[&str], pull: &[&str]) -> RemoteNodeAuth {
    RemoteNodeAuth {
        node_name: name.to_string(),
        verifier: vec![1; 32],
        key: vec![2; 32],
        push: push.iter().map(|v| vol(v)).collect(),
        pull: pull.iter().map(|v| vol(v)).collect(),
    }
}

fn info(entries: &[(&str, LatestSnapshots)]) -> SyncInfo {
    SyncInfo { volumes: entries.iter().map(|(v, t)| (vol(v), *t)).collect() }
}

fn peer_a() -> LocalNode {
    node(
        "A",
        &["home"],
        &["A_home_full_20240101000000", "A_home_incr_20240102000000"],
        &[],
    )
}

#[test]
fn full_push_ships_everything() {
    let a = peer_a();
    let remote = RemoteNode {
        address: "b.example".to_string(),
        push: vec![vol("A_home")],
        pull: vec![],
    };
    let b_info = info(&[("A_home", LatestSnapshots::none())]);
    let plan = plan_client(&a, &remote, &vec![], &b_info).unwrap();
    assert_eq!(
        plan,
        vec![snap("A_home_full_20240101000000"), snap("A_home_incr_20240102000000")]
    );
    let b = node("B", &[], &[], &[]);
    let b_grant = grant("A", &["A_home"], &[]);
    let offered = server_sync_info(&b, &b_grant).unwrap();
    assert_eq!(offered, info(&[("A_home", LatestSnapshots::none())]));
}

#[test]
fn incremental_delta_ships_one_blob() {
    let a = node(
        "A",
        &["home"],
        &[
            "A_home_full_20240101000000",
            "A_home_incr_20240102000000",
            "A_home_incr_20240103000000",
        ],
        &[],
    );
    let remote = RemoteNode {
        address: "b.example".to_string(),
        push: vec![vol("A_home")],
        pull: vec![],
    };
    let tips = LatestSnapshots {
        last_full: ts("20240101000000"),
        last_incremental: ts("20240102000000"),
    };
    let plan = plan_client(&a, &remote, &vec![], &info(&[("A_home", tips)])).unwrap();
    assert_eq!(plan, vec![snap("A_home_incr_20240103000000")]);
}

#[test]
fn client_push_limits() {
    let a = peer_a();
    let remote = RemoteNode { address: "b".to_string(), push: vec![], pull: vec![] };
    let b_info = info(&[("A_home", LatestSnapshots::none())]);
    assert!(plan_client(&a, &remote, &vec![], &b_info).unwrap().is_empty());
    let remote = RemoteNode { address: "b".to_string(), push: vec![vol("A_home")], pull: vec![] };
    assert!(plan_client(&a, &remote, &strings(&["A_var"]), &b_info).unwrap().is_empty());
    assert_eq!(plan_client(&a, &remote, &strings(&["A_home"]), &b_info).unwrap().len(), 2);
}

#[test]
fn restore_ships_latest_full_and_newer_incrementals() {
    let b = node(
        "B",
        &[],
        &[],
        &[
            "A_home_full_20240101000000",
            "A_home_incr_20240102000000",
            "A_home_full_20240103000000",
            "A_home_incr_20240104000000",
            "A_home_incr_20240105000000",
        ],
    );
    let g = grant("A", &["A_home"], &[]);
    let plan = plan_server(&b, &g, &info(&[("A_home", LatestSnapshots::none())])).unwrap();
    assert_eq!(
        plan,
        vec![
            snap("A_home_full_20240103000000"),
            snap("A_home_incr_20240104000000"),
            snap("A_home_incr_20240105000000"),
        ]
    );
}

#[test]
fn restore_skips_full_the_peer_has() {
    let b = node(
        "B",
        &[],
        &[],
        &["A_home_full_20240101000000", "A_home_incr_20240102000000", "A_home_incr_20240103000000"],
    );
    let g = grant("A", &[], &[]);
    let tips = LatestSnapshots {
        last_full: ts("20240101000000"),
        last_incremental: ts("20240102000000"),
    };
    let plan = plan_server(&b, &g, &info(&[("A_home", tips)])).unwrap();
    assert_eq!(plan, vec![snap("A_home_incr_20240103000000")]);
}

#[test]
fn restore_without_full_backup_fails() {
    let b = node("B", &[], &[], &[]);
    let g = grant("A", &[], &[]);
    assert_eq!(
        plan_server(&b, &g, &info(&[("A_home", LatestSnapshots::none())])),
        Err(LocalNodeError::NoFullBackup("A_home".to_string()))
    );
}

#[test]
fn server_pull_of_third_party_volume() {
    let b = node("B", &[], &[], &["C_data_full_20240101000000", "C_data_incr_20240102000000"]);
    let g = grant("A", &[], &["C_data"]);
    let plan = plan_server(&b, &g, &info(&[("C_data", LatestSnapshots::none())])).unwrap();
    assert_eq!(plan.len(), 2);
    let g = grant("A", &[], &[]);
    assert!(plan_server(&b, &g, &info(&[("C_data", LatestSnapshots::none())])).unwrap().is_empty());
}

#[test]
fn client_offers_tips_of_pulled_foreign_volumes() {
    let a = node("A", &["home"], &["A_home_full_20240101000000"], &["C_data_full_20240101000000"]);
    let remote = RemoteNode {
        address: "b".to_string(),
        push: vec![],
        pull: vec![vol("A_home"), vol("C_data"), vol("C_data")],
    };
    let offered = client_sync_info(&a, &remote, &vec![]).unwrap();
    assert_eq!(
        offered,
        info(&[(
            "C_data",
            LatestSnapshots { last_full: ts("20240101000000"), last_incremental: Timestamp::min_value() },
        )])
    );
    let limited = client_sync_info(&a, &remote, &strings(&["D_x"])).unwrap();
    assert!(limited.volumes.is_empty());
}

#[test]
fn immutable_backup_is_rejected() {
    let b = node("B", &[], &[], &["A_home_full_20240101000000"]);
    let allowed = vec![vol("A_home")];
    let s = snap("A_home_full_20240101000000");
    assert_eq!(accept_backup(&b, &allowed, &s, true), Err(RemoteError::Immutable));
    assert_eq!(accept_backup(&b, &allowed, &s, false), Ok(()));
    assert_eq!(accept_backup(&b, &vec![], &s, false), Err(RemoteError::AccessDenied));
    let own = snap("B_home_full_20240101000000");
    assert_eq!(
        accept_backup(&b, &vec![vol("B_home")], &own, false),
        Err(RemoteError::AccessDenied)
    );
}

#[test]
fn restore_acceptance() {
    let a = node("A", &["home"], &[], &[]);
    let s = snap("A_home_full_20240101000000");
    assert_eq!(accept_restore(&a, &s, false), Ok(()));
    assert_eq!(accept_restore(&a, &s, true), Err(RemoteError::Immutable));
    assert_eq!(
        accept_restore(&a, &snap("A_var_full_20240101000000"), false),
        Err(RemoteError::AccessDenied)
    );
    assert_eq!(
        accept_restore(&a, &snap("C_home_full_20240101000000"), false),
        Err(RemoteError::AccessDenied)
    );
}
