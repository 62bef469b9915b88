use hbak::config::{check_initialized, check_mode, check_uninitialized, NodeConfig, RemoteNode, RemoteNodeAuth};
use hbak::error::LocalNodeError;
use hbak::identity::Volume;

fn config() -> NodeConfig {
    NodeConfig::new("/dev/sda1".to_string(), None, "A".to_string(), "pw".to_string())
}

#[test]
fn track_and_untrack() {
    let mut c = config();
    c.track("home".to_string());
    c.track("var".to_string());
    c.track("home".to_string());
    assert_eq!(c.subvols, vec!["var".to_string(), "home".to_string()]);
    c.untrack(&"var".to_string());
    assert_eq!(c.subvols, vec!["home".to_string()]);
}

#[test]
fn remotes_replace_by_address() {
    let mut c = config();
    let v = Volume::try_from("A_home").unwrap();
    c.add_remote(RemoteNode { address: "b".to_string(), push: vec![], pull: vec![] });
    c.add_remote(RemoteNode { address: "c".to_string(), push: vec![], pull: vec![] });
    c.add_remote(RemoteNode { address: "b".to_string(), push: vec![v.clone()], pull: vec![] });
    assert_eq!(c.remotes.len(), 2);
    assert_eq!(c.remotes[1].address, "b");
    assert_eq!(c.remotes[1].push, vec![v]);
    c.rm_remote(&"c".to_string());
    assert_eq!(c.remotes.len(), 1);
}

#[test]
fn grants_replace_revoke_and_set_perms() {
    let mut c = config();
    let g = |name: &str, key: u8| RemoteNodeAuth {
        node_name: name.to_string(),
        verifier: vec![1; 32],
        key: vec![key; 32],
        push: vec![],
        pull: vec![],
    };
    c.grant(g("B", 1));
    c.grant(g("C", 2));
    c.grant(g("B", 3));
    assert_eq!(c.auth.len(), 2);
    assert_eq!(c.auth[1].key, vec![3; 32]);
    let v = Volume::try_from("B_home").unwrap();
    c.set_perms(&"B".to_string(), vec![v.clone()], vec![]);
    assert_eq!(c.auth[1].push, vec![v]);
    assert_eq!(c.auth[1].key, vec![3; 32]);
    c.revoke(&"B".to_string());
    assert_eq!(c.auth.len(), 1);
    assert_eq!(c.auth[0].node_name, "C");
}

#[test]
fn config_permissions() {
    assert_eq!(check_mode(0o100600), Ok(()));
    assert_eq!(check_mode(0o100400), Ok(()));
    assert_eq!(check_mode(0o100640), Err(LocalNodeError::InsecurePerms));
    assert_eq!(check_mode(0o100604), Err(LocalNodeError::InsecurePerms));
    assert_eq!(check_mode(0o104600), Err(LocalNodeError::InsecurePerms));
    assert_eq!(check_uninitialized(true), Err(LocalNodeError::ConfigExists));
    assert_eq!(check_uninitialized(false), Ok(()));
    assert_eq!(check_initialized(false), Err(LocalNodeError::ConfigUninit));
}
