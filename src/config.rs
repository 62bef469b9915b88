use vstd::prelude::*;

use crate::error::LocalNodeError;
use crate::identity::{Volume, VolumeView};

verus! {

/// The view of each string of a list.
pub open spec fn names(v: Seq<String>) -> Seq<Seq<char>> {
    v.map_values(|s: String| s@)
}

/// The view of each volume of a list.
pub open spec fn volumes(v: Seq<Volume>) -> Seq<VolumeView> {
    v.map_values(|x: Volume| x@)
}

/// The persisted record of a node: its identity, its subvolumes, its secret,
/// the peers it connects to and the peers it admits.
#[derive(Clone, Debug, PartialEq, Eq)]
pub struct NodeConfig {
    /// The device file the backing file system is located at.
    pub device: String,
    /// The network address the server binds to, if not the default.
    pub bind_addr: Option<String>,
    /// The name of the node.
    pub node_name: String,
    /// The subvolumes owned by the node, i.e. those that originate from it.
    pub subvols: Vec<String>,
    /// The encryption passphrase for the subvolumes owned by this node.
    pub passphrase: String,
    /// The remote nodes to push to or pull from.
    pub remotes: Vec<RemoteNode>,
    /// The authentication details and privileges of nodes that connect to this one.
    pub auth: Vec<RemoteNodeAuth>,
}

/// A network node that backups can be pushed to or pulled from.
#[derive(Clone, Debug, PartialEq, Eq)]
pub struct RemoteNode {
    /// The network address and optional port of the node.
    pub address: String,
    /// The volumes to push to the remote node.
    pub push: Vec<Volume>,
    /// The volumes to pull from the remote node.
    pub pull: Vec<Volume>,
}

/// Authentication and authorization details of a node that connects to this one.
#[derive(Clone, Debug, PartialEq, Eq)]
pub struct RemoteNodeAuth {
    /// The name of the remote node.
    pub node_name: String,
    /// The random salt the remote node derives the shared key with.
    pub verifier: Vec<u8>,
    /// The shared key for mutual authentication.
    pub key: Vec<u8>,
    /// The volumes the remote node may push.
    pub push: Vec<Volume>,
    /// The volumes the remote node may pull.
    pub pull: Vec<Volume>,
}

/// A copy of a list of volumes.
pub fn clone_volumes(v: &Vec<Volume>) -> (r: Vec<Volume>)
    ensures
        volumes(r@) == volumes(v@),
{
    let mut r: Vec<Volume> = Vec::new();
    let mut i: usize = 0;
    assert(volumes(r@) =~= volumes(v@).subrange(0, 0));
    while i < v.len()
        invariant
            i <= v.len(),
            volumes(r@) == volumes(v@).subrange(0, i as int),
        decreases v.len() - i,
    {
        let ghost before = r@;
        r.push(v[i].cloned());
        assert(volumes(r@) =~= volumes(before).push(v@[i as int]@));
        i = i + 1;
        assert(volumes(r@) =~= volumes(v@).subrange(0, i as int));
    }
    assert(volumes(v@).subrange(0, i as int) =~= volumes(v@));
    r
}

impl RemoteNodeAuth {
    /// A copy of the grant.
    pub fn cloned(&self) -> (r: RemoteNodeAuth)
        ensures
            r.node_name@ == self.node_name@,
            r.verifier@ == self.verifier@,
            r.key@ == self.key@,
            volumes(r.push@) == volumes(self.push@),
            volumes(r.pull@) == volumes(self.pull@),
    {
        RemoteNodeAuth {
            node_name: self.node_name.clone(),
            verifier: self.verifier.clone(),
            key: self.key.clone(),
            push: clone_volumes(&self.push),
            pull: clone_volumes(&self.pull),
        }
    }
}

/// Reports whether `v` is among `list`.
pub fn contains_volume(list: &Vec<Volume>, v: &Volume) -> (r: bool)
    ensures
        r == volumes(list@).contains(v@),
{
    let mut i: usize = 0;
    while i < list.len()
        invariant
            i <= list.len(),
            forall|k: int| 0 <= k < i ==> list@[k]@ != v@,
        decreases list.len() - i,
    {
        if list[i].same(v) {
            assert(volumes(list@)[i as int] == v@);
            return true;
        }
        i = i + 1;
    }
    assert(!volumes(list@).contains(v@)) by {
        if volumes(list@).contains(v@) {
            let k = choose|k: int| 0 <= k < volumes(list@).len() && volumes(list@)[k] == v@;
            assert(list@[k]@ == v@);
        }
    }
    false
}

/// Reports whether `s` is among `list`.
pub fn contains_name(list: &Vec<String>, s: &String) -> (r: bool)
    ensures
        r == names(list@).contains(s@),
{
    let mut i: usize = 0;
    while i < list.len()
        invariant
            i <= list.len(),
            forall|k: int| 0 <= k < i ==> list@[k]@ != s@,
        decreases list.len() - i,
    {
        if list[i] == *s {
            assert(names(list@)[i as int] == s@);
            return true;
        }
        i = i + 1;
    }
    assert(!names(list@).contains(s@)) by {
        if names(list@).contains(s@) {
            let k = choose|k: int| 0 <= k < names(list@).len() && names(list@)[k] == s@;
            assert(list@[k]@ == s@);
        }
    }
    false
}


/// The list without the entries equal to `x`, in order.
pub open spec fn without<A>(s: Seq<A>, x: A) -> Seq<A>
    decreases s.len(),
{
    if s.len() == 0 {
        s
    } else if s.last() == x {
        without(s.drop_last(), x)
    } else {
        without(s.drop_last(), x).push(s.last())
    }
}

/// The address of each remote of a list.
pub open spec fn addresses(v: Seq<RemoteNode>) -> Seq<Seq<char>> {
    v.map_values(|r: RemoteNode| r.address@)
}

/// The node name of each grant of a list.
pub open spec fn grantees(v: Seq<RemoteNodeAuth>) -> Seq<Seq<char>> {
    v.map_values(|g: RemoteNodeAuth| g.node_name@)
}

/// Whether the file mode of a configuration file leaves it to its owner: no special,
/// group or other bits.
pub open spec fn is_private_mode(mode: u32) -> bool {
    mode & 0o7077u32 == 0
}

/// Rejects a configuration file whose mode grants anything beyond its owner.
pub fn check_mode(mode: u32) -> (r: Result<(), LocalNodeError>)
    ensures
        is_private_mode(mode) <==> r is Ok,
        r matches Err(e) ==> e == LocalNodeError::InsecurePerms,
{
    if mode & 0o7077u32 != 0 {
        Err(LocalNodeError::InsecurePerms)
    } else {
        Ok(())
    }
}

/// Rejects initialization when a configuration exists already.
pub fn check_uninitialized(config_exists: bool) -> (r: Result<(), LocalNodeError>)
    ensures
        config_exists <==> r is Err,
        r matches Err(e) ==> e == LocalNodeError::ConfigExists,
{
    if config_exists {
        Err(LocalNodeError::ConfigExists)
    } else {
        Ok(())
    }
}

/// Rejects clean-up when no configuration exists.
pub fn check_initialized(config_exists: bool) -> (r: Result<(), LocalNodeError>)
    ensures
        config_exists <==> r is Ok,
        r matches Err(e) ==> e == LocalNodeError::ConfigUninit,
{
    if config_exists {
        Ok(())
    } else {
        Err(LocalNodeError::ConfigUninit)
    }
}

impl NodeConfig {
    /// The initial configuration of a node: no subvolumes, remotes or grants.
    pub fn new(device: String, bind_addr: Option<String>, node_name: String, passphrase: String) -> (r:
        NodeConfig)
        ensures
            r.device@ == device@,
            r.node_name@ == node_name@,
            r.passphrase@ == passphrase@,
            r.subvols@.len() == 0,
            r.remotes@.len() == 0,
            r.auth@.len() == 0,
    {
        NodeConfig {
            device,
            bind_addr,
            node_name,
            subvols: Vec::new(),
            passphrase,
            remotes: Vec::new(),
            auth: Vec::new(),
        }
    }

    /// Stops marking a subvolume as owned.
    pub fn untrack(&mut self, subvol: &String)
        ensures
            final(self).device == old(self).device,
            final(self).bind_addr == old(self).bind_addr,
            final(self).node_name == old(self).node_name,
            final(self).passphrase == old(self).passphrase,
            names(final(self).subvols@) == without(names(old(self).subvols@), subvol@),
            final(self).remotes == old(self).remotes,
            final(self).auth == old(self).auth,
    {
        let mut kept: Vec<String> = Vec::new();
        let ghost all = names(self.subvols@);
        let mut i: usize = 0;
        assert(all.subrange(0, 0) =~= Seq::<Seq<char>>::empty());
        assert(names(kept@) =~= Seq::<Seq<char>>::empty());
        while i < self.subvols.len()
            invariant
                i <= self.subvols.len(),
                all == names(self.subvols@),
                names(kept@) == without(all.subrange(0, i as int), subvol@),
            decreases self.subvols.len() - i,
        {
            let ghost sub = all.subrange(0, i + 1);
            assert(sub.drop_last() =~= all.subrange(0, i as int));
            assert(sub.last() == self.subvols@[i as int]@);
            if self.subvols[i] != *subvol {
                let ghost before = kept@;
                kept.push(self.subvols[i].clone());
                assert(names(kept@) =~= names(before).push(self.subvols@[i as int]@));
            }
            i = i + 1;
        }
        assert(all.subrange(0, i as int) =~= all);
        self.subvols = kept;
    }

    /// Marks a subvolume as owned, once.
    pub fn track(&mut self, subvol: String)
        ensures
            final(self).device == old(self).device,
            final(self).bind_addr == old(self).bind_addr,
            final(self).node_name == old(self).node_name,
            final(self).passphrase == old(self).passphrase,
            names(final(self).subvols@) == without(names(old(self).subvols@), subvol@).push(subvol@),
            final(self).remotes == old(self).remotes,
            final(self).auth == old(self).auth,
    {
        self.untrack(&subvol);
        let ghost before = self.subvols@;
        self.subvols.push(subvol);
        assert(names(self.subvols@) =~= names(before).push(subvol@));
    }

    /// Forgets the remote with an address.
    pub fn rm_remote(&mut self, address: &String)
        ensures
            final(self).device == old(self).device,
            final(self).bind_addr == old(self).bind_addr,
            final(self).node_name == old(self).node_name,
            final(self).passphrase == old(self).passphrase,
            addresses(final(self).remotes@) == without(addresses(old(self).remotes@), address@),
            final(self).subvols == old(self).subvols,
            final(self).auth == old(self).auth,
    {
        let mut kept: Vec<RemoteNode> = Vec::new();
        let mut rest: Vec<RemoteNode> = Vec::new();
        std::mem::swap(&mut rest, &mut self.remotes);
        let ghost all = addresses(rest@);
        let mut i: usize = 0;
        assert(all.subrange(0, 0) =~= Seq::<Seq<char>>::empty());
        assert(addresses(kept@) =~= Seq::<Seq<char>>::empty());
        let n = rest.len();
        while rest.len() > 0
            invariant
                i + rest@.len() == all.len(),
                all.len() == n,
                all.subrange(i as int, all.len() as int) == addresses(rest@),
                addresses(kept@) == without(all.subrange(0, i as int), address@),
            decreases rest@.len(),
        {
            let ghost sub = all.subrange(0, i + 1);
            assert(sub.drop_last() =~= all.subrange(0, i as int));
            let ghost prev_rest = rest@;
            let r = rest.remove(0);
            assert(rest@ =~= prev_rest.subrange(1, prev_rest.len() as int));
            assert(addresses(rest@) =~= addresses(prev_rest).subrange(1, prev_rest.len() as int));
            assert(sub.last() == r.address@) by {
                assert(all.subrange(i as int, all.len() as int)[0] == r.address@);
            }
            if r.address != *address {
                let ghost before = kept@;
                kept.push(r);
                assert(addresses(kept@) =~= addresses(before).push(sub.last()));
            }
            i = i + 1;
            assert(all.subrange(i as int, all.len() as int) =~= addresses(rest@));
        }
        assert(all.subrange(0, i as int) =~= all);
        self.remotes = kept;
    }

    /// Adds a remote, replacing any with the same address.
    pub fn add_remote(&mut self, remote: RemoteNode)
        ensures
            final(self).device == old(self).device,
            final(self).bind_addr == old(self).bind_addr,
            final(self).node_name == old(self).node_name,
            final(self).passphrase == old(self).passphrase,
            addresses(final(self).remotes@) == without(addresses(old(self).remotes@), remote.address@).push(
                remote.address@,
            ),
            final(self).remotes@.last() == remote,
            final(self).subvols == old(self).subvols,
            final(self).auth == old(self).auth,
    {
        self.rm_remote(&remote.address);
        let ghost before = self.remotes@;
        self.remotes.push(remote);
        assert(addresses(self.remotes@) =~= addresses(before).push(remote.address@));
    }

    /// Removes the grant of a node.
    pub fn revoke(&mut self, node_name: &String)
        ensures
            final(self).device == old(self).device,
            final(self).bind_addr == old(self).bind_addr,
            final(self).node_name == old(self).node_name,
            final(self).passphrase == old(self).passphrase,
            grantees(final(self).auth@) == without(grantees(old(self).auth@), node_name@),
            final(self).subvols == old(self).subvols,
            final(self).remotes == old(self).remotes,
    {
        let mut kept: Vec<RemoteNodeAuth> = Vec::new();
        let mut rest: Vec<RemoteNodeAuth> = Vec::new();
        std::mem::swap(&mut rest, &mut self.auth);
        let ghost all = grantees(rest@);
        let mut i: usize = 0;
        assert(all.subrange(0, 0) =~= Seq::<Seq<char>>::empty());
        assert(grantees(kept@) =~= Seq::<Seq<char>>::empty());
        let n = rest.len();
        while rest.len() > 0
            invariant
                i + rest@.len() == all.len(),
                all.len() == n,
                all.subrange(i as int, all.len() as int) == grantees(rest@),
                grantees(kept@) == without(all.subrange(0, i as int), node_name@),
            decreases rest@.len(),
        {
            let ghost sub = all.subrange(0, i + 1);
            assert(sub.drop_last() =~= all.subrange(0, i as int));
            let ghost prev_rest = rest@;
            let g = rest.remove(0);
            assert(rest@ =~= prev_rest.subrange(1, prev_rest.len() as int));
            assert(grantees(rest@) =~= grantees(prev_rest).subrange(1, prev_rest.len() as int));
            assert(sub.last() == g.node_name@) by {
                assert(all.subrange(i as int, all.len() as int)[0] == g.node_name@);
            }
            if g.node_name != *node_name {
                let ghost before = kept@;
                kept.push(g);
                assert(grantees(kept@) =~= grantees(before).push(sub.last()));
            }
            i = i + 1;
            assert(all.subrange(i as int, all.len() as int) =~= grantees(rest@));
        }
        assert(all.subrange(0, i as int) =~= all);
        self.auth = kept;
    }

    /// Adds a grant, replacing any of the same node.
    pub fn grant(&mut self, auth: RemoteNodeAuth)
        ensures
            final(self).device == old(self).device,
            final(self).bind_addr == old(self).bind_addr,
            final(self).node_name == old(self).node_name,
            final(self).passphrase == old(self).passphrase,
            grantees(final(self).auth@) == without(grantees(old(self).auth@), auth.node_name@).push(
                auth.node_name@,
            ),
            final(self).auth@.last() == auth,
            final(self).subvols == old(self).subvols,
            final(self).remotes == old(self).remotes,
    {
        self.revoke(&auth.node_name);
        let ghost before = self.auth@;
        self.auth.push(auth);
        assert(grantees(self.auth@) =~= grantees(before).push(auth.node_name@));
    }

    /// Replaces the permissions of the first grant of a node, keeping its key.
    pub fn set_perms(&mut self, node_name: &String, push: Vec<Volume>, pull: Vec<Volume>)
        ensures
            final(self).device == old(self).device,
            final(self).bind_addr == old(self).bind_addr,
            final(self).node_name == old(self).node_name,
            final(self).passphrase == old(self).passphrase,
            final(self).auth@.len() == old(self).auth@.len(),
            grantees(final(self).auth@) == grantees(old(self).auth@),
            forall|i: int|
                0 <= i < old(self).auth@.len() ==> {
                    let g = #[trigger] final(self).auth@[i];
                    let o = old(self).auth@[i];
                    if o.node_name@ == node_name@ && forall|j: int|
                        0 <= j < i ==> (#[trigger] old(self).auth@[j]).node_name@ != node_name@ {
                        g.key == o.key && g.verifier == o.verifier && g.push == push && g.pull == pull
                    } else {
                        g == o
                    }
                },
            final(self).subvols == old(self).subvols,
            final(self).remotes == old(self).remotes,
    {
        let mut i: usize = 0;
        while i < self.auth.len() && self.auth[i].node_name != *node_name
            invariant
                i <= self.auth@.len(),
                self.auth == old(self).auth,
                self.subvols == old(self).subvols,
                self.remotes == old(self).remotes,
                forall|j: int| 0 <= j < i ==> (#[trigger] self.auth@[j]).node_name@ != node_name@,
            decreases self.auth.len() - i,
        {
            i = i + 1;
        }
        if i < self.auth.len() {
            let mut g = self.auth.remove(i);
            g.push = push;
            g.pull = pull;
            self.auth.insert(i, g);
            assert(grantees(self.auth@) =~= grantees(old(self).auth@));
        }
    }
}

} // verus!
