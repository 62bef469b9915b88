use vstd::prelude::*;

use crate::catalogue::{
    after_in, is_foreign, latest_in, list_result, tips, views, LatestSnapshots, LocalNode,
};
use crate::config::{contains_name, contains_volume, names, volumes, RemoteNode, RemoteNodeAuth};
use crate::error::{LocalNodeError, NodeFailure, RemoteError};
use crate::identity::{str_eq, volume_text, Snapshot, SnapshotView, Volume, VolumeView};
use crate::message::{entries, SyncInfo};
use crate::timestamp::Timestamp;

verus! {

/// The later of two timestamps.
pub open spec fn later(a: Timestamp, b: Timestamp) -> Timestamp {
    if a.key() < b.key() {
        b
    } else {
        a
    }
}

/// The entries of a catalogue exchange whose volume passes `f`, in order.
pub open spec fn keep(s: Seq<(VolumeView, LatestSnapshots)>, f: spec_fn(VolumeView) -> bool) -> Seq<
    (VolumeView, LatestSnapshots),
>
    decreases s.len(),
{
    if s.len() == 0 {
        Seq::empty()
    } else {
        let p = keep(s.drop_last(), f);
        if f(s.last().0) {
            p.push(s.last())
        } else {
            p
        }
    }
}

/// The blobs to ship for one volume whose peer tips are `t`. For a volume owned by
/// the peer (`restoring`), the latest full backup if newer than the peer's, then the
/// incremental backups newer than both fulls and the peer's incremental; otherwise
/// every full newer than the peer's full, then every incremental newer than the
/// peer's incremental.
pub open spec fn batch(n: crate::catalogue::NodeView, v: VolumeView, t: LatestSnapshots, restoring: bool) -> Result<
    Seq<SnapshotView>,
    NodeFailure,
> {
    if restoring {
        match latest_in(n, v, true, false) {
            Err(e) => Err(e),
            Ok(f) => {
                let fulls = if t.last_full.key() < f.taken.key() {
                    seq![f]
                } else {
                    Seq::empty()
                };
                let cut = later(later(t.last_full, f.taken), t.last_incremental);
                match after_in(n, v, true, true, cut) {
                    Err(e) => Err(e),
                    Ok(incs) => Ok(fulls + incs),
                }
            },
        }
    } else {
        match after_in(n, v, is_foreign(n, v), false, t.last_full) {
            Err(e) => Err(e),
            Ok(fulls) => match after_in(n, v, is_foreign(n, v), true, t.last_incremental) {
                Err(e) => Err(e),
                Ok(incs) => Ok(fulls + incs),
            },
        }
    }
}

/// The blobs to ship for each admitted volume, in order; `peer` names the node
/// whose own volumes are restored to it, if any.
pub open spec fn plan(
    n: crate::catalogue::NodeView,
    peer: Option<Seq<char>>,
    admitted: Seq<(VolumeView, LatestSnapshots)>,
) -> Result<Seq<SnapshotView>, NodeFailure>
    decreases admitted.len(),
{
    if admitted.len() == 0 {
        Ok(Seq::empty())
    } else {
        match plan(n, peer, admitted.drop_last()) {
            Err(e) => Err(e),
            Ok(prev) => {
                let (v, t) = admitted.last();
                let restoring = peer is Some && v.node_name == peer.unwrap();
                match batch(n, v, t, restoring) {
                    Err(e) => Err(e),
                    Ok(b) => Ok(prev + b),
                }
            },
        }
    }
}

/// The volumes a server ships to a connected peer: those the peer may pull and the
/// peer's own volumes.
pub open spec fn server_admits(peer: Seq<char>, pull: Seq<VolumeView>) -> spec_fn(VolumeView) -> bool {
    |v: VolumeView| pull.contains(v) || v.node_name == peer
}

/// The volumes a client ships to a remote: those it pushes there, limited to
/// `only` unless that is empty.
pub open spec fn client_admits(push: Seq<VolumeView>, only: Seq<Seq<char>>) -> spec_fn(VolumeView) -> bool {
    |v: VolumeView| push.contains(v) && (only.len() == 0 || only.contains(volume_text(v)))
}

pub proof fn lemma_plan_prefix_err(
    n: crate::catalogue::NodeView,
    peer: Option<Seq<char>>,
    admitted: Seq<(VolumeView, LatestSnapshots)>,
    i: int,
)
    requires
        0 <= i <= admitted.len(),
        plan(n, peer, admitted.subrange(0, i)) is Err,
    ensures
        plan(n, peer, admitted) == plan(n, peer, admitted.subrange(0, i)),
    decreases admitted.len() - i,
{
    if i < admitted.len() {
        let d = admitted.drop_last();
        assert(d.subrange(0, i) =~= admitted.subrange(0, i));
        lemma_plan_prefix_err(n, peer, d, i);
    } else {
        assert(admitted.subrange(0, i) =~= admitted);
    }
}

fn later_of(a: Timestamp, b: Timestamp) -> (r: Timestamp)
    ensures
        r == later(a, b),
{
    if a.is_before(&b) {
        b
    } else {
        a
    }
}

fn append_all(out: &mut Vec<Snapshot>, more: Vec<Snapshot>)
    ensures
        views(final(out)@) == views(old(out)@) + views(more@),
{
    let mut more = more;
    let ghost o = out@;
    let ghost m = more@;
    out.append(&mut more);
    assert(views(out@) =~= views(o) + views(m));
}

/// The blobs to ship for one volume; see `batch`.
fn volume_batch(node: &LocalNode, v: &Volume, t: LatestSnapshots, restoring: bool) -> (r: Result<
    Vec<Snapshot>,
    LocalNodeError,
>)
    ensures
        list_result(r) == batch(node@, v@, t, restoring),
{
    if restoring {
        let f = node.latest_backup_full(v.cloned())?;
        let mut out: Vec<Snapshot> = Vec::new();
        let cut = later_of(later_of(t.last_full, f.taken()), t.last_incremental);
        if t.last_full.is_before(&f.taken()) {
            out.push(f);
        }
        assert(views(out@) =~= (if t.last_full.key() < f@.taken.key() {
            seq![f@]
        } else {
            Seq::<SnapshotView>::empty()
        }));
        let incs = node.backup_incremental_after(v.cloned(), cut)?;
        append_all(&mut out, incs);
        Ok(out)
    } else {
        let mut out = node.all_full_after(v.cloned(), t.last_full)?;
        let incs = node.all_incremental_after(v.cloned(), t.last_incremental)?;
        append_all(&mut out, incs);
        Ok(out)
    }
}

/// The blobs to ship for each admitted volume; see `plan`.
fn plan_batches(node: &LocalNode, peer: Option<&String>, admitted: &Vec<(Volume, LatestSnapshots)>) -> (r:
    Result<Vec<Snapshot>, LocalNodeError>)
    ensures
        list_result(r) == plan(
            node@,
            match peer {
                Some(p) => Some(p@),
                None => None,
            },
            entries(admitted@),
        ),
{
    let ghost pv = match peer {
        Some(p) => Some(p@),
        None => None::<Seq<char>>,
    };
    let ghost all = entries(admitted@);
    let mut out: Vec<Snapshot> = Vec::new();
    let mut i: usize = 0;
    assert(all.subrange(0, 0) =~= Seq::<(VolumeView, LatestSnapshots)>::empty());
    assert(views(out@) =~= Seq::<SnapshotView>::empty());
    while i < admitted.len()
        invariant
            i <= admitted.len(),
            all == entries(admitted@),
            pv == match peer {
                Some(p) => Some(p@),
                None => None::<Seq<char>>,
            },
            plan(node@, pv, all.subrange(0, i as int)) == Ok::<Seq<SnapshotView>, NodeFailure>(
                views(out@),
            ),
        decreases admitted.len() - i,
    {
        let ghost sub = all.subrange(0, i + 1);
        assert(sub.drop_last() =~= all.subrange(0, i as int));
        let v = &admitted[i].0;
        let t = admitted[i].1;
        assert(sub.last() == (v@, t));
        let restoring = match peer {
            Some(p) => str_eq(v.node_name(), p.as_str()),
            None => false,
        };
        assert(restoring == (pv is Some && v@.node_name == pv.unwrap()));
        match volume_batch(node, v, t, restoring) {
            Err(e) => {
                proof {
                    assert(plan(node@, pv, sub) == Err::<Seq<SnapshotView>, NodeFailure>(e@));
                    lemma_plan_prefix_err(node@, pv, all, i + 1);
                }
                return Err(e);
            },
            Ok(b) => {
                append_all(&mut out, b);
            },
        }
        i = i + 1;
    }
    assert(all.subrange(0, i as int) =~= all);
    Ok(out)
}


/// The volumes of a list that pass `f`, in order.
pub open spec fn keep_volumes(s: Seq<VolumeView>, f: spec_fn(VolumeView) -> bool) -> Seq<VolumeView>
    decreases s.len(),
{
    if s.len() == 0 {
        Seq::empty()
    } else {
        let p = keep_volumes(s.drop_last(), f);
        if f(s.last()) {
            p.push(s.last())
        } else {
            p
        }
    }
}

/// The volumes a client asks a remote for: those not its own, limited to `only`
/// unless that is empty.
pub open spec fn client_pulls(local: Seq<char>, only: Seq<Seq<char>>) -> spec_fn(VolumeView) -> bool {
    |v: VolumeView| v.node_name != local && (only.len() == 0 || only.contains(volume_text(v)))
}

pub open spec fn keys(s: Seq<(VolumeView, LatestSnapshots)>) -> Seq<VolumeView> {
    s.map_values(|e: (VolumeView, LatestSnapshots)| e.0)
}

/// The catalogue tips of each volume, each volume once, in order of first appearance.
pub open spec fn sync_info(n: crate::catalogue::NodeView, vs: Seq<VolumeView>) -> Result<
    Seq<(VolumeView, LatestSnapshots)>,
    NodeFailure,
>
    decreases vs.len(),
{
    if vs.len() == 0 {
        Ok(Seq::empty())
    } else {
        match sync_info(n, vs.drop_last()) {
            Err(e) => Err(e),
            Ok(prev) => if keys(prev).contains(vs.last()) {
                Ok(prev)
            } else {
                match tips(n, vs.last()) {
                    Err(e) => Err(e),
                    Ok(t) => Ok(prev.push((vs.last(), t))),
                }
            },
        }
    }
}

pub proof fn lemma_sync_info_prefix_err(n: crate::catalogue::NodeView, vs: Seq<VolumeView>, i: int)
    requires
        0 <= i <= vs.len(),
        sync_info(n, vs.subrange(0, i)) is Err,
    ensures
        sync_info(n, vs) == sync_info(n, vs.subrange(0, i)),
    decreases vs.len() - i,
{
    if i < vs.len() {
        let d = vs.drop_last();
        assert(d.subrange(0, i) =~= vs.subrange(0, i));
        lemma_sync_info_prefix_err(n, d, i);
    } else {
        assert(vs.subrange(0, i) =~= vs);
    }
}

pub open spec fn info_result(r: Result<SyncInfo, LocalNodeError>) -> Result<
    Seq<(VolumeView, LatestSnapshots)>,
    NodeFailure,
> {
    match r {
        Ok(i) => Ok(entries(i.volumes@)),
        Err(e) => Err(e@),
    }
}

fn contains_key(s: &Vec<(Volume, LatestSnapshots)>, v: &Volume) -> (r: bool)
    ensures
        r == keys(entries(s@)).contains(v@),
{
    let ghost k = keys(entries(s@));
    let mut i: usize = 0;
    while i < s.len()
        invariant
            i <= s.len(),
            k == keys(entries(s@)),
            forall|j: int| 0 <= j < i ==> k[j] != v@,
        decreases s.len() - i,
    {
        if s[i].0.same(v) {
            assert(k[i as int] == v@);
            return true;
        }
        i = i + 1;
    }
    assert(!k.contains(v@)) by {
        if k.contains(v@) {
            let j = choose|j: int| 0 <= j < k.len() && k[j] == v@;
        }
    }
    false
}

/// The catalogue tips of each of the volumes; see `sync_info`.
pub fn tips_of(node: &LocalNode, vs: &Vec<Volume>) -> (r: Result<SyncInfo, LocalNodeError>)
    ensures
        info_result(r) == sync_info(node@, volumes(vs@)),
{
    let ghost all = volumes(vs@);
    let mut out: Vec<(Volume, LatestSnapshots)> = Vec::new();
    let mut i: usize = 0;
    assert(all.subrange(0, 0) =~= Seq::<VolumeView>::empty());
    assert(entries(out@) =~= Seq::<(VolumeView, LatestSnapshots)>::empty());
    while i < vs.len()
        invariant
            i <= vs.len(),
            all == volumes(vs@),
            sync_info(node@, all.subrange(0, i as int)) == Ok::<
                Seq<(VolumeView, LatestSnapshots)>,
                NodeFailure,
            >(entries(out@)),
        decreases vs.len() - i,
    {
        let ghost sub = all.subrange(0, i + 1);
        assert(sub.drop_last() =~= all.subrange(0, i as int));
        assert(sub.last() == vs@[i as int]@);
        if !contains_key(&out, &vs[i]) {
            match node.latest_snapshots(vs[i].cloned()) {
                Err(e) => {
                    proof {
                        lemma_sync_info_prefix_err(node@, all, i + 1);
                    }
                    return Err(e);
                },
                Ok(t) => {
                    let ghost before = out@;
                    out.push((vs[i].cloned(), t));
                    assert(entries(out@) =~= entries(before).push((vs@[i as int]@, t)));
                },
            }
        }
        i = i + 1;
    }
    assert(all.subrange(0, i as int) =~= all);
    Ok(SyncInfo { volumes: out })
}

/// The catalogue tips a server offers a connected peer: those of the volumes the
/// peer may push.
pub fn server_sync_info(node: &LocalNode, grant: &RemoteNodeAuth) -> (r: Result<
    SyncInfo,
    LocalNodeError,
>)
    ensures
        info_result(r) == sync_info(node@, volumes(grant.push@)),
{
    tips_of(node, &grant.push)
}

/// The catalogue tips a client offers a remote: those of the volumes it pulls from
/// there that are not its own, limited to `only` unless that is empty.
pub fn client_sync_info(node: &LocalNode, remote: &RemoteNode, only: &Vec<String>) -> (r: Result<
    SyncInfo,
    LocalNodeError,
>)
    ensures
        info_result(r) == sync_info(
            node@,
            keep_volumes(volumes(remote.pull@), client_pulls(node@.name, names(only@))),
        ),
{
    let ghost f = client_pulls(node@.name, names(only@));
    let ghost all = volumes(remote.pull@);
    let mut vs: Vec<Volume> = Vec::new();
    let mut i: usize = 0;
    assert(all.subrange(0, 0) =~= Seq::<VolumeView>::empty());
    assert(volumes(vs@) =~= Seq::<VolumeView>::empty());
    while i < remote.pull.len()
        invariant
            i <= remote.pull.len(),
            all == volumes(remote.pull@),
            f == client_pulls(node@.name, names(only@)),
            volumes(vs@) == keep_volumes(all.subrange(0, i as int), f),
        decreases remote.pull.len() - i,
    {
        let ghost sub = all.subrange(0, i + 1);
        assert(sub.drop_last() =~= all.subrange(0, i as int));
        let v = &remote.pull[i];
        assert(sub.last() == v@);
        let own = str_eq(v.node_name(), node.name());
        let listed = only.len() == 0 || contains_name(only, &v.to_string());
        if !own && listed {
            let ghost before = vs@;
            vs.push(v.cloned());
            assert(volumes(vs@) =~= volumes(before).push(v@));
        }
        i = i + 1;
    }
    assert(all.subrange(0, i as int) =~= all);
    tips_of(node, &vs)
}

fn keep_entries(
    remote: &SyncInfo,
    f: Ghost<spec_fn(VolumeView) -> bool>,
    passes: &Vec<bool>,
) -> (r: Vec<(Volume, LatestSnapshots)>)
    requires
        passes.len() == remote.volumes.len(),
        forall|i: int| 0 <= i < passes.len() ==> passes[i] == f@(remote.volumes@[i].0@),
    ensures
        entries(r@) == keep(entries(remote.volumes@), f@),
{
    let ghost all = entries(remote.volumes@);
    let mut out: Vec<(Volume, LatestSnapshots)> = Vec::new();
    let mut i: usize = 0;
    assert(all.subrange(0, 0) =~= Seq::<(VolumeView, LatestSnapshots)>::empty());
    assert(entries(out@) =~= Seq::<(VolumeView, LatestSnapshots)>::empty());
    while i < remote.volumes.len()
        invariant
            i <= remote.volumes.len(),
            passes.len() == remote.volumes.len(),
            forall|i: int| 0 <= i < passes.len() ==> passes[i] == f@(remote.volumes@[i].0@),
            all == entries(remote.volumes@),
            entries(out@) == keep(all.subrange(0, i as int), f@),
        decreases remote.volumes.len() - i,
    {
        let ghost sub = all.subrange(0, i + 1);
        assert(sub.drop_last() =~= all.subrange(0, i as int));
        assert(sub.last() == (remote.volumes@[i as int].0@, remote.volumes@[i as int].1));
        if passes[i] {
            let ghost before = out@;
            out.push((remote.volumes[i].0.cloned(), remote.volumes[i].1));
            assert(entries(out@) =~= entries(before).push(sub.last()));
        }
        i = i + 1;
    }
    assert(all.subrange(0, i as int) =~= all);
    out
}

/// The blobs a server ships to a connected peer, given the peer's catalogue tips:
/// for each volume the peer may pull or owns, see `batch`.
pub fn plan_server(node: &LocalNode, grant: &RemoteNodeAuth, remote: &SyncInfo) -> (r: Result<
    Vec<Snapshot>,
    LocalNodeError,
>)
    ensures
        list_result(r) == plan(
            node@,
            Some(grant.node_name@),
            keep(entries(remote.volumes@), server_admits(grant.node_name@, volumes(grant.pull@))),
        ),
{
    let ghost f = server_admits(grant.node_name@, volumes(grant.pull@));
    let mut passes: Vec<bool> = Vec::new();
    let mut i: usize = 0;
    while i < remote.volumes.len()
        invariant
            i <= remote.volumes.len(),
            passes.len() == i,
            f == server_admits(grant.node_name@, volumes(grant.pull@)),
            forall|k: int| 0 <= k < i ==> passes[k] == f(remote.volumes@[k].0@),
        decreases remote.volumes.len() - i,
    {
        let v = &remote.volumes[i].0;
        let a = contains_volume(&grant.pull, v) || str_eq(v.node_name(), grant.node_name.as_str());
        passes.push(a);
        i = i + 1;
    }
    let admitted = keep_entries(remote, Ghost(f), &passes);
    plan_batches(node, Some(&grant.node_name), &admitted)
}

/// The blobs a client ships to a remote, given the remote's catalogue tips: for each
/// volume it pushes there (limited to `only` unless that is empty), see `batch`.
pub fn plan_client(node: &LocalNode, remote_node: &RemoteNode, only: &Vec<String>, remote: &SyncInfo) -> (r:
    Result<Vec<Snapshot>, LocalNodeError>)
    ensures
        list_result(r) == plan(
            node@,
            None,
            keep(entries(remote.volumes@), client_admits(volumes(remote_node.push@), names(only@))),
        ),
{
    let ghost f = client_admits(volumes(remote_node.push@), names(only@));
    let mut passes: Vec<bool> = Vec::new();
    let mut i: usize = 0;
    while i < remote.volumes.len()
        invariant
            i <= remote.volumes.len(),
            passes.len() == i,
            f == client_admits(volumes(remote_node.push@), names(only@)),
            forall|k: int| 0 <= k < i ==> passes[k] == f(remote.volumes@[k].0@),
        decreases remote.volumes.len() - i,
    {
        let v = &remote.volumes[i].0;
        let a = contains_volume(&remote_node.push, v) && (only.len() == 0 || contains_name(
            only,
            &v.to_string(),
        ));
        passes.push(a);
        i = i + 1;
    }
    let admitted = keep_entries(remote, Ghost(f), &passes);
    plan_batches(node, None, &admitted)
}


/// Whether a received snapshot may be stored as a backup: it belongs to one of the
/// `allowed` volumes that is not the node's own.
pub open spec fn may_store(n: crate::catalogue::NodeView, allowed: Seq<VolumeView>, s: SnapshotView) -> bool {
    exists|i: int| 0 <= i < allowed.len() && s.volume() == allowed[i] && allowed[i].node_name != n.name
}

/// Decides whether to accept an announced blob as a backup: `AccessDenied` unless it
/// belongs to one of the `allowed` foreign volumes, `Immutable` if its backup exists.
pub fn accept_backup(node: &LocalNode, allowed: &Vec<Volume>, snapshot: &Snapshot, backup_exists: bool) -> (r:
    Result<(), RemoteError>)
    ensures
        !may_store(node@, volumes(allowed@), snapshot@) ==> r == Err::<(), RemoteError>(
            RemoteError::AccessDenied,
        ),
        may_store(node@, volumes(allowed@), snapshot@) && backup_exists ==> r == Err::<
            (),
            RemoteError,
        >(RemoteError::Immutable),
        may_store(node@, volumes(allowed@), snapshot@) && !backup_exists ==> r is Ok,
{
    let mut i: usize = 0;
    let mut found = false;
    while i < allowed.len()
        invariant
            i <= allowed.len(),
            found ==> may_store(node@, volumes(allowed@), snapshot@),
            !found ==> forall|k: int|
                0 <= k < i ==> !(snapshot@.volume() == allowed@[k]@ && allowed@[k]@.node_name
                    != node@.name),
        decreases allowed.len() - i,
    {
        if !found && snapshot.is_of_volume(&allowed[i]) && !str_eq(allowed[i].node_name(), node.name()) {
            assert(volumes(allowed@)[i as int] == allowed@[i as int]@);
            found = true;
        }
        i = i + 1;
    }
    if !found {
        assert(!may_store(node@, volumes(allowed@), snapshot@)) by {
            if may_store(node@, volumes(allowed@), snapshot@) {
                let k = choose|k: int|
                    0 <= k < volumes(allowed@).len() && snapshot@.volume() == volumes(allowed@)[k]
                        && volumes(allowed@)[k].node_name != node@.name;
                assert(volumes(allowed@)[k] == allowed@[k]@);
            }
        }
        return Err(RemoteError::AccessDenied);
    }
    if backup_exists {
        return Err(RemoteError::Immutable);
    }
    Ok(())
}

/// Decides whether to accept an announced blob for restoring one of the node's own
/// subvolumes: `AccessDenied` unless it is of an owned subvolume of this node,
/// `Immutable` if its snapshot exists.
pub fn accept_restore(node: &LocalNode, snapshot: &Snapshot, snapshot_exists: bool) -> (r: Result<
    (),
    RemoteError,
>)
    ensures
        !(snapshot@.node_name == node@.name && node@.subvols.contains(snapshot@.subvol)) ==> r
            == Err::<(), RemoteError>(RemoteError::AccessDenied),
        snapshot@.node_name == node@.name && node@.subvols.contains(snapshot@.subvol)
            && snapshot_exists ==> r == Err::<(), RemoteError>(RemoteError::Immutable),
        snapshot@.node_name == node@.name && node@.subvols.contains(snapshot@.subvol)
            && !snapshot_exists ==> r is Ok,
{
    if !(str_eq(snapshot.node_name(), node.name()) && node.owns_subvol(&snapshot.subvol().to_owned())) {
        return Err(RemoteError::AccessDenied);
    }
    if snapshot_exists {
        return Err(RemoteError::Immutable);
    }
    Ok(())
}

} // verus!
