use vstd::prelude::*;

use chrono::{Datelike, Timelike};

use crate::config::{contains_name, names, NodeConfig};
use crate::error::{LocalNodeError, NodeFailure, SnapshotParseError};
use crate::identity::{
    parse_snapshot, part_suffix, snapshot_text, str_eq, volume_text, Mode, ParseFailure, Snapshot, SnapshotView, Volume,
    VolumeView,
};
use crate::timestamp::{Timestamp, MIN_YEAR};

verus! {

/// The view of each snapshot of a list.
pub open spec fn views(v: Seq<Snapshot>) -> Seq<SnapshotView> {
    v.map_values(|s: Snapshot| s@)
}

/// The "none" sentinel of catalogue tips.
pub open spec fn min_timestamp() -> Timestamp {
    Timestamp { year: MIN_YEAR, month: 1, day: 1, hour: 0, minute: 0, second: 0 }
}

/// Whether a directory entry marks an in-flight reception.
pub open spec fn is_part(e: Seq<char>) -> bool {
    e.len() >= 5 && e.subrange(e.len() - 5, e.len() as int) == part_suffix()
}

/// Whether a directory entry is left out of a scan before it is parsed.
pub open spec fn skipped(e: Seq<char>, skip_part: bool) -> bool {
    skip_part && is_part(e)
}

/// The snapshots that a directory listing holds, in listing order, keeping those
/// of volume `v`; the first entry that does not parse fails the scan.
pub open spec fn scan(entries: Seq<Seq<char>>, skip_part: bool, v: Option<VolumeView>) -> Result<
    Seq<SnapshotView>,
    ParseFailure,
>
    decreases entries.len(),
{
    if entries.len() == 0 {
        Ok(Seq::empty())
    } else {
        match scan(entries.drop_last(), skip_part, v) {
            Err(e) => Err(e),
            Ok(prev) => if skipped(entries.last(), skip_part) {
                Ok(prev)
            } else {
                match parse_snapshot(entries.last()) {
                    Err(e) => Err(e),
                    Ok(s) => if v is None || s.volume() == v.unwrap() {
                        Ok(prev.push(s))
                    } else {
                        Ok(prev)
                    },
                }
            },
        }
    }
}

/// The latest snapshot of a kind: the first one of maximal capture time.
pub open spec fn latest(list: Seq<SnapshotView>, incremental: bool) -> Option<SnapshotView>
    decreases list.len(),
{
    if list.len() == 0 {
        None
    } else {
        let p = latest(list.drop_last(), incremental);
        let s = list.last();
        if s.incremental == incremental && (p is None || p.unwrap().taken.key() < s.taken.key()) {
            Some(s)
        } else {
            p
        }
    }
}

/// The catalogue tip of a kind: the capture time of the latest snapshot, or the sentinel.
pub open spec fn tip(list: Seq<SnapshotView>, incremental: bool) -> Timestamp {
    match latest(list, incremental) {
        None => min_timestamp(),
        Some(s) => s.taken,
    }
}

/// The snapshots of a kind taken strictly after `t`, in list order.
pub open spec fn taken_after(list: Seq<SnapshotView>, incremental: bool, t: Timestamp) -> Seq<
    SnapshotView,
>
    decreases list.len(),
{
    if list.len() == 0 {
        Seq::empty()
    } else {
        let p = taken_after(list.drop_last(), incremental, t);
        let s = list.last();
        if s.incremental == incremental && t.key() < s.taken.key() {
            p.push(s)
        } else {
            p
        }
    }
}

/// The snapshots taken strictly before `t`, in list order.
pub open spec fn taken_before(list: Seq<SnapshotView>, t: Timestamp) -> Seq<SnapshotView>
    decreases list.len(),
{
    if list.len() == 0 {
        Seq::empty()
    } else {
        let p = taken_before(list.drop_last(), t);
        let s = list.last();
        if s.taken.key() < t.key() {
            p.push(s)
        } else {
            p
        }
    }
}

/// The snapshot an incremental send of `child` is based on: the later of the latest
/// full and the latest incremental snapshot older than `child`; none without an older full.
pub open spec fn parent(list: Seq<SnapshotView>, child: SnapshotView) -> Option<SnapshotView> {
    let older = taken_before(list, child.taken);
    match latest(older, false) {
        None => None,
        Some(f) => match latest(older, true) {
            Some(i) => if f.taken.key() < i.taken.key() {
                Some(i)
            } else {
                Some(f)
            },
            None => Some(f),
        },
    }
}

pub proof fn lemma_latest(list: Seq<SnapshotView>, incremental: bool)
    ensures
        latest(list, incremental) is None ==> forall|i: int|
            0 <= i < list.len() ==> (#[trigger] list[i]).incremental != incremental,
        latest(list, incremental) matches Some(s) ==> {
            &&& list.contains(s)
            &&& s.incremental == incremental
            &&& forall|i: int|
                0 <= i < list.len() && (#[trigger] list[i]).incremental == incremental
                    ==> list[i].taken.key() <= s.taken.key()
        },
    decreases list.len(),
{
    if list.len() > 0 {
        let d = list.drop_last();
        lemma_latest(d, incremental);
        assert forall|i: int| 0 <= i < d.len() implies d[i] == list[i] by {}
        if let Some(s) = latest(list, incremental) {
            if s != list.last() {
                let k = choose|k: int| 0 <= k < d.len() && d[k] == s;
                assert(list[k] == s);
            } else {
                assert(list[list.len() - 1] == s);
            }
        }
    }
}

pub proof fn lemma_taken_after(list: Seq<SnapshotView>, incremental: bool, t: Timestamp)
    ensures
        forall|s: SnapshotView|
            #![trigger taken_after(list, incremental, t).contains(s)]
            #![trigger list.contains(s)]
            taken_after(list, incremental, t).contains(s) <==> (list.contains(s) && s.incremental
                == incremental && t.key() < s.taken.key()),
    decreases list.len(),
{
    if list.len() == 0 {
        assert forall|s: SnapshotView|
            #![trigger taken_after(list, incremental, t).contains(s)]
            #![trigger list.contains(s)]
            taken_after(list, incremental, t).contains(s) <==> (list.contains(s) && s.incremental
                == incremental && t.key() < s.taken.key()) by {
            assert(taken_after(list, incremental, t) =~= Seq::<SnapshotView>::empty());
            assert(!list.contains(s));
        }
    } else {
        let d = list.drop_last();
        let l = list.last();
        lemma_taken_after(d, incremental, t);
        let p = taken_after(d, incremental, t);
        assert(taken_after(list, incremental, t) == (if l.incremental == incremental && t.key()
            < l.taken.key() {
            p.push(l)
        } else {
            p
        }));
        assert forall|s: SnapshotView|
            #![trigger taken_after(list, incremental, t).contains(s)]
            #![trigger list.contains(s)]
            taken_after(list, incremental, t).contains(s) <==> (list.contains(s) && s.incremental
                == incremental && t.key() < s.taken.key()) by {
            assert(list.contains(s) <==> (d.contains(s) || s == l)) by {
                if list.contains(s) {
                    let k = choose|k: int| 0 <= k < list.len() && list[k] == s;
                    if k < d.len() {
                        assert(d[k] == s);
                    }
                }
                if d.contains(s) {
                    let k = choose|k: int| 0 <= k < d.len() && d[k] == s;
                    assert(list[k] == s);
                }
                if s == l {
                    assert(list[list.len() - 1] == s);
                }
            }
            assert(p.push(l).contains(s) <==> (p.contains(s) || s == l)) by {
                if p.push(l).contains(s) {
                    let k = choose|k: int| 0 <= k < p.len() + 1 && p.push(l)[k] == s;
                    if k < p.len() {
                        assert(p[k] == s);
                    }
                }
                if p.contains(s) {
                    let k = choose|k: int| 0 <= k < p.len() && p[k] == s;
                    assert(p.push(l)[k] == s);
                }
                if s == l {
                    assert(p.push(l)[p.len() as int] == s);
                }
            }
            assert(p.contains(s) <==> (d.contains(s) && s.incremental == incremental && t.key()
                < s.taken.key()));
        }
    }
}

pub proof fn lemma_taken_before(list: Seq<SnapshotView>, t: Timestamp)
    ensures
        forall|s: SnapshotView|
            #![trigger taken_before(list, t).contains(s)]
            #![trigger list.contains(s)]
            taken_before(list, t).contains(s) <==> (list.contains(s) && s.taken.key() < t.key()),
    decreases list.len(),
{
    if list.len() == 0 {
        assert forall|s: SnapshotView|
            #![trigger taken_before(list, t).contains(s)]
            #![trigger list.contains(s)]
            taken_before(list, t).contains(s) <==> (list.contains(s) && s.taken.key() < t.key()) by {
            assert(taken_before(list, t) =~= Seq::<SnapshotView>::empty());
            assert(!list.contains(s));
        }
    } else {
        let d = list.drop_last();
        let l = list.last();
        lemma_taken_before(d, t);
        let p = taken_before(d, t);
        assert(taken_before(list, t) == (if l.taken.key() < t.key() {
            p.push(l)
        } else {
            p
        }));
        assert forall|s: SnapshotView|
            #![trigger taken_before(list, t).contains(s)]
            #![trigger list.contains(s)]
            taken_before(list, t).contains(s) <==> (list.contains(s) && s.taken.key() < t.key()) by {
            assert(list.contains(s) <==> (d.contains(s) || s == l)) by {
                if list.contains(s) {
                    let k = choose|k: int| 0 <= k < list.len() && list[k] == s;
                    if k < d.len() {
                        assert(d[k] == s);
                    }
                }
                if d.contains(s) {
                    let k = choose|k: int| 0 <= k < d.len() && d[k] == s;
                    assert(list[k] == s);
                }
                if s == l {
                    assert(list[list.len() - 1] == s);
                }
            }
            assert(p.push(l).contains(s) <==> (p.contains(s) || s == l)) by {
                if p.push(l).contains(s) {
                    let k = choose|k: int| 0 <= k < p.len() + 1 && p.push(l)[k] == s;
                    if k < p.len() {
                        assert(p[k] == s);
                    }
                }
                if p.contains(s) {
                    let k = choose|k: int| 0 <= k < p.len() && p[k] == s;
                    assert(p.push(l)[k] == s);
                }
                if s == l {
                    assert(p.push(l)[p.len() as int] == s);
                }
            }
            assert(p.contains(s) <==> (d.contains(s) && s.taken.key() < t.key()));
        }
    }
}


pub proof fn lemma_scan_prefix_err(
    entries: Seq<Seq<char>>,
    skip_part: bool,
    v: Option<VolumeView>,
    i: int,
)
    requires
        0 <= i <= entries.len(),
        scan(entries.subrange(0, i), skip_part, v) is Err,
    ensures
        scan(entries, skip_part, v) == scan(entries.subrange(0, i), skip_part, v),
    decreases entries.len() - i,
{
    if i < entries.len() {
        let d = entries.drop_last();
        assert(d.subrange(0, i) =~= entries.subrange(0, i));
        lemma_scan_prefix_err(d, skip_part, v, i);
    } else {
        assert(entries.subrange(0, i) =~= entries);
    }
}

/// Whether a directory entry text ends in the in-flight marker.
fn ends_with_part(e: &str) -> (r: bool)
    ensures
        r == is_part(e@),
{
    let n = e.unicode_len();
    if n < 5 {
        return false;
    }
    let r = e.get_char(n - 5) == '.' && e.get_char(n - 4) == 'p' && e.get_char(n - 3) == 'a'
        && e.get_char(n - 2) == 'r' && e.get_char(n - 1) == 't';
    let ghost tail = e@.subrange(n - 5, n as int);
    assert(r ==> tail =~= part_suffix());
    assert(tail == part_suffix() ==> r) by {
        if tail == part_suffix() {
            assert(tail[0] == '.' && tail[1] == 'p' && tail[2] == 'a' && tail[3] == 'r' && tail[4]
                == 't');
        }
    }
    r
}

pub open spec fn opt_view(v: Option<&Volume>) -> Option<VolumeView> {
    match v {
        Some(x) => Some(x@),
        None => None,
    }
}

/// Parses a directory listing; see `scan`.
fn scan_entries(entries: &Vec<String>, skip_part: bool, v: Option<&Volume>) -> (r: Result<
    Vec<Snapshot>,
    SnapshotParseError,
>)
    ensures
        match r {
            Ok(l) => scan(names(entries@), skip_part, opt_view(v)) == Ok::<
                Seq<SnapshotView>,
                ParseFailure,
            >(views(l@)),
            Err(e) => scan(names(entries@), skip_part, opt_view(v)) == Err::<
                Seq<SnapshotView>,
                ParseFailure,
            >(e@),
        },
{
    let ghost all = names(entries@);
    let mut out: Vec<Snapshot> = Vec::new();
    let mut i: usize = 0;
    assert(all.subrange(0, 0) =~= Seq::<Seq<char>>::empty());
    assert(views(out@) =~= Seq::<SnapshotView>::empty());
    while i < entries.len()
        invariant
            i <= entries.len(),
            all == names(entries@),
            scan(all.subrange(0, i as int), skip_part, opt_view(v)) == Ok::<
                Seq<SnapshotView>,
                ParseFailure,
            >(views(out@)),
        decreases entries.len() - i,
    {
        let e = entries[i].as_str();
        let ghost sub = all.subrange(0, i + 1);
        assert(sub.drop_last() =~= all.subrange(0, i as int));
        assert(sub.last() == e@);
        if skip_part && ends_with_part(e) {
        } else {
            match Snapshot::try_from(e) {
                Err(err) => {
                    proof {
                        lemma_scan_prefix_err(all, skip_part, opt_view(v), i + 1);
                    }
                    return Err(err);
                },
                Ok(s) => {
                    let keep = match v {
                        None => true,
                        Some(vol) => s.is_of_volume(vol),
                    };
                    if keep {
                        let ghost before = out@;
                        out.push(s);
                        assert(views(out@) =~= views(before).push(out@[before.len() as int]@));
                    }
                },
            }
        }
        i = i + 1;
    }
    assert(all.subrange(0, i as int) =~= all);
    Ok(out)
}


/// Finds the latest snapshot of a kind; see `latest`.
fn latest_index(list: &Vec<Snapshot>, incremental: bool) -> (r: Option<usize>)
    ensures
        match latest(views(list@), incremental) {
            None => r is None,
            Some(s) => r matches Some(i) && i < list.len() && list@[i as int]@ == s,
        },
{
    let ghost all = views(list@);
    let mut best: Option<usize> = None;
    let mut i: usize = 0;
    assert(all.subrange(0, 0) =~= Seq::<SnapshotView>::empty());
    while i < list.len()
        invariant
            i <= list.len(),
            all == views(list@),
            match latest(all.subrange(0, i as int), incremental) {
                None => best is None,
                Some(s) => best matches Some(b) && b < i && list@[b as int]@ == s,
            },
        decreases list.len() - i,
    {
        let ghost sub = all.subrange(0, i + 1);
        assert(sub.drop_last() =~= all.subrange(0, i as int));
        assert(sub.last() == list@[i as int]@);
        if list[i].is_incremental() == incremental {
            match best {
                None => {
                    best = Some(i);
                },
                Some(b) => {
                    if list[b].taken().is_before(&list[i].taken()) {
                        best = Some(i);
                    }
                },
            }
        }
        i = i + 1;
    }
    assert(all.subrange(0, i as int) =~= all);
    best
}

/// Keeps the snapshots of a kind taken strictly after `after`; see `taken_after`.
fn select_after(list: &Vec<Snapshot>, incremental: bool, after: Timestamp) -> (r: Vec<Snapshot>)
    ensures
        views(r@) == taken_after(views(list@), incremental, after),
{
    let ghost all = views(list@);
    let mut out: Vec<Snapshot> = Vec::new();
    let mut i: usize = 0;
    assert(all.subrange(0, 0) =~= Seq::<SnapshotView>::empty());
    assert(views(out@) =~= Seq::<SnapshotView>::empty());
    while i < list.len()
        invariant
            i <= list.len(),
            all == views(list@),
            views(out@) == taken_after(all.subrange(0, i as int), incremental, after),
        decreases list.len() - i,
    {
        let ghost sub = all.subrange(0, i + 1);
        assert(sub.drop_last() =~= all.subrange(0, i as int));
        assert(sub.last() == list@[i as int]@);
        if list[i].is_incremental() == incremental && after.is_before(&list[i].taken()) {
            let ghost before = out@;
            out.push(list[i].cloned());
            assert(views(out@) =~= views(before).push(out@[before.len() as int]@));
        }
        i = i + 1;
    }
    assert(all.subrange(0, i as int) =~= all);
    out
}

/// Keeps the snapshots taken strictly before `t`; see `taken_before`.
fn select_before(list: &Vec<Snapshot>, t: Timestamp) -> (r: Vec<Snapshot>)
    ensures
        views(r@) == taken_before(views(list@), t),
{
    let ghost all = views(list@);
    let mut out: Vec<Snapshot> = Vec::new();
    let mut i: usize = 0;
    assert(all.subrange(0, 0) =~= Seq::<SnapshotView>::empty());
    assert(views(out@) =~= Seq::<SnapshotView>::empty());
    while i < list.len()
        invariant
            i <= list.len(),
            all == views(list@),
            views(out@) == taken_before(all.subrange(0, i as int), t),
        decreases list.len() - i,
    {
        let ghost sub = all.subrange(0, i + 1);
        assert(sub.drop_last() =~= all.subrange(0, i as int));
        assert(sub.last() == list@[i as int]@);
        if list[i].taken().is_before(&t) {
            let ghost before = out@;
            out.push(list[i].cloned());
            assert(views(out@) =~= views(before).push(out@[before.len() as int]@));
        }
        i = i + 1;
    }
    assert(all.subrange(0, i as int) =~= all);
    out
}


/// Relies on `chrono::Utc::now`: the current UTC time, read as calendar fields.
/// chrono's dates are valid calendar dates, the current time is not before 1970, and
/// its second field is below 60.
#[verifier::external_body]
fn utc_now() -> (r: Timestamp)
    ensures
        r.wf(),
        r.year >= 1970,
{
    let t = chrono::Utc::now().naive_utc();
    Timestamp {
        year: t.year(),
        month: t.month(),
        day: t.day(),
        hour: t.hour(),
        minute: t.minute(),
        second: t.second(),
    }
}

/// The latest known capture times of full and incremental snapshots of a volume.
#[derive(Clone, Copy, Debug, PartialEq, Eq, Structural)]
pub struct LatestSnapshots {
    /// Capture time of the last full snapshot.
    pub last_full: Timestamp,
    /// Capture time of the last incremental snapshot.
    pub last_incremental: Timestamp,
}

impl LatestSnapshots {
    /// The tips of a volume of which no snapshot is known.
    pub fn none() -> (r: LatestSnapshots)
        ensures
            r.last_full == min_timestamp(),
            r.last_incremental == min_timestamp(),
    {
        LatestSnapshots { last_full: Timestamp::min_value(), last_incremental: Timestamp::min_value() }
    }
}

/// The mathematical content of a `LocalNode`.
pub struct NodeView {
    pub name: Seq<char>,
    pub subvols: Seq<Seq<char>>,
    pub mode: Mode,
    pub snapshot_entries: Seq<Seq<char>>,
    pub backup_entries: Seq<Seq<char>>,
}

/// The snapshots a node knows of a volume, from its snapshot directory
/// (`from_backups` false: the node must own the subvolume) or its backup directory.
pub open spec fn listing(n: NodeView, v: VolumeView, from_backups: bool) -> Result<
    Seq<SnapshotView>,
    NodeFailure,
> {
    if from_backups {
        match scan(n.backup_entries, true, Some(v)) {
            Ok(l) => Ok(l),
            Err(e) => Err(NodeFailure::SnapshotParseError(e)),
        }
    } else if !n.subvols.contains(v.subvol) {
        Err(NodeFailure::ForeignSubvolume(v.subvol))
    } else {
        match scan(n.snapshot_entries, false, Some(v)) {
            Ok(l) => Ok(l),
            Err(e) => Err(NodeFailure::SnapshotParseError(e)),
        }
    }
}

/// Whether a volume is looked up among the backups: it is not the node's own.
pub open spec fn is_foreign(n: NodeView, v: VolumeView) -> bool {
    v.node_name != n.name
}

/// The catalogue of a volume: own snapshots for an owned volume, backups otherwise.
pub open spec fn catalogue(n: NodeView, v: VolumeView) -> Result<Seq<SnapshotView>, NodeFailure> {
    listing(n, v, is_foreign(n, v))
}

/// The error for a volume without a snapshot of a kind.
pub open spec fn missing(v: VolumeView, from_backups: bool, incremental: bool) -> NodeFailure {
    if from_backups {
        if incremental {
            NodeFailure::NoIncrementalBackup(volume_text(v))
        } else {
            NodeFailure::NoFullBackup(volume_text(v))
        }
    } else {
        if incremental {
            NodeFailure::NoIncrementalSnapshot(v.subvol)
        } else {
            NodeFailure::NoFullSnapshot(v.subvol)
        }
    }
}

/// The latest snapshot of a kind in a listing.
pub open spec fn latest_in(n: NodeView, v: VolumeView, from_backups: bool, incremental: bool) -> Result<
    SnapshotView,
    NodeFailure,
> {
    match listing(n, v, from_backups) {
        Err(e) => Err(e),
        Ok(l) => match latest(l, incremental) {
            Some(s) => Ok(s),
            None => Err(missing(v, from_backups, incremental)),
        },
    }
}

/// The snapshots of a kind in a listing taken after `t`.
pub open spec fn after_in(
    n: NodeView,
    v: VolumeView,
    from_backups: bool,
    incremental: bool,
    t: Timestamp,
) -> Result<Seq<SnapshotView>, NodeFailure> {
    match listing(n, v, from_backups) {
        Err(e) => Err(e),
        Ok(l) => Ok(taken_after(l, incremental, t)),
    }
}

/// Both catalogue tips of a volume; a missing kind is the sentinel.
pub open spec fn tips(n: NodeView, v: VolumeView) -> Result<LatestSnapshots, NodeFailure> {
    match catalogue(n, v) {
        Err(e) => Err(e),
        Ok(l) => Ok(LatestSnapshots { last_full: tip(l, false), last_incremental: tip(l, true) }),
    }
}

/// The parent of an incremental snapshot in the catalogue of its volume.
pub open spec fn parent_in(n: NodeView, child: SnapshotView) -> Result<SnapshotView, NodeFailure> {
    let v = child.volume();
    match catalogue(n, v) {
        Err(e) => Err(e),
        Ok(l) => match parent(l, child) {
            Some(p) => Ok(p),
            None => Err(missing(v, is_foreign(n, v), false)),
        },
    }
}

/// A new snapshot of an owned subvolume taken at `taken`, unless its identifier exists.
pub open spec fn new_snapshot(n: NodeView, subvol: Seq<char>, incremental: bool, taken: Timestamp) -> Result<
    SnapshotView,
    NodeFailure,
> {
    let s = SnapshotView { node_name: n.name, subvol, incremental, taken };
    if !n.subvols.contains(subvol) {
        Err(NodeFailure::ForeignSubvolume(subvol))
    } else if !taken.wf() || !taken.has_text_form() {
        Err(NodeFailure::ClockOutOfRange)
    } else if n.snapshot_entries.contains(snapshot_text(s)) {
        Err(NodeFailure::SnapshotExists(snapshot_text(s)))
    } else {
        Ok(s)
    }
}

pub open spec fn snap_result(r: Result<Snapshot, LocalNodeError>) -> Result<SnapshotView, NodeFailure> {
    match r {
        Ok(s) => Ok(s@),
        Err(e) => Err(e@),
    }
}

pub open spec fn list_result(r: Result<Vec<Snapshot>, LocalNodeError>) -> Result<
    Seq<SnapshotView>,
    NodeFailure,
> {
    match r {
        Ok(l) => Ok(views(l@)),
        Err(e) => Err(e@),
    }
}

/// A member of the backup network.
pub trait Node {
    /// Returns the name of the node.
    fn name(&self) -> &str;
}

/// Any node of the network, possibly this one.
#[derive(Clone, Debug, PartialEq, Eq)]
pub struct AnyNode {
    node_name: String,
}

impl View for AnyNode {
    type V = Seq<char>;

    closed spec fn view(&self) -> Seq<char> {
        self.node_name@
    }
}

impl AnyNode {
    /// The node with a name.
    pub fn from(node_name: String) -> (r: AnyNode)
        ensures
            r@ == node_name@,
    {
        AnyNode { node_name }
    }
}

impl Node for AnyNode {
    fn name(&self) -> &str {
        self.node_name.as_str()
    }
}

/// The node this process runs on: its configuration, its role, and the listings
/// of its snapshot and backup directories.
pub struct LocalNode {
    config: NodeConfig,
    mode: Mode,
    snapshot_entries: Vec<String>,
    backup_entries: Vec<String>,
}

impl Node for LocalNode {
    fn name(&self) -> &str {
        self.config.node_name.as_str()
    }
}

impl View for LocalNode {
    type V = NodeView;

    closed spec fn view(&self) -> NodeView {
        NodeView {
            name: self.config.node_name@,
            subvols: names(self.config.subvols@),
            mode: self.mode,
            snapshot_entries: names(self.snapshot_entries@),
            backup_entries: names(self.backup_entries@),
        }
    }
}

impl LocalNode {
    /// A node with its configuration, role and directory listings
    /// (the entry names of its snapshot and backup directories).
    pub fn new(
        config: NodeConfig,
        mode: Mode,
        snapshot_entries: Vec<String>,
        backup_entries: Vec<String>,
    ) -> (r: LocalNode)
        ensures
            r@ == (NodeView {
                name: config.node_name@,
                subvols: names(config.subvols@),
                mode,
                snapshot_entries: names(snapshot_entries@),
                backup_entries: names(backup_entries@),
            }),
    {
        LocalNode { config, mode, snapshot_entries, backup_entries }
    }

    /// Returns the configuration of the node.
    pub fn config(&self) -> (r: &NodeConfig)
        ensures
            r.node_name@ == self@.name,
            names(r.subvols@) == self@.subvols,
    {
        &self.config
    }

    /// Returns the role of the node.
    pub fn mode(&self) -> (r: Mode)
        ensures
            r == self@.mode,
    {
        self.mode
    }

    /// Returns the name of the node.
    pub fn name(&self) -> (r: &str)
        ensures
            r@ == self@.name,
    {
        self.config.node_name.as_str()
    }

    /// Reports whether the node is the origin of the subvolume.
    pub fn owns_subvol(&self, subvol: &String) -> (r: bool)
        ensures
            r == self@.subvols.contains(subvol@),
    {
        contains_name(&self.config.subvols, subvol)
    }

    /// Reports whether the node is the origin of the snapshot.
    pub fn owns_backup(&self, backup: &Snapshot) -> (r: bool)
        ensures
            r == (backup@.node_name == self@.name),
    {
        str_eq(backup.node_name(), self.config.node_name.as_str())
    }

    /// Reports whether the volume is not the node's own, so that its catalogue
    /// is the backup directory.
    pub fn is_foreign(&self, volume: &Volume) -> (r: bool)
        ensures
            r == is_foreign(self@, volume@),
    {
        !str_eq(volume.node_name(), self.config.node_name.as_str())
    }

    fn listing(&self, volume: &Volume, from_backups: bool) -> (r: Result<Vec<Snapshot>, LocalNodeError>)
        ensures
            list_result(r) == listing(self@, volume@, from_backups),
    {
        if from_backups {
            match scan_entries(&self.backup_entries, true, Some(volume)) {
                Ok(l) => Ok(l),
                Err(e) => Err(LocalNodeError::SnapshotParseError(e)),
            }
        } else {
            let subvol = volume.subvol().to_owned();
            if !self.owns_subvol(&subvol) {
                return Err(LocalNodeError::ForeignSubvolume(subvol));
            }
            match scan_entries(&self.snapshot_entries, false, Some(volume)) {
                Ok(l) => Ok(l),
                Err(e) => Err(LocalNodeError::SnapshotParseError(e)),
            }
        }
    }

    fn latest_in(&self, volume: &Volume, from_backups: bool, incremental: bool) -> (r: Result<
        Snapshot,
        LocalNodeError,
    >)
        ensures
            snap_result(r) == latest_in(self@, volume@, from_backups, incremental),
    {
        let list = self.listing(volume, from_backups)?;
        match latest_index(&list, incremental) {
            Some(i) => Ok(list[i].cloned()),
            None => {
                if from_backups {
                    let text = volume.to_string();
                    if incremental {
                        Err(LocalNodeError::NoIncrementalBackup(text))
                    } else {
                        Err(LocalNodeError::NoFullBackup(text))
                    }
                } else {
                    let subvol = volume.subvol().to_owned();
                    if incremental {
                        Err(LocalNodeError::NoIncrementalSnapshot(subvol))
                    } else {
                        Err(LocalNodeError::NoFullSnapshot(subvol))
                    }
                }
            },
        }
    }

    fn after_in(&self, volume: &Volume, from_backups: bool, incremental: bool, after: Timestamp) -> (r:
        Result<Vec<Snapshot>, LocalNodeError>)
        ensures
            list_result(r) == after_in(self@, volume@, from_backups, incremental, after),
    {
        let list = self.listing(volume, from_backups)?;
        Ok(select_after(&list, incremental, after))
    }

    /// The volume of one of the node's own subvolumes.
    pub open spec fn own(&self, subvol: Seq<char>) -> VolumeView {
        VolumeView { node_name: self@.name, subvol }
    }

    fn own_volume(&self, subvol: &String) -> (r: Volume)
        ensures
            r@ == self.own(subvol@),
    {
        Volume::new(self.config.node_name.clone(), subvol.clone())
    }

    /// All snapshots of an owned subvolume in the snapshot directory.
    pub fn all_snapshots(&self, subvol: String) -> (r: Result<Vec<Snapshot>, LocalNodeError>)
        ensures
            list_result(r) == listing(self@, self.own(subvol@), false),
    {
        let v = self.own_volume(&subvol);
        self.listing(&v, false)
    }

    /// The latest full snapshot of an owned subvolume.
    pub fn latest_snapshot_full(&self, subvol: String) -> (r: Result<Snapshot, LocalNodeError>)
        ensures
            snap_result(r) == latest_in(self@, self.own(subvol@), false, false),
    {
        let v = self.own_volume(&subvol);
        self.latest_in(&v, false, false)
    }

    /// The latest incremental snapshot of an owned subvolume.
    pub fn latest_snapshot_incremental(&self, subvol: String) -> (r: Result<Snapshot, LocalNodeError>)
        ensures
            snap_result(r) == latest_in(self@, self.own(subvol@), false, true),
    {
        let v = self.own_volume(&subvol);
        self.latest_in(&v, false, true)
    }

    /// The full snapshots of an owned subvolume taken after `after`.
    pub fn snapshot_full_after(&self, subvol: String, after: Timestamp) -> (r: Result<
        Vec<Snapshot>,
        LocalNodeError,
    >)
        ensures
            list_result(r) == after_in(self@, self.own(subvol@), false, false, after),
    {
        let v = self.own_volume(&subvol);
        self.after_in(&v, false, false, after)
    }

    /// The incremental snapshots of an owned subvolume taken after `after`.
    pub fn snapshot_incremental_after(&self, subvol: String, after: Timestamp) -> (r: Result<
        Vec<Snapshot>,
        LocalNodeError,
    >)
        ensures
            list_result(r) == after_in(self@, self.own(subvol@), false, true, after),
    {
        let v = self.own_volume(&subvol);
        self.after_in(&v, false, true, after)
    }

    /// All backups in the backup directory, of one volume or of all; in-flight
    /// receptions are left out.
    pub fn all_backups(&self, volume: Option<&Volume>) -> (r: Result<Vec<Snapshot>, LocalNodeError>)
        ensures
            list_result(r) == match scan(self@.backup_entries, true, opt_view(volume)) {
                Ok(l) => Ok::<Seq<SnapshotView>, NodeFailure>(l),
                Err(e) => Err(NodeFailure::SnapshotParseError(e)),
            },
    {
        match scan_entries(&self.backup_entries, true, volume) {
            Ok(l) => Ok(l),
            Err(e) => Err(LocalNodeError::SnapshotParseError(e)),
        }
    }

    /// The latest full backup of a volume.
    pub fn latest_backup_full(&self, volume: Volume) -> (r: Result<Snapshot, LocalNodeError>)
        ensures
            snap_result(r) == latest_in(self@, volume@, true, false),
    {
        self.latest_in(&volume, true, false)
    }

    /// The latest incremental backup of a volume.
    pub fn latest_backup_incremental(&self, volume: Volume) -> (r: Result<Snapshot, LocalNodeError>)
        ensures
            snap_result(r) == latest_in(self@, volume@, true, true),
    {
        self.latest_in(&volume, true, true)
    }

    /// The full backups of a volume taken after `after`.
    pub fn backup_full_after(&self, volume: Volume, after: Timestamp) -> (r: Result<
        Vec<Snapshot>,
        LocalNodeError,
    >)
        ensures
            list_result(r) == after_in(self@, volume@, true, false, after),
    {
        self.after_in(&volume, true, false, after)
    }

    /// The incremental backups of a volume taken after `after`.
    pub fn backup_incremental_after(&self, volume: Volume, after: Timestamp) -> (r: Result<
        Vec<Snapshot>,
        LocalNodeError,
    >)
        ensures
            list_result(r) == after_in(self@, volume@, true, true, after),
    {
        self.after_in(&volume, true, true, after)
    }

    /// The full snapshots or backups in the catalogue of a volume taken after `after`.
    pub fn all_full_after(&self, volume: Volume, after: Timestamp) -> (r: Result<
        Vec<Snapshot>,
        LocalNodeError,
    >)
        ensures
            list_result(r) == after_in(self@, volume@, is_foreign(self@, volume@), false, after),
    {
        let from_backups = self.is_foreign(&volume);
        self.after_in(&volume, from_backups, false, after)
    }

    /// The incremental snapshots or backups in the catalogue of a volume taken after `after`.
    pub fn all_incremental_after(&self, volume: Volume, after: Timestamp) -> (r: Result<
        Vec<Snapshot>,
        LocalNodeError,
    >)
        ensures
            list_result(r) == after_in(self@, volume@, is_foreign(self@, volume@), true, after),
    {
        let from_backups = self.is_foreign(&volume);
        self.after_in(&volume, from_backups, true, after)
    }

    /// The latest full snapshot or backup in the catalogue of a volume.
    pub fn latest_full(&self, volume: Volume) -> (r: Result<Snapshot, LocalNodeError>)
        ensures
            snap_result(r) == latest_in(self@, volume@, is_foreign(self@, volume@), false),
    {
        let from_backups = self.is_foreign(&volume);
        self.latest_in(&volume, from_backups, false)
    }

    /// The latest incremental snapshot or backup in the catalogue of a volume.
    pub fn latest_incremental(&self, volume: Volume) -> (r: Result<Snapshot, LocalNodeError>)
        ensures
            snap_result(r) == latest_in(self@, volume@, is_foreign(self@, volume@), true),
    {
        let from_backups = self.is_foreign(&volume);
        self.latest_in(&volume, from_backups, true)
    }

    /// Both catalogue tips of a volume; a kind without snapshots gives the sentinel.
    pub fn latest_snapshots(&self, volume: Volume) -> (r: Result<LatestSnapshots, LocalNodeError>)
        ensures
            match r {
                Ok(t) => tips(self@, volume@) == Ok::<LatestSnapshots, NodeFailure>(t),
                Err(e) => tips(self@, volume@) == Err::<LatestSnapshots, NodeFailure>(e@),
            },
    {
        let from_backups = self.is_foreign(&volume);
        let list = self.listing(&volume, from_backups)?;
        let last_full = match latest_index(&list, false) {
            Some(i) => list[i].taken(),
            None => Timestamp::min_value(),
        };
        let last_incremental = match latest_index(&list, true) {
            Some(i) => list[i].taken(),
            None => Timestamp::min_value(),
        };
        Ok(LatestSnapshots { last_full, last_incremental })
    }

    /// The snapshot to base an incremental send of `child` on: the later of the latest
    /// full and the latest incremental snapshot older than `child`.
    pub fn parent_of(&self, child: &Snapshot) -> (r: Result<Snapshot, LocalNodeError>)
        ensures
            snap_result(r) == parent_in(self@, child@),
    {
        let volume = child.volume();
        let from_backups = self.is_foreign(&volume);
        let list = self.listing(&volume, from_backups)?;
        let older = select_before(&list, child.taken());
        match latest_index(&older, false) {
            None => {
                if from_backups {
                    Err(LocalNodeError::NoFullBackup(volume.to_string()))
                } else {
                    Err(LocalNodeError::NoFullSnapshot(volume.subvol().to_owned()))
                }
            },
            Some(f) => match latest_index(&older, true) {
                Some(i) => {
                    if older[f].taken().is_before(&older[i].taken()) {
                        Ok(older[i].cloned())
                    } else {
                        Ok(older[f].cloned())
                    }
                },
                None => Ok(older[f].cloned()),
            },
        }
    }

    /// The identity of a new snapshot of an owned subvolume taken at `taken`;
    /// fails if the subvolume is foreign or the identifier exists already.
    pub fn snapshot_at(&self, subvol: String, is_incremental: bool, taken: Timestamp) -> (r: Result<
        Snapshot,
        LocalNodeError,
    >)
        ensures
            snap_result(r) == new_snapshot(self@, subvol@, is_incremental, taken),
    {
        if !self.owns_subvol(&subvol) {
            return Err(LocalNodeError::ForeignSubvolume(subvol));
        }
        if !taken.is_valid() || taken.year < 0 || taken.year > 9999 {
            return Err(LocalNodeError::ClockOutOfRange);
        }
        let s = Snapshot::new(self.config.node_name.clone(), subvol, is_incremental, taken);
        let text = s.to_string();
        if contains_name(&self.snapshot_entries, &text) {
            return Err(LocalNodeError::SnapshotExists(text));
        }
        Ok(s)
    }

    /// The identity of a new snapshot of an owned subvolume taken now.
    pub fn snapshot_now(&self, subvol: String, is_incremental: bool) -> (r: Result<
        Snapshot,
        LocalNodeError,
    >)
        ensures
            exists|t: Timestamp|
                t.wf() && snap_result(r) == new_snapshot(self@, subvol@, is_incremental, t),
    {
        let t = utc_now();
        self.snapshot_at(subvol, is_incremental, t)
    }
}

impl Volume {
    /// The volume of one of the node's own subvolumes; fails with `NoSuchSubvolume`
    /// if the node does not own it.
    pub fn new_local(node: &LocalNode, subvol: String) -> (r: Result<Volume, LocalNodeError>)
        ensures
            node@.subvols.contains(subvol@) <==> r is Ok,
            r matches Ok(v) ==> v@ == node.own(subvol@),
            r matches Err(e) ==> e@ == NodeFailure::NoSuchSubvolume(subvol@),
    {
        if !node.owns_subvol(&subvol) {
            return Err(LocalNodeError::NoSuchSubvolume(subvol));
        }
        Ok(node.own_volume(&subvol))
    }
}

/// What a parsed entry must satisfy to be listed by a scan.
pub open spec fn listed(e: Seq<char>, skip_part: bool, v: Option<VolumeView>, s: SnapshotView) -> bool {
    &&& !skipped(e, skip_part)
    &&& parse_snapshot(e) == Ok::<SnapshotView, ParseFailure>(s)
    &&& (v is None || s.volume() == v.unwrap())
}

/// A parsed snapshot carries a valid capture time.
pub proof fn lemma_parse_wf(e: Seq<char>)
    ensures
        parse_snapshot(e) matches Ok(s) ==> s.taken.wf(),
{
}

/// A successful scan lists exactly the snapshots of the entries that pass its filters.
pub proof fn lemma_scan_members(entries: Seq<Seq<char>>, skip_part: bool, v: Option<VolumeView>)
    requires
        scan(entries, skip_part, v) is Ok,
    ensures
        forall|s: SnapshotView|
            #![trigger scan(entries, skip_part, v)->Ok_0.contains(s)]
            scan(entries, skip_part, v)->Ok_0.contains(s) ==> exists|e: Seq<char>|
                entries.contains(e) && listed(e, skip_part, v, s),
        forall|e: Seq<char>, s: SnapshotView|
            #![trigger entries.contains(e), listed(e, skip_part, v, s)]
            entries.contains(e) && listed(e, skip_part, v, s) ==> scan(
                entries,
                skip_part,
                v,
            )->Ok_0.contains(s),
        forall|e: Seq<char>|
            #![trigger entries.contains(e)]
            entries.contains(e) && !skipped(e, skip_part) ==> parse_snapshot(e) is Ok,
    decreases entries.len(),
{
    if entries.len() > 0 {
        let d = entries.drop_last();
        let last = entries.last();
        lemma_scan_members(d, skip_part, v);
        let prev = scan(d, skip_part, v)->Ok_0;
        let cur = scan(entries, skip_part, v)->Ok_0;
        assert forall|e: Seq<char>| entries.contains(e) <==> (d.contains(e) || e == last) by {
            if entries.contains(e) {
                let k = choose|k: int| 0 <= k < entries.len() && entries[k] == e;
                if k < d.len() {
                    assert(d[k] == e);
                }
            }
            if d.contains(e) {
                let k = choose|k: int| 0 <= k < d.len() && d[k] == e;
                assert(entries[k] == e);
            }
            if e == last {
                assert(entries[entries.len() - 1] == e);
            }
        }
        assert forall|s: SnapshotView| #![trigger cur.contains(s)] cur.contains(s) <==> (prev.contains(s) || (!skipped(
            last,
            skip_part,
        ) && parse_snapshot(last) == Ok::<SnapshotView, ParseFailure>(s) && (v is None
            || s.volume() == v.unwrap()))) by {
            if !skipped(last, skip_part) && parse_snapshot(last) is Ok {
                let t = parse_snapshot(last)->Ok_0;
                if v is None || t.volume() == v.unwrap() {
                    assert(cur == prev.push(t));
                    if cur.contains(s) {
                        let k = choose|k: int| 0 <= k < cur.len() && cur[k] == s;
                        if k < prev.len() {
                            assert(prev[k] == s);
                        }
                    }
                    if prev.contains(s) {
                        let k = choose|k: int| 0 <= k < prev.len() && prev[k] == s;
                        assert(cur[k] == s);
                    }
                    if s == t {
                        assert(cur[prev.len() as int] == s);
                    }
                }
            }
        }
        assert forall|s: SnapshotView| #[trigger] cur.contains(s) implies exists|e: Seq<char>|
            entries.contains(e) && listed(e, skip_part, v, s) by {
            if prev.contains(s) {
                let e = choose|e: Seq<char>| d.contains(e) && listed(e, skip_part, v, s);
                assert(entries.contains(e));
            } else {
                assert(entries.contains(last) && listed(last, skip_part, v, s));
            }
        }
        assert forall|e: Seq<char>, s: SnapshotView|
            #[trigger] entries.contains(e) && #[trigger] listed(e, skip_part, v, s) implies cur.contains(s) by {
            if d.contains(e) {
                assert(prev.contains(s));
            } else {
                assert(e == last);
            }
            assert(cur.contains(s) <==> (prev.contains(s) || (!skipped(last, skip_part)
                && parse_snapshot(last) == Ok::<SnapshotView, ParseFailure>(s) && (v is None
                || s.volume() == v.unwrap()))));
        }
    }
}

/// The sentinel precedes every valid timestamp.
pub proof fn lemma_min_first(t: Timestamp)
    requires
        t.wf(),
    ensures
        min_timestamp().key() <= t.key(),
{
}

/// Catalogue monotonicity: while nothing is deleted from a node's directories, the
/// tips it reports for a volume never move back.
pub proof fn lemma_tips_monotone(n1: NodeView, n2: NodeView, v: VolumeView)
    requires
        n1.name == n2.name,
        n1.subvols == n2.subvols,
        forall|e: Seq<char>| #[trigger] n1.snapshot_entries.contains(e) ==> n2.snapshot_entries.contains(e),
        forall|e: Seq<char>| #[trigger] n1.backup_entries.contains(e) ==> n2.backup_entries.contains(e),
        tips(n1, v) is Ok,
        tips(n2, v) is Ok,
    ensures
        tips(n1, v)->Ok_0.last_full.key() <= tips(n2, v)->Ok_0.last_full.key(),
        tips(n1, v)->Ok_0.last_incremental.key() <= tips(n2, v)->Ok_0.last_incremental.key(),
{
    let from_backups = is_foreign(n1, v);
    let (e1, e2) = if from_backups {
        (n1.backup_entries, n2.backup_entries)
    } else {
        (n1.snapshot_entries, n2.snapshot_entries)
    };
    let skip = from_backups;
    lemma_scan_members(e1, skip, Some(v));
    lemma_scan_members(e2, skip, Some(v));
    let l1 = scan(e1, skip, Some(v))->Ok_0;
    let l2 = scan(e2, skip, Some(v))->Ok_0;
    assert(catalogue(n1, v) == Ok::<Seq<SnapshotView>, NodeFailure>(l1));
    assert(catalogue(n2, v) == Ok::<Seq<SnapshotView>, NodeFailure>(l2));
    assert forall|s: SnapshotView| #[trigger] l1.contains(s) implies l2.contains(s) by {
        let e = choose|e: Seq<char>| e1.contains(e) && listed(e, skip, Some(v), s);
        assert(e2.contains(e));
    }
    lemma_tip_monotone(l1, l2, e2, skip, v, false);
    lemma_tip_monotone(l1, l2, e2, skip, v, true);
}

proof fn lemma_tip_monotone(
    l1: Seq<SnapshotView>,
    l2: Seq<SnapshotView>,
    e2: Seq<Seq<char>>,
    skip: bool,
    v: VolumeView,
    incremental: bool,
)
    requires
        scan(e2, skip, Some(v)) == Ok::<Seq<SnapshotView>, ParseFailure>(l2),
        forall|s: SnapshotView| #[trigger] l1.contains(s) ==> l2.contains(s),
    ensures
        tip(l1, incremental).key() <= tip(l2, incremental).key(),
{
    lemma_latest(l1, incremental);
    lemma_latest(l2, incremental);
    lemma_scan_members(e2, skip, Some(v));
    assert(scan(e2, skip, Some(v))->Ok_0 == l2);
    if let Some(s2) = latest(l2, incremental) {
        assert(scan(e2, skip, Some(v))->Ok_0.contains(s2));
        let e = choose|e: Seq<char>| e2.contains(e) && listed(e, skip, Some(v), s2);
        lemma_parse_wf(e);
        lemma_min_first(s2.taken);
    }
    if let Some(s1) = latest(l1, incremental) {
        assert(l2.contains(s1));
        let k = choose|k: int| 0 <= k < l2.len() && l2[k] == s1;
        assert(l2[k].incremental == incremental);
    }
}

/// Incremental parent safety: every incremental that the catalogue reports as newer than
/// a cutoff has a parent older than itself, provided a full snapshot older than it is known.
pub proof fn lemma_parent_safety(n: NodeView, v: VolumeView, t: Timestamp, s: SnapshotView)
    requires
        after_in(n, v, is_foreign(n, v), true, t) is Ok,
        after_in(n, v, is_foreign(n, v), true, t)->Ok_0.contains(s),
        exists|f: SnapshotView|
            #![trigger catalogue(n, v)->Ok_0.contains(f)]
            catalogue(n, v)->Ok_0.contains(f) && !f.incremental && f.taken.key() < s.taken.key(),
    ensures
        parent_in(n, s) is Ok,
        parent_in(n, s)->Ok_0.taken.key() < s.taken.key(),
        catalogue(n, v)->Ok_0.contains(parent_in(n, s)->Ok_0),
{
    let fb = is_foreign(n, v);
    let entries = if fb { n.backup_entries } else { n.snapshot_entries };
    let l = catalogue(n, v)->Ok_0;
    assert(scan(entries, fb, Some(v)) == Ok::<Seq<SnapshotView>, ParseFailure>(l));
    lemma_taken_after(l, true, t);
    lemma_scan_members(entries, fb, Some(v));
    assert(scan(entries, fb, Some(v))->Ok_0 == l);
    assert(l.contains(s));
    assert(scan(entries, fb, Some(v))->Ok_0.contains(s));
    let e = choose|e: Seq<char>| entries.contains(e) && listed(e, fb, Some(v), s);
    assert(s.volume() == v);
    let f = choose|f: SnapshotView| l.contains(f) && !f.incremental && f.taken.key() < s.taken.key();
    let older = taken_before(l, s.taken);
    lemma_taken_before(l, s.taken);
    assert(older.contains(f));
    lemma_latest(older, false);
    lemma_latest(older, true);
    let k = choose|k: int| 0 <= k < older.len() && older[k] == f;
    assert(older[k].incremental == false);
    assert(catalogue(n, s.volume()) == catalogue(n, v));
    let fl = latest(older, false)->Some_0;
    assert(older.contains(fl));
    assert(fl.taken.key() < s.taken.key());
    assert(l.contains(fl));
    if latest(older, true) is Some {
        let il = latest(older, true)->Some_0;
        assert(older.contains(il));
        assert(il.taken.key() < s.taken.key());
        assert(l.contains(il));
    }
}

} // verus!
