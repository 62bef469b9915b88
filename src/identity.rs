use vstd::prelude::*;

use crate::error::{SnapshotParseError, VolumeParseError};
use crate::timestamp::{
    is_digit, lemma_timestamp_text_shape, parse_timestamp, timestamp_text, Timestamp,
};

verus! {

/// The reserved separator between the fields of an identifier.
pub const SEPARATOR: char = '_';

/// The end of the token that starts at `from`: the first separator at or after
/// `from`, or the end of the text.
pub open spec fn token_end(s: Seq<char>, from: int) -> int
    decreases s.len() - from,
{
    if from >= s.len() {
        s.len() as int
    } else if s[from] == '_' {
        from
    } else {
        token_end(s, from + 1)
    }
}

/// A name of an identifier field: non-empty, without separator or path delimiter.
pub open spec fn is_name(s: Seq<char>) -> bool {
    &&& s.len() > 0
    &&& forall|i: int| 0 <= i < s.len() ==> #[trigger] s[i] != '_' && s[i] != '/'
}

pub proof fn lemma_token_end(s: Seq<char>, from: int, k: int)
    requires
        0 <= from <= k <= s.len(),
        forall|i: int| from <= i < k ==> s[i] != '_',
        k == s.len() || s[k] == '_',
    ensures
        token_end(s, from) == k,
    decreases k - from,
{
    if from < k {
        lemma_token_end(s, from + 1, k);
    }
}

/// Scans for the end of the token that starts at `from`.
fn find_token_end(s: &str, from: usize) -> (r: usize)
    requires
        from <= s@.len(),
    ensures
        r == token_end(s@, from as int),
        from <= r <= s@.len(),
{
    let n = s.unicode_len();
    let mut i = from;
    while i < n
        invariant
            n == s@.len(),
            from <= i <= n,
            token_end(s@, from as int) == token_end(s@, i as int),
        decreases n - i,
    {
        if s.get_char(i) == SEPARATOR {
            return i;
        }
        i = i + 1;
    }
    i
}

/// Reports whether two texts are equal.
pub fn str_eq(a: &str, b: &str) -> (r: bool)
    ensures
        r == (a@ == b@),
{
    let n = a.unicode_len();
    if n != b.unicode_len() {
        return false;
    }
    let mut i: usize = 0;
    while i < n
        invariant
            n == a@.len() == b@.len(),
            i <= n,
            forall|k: int| 0 <= k < i ==> a@[k] == b@[k],
        decreases n - i,
    {
        if a.get_char(i) != b.get_char(i) {
            return false;
        }
        i = i + 1;
    }
    assert(a@ =~= b@);
    true
}

/// The mathematical content of a `Volume`.
pub struct VolumeView {
    pub node_name: Seq<char>,
    pub subvol: Seq<char>,
}

/// A `Volume` is a unique combination of subvolume and node name.
#[derive(Clone, Debug, PartialEq, Eq, Hash)]
pub struct Volume {
    node_name: String,
    subvol: String,
}

impl View for Volume {
    type V = VolumeView;

    closed spec fn view(&self) -> VolumeView {
        VolumeView { node_name: self.node_name@, subvol: self.subvol@ }
    }
}

/// The canonical `{node}_{subvol}` text of a volume.
pub open spec fn volume_text(v: VolumeView) -> Seq<char> {
    v.node_name + seq!['_'] + v.subvol
}

/// What parsing a volume identifier gives: exactly two fields.
pub open spec fn parse_volume(s: Seq<char>) -> Result<VolumeView, VolumeParseError> {
    let e1 = token_end(s, 0);
    if e1 == s.len() {
        Err(VolumeParseError::MissingSubvolume)
    } else if token_end(s, e1 + 1) != s.len() {
        Err(VolumeParseError::ExtraToken)
    } else {
        Ok(VolumeView { node_name: s.subrange(0, e1), subvol: s.subrange(e1 + 1, s.len() as int) })
    }
}

impl VolumeView {
    pub open spec fn wf(&self) -> bool {
        is_name(self.node_name) && is_name(self.subvol)
    }
}

impl Volume {
    /// Constructs a `Volume` from its node name and subvolume name.
    pub fn new(node_name: String, subvol: String) -> (r: Volume)
        ensures
            r@ == (VolumeView { node_name: node_name@, subvol: subvol@ }),
    {
        Volume { node_name, subvol }
    }

    /// A copy of the volume.
    pub fn cloned(&self) -> (r: Volume)
        ensures
            r@ == self@,
    {
        Volume { node_name: self.node_name.clone(), subvol: self.subvol.clone() }
    }

    /// Returns the name of the node owning this `Volume`.
    pub fn node_name(&self) -> (r: &str)
        ensures
            r@ == self@.node_name,
    {
        self.node_name.as_str()
    }

    /// Returns the name of the subvolume this `Volume` represents.
    pub fn subvol(&self) -> (r: &str)
        ensures
            r@ == self@.subvol,
    {
        self.subvol.as_str()
    }

    /// Reports whether both volumes name the same node and subvolume.
    pub fn same(&self, other: &Volume) -> (r: bool)
        ensures
            r == (self@ == other@),
    {
        self.node_name == other.node_name && self.subvol == other.subvol
    }

    /// The canonical `{node}_{subvol}` text.
    pub fn to_string(&self) -> (r: String)
        ensures
            r@ == volume_text(self@),
    {
        let mut s = self.node_name.clone();
        s.append("_");
        s.append(self.subvol.as_str());
        proof {
            reveal_strlit("_");
        }
        s
    }

    /// Parses the canonical `{node}_{subvol}` text.
    pub fn try_from(value: &str) -> (r: Result<Volume, VolumeParseError>)
        ensures
            match r {
                Ok(v) => parse_volume(value@) == Ok::<VolumeView, VolumeParseError>(v@),
                Err(e) => parse_volume(value@) == Err::<VolumeView, VolumeParseError>(e),
            },
    {
        let e1 = find_token_end(value, 0);
        if e1 == value.unicode_len() {
            return Err(VolumeParseError::MissingSubvolume);
        }
        let n = value.unicode_len();
        if find_token_end(value, e1 + 1) != n {
            return Err(VolumeParseError::ExtraToken);
        }
        let node_name = value.substring_char(0, e1).to_owned();
        let subvol = value.substring_char(e1 + 1, n).to_owned();
        Ok(Volume { node_name, subvol })
    }

    /// Parses each of the identifiers, failing on the first that does not parse.
    pub fn try_from_bulk(values: Vec<String>) -> (r: Result<Vec<Volume>, VolumeParseError>)
        ensures
            match r {
                Ok(vs) => vs.len() == values.len() && forall|i: int|
                    0 <= i < values.len() ==> parse_volume(#[trigger] values[i]@) == Ok::<
                        VolumeView,
                        VolumeParseError,
                    >(vs[i]@),
                Err(e) => exists|i: int|
                    0 <= i < values.len() && parse_volume(#[trigger] values[i]@) == Err::<
                        VolumeView,
                        VolumeParseError,
                    >(e) && forall|j: int|
                        0 <= j < i ==> parse_volume(#[trigger] values[j]@) is Ok,
            },
    {
        let mut out: Vec<Volume> = Vec::new();
        let mut i: usize = 0;
        while i < values.len()
            invariant
                i <= values.len(),
                out.len() == i,
                forall|k: int|
                    0 <= k < i ==> parse_volume(#[trigger] values[k]@) == Ok::<
                        VolumeView,
                        VolumeParseError,
                    >(out[k]@),
            decreases values.len() - i,
        {
            match Volume::try_from(values[i].as_str()) {
                Ok(v) => out.push(v),
                Err(e) => {
                    assert(forall|j: int| 0 <= j < i ==> parse_volume(#[trigger] values[j]@) is Ok);
                    return Err(e);
                },
            }
            i = i + 1;
        }
        Ok(out)
    }
}

/// Reading back the canonical text of a well-formed volume gives the volume.
pub proof fn lemma_volume_round_trip(v: VolumeView)
    requires
        v.wf(),
    ensures
        parse_volume(volume_text(v)) == Ok::<VolumeView, VolumeParseError>(v),
{
    let s = volume_text(v);
    let n = v.node_name.len() as int;
    assert forall|i: int| 0 <= i < n implies s[i] != '_' by {
        assert(s[i] == v.node_name[i]);
    }
    lemma_token_end(s, 0, n);
    assert forall|i: int| n + 1 <= i < s.len() implies s[i] != '_' by {
        assert(s[i] == v.subvol[i - n - 1]);
    }
    lemma_token_end(s, n + 1, s.len() as int);
    assert(s.subrange(0, n) =~= v.node_name);
    assert(s.subrange(n + 1, s.len() as int) =~= v.subvol);
}


/// The mathematical content of a `SnapshotParseError`.
pub enum ParseFailure {
    MissingNodeName,
    MissingSubvolume,
    MissingType,
    MissingTimeTaken,
    InvalidType(Seq<char>),
    NoFileName,
    InvalidUnicode,
    MalformedTimeTaken,
}

impl View for SnapshotParseError {
    type V = ParseFailure;

    open spec fn view(&self) -> ParseFailure {
        match self {
            SnapshotParseError::MissingNodeName => ParseFailure::MissingNodeName,
            SnapshotParseError::MissingSubvolume => ParseFailure::MissingSubvolume,
            SnapshotParseError::MissingType => ParseFailure::MissingType,
            SnapshotParseError::MissingTimeTaken => ParseFailure::MissingTimeTaken,
            SnapshotParseError::InvalidType(t) => ParseFailure::InvalidType(t@),
            SnapshotParseError::NoFileName => ParseFailure::NoFileName,
            SnapshotParseError::InvalidUnicode => ParseFailure::InvalidUnicode,
            SnapshotParseError::MalformedTimeTaken => ParseFailure::MalformedTimeTaken,
        }
    }
}

/// The mathematical content of a `Snapshot`.
pub struct SnapshotView {
    pub node_name: Seq<char>,
    pub subvol: Seq<char>,
    pub incremental: bool,
    pub taken: Timestamp,
}

impl SnapshotView {
    /// Names without separator, a valid capture time with a four-digit year.
    pub open spec fn wf(&self) -> bool {
        &&& is_name(self.node_name)
        &&& is_name(self.subvol)
        &&& self.taken.wf()
        &&& self.taken.has_text_form()
    }

    pub open spec fn volume(&self) -> VolumeView {
        VolumeView { node_name: self.node_name, subvol: self.subvol }
    }
}

/// A `Snapshot` identifies a full or incremental snapshot of a node
/// by node name, subvolume name, kind and capture time.
#[derive(Clone, Debug, PartialEq, Eq, Hash)]
pub struct Snapshot {
    node_name: String,
    subvol: String,
    is_incremental: bool,
    taken: Timestamp,
}

impl View for Snapshot {
    type V = SnapshotView;

    closed spec fn view(&self) -> SnapshotView {
        SnapshotView {
            node_name: self.node_name@,
            subvol: self.subvol@,
            incremental: self.is_incremental,
            taken: self.taken,
        }
    }
}

pub open spec fn kind_text(incremental: bool) -> Seq<char> {
    if incremental {
        seq!['i', 'n', 'c', 'r']
    } else {
        seq!['f', 'u', 'l', 'l']
    }
}

/// The canonical `{node}_{subvol}_{full|incr}_{YYYYMMDDhhmmss}` text of a snapshot.
pub open spec fn snapshot_text(s: SnapshotView) -> Seq<char> {
    s.node_name + seq!['_'] + s.subvol + seq!['_'] + kind_text(s.incremental) + seq!['_']
        + timestamp_text(s.taken)
}

/// What parsing a snapshot identifier gives: exactly four fields; the capture time is
/// all text after the third separator.
pub open spec fn parse_snapshot(s: Seq<char>) -> Result<SnapshotView, ParseFailure> {
    let e1 = token_end(s, 0);
    let e2 = token_end(s, e1 + 1);
    let e3 = token_end(s, e2 + 1);
    let kind = s.subrange(e2 + 1, e3);
    if e1 == s.len() {
        Err(ParseFailure::MissingSubvolume)
    } else if e2 == s.len() {
        Err(ParseFailure::MissingType)
    } else if e3 == s.len() {
        Err(ParseFailure::MissingTimeTaken)
    } else if kind != kind_text(false) && kind != kind_text(true) {
        Err(ParseFailure::InvalidType(kind))
    } else {
        match parse_timestamp(s.subrange(e3 + 1, s.len() as int)) {
            None => Err(ParseFailure::MalformedTimeTaken),
            Some(t) => Ok(
                SnapshotView {
                    node_name: s.subrange(0, e1),
                    subvol: s.subrange(e1 + 1, e2),
                    incremental: kind == kind_text(true),
                    taken: t,
                },
            ),
        }
    }
}

/// Where the last component of a path starts: after its last `/`.
pub open spec fn component_start(p: Seq<char>, i: int) -> int
    decreases i,
{
    if i <= 0 {
        0
    } else if p[i - 1] == '/' {
        i
    } else {
        component_start(p, i - 1)
    }
}

/// The last component of a path.
pub open spec fn file_name(p: Seq<char>) -> Option<Seq<char>> {
    let c = p.subrange(component_start(p, p.len() as int), p.len() as int);
    if c.len() == 0 || c == seq!['.', '.'] {
        None
    } else {
        Some(c)
    }
}

/// What parsing a snapshot from a path gives: the identifier is its last component.
pub open spec fn parse_snapshot_path(p: Seq<char>) -> Result<SnapshotView, ParseFailure> {
    match file_name(p) {
        None => Err(ParseFailure::NoFileName),
        Some(c) => parse_snapshot(c),
    }
}

/// The path of `name` inside directory `dir`.
pub open spec fn path_join(dir: Seq<char>, name: Seq<char>) -> Seq<char> {
    dir + seq!['/'] + name
}

/// Which of the two role-specific roots a path lies under.
#[derive(Clone, Copy, Debug, PartialEq, Eq, Hash, Structural)]
pub enum Mode {
    Client,
    Server,
}

pub open spec fn snapshot_dir(mode: Mode) -> Seq<char> {
    match mode {
        Mode::Client => "/mnt/hbak/snapshots"@,
        Mode::Server => "/mnt/hbakd/snapshots"@,
    }
}

pub open spec fn backup_dir(mode: Mode) -> Seq<char> {
    match mode {
        Mode::Client => "/mnt/hbak/backups"@,
        Mode::Server => "/mnt/hbakd/backups"@,
    }
}

/// The suffix that marks an in-flight reception.
pub open spec fn part_suffix() -> Seq<char> {
    seq!['.', 'p', 'a', 'r', 't']
}

impl Mode {
    /// The directory of the node's own snapshots.
    pub fn snapshot_dir(&self) -> (r: &'static str)
        ensures
            r@ == snapshot_dir(*self),
    {
        match self {
            Mode::Client => "/mnt/hbak/snapshots",
            Mode::Server => "/mnt/hbakd/snapshots",
        }
    }

    /// The directory of the backups received from peers.
    pub fn backup_dir(&self) -> (r: &'static str)
        ensures
            r@ == backup_dir(*self),
    {
        match self {
            Mode::Client => "/mnt/hbak/backups",
            Mode::Server => "/mnt/hbakd/backups",
        }
    }
}

/// Recognises the two snapshot kinds by their text.
fn kind_of(s: &str) -> (r: Option<bool>)
    ensures
        r == (if s@ == kind_text(false) {
            Some(false)
        } else if s@ == kind_text(true) {
            Some(true)
        } else {
            None::<bool>
        }),
{
    if s.unicode_len() != 4 {
        assert(s@ != kind_text(false) && s@ != kind_text(true));
        return None;
    }
    let c0 = s.get_char(0);
    let c1 = s.get_char(1);
    let c2 = s.get_char(2);
    let c3 = s.get_char(3);
    if c0 == 'f' && c1 == 'u' && c2 == 'l' && c3 == 'l' {
        assert(s@ =~= kind_text(false));
        Some(false)
    } else if c0 == 'i' && c1 == 'n' && c2 == 'c' && c3 == 'r' {
        assert(s@ =~= kind_text(true));
        Some(true)
    } else {
        assert(s@ != kind_text(false) && s@ != kind_text(true)) by {
            if s@ == kind_text(false) {
                assert(s@[0] == 'f' && s@[1] == 'u' && s@[2] == 'l' && s@[3] == 'l');
            }
            if s@ == kind_text(true) {
                assert(s@[0] == 'i' && s@[1] == 'n' && s@[2] == 'c' && s@[3] == 'r');
            }
        }
        None
    }
}

impl Snapshot {
    /// Constructs a `Snapshot` from its fields.
    pub fn new(node_name: String, subvol: String, is_incremental: bool, taken: Timestamp) -> (r:
        Snapshot)
        ensures
            r@ == (SnapshotView {
                node_name: node_name@,
                subvol: subvol@,
                incremental: is_incremental,
                taken,
            }),
    {
        Snapshot { node_name, subvol, is_incremental, taken }
    }

    /// A copy of the snapshot.
    pub fn cloned(&self) -> (r: Snapshot)
        ensures
            r@ == self@,
    {
        Snapshot {
            node_name: self.node_name.clone(),
            subvol: self.subvol.clone(),
            is_incremental: self.is_incremental,
            taken: self.taken,
        }
    }

    /// Returns the name of the node the `Snapshot` belongs to.
    pub fn node_name(&self) -> (r: &str)
        ensures
            r@ == self@.node_name,
    {
        self.node_name.as_str()
    }

    /// Returns the name of the subvolume the `Snapshot` represents.
    pub fn subvol(&self) -> (r: &str)
        ensures
            r@ == self@.subvol,
    {
        self.subvol.as_str()
    }

    /// Reports whether the `Snapshot` is incremental (it is full otherwise).
    pub fn is_incremental(&self) -> (r: bool)
        ensures
            r == self@.incremental,
    {
        self.is_incremental
    }

    /// Returns the timestamp of when the `Snapshot` was taken.
    pub fn taken(&self) -> (r: Timestamp)
        ensures
            r == self@.taken,
    {
        self.taken
    }

    /// The volume the snapshot is a snapshot of.
    pub fn volume(&self) -> (r: Volume)
        ensures
            r@ == self@.volume(),
    {
        Volume::new(self.node_name.clone(), self.subvol.clone())
    }

    /// Reports whether this `Snapshot` is a snapshot of the specified `Volume`.
    pub fn is_of_volume(&self, volume: &Volume) -> (r: bool)
        ensures
            r == (self@.volume() == volume@),
    {
        self.node_name == volume.node_name && self.subvol == volume.subvol
    }

    /// The canonical `{node}_{subvol}_{full|incr}_{YYYYMMDDhhmmss}` text.
    pub fn to_string(&self) -> (r: String)
        requires
            self@.taken.wf(),
            self@.taken.has_text_form(),
        ensures
            r@ == snapshot_text(self@),
            self@.wf() ==> parse_snapshot(r@) == Ok::<SnapshotView, ParseFailure>(self@),
            self@.wf() ==> forall|dir: Seq<char>|
                parse_snapshot_path(#[trigger] path_join(dir, r@)) == Ok::<
                    SnapshotView,
                    ParseFailure,
                >(self@),
    {
        proof {
            reveal_strlit("_");
            reveal_strlit("full");
            reveal_strlit("incr");
        }
        let mut s = self.node_name.clone();
        s.append("_");
        s.append(self.subvol.as_str());
        s.append("_");
        if self.is_incremental {
            s.append("incr");
        } else {
            s.append("full");
        }
        s.append("_");
        let ts = self.taken.to_string();
        s.append(ts.as_str());
        assert(s@ =~= snapshot_text(self@));
        proof {
            if self@.wf() {
                lemma_snapshot_round_trip(self@, Seq::empty());
                assert forall|dir: Seq<char>|
                    parse_snapshot_path(#[trigger] path_join(dir, s@)) == Ok::<
                        SnapshotView,
                        ParseFailure,
                    >(self@) by {
                    lemma_snapshot_round_trip(self@, dir);
                }
            }
        }
        s
    }

    /// The location of the node's own read-only snapshot.
    pub fn snapshot_path(&self, mode: Mode) -> (r: String)
        requires
            self@.taken.wf(),
            self@.taken.has_text_form(),
        ensures
            r@ == path_join(snapshot_dir(mode), snapshot_text(self@)),
    {
        let mut p = String::from_str(mode.snapshot_dir());
        p.append("/");
        let name = self.to_string();
        p.append(name.as_str());
        proof {
            reveal_strlit("/");
        }
        assert(p@ =~= path_join(snapshot_dir(mode), snapshot_text(self@)));
        p
    }

    /// The location of a finalized backup received from a peer.
    pub fn backup_path(&self, mode: Mode) -> (r: String)
        requires
            self@.taken.wf(),
            self@.taken.has_text_form(),
        ensures
            r@ == path_join(backup_dir(mode), snapshot_text(self@)),
    {
        let mut p = String::from_str(mode.backup_dir());
        p.append("/");
        let name = self.to_string();
        p.append(name.as_str());
        proof {
            reveal_strlit("/");
        }
        assert(p@ =~= path_join(backup_dir(mode), snapshot_text(self@)));
        p
    }

    /// The location of a backup while it is being received.
    pub fn streaming_path(&self, mode: Mode) -> (r: String)
        requires
            self@.taken.wf(),
            self@.taken.has_text_form(),
        ensures
            r@ == path_join(backup_dir(mode), snapshot_text(self@)) + part_suffix(),
    {
        let mut p = self.backup_path(mode);
        p.append(".part");
        proof {
            reveal_strlit(".part");
        }
        assert(p@ =~= path_join(backup_dir(mode), snapshot_text(self@)) + part_suffix());
        p
    }

    /// Parses the canonical identifier text.
    pub fn try_from(value: &str) -> (r: Result<Snapshot, SnapshotParseError>)
        ensures
            match r {
                Ok(s) => parse_snapshot(value@) == Ok::<SnapshotView, ParseFailure>(s@),
                Err(e) => parse_snapshot(value@) == Err::<SnapshotView, ParseFailure>(e@),
            },
    {
        let n = value.unicode_len();
        let e1 = find_token_end(value, 0);
        if e1 == n {
            return Err(SnapshotParseError::MissingSubvolume);
        }
        let e2 = find_token_end(value, e1 + 1);
        if e2 == n {
            return Err(SnapshotParseError::MissingType);
        }
        let e3 = find_token_end(value, e2 + 1);
        if e3 == n {
            return Err(SnapshotParseError::MissingTimeTaken);
        }
        let kind = value.substring_char(e2 + 1, e3);
        let is_incremental = match kind_of(kind) {
            Some(b) => b,
            None => {
                return Err(SnapshotParseError::InvalidType(kind.to_owned()));
            },
        };
        let taken = match Timestamp::parse(value.substring_char(e3 + 1, n)) {
            Some(t) => t,
            None => {
                return Err(SnapshotParseError::MalformedTimeTaken);
            },
        };
        let node_name = value.substring_char(0, e1).to_owned();
        let subvol = value.substring_char(e1 + 1, e2).to_owned();
        Ok(Snapshot { node_name, subvol, is_incremental, taken })
    }

    /// Parses a snapshot from a path whose last component is its identifier.
    pub fn try_from_path(path: &str) -> (r: Result<Snapshot, SnapshotParseError>)
        ensures
            match r {
                Ok(s) => parse_snapshot_path(path@) == Ok::<SnapshotView, ParseFailure>(s@),
                Err(e) => parse_snapshot_path(path@) == Err::<SnapshotView, ParseFailure>(e@),
            },
    {
        let n = path.unicode_len();
        let mut i = n;
        while i > 0 && path.get_char(i - 1) != '/'
            invariant
                i <= n == path@.len(),
                component_start(path@, n as int) == component_start(path@, i as int),
            decreases i,
        {
            i = i - 1;
        }
        let c = path.substring_char(i, n);
        let k = c.unicode_len();
        if k == 0 || (k == 2 && c.get_char(0) == '.' && c.get_char(1) == '.') {
            proof {
                if k == 2 {
                    assert(c@ =~= seq!['.', '.']);
                }
            }
            return Err(SnapshotParseError::NoFileName);
        }
        assert(c@ != seq!['.', '.']) by {
            if c@ == seq!['.', '.'] {
                assert(c@[0] == '.' && c@[1] == '.');
            }
        }
        Snapshot::try_from(c)
    }
}

pub proof fn lemma_component_start(p: Seq<char>, k: int)
    requires
        0 <= k <= p.len(),
        k == 0 || p[k - 1] == '/',
        forall|i: int| k <= i < p.len() ==> p[i] != '/',
    ensures
        component_start(p, p.len() as int) == k,
{
    lemma_component_start_from(p, k, p.len() as int);
}

proof fn lemma_component_start_from(p: Seq<char>, k: int, j: int)
    requires
        0 <= k <= j <= p.len(),
        k == 0 || p[k - 1] == '/',
        forall|i: int| k <= i < p.len() ==> p[i] != '/',
    ensures
        component_start(p, j) == k,
    decreases j,
{
    if j > k {
        lemma_component_start_from(p, k, j - 1);
    }
}

/// Reading back the canonical text of a well-formed snapshot gives the snapshot, also
/// when the text is the last component of a path in any directory, given that its
/// capture time reads back from its text (which `Timestamp::to_string` ensures).
pub proof fn lemma_snapshot_round_trip(s: SnapshotView, dir: Seq<char>)
    requires
        s.wf(),
        parse_timestamp(timestamp_text(s.taken)) == Some(s.taken),
    ensures
        parse_snapshot(snapshot_text(s)) == Ok::<SnapshotView, ParseFailure>(s),
        parse_snapshot_path(path_join(dir, snapshot_text(s))) == Ok::<SnapshotView, ParseFailure>(
            s,
        ),
{
    let t = snapshot_text(s);
    let ts = timestamp_text(s.taken);
    lemma_timestamp_text_shape(s.taken);
    let a = s.node_name.len() as int;
    let b = a + 1 + s.subvol.len();
    let c = b + 5;
    assert forall|i: int| 0 <= i < a implies t[i] != '_' && t[i] != '/' by {
        assert(t[i] == s.node_name[i]);
    }
    assert forall|i: int| a + 1 <= i < b implies t[i] != '_' && t[i] != '/' by {
        assert(t[i] == s.subvol[i - a - 1]);
    }
    assert forall|i: int| b + 1 <= i < c implies t[i] != '_' && t[i] != '/' by {
        assert(t[i] == kind_text(s.incremental)[i - b - 1]);
    }
    assert forall|i: int| c + 1 <= i < t.len() implies t[i] != '_' && t[i] != '/' by {
        assert(t[i] == ts[i - c - 1]);
        assert(is_digit(ts[i - c - 1]));
    }
    assert(t[a] == '_' && t[b] == '_' && t[c] == '_');
    lemma_token_end(t, 0, a);
    lemma_token_end(t, a + 1, b);
    lemma_token_end(t, b + 1, c);
    assert(t.subrange(0, a) =~= s.node_name);
    assert(t.subrange(a + 1, b) =~= s.subvol);
    assert(t.subrange(b + 1, c) =~= kind_text(s.incremental));
    assert(t.subrange(c + 1, t.len() as int) =~= ts);
    assert(kind_text(false) != kind_text(true)) by {
        assert(kind_text(false)[0] != kind_text(true)[0]);
    }
    let p = path_join(dir, t);
    let k = dir.len() as int + 1;
    assert forall|i: int| k <= i < p.len() implies p[i] != '/' by {
        assert(p[i] == t[i - k]);
    }
    lemma_component_start(p, k);
    assert(p.subrange(k, p.len() as int) =~= t);
    assert(t != seq!['.', '.']) by {
        assert(t.len() > 2);
    }
}

} // verus!
