use vstd::prelude::*;

use crate::identity::ParseFailure;

verus! {

/// A failure to parse a snapshot identifier.
#[derive(Clone, Debug, PartialEq, Eq)]
pub enum SnapshotParseError {
    /// The identifier is missing the node name.
    MissingNodeName,
    /// The identifier is missing the subvolume name.
    MissingSubvolume,
    /// The identifier is missing the snapshot type.
    MissingType,
    /// The identifier is missing the timestamp of when the snapshot was taken.
    MissingTimeTaken,
    /// The snapshot type is neither "full" nor "incr".
    InvalidType(String),
    /// The path has no last component.
    NoFileName,
    /// The last path component is not valid Unicode.
    InvalidUnicode,
    /// The capture timestamp does not follow the `%Y%m%d%H%M%S` format.
    MalformedTimeTaken,
}

/// A failure to parse a volume identifier.
#[derive(Clone, Copy, Debug, PartialEq, Eq, Structural)]
pub enum VolumeParseError {
    /// The identifier is missing the node name.
    MissingNodeName,
    /// The identifier is missing the subvolume name.
    MissingSubvolume,
    /// The identifier has more fields than a node name and a subvolume name.
    ExtraToken,
}

/// An error that is transported over the wire between nodes.
#[derive(Clone, Copy, Debug, PartialEq, Eq, Hash, Structural)]
pub enum RemoteError {
    /// Access is denied by the remote node.
    AccessDenied,
    /// The remote node was denied access.
    Unauthorized,
    /// The backup has already been fully transferred and cannot be overwritten.
    Immutable,
    /// A transmission represents an illegal state transition on the remote node.
    IllegalTransition,
    /// Cannot set up multiple concurrent streams in the same direction.
    AlreadyStreaming,
    /// Unsolicited attempt to stream data.
    NotStreaming,
    /// The remote node is unable to continue receiving our transmission.
    RxError,
    /// The local node is unable to continue sending its transmission.
    TxError,
}

impl RemoteError {
    /// A human-readable description of the error.
    pub fn to_string(&self) -> String {
        match self {
            RemoteError::AccessDenied => String::from_str("Access denied by remote node"),
            RemoteError::Unauthorized => String::from_str("Remote node is unauthorized"),
            RemoteError::Immutable => String::from_str("Backup already transferred completely"),
            RemoteError::IllegalTransition => String::from_str(
                "Illegal state transition on remote node",
            ),
            RemoteError::AlreadyStreaming => String::from_str("Already streaming in this direction"),
            RemoteError::NotStreaming => String::from_str("Not streaming in this direction"),
            RemoteError::RxError => String::from_str("Remote node reception failure"),
            RemoteError::TxError => String::from_str("Local node transmission failure"),
        }
    }
}

/// An error condition on the local node.
#[derive(Clone, Debug, PartialEq, Eq)]
pub enum LocalNodeError {
    /// An external snapshot command failed.
    ExternalCmdFailed,
    /// An external snapshot command provides no input.
    NoCmdInput,
    /// An external snapshot command provides no output.
    NoCmdOutput,
    /// A configuration file already exists on this node.
    ConfigExists,
    /// No configuration file exists on this node.
    ConfigUninit,
    /// The permissions on the configuration file are insecure.
    InsecurePerms,
    /// No full backup of the volume exists on this node.
    NoFullBackup(String),
    /// No incremental backup of the volume exists on this node.
    NoIncrementalBackup(String),
    /// No full snapshot of the subvolume exists on this node.
    NoFullSnapshot(String),
    /// No incremental snapshot of the subvolume exists on this node.
    NoIncrementalSnapshot(String),
    /// A snapshot with the same identifier already exists.
    SnapshotExists(String),
    /// The snapshot cannot be restored because it already exists.
    SnapshotNotGone(String),
    /// A snapshot identifier could not be parsed.
    SnapshotParseError(SnapshotParseError),
    /// The subvolume is not owned by this node.
    ForeignSubvolume(String),
    /// The subvolume does not exist on this node.
    NoSuchSubvolume(String),
    /// Password-based key derivation failed.
    KeyDerivation,
    /// Encryption or decryption failed (a tag mismatch or a truncated stream).
    Crypto,
    /// The clock reads a time outside the range of snapshot identifiers.
    ClockOutOfRange,
    /// The stream is closed.
    StreamClosed,
}

/// The mathematical content of a `LocalNodeError`.
pub enum NodeFailure {
    ExternalCmdFailed,
    NoCmdInput,
    NoCmdOutput,
    ConfigExists,
    ConfigUninit,
    InsecurePerms,
    NoFullBackup(Seq<char>),
    NoIncrementalBackup(Seq<char>),
    NoFullSnapshot(Seq<char>),
    NoIncrementalSnapshot(Seq<char>),
    SnapshotExists(Seq<char>),
    SnapshotNotGone(Seq<char>),
    SnapshotParseError(ParseFailure),
    ForeignSubvolume(Seq<char>),
    NoSuchSubvolume(Seq<char>),
    KeyDerivation,
    Crypto,
    ClockOutOfRange,
    StreamClosed,
}

impl View for LocalNodeError {
    type V = NodeFailure;

    open spec fn view(&self) -> NodeFailure {
        match self {
            LocalNodeError::ExternalCmdFailed => NodeFailure::ExternalCmdFailed,
            LocalNodeError::NoCmdInput => NodeFailure::NoCmdInput,
            LocalNodeError::NoCmdOutput => NodeFailure::NoCmdOutput,
            LocalNodeError::ConfigExists => NodeFailure::ConfigExists,
            LocalNodeError::ConfigUninit => NodeFailure::ConfigUninit,
            LocalNodeError::InsecurePerms => NodeFailure::InsecurePerms,
            LocalNodeError::NoFullBackup(s) => NodeFailure::NoFullBackup(s@),
            LocalNodeError::NoIncrementalBackup(s) => NodeFailure::NoIncrementalBackup(s@),
            LocalNodeError::NoFullSnapshot(s) => NodeFailure::NoFullSnapshot(s@),
            LocalNodeError::NoIncrementalSnapshot(s) => NodeFailure::NoIncrementalSnapshot(s@),
            LocalNodeError::SnapshotExists(s) => NodeFailure::SnapshotExists(s@),
            LocalNodeError::SnapshotNotGone(s) => NodeFailure::SnapshotNotGone(s@),
            LocalNodeError::SnapshotParseError(e) => NodeFailure::SnapshotParseError(e@),
            LocalNodeError::ForeignSubvolume(s) => NodeFailure::ForeignSubvolume(s@),
            LocalNodeError::NoSuchSubvolume(s) => NodeFailure::NoSuchSubvolume(s@),
            LocalNodeError::KeyDerivation => NodeFailure::KeyDerivation,
            LocalNodeError::Crypto => NodeFailure::Crypto,
            LocalNodeError::ClockOutOfRange => NodeFailure::ClockOutOfRange,
            LocalNodeError::StreamClosed => NodeFailure::StreamClosed,
        }
    }
}

/// An error condition on a network connection.
#[derive(Clone, Debug, PartialEq, Eq)]
pub enum NetworkError {
    /// A received message is not permitted in the current phase.
    IllegalTransition,
    /// A volume identifier could not be parsed.
    VolumeParseError(VolumeParseError),
    /// An error occurred on the local node.
    LocalError(LocalNodeError),
    /// The peer reported an error, or the session failed with a wire error.
    RemoteError(RemoteError),
    /// A message could not be encoded or decoded.
    Encoding,
    /// A message could not be sealed or opened.
    Crypto,
    /// No address to connect to was left.
    NoAddrs,
}

} // verus!
