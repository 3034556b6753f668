//! Error kinds surfaced by the library.
//!
//! Each kind names the subsystem that raises it; carriers are plain strings
//! so that callers can show them to an operator.

use vstd::prelude::*;

verus! {

/// A desired-state configuration file is malformed or inconsistent:
/// an unknown group, an illegal wildcard path, an unsupported privilege.
#[derive(Clone, Debug)]
pub enum ConfigError {
    /// A group name was used that the group configuration does not declare.
    UnknownGroup(String),
    /// A referenced user does not exist in the graph.
    UnknownUser(String),
    /// A referenced asset does not exist in the graph.
    UnknownAsset(String),
    /// A wildcard path broke the rules on `*` and `**` segments.
    IllegalWildcardPath(String),
    /// A privilege is not allowed for the connector and asset type.
    UnsupportedPrivilege(String),
    /// A default policy did not specify its target asset types.
    MissingTypes,
    /// An asset type is not allowed for the connector.
    UnsupportedAssetType(String),
    /// The document could not be interpreted at all.
    Malformed(String),
}

/// Two nodes with the same name disagree on a field that merging may not
/// overwrite. Fatal to a build.
#[derive(Clone, Debug)]
pub struct MergeConflict {
    /// A description of the disagreement, naming the field.
    pub detail: String,
}

/// A build failed: either a merge conflict, or an edge that references a
/// node the build never produced.
#[derive(Clone, Debug)]
pub enum BuildError {
    /// Node merge failed.
    Conflict(MergeConflict),
    /// An edge endpoint is missing from the graph.
    MissingNode(String),
}

/// A diff references an entity that its target connector has never seen.
#[derive(Clone, Debug)]
pub struct TranslationError {
    /// The global name that could not be translated.
    pub name: String,
}

/// A serialized graph could not be loaded.
#[derive(Clone, Debug)]
pub enum IntegrityError {
    /// The schema version of the stored graph is not the one this library
    /// writes.
    VersionMismatch,
    /// The byte stream is truncated or malformed.
    Corrupt,
}

/// A connector could not produce data or apply a change.
#[derive(Clone, Debug)]
pub struct ConnectorError {
    /// A description for the operator.
    pub detail: String,
}

/// One connector's apply failed; other connectors are unaffected.
#[derive(Clone, Debug)]
pub enum ApplyError {
    /// The local diff could not be expressed for this connector.
    Translation(TranslationError),
    /// The connector rejected the change.
    Connector(ConnectorError),
}

} // verus!
