//! The connector capability interface and the value types that connectors
//! hand to the graph builder.

pub mod nodes;

use vstd::prelude::*;
use crate::errors::{ApplyError, ConnectorError};
use crate::jetty::ConnectorManifest;
use crate::translate::LocalDiffBundle;

verus! {

/// Enum of known asset types.
#[derive(Clone, Copy, Debug, PartialEq, Eq, Structural, Hash)]
pub enum AssetType {
    /// Database table.
    DBTable,
    /// Database view.
    DBView,
    /// Database schema.
    DBSchema,
    /// Database.
    DBDB,
    /// Database warehouse.
    DBWarehouse,
    /// A catch-all that connector implementors may use.
    Other,
}

impl AssetType {
    /// A stable textual form of the asset type.
    pub fn as_str(&self) -> (r: &'static str)
        ensures
            r@ == self.type_text(),
    {
        proof {
            reveal_strlit("table");
            reveal_strlit("view");
            reveal_strlit("schema");
            reveal_strlit("database");
            reveal_strlit("warehouse");
            reveal_strlit("other");
        }
        match self {
            AssetType::DBTable => "table",
            AssetType::DBView => "view",
            AssetType::DBSchema => "schema",
            AssetType::DBDB => "database",
            AssetType::DBWarehouse => "warehouse",
            AssetType::Other => "other",
        }
    }

    /// The text `as_str` returns for each variant.
    pub open spec fn type_text(self) -> Seq<char> {
        match self {
            AssetType::DBTable => "table"@,
            AssetType::DBView => "view"@,
            AssetType::DBSchema => "schema"@,
            AssetType::DBDB => "database"@,
            AssetType::DBWarehouse => "warehouse"@,
            AssetType::Other => "other"@,
        }
    }
}

/// Enum of identifiers used to resolve user identities across connectors.
#[derive(Clone, Debug)]
pub enum UserIdentifier {
    /// User's first name.
    FirstName(String),
    /// User's last name.
    LastName(String),
    /// User's full name.
    FullName(String),
    /// User's email address.
    Email(String),
    /// A platform-specific identifier.
    PlatformID(String),
}

impl UserIdentifier {
    /// Two identifiers are the same when the kind and the carried text match.
    pub open spec fn same_as(self, other: UserIdentifier) -> bool {
        match (self, other) {
            (UserIdentifier::FirstName(a), UserIdentifier::FirstName(b)) => a@ == b@,
            (UserIdentifier::LastName(a), UserIdentifier::LastName(b)) => a@ == b@,
            (UserIdentifier::FullName(a), UserIdentifier::FullName(b)) => a@ == b@,
            (UserIdentifier::Email(a), UserIdentifier::Email(b)) => a@ == b@,
            (UserIdentifier::PlatformID(a), UserIdentifier::PlatformID(b)) => a@ == b@,
            _ => false,
        }
    }
}

impl UserIdentifier {
    /// Exact content-equality test.
    pub fn same(&self, other: &UserIdentifier) -> (r: bool)
        ensures
            r == self.same_as(*other),
    {
        match (self, other) {
            (UserIdentifier::FirstName(a), UserIdentifier::FirstName(b)) => *a == *b,
            (UserIdentifier::LastName(a), UserIdentifier::LastName(b)) => *a == *b,
            (UserIdentifier::FullName(a), UserIdentifier::FullName(b)) => *a == *b,
            (UserIdentifier::Email(a), UserIdentifier::Email(b)) => *a == *b,
            (UserIdentifier::PlatformID(a), UserIdentifier::PlatformID(b)) => *a == *b,
            _ => false,
        }
    }
}

/// The trait all connectors are expected to implement. A connector is a
/// capability over one external platform: it can report its manifest,
/// produce observed data, and apply a translated local diff. Network and
/// file transport live entirely in the implementor.
pub trait Connector {
    /// Check whether the connector is properly set up; `true` means
    /// connected.
    fn check(&self) -> bool;

    /// Fetch the observed state of the platform.
    fn get_data(&mut self) -> Result<nodes::ConnectorData, ConnectorError>;

    /// Apply a local diff to the platform.
    fn apply_changes(&mut self, diff: &LocalDiffBundle) -> Result<String, ApplyError>;

    /// The connector's built-in characteristics.
    fn manifest(&self) -> ConnectorManifest;
}

} // verus!
