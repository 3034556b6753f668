//! Project-level configuration: the connector namespaces a project knows
//! about, the per-connector configuration blocks, and the connector
//! manifests that describe what each connector can do.

use vstd::prelude::*;

verus! {

/// The user-defined namespace corresponding to a configured connector.
#[derive(Clone, Debug)]
pub struct ConnectorNamespace(pub String);

impl ConnectorNamespace {
    /// The namespace as text.
    pub fn as_string(&self) -> (r: String)
        ensures
            r@ == self.0@,
    {
        self.0.clone()
    }

    /// An equal copy.
    pub fn duplicate(&self) -> (r: ConnectorNamespace)
        ensures
            r == *self,
    {
        ConnectorNamespace(self.0.clone())
    }
}

impl PartialEq for ConnectorNamespace {
    fn eq(&self, other: &ConnectorNamespace) -> (r: bool) {
        self.0 == other.0
    }
}

impl vstd::std_specs::cmp::PartialEqSpecImpl for ConnectorNamespace {
    open spec fn obeys_eq_spec() -> bool {
        true
    }

    open spec fn eq_spec(&self, other: &ConnectorNamespace) -> bool {
        self.0@ == other.0@
    }
}

impl Eq for ConnectorNamespace {}


/// Configuration of one connector instance: its kind plus free-form
/// connector-specific keys.
#[derive(Clone, Debug)]
pub struct ConnectorConfig {
    /// The connector type.
    pub connector_type: String,
    /// Additional configuration, specific to the connector; keyed by
    /// configuration-key name, one entry per key.
    pub config: Vec<(String, String)>,
}

impl ConnectorConfig {
    /// Basic constructor.
    pub fn new(connector_type: String, config: Vec<(String, String)>) -> (r: Self)
        ensures
            r.connector_type@ == connector_type@,
            r.config == config,
    {
        Self { connector_type, config }
    }
}

/// The project configuration file, in memory.
#[derive(Clone, Debug)]
pub struct JettyConfig {
    /// The configuration schema version.
    pub version: String,
    /// The project name.
    pub name: String,
    /// All connector configs defined, in declaration order.
    pub connectors: Vec<(ConnectorNamespace, ConnectorConfig)>,
    /// Whether the user allows collection of anonymous usage data.
    pub allow_anonymous_usage_statistics: bool,
    /// The project id used for telemetry.
    pub project_id: String,
}

/// Default for the anonymous-usage-statistics flag.
pub fn default_allow_usage_stats() -> (r: bool)
    ensures
        r,
{
    true
}

impl JettyConfig {
    /// The project name, viewed.
    pub open spec fn spec_name(self) -> Seq<char> {
        self.name@
    }

    /// The version string, viewed.
    pub open spec fn spec_version(self) -> Seq<char> {
        self.version@
    }

    /// A fresh configuration with no connectors. The project id starts
    /// empty; the application layer draws a fresh one when it loads a
    /// configuration that lacks one.
    pub fn new() -> (r: Self)
        ensures
            r.spec_version() =~= "0.0.1"@,
            r.spec_name() == Seq::<char>::empty(),
            r.connectors@ == Seq::<(ConnectorNamespace, ConnectorConfig)>::empty(),
            r.allow_anonymous_usage_statistics,
            r.project_id@ == Seq::<char>::empty(),
    {
        Self {
            version: "0.0.1".to_owned(),
            name: String::new(),
            connectors: Vec::new(),
            allow_anonymous_usage_statistics: true,
            project_id: String::new(),
        }
    }

    /// Set the project name.
    pub fn set_name(&mut self, name: String)
        ensures
            final(self).spec_name() == name@,
            final(self).spec_version() == old(self).spec_version(),
            final(self).connectors == old(self).connectors,
            final(self).allow_anonymous_usage_statistics == old(
                self,
            ).allow_anonymous_usage_statistics,
            final(self).project_id == old(self).project_id,
    {
        self.name = name;
    }

    /// Get the project name.
    pub fn get_name(&self) -> (r: String)
        ensures
            r@ == self.spec_name(),
    {
        self.name.clone()
    }

    /// The configured version string.
    pub fn get_version(&self) -> (r: String)
        ensures
            r@ == self.spec_version(),
    {
        self.version.clone()
    }
}

/// The built-in characteristics of a connector: which privileges it allows
/// per asset type, and which capabilities it has.
#[derive(Clone, Debug)]
pub struct ConnectorManifest {
    /// For every asset type the connector serves, the privileges that may
    /// legally appear in a policy on an asset of that type.
    pub asset_privileges: Vec<(crate::connectors::AssetType, Vec<String>)>,
    /// Free-form capability flags.
    pub capabilities: Vec<String>,
}

} // verus!
