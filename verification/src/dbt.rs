//! The dbt connector: lineage only. It reads a project manifest through
//! a trait its callers implement, and reports assets; it has no groups,
//! users or policies of its own.

use vstd::prelude::*;
use crate::connectors::nodes::ConnectorData;
use crate::connectors::Connector;
use crate::errors::{ApplyError, ConnectorError};
use crate::jetty::ConnectorManifest;
use crate::translate::LocalDiffBundle;

verus! {

/// A dbt project manifest: something that can be initialized from the
/// project directory's files and then asked for the assets it declares.
/// File reading lives in the implementor.
pub trait DbtProjectManifest {
    /// Prepare the manifest, optionally restricted to the given files.
    fn init(&mut self, file_list: &Option<Vec<String>>) -> Result<(), ConnectorError>;

    /// All assets the manifest declares.
    fn get_assets(&self) -> Result<Vec<crate::connectors::nodes::Asset>, ConnectorError>;
}

/// Main connector struct: used to surface the data that resides within
/// dbt.
pub struct DbtConnector<M: DbtProjectManifest> {
    /// The project manifest this connector reads.
    pub manifest: M,
}

impl<M: DbtProjectManifest> DbtConnector<M> {
    /// Build a connector around an already-loaded manifest.
    pub fn new_with_manifest(manifest: M) -> (r: DbtConnector<M>) {
        DbtConnector { manifest }
    }
}

impl<M: DbtProjectManifest> Connector for DbtConnector<M> {
    fn check(&self) -> bool {
        true
    }

    fn get_data(&mut self) -> Result<ConnectorData, ConnectorError> {
        if let Err(e) = self.manifest.init(&None) {
            return Err(e);
        }
        let assets = match self.manifest.get_assets() {
            Ok(a) => a,
            Err(e) => {
                return Err(e);
            },
        };
        let mut data = ConnectorData::empty();
        data.assets = assets;
        Ok(data)
    }

    fn apply_changes(&mut self, _diff: &LocalDiffBundle) -> Result<String, ApplyError> {
        // dbt is read-only: there is nothing to write back.
        Ok(String::new())
    }

    fn manifest(&self) -> ConnectorManifest {
        ConnectorManifest { asset_privileges: Vec::new(), capabilities: Vec::new() }
    }
}

} // verus!
