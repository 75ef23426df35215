//! Plugin manifests (`plugin.json`): the permissions a plugin requests and
//! the validation of the required fields.
use vstd::prelude::*;
use crate::text::{all_ws, is_blank, owned};

verus! {

/// Permissions a plugin requests at install time; all default to false.
#[derive(Debug, Clone, Copy, PartialEq, Eq, Structural)]
pub struct PluginPermissions {
    pub filesystem: bool,
    pub network: bool,
    pub processes: bool,
}

impl Default for PluginPermissions {
    fn default() -> (r: PluginPermissions)
        ensures
            !r.filesystem && !r.network && !r.processes,
    {
        PluginPermissions { filesystem: false, network: false, processes: false }
    }
}

/// A plugin manifest as read from `plugin.json`.
#[derive(Debug, Clone, PartialEq)]
pub struct PluginManifest {
    pub id: String,
    pub version: String,
    pub name: String,
    pub description: String,
    pub author: String,
    pub commands: Vec<String>,
    pub agents: Vec<String>,
    pub capabilities: Vec<String>,
    pub permissions: PluginPermissions,
    pub endpoint: Option<String>,
    pub signature: Option<String>,
}

/// The outcome of validation: the first required field (id, version, name)
/// that is empty once trimmed is reported.
pub open spec fn validation_error(m: PluginManifest) -> Option<Seq<char>> {
    if all_ws(m.id@) {
        Some("plugin.json: 'id' must not be empty"@)
    } else if all_ws(m.version@) {
        Some("plugin.json: 'version' must not be empty"@)
    } else if all_ws(m.name@) {
        Some("plugin.json: 'name' must not be empty"@)
    } else {
        None
    }
}

impl PluginManifest {
    /// Validate that the required fields are not blank.
    pub fn validate(&self) -> (r: Result<(), String>)
        ensures
            validation_error(*self) is None ==> r is Ok,
            validation_error(*self) matches Some(m) ==> (r matches Err(e) && e@ == m),
    {
        if is_blank(self.id.as_str()) {
            return Err(owned("plugin.json: 'id' must not be empty"));
        }
        if is_blank(self.version.as_str()) {
            return Err(owned("plugin.json: 'version' must not be empty"));
        }
        if is_blank(self.name.as_str()) {
            return Err(owned("plugin.json: 'name' must not be empty"));
        }
        Ok(())
    }
}

} // verus!
