//! The structured view of hosted-network state.

use vstd::prelude::*;

verus! {

/// The canonical structured record of hotspot state. Every field is
/// optional: absence means the tool did not report it, or it is not yet
/// known. `key` is the one field whose source of truth is the persisted
/// store, never the tool's status output.
pub struct HostedNetworkSettings {
    pub mode: Option<String>,
    pub ssid_name: Option<String>,
    pub max_clients: Option<u32>,
    pub authentication: Option<String>,
    pub cipher: Option<String>,
    pub status: Option<String>,
    pub key: Option<String>,
}

/// Copies an optional string, field for field.
pub fn clone_opt_string(v: &Option<String>) -> (r: Option<String>)
    ensures
        r == *v,
{
    match v {
        Option::None => Option::None,
        Option::Some(s) => Option::Some(s.clone()),
    }
}

impl HostedNetworkSettings {
    /// The record with every field absent except the passphrase.
    pub fn fallback(key: String) -> (r: Self)
        ensures
            r.mode is None,
            r.ssid_name is None,
            r.max_clients is None,
            r.authentication is None,
            r.cipher is None,
            r.status is None,
            r.key == Some(key),
    {
        HostedNetworkSettings {
            mode: None,
            ssid_name: None,
            max_clients: None,
            authentication: None,
            cipher: None,
            status: None,
            key: Some(key),
        }
    }

    /// A copy of the snapshot, handed to the user interface. Always
    /// succeeds and performs no I/O.
    pub fn get_hosted_network_settings_to_fronted(&self) -> (r: Self)
        ensures
            r == *self,
    {
        HostedNetworkSettings {
            mode: clone_opt_string(&self.mode),
            ssid_name: clone_opt_string(&self.ssid_name),
            max_clients: self.max_clients,
            authentication: clone_opt_string(&self.authentication),
            cipher: clone_opt_string(&self.cipher),
            status: clone_opt_string(&self.status),
            key: clone_opt_string(&self.key),
        }
    }
}

} // verus!
