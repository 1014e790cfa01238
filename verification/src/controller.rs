//! The hosted-network controller's decisions: everything the
//! application decides from plain values, kept apart from the process
//! launches, the elevation primitive, the persisted store and the
//! notification surface that carry those decisions out.

use vstd::prelude::*;

use crate::parser::authentication_of;
use crate::parser::cipher_of;
use crate::parser::max_clients_of;
use crate::parser::mode_of;
use crate::parser::parse_hosted_network_output;
use crate::parser::ssid_of;
use crate::parser::status_of;
use crate::settings::HostedNetworkSettings;
use crate::text::str_eq_str;

verus! {

/// Whether the hotspot is running: true exactly when the snapshot's
/// status reads `"Started"`. Any other string — case variants included —
/// and the absent state count as not running. Pure read, no I/O.
pub fn is_alive(snapshot: &HostedNetworkSettings) -> (r: bool)
    ensures
        r == (snapshot.status matches Some(s) && s@ == "Started"@),
{
    match &snapshot.status {
        None => false,
        Some(s) => str_eq_str(s.as_str(), "Started"),
    }
}

/// The OS convention for the elevated-launch primitive: a returned
/// handle value of 32 or below signals that the launch itself failed.
/// A larger handle only means the request was accepted; whether the
/// user granted elevation stays unobservable.
pub fn launch_accepted(handle: usize) -> (r: bool)
    ensures
        r == (handle > 32),
{
    handle > 32
}

/// The argument string handed to the elevated network tool to
/// reconfigure the hotspot: mode allowed, the given SSID and key, and a
/// persistent key.
pub fn config_command_args(ssid: &str, key: &str) -> (r: String)
    ensures
        r@ == "wlan set hostednetwork mode=allow ssid="@ + ssid@ + " key="@ + key@
            + " keyUsage=persistent"@,
{
    let mut s = String::from_str("wlan set hostednetwork mode=allow ssid=");
    s.append(ssid);
    s.append(" key=");
    s.append(key);
    s.append(" keyUsage=persistent");
    proof {
        assert(s@ =~= "wlan set hostednetwork mode=allow ssid="@ + ssid@ + " key="@ + key@
            + " keyUsage=persistent"@);
    }
    s
}

/// Reconfigures the snapshot for a new SSID and key and returns the
/// argument string for the elevated command. The snapshot is updated
/// optimistically — before the OS confirms anything — and every other
/// field is left as it was; the caller persists `key` to the store and
/// issues the elevated launch.
pub fn config_hosted_network(snapshot: &mut HostedNetworkSettings, ssid: &str, key: &str) -> (r:
    String)
    ensures
        final(snapshot).ssid_name matches Some(n) && n@ == ssid@,
        final(snapshot).key matches Some(k) && k@ == key@,
        final(snapshot).mode == old(snapshot).mode,
        final(snapshot).max_clients == old(snapshot).max_clients,
        final(snapshot).authentication == old(snapshot).authentication,
        final(snapshot).cipher == old(snapshot).cipher,
        final(snapshot).status == old(snapshot).status,
        r@ == "wlan set hostednetwork mode=allow ssid="@ + ssid@ + " key="@ + key@
            + " keyUsage=persistent"@,
{
    snapshot.ssid_name = Some(String::from_str(ssid));
    snapshot.key = Some(String::from_str(key));
    config_command_args(ssid, key)
}

/// The settings snapshot after a read-only status query: the parse of
/// the tool's output when the query succeeded, and otherwise a record
/// with only the previously known key populated.
pub fn settings_from_query(output: Option<&str>, key: String) -> (r: HostedNetworkSettings)
    ensures
        match output {
            Some(o) => {
                &&& r.mode.deep_view() == mode_of(o@)
                &&& r.ssid_name.deep_view() == ssid_of(o@)
                &&& r.max_clients == max_clients_of(o@)
                &&& r.authentication.deep_view() == authentication_of(o@)
                &&& r.cipher.deep_view() == cipher_of(o@)
                &&& r.status.deep_view() == status_of(o@)
            },
            None => {
                &&& r.mode is None
                &&& r.ssid_name is None
                &&& r.max_clients is None
                &&& r.authentication is None
                &&& r.cipher is None
                &&& r.status is None
            },
        },
        r.key == Some(key),
{
    match output {
        Some(o) => parse_hosted_network_output(o, key),
        None => HostedNetworkSettings::fallback(key),
    }
}

/// The outcome of asking the OS to start the hotspot through the
/// elevated launch primitive: whether the launch was accepted, and the
/// notification text raised either way.
pub fn start_outcome(handle: usize) -> (r: (bool, String))
    ensures
        r.0 == (handle > 32),
        r.0 ==> r.1@ == "started hosted network"@,
        !r.0 ==> r.1@ == "Failed to start hosted network"@,
{
    if launch_accepted(handle) {
        (true, String::from_str("started hosted network"))
    } else {
        (false, String::from_str("Failed to start hosted network"))
    }
}

/// The outcome of the non-elevated stop command: whether the child
/// process exited successfully, and the notification text raised either
/// way.
pub fn stop_outcome(exit_success: bool) -> (r: (bool, String))
    ensures
        r.0 == exit_success,
        r.0 ==> r.1@ == "Hosted network stopped successfully"@,
        !r.0 ==> r.1@ == "Failed to stop hosted network"@,
{
    if exit_success {
        (true, String::from_str("Hosted network stopped successfully"))
    } else {
        (false, String::from_str("Failed to stop hosted network"))
    }
}

/// Reads the persisted auto-start flag: enabled exactly when the store
/// holds the string `"true"`. An absent key, a non-string value or any
/// other string counts as disabled.
pub fn auto_start_enabled(value: Option<&String>) -> (r: bool)
    ensures
        r == (value matches Some(s) && s@ == "true"@),
{
    match value {
        None => false,
        Some(s) => str_eq_str(s.as_str(), "true"),
    }
}

/// The string persisted for the auto-start flag.
pub fn auto_start_value(flag: bool) -> (r: String)
    ensures
        flag ==> r@ == "true"@,
        !flag ==> r@ == "false"@,
{
    if flag {
        String::from_str("true")
    } else {
        String::from_str("false")
    }
}

/// The credential record seeded into the store on first run.
pub fn default_user() -> (r: crate::session::User)
    ensures
        r.name@ == "svhg"@,
        r.password@ == "svhg54321"@,
{
    crate::session::User::new("svhg", "svhg54321")
}

/// The passphrase the store starts with: the value already persisted if
/// any, else the one recovered from the security-settings output, else
/// a human-readable placeholder asking for configuration.
pub fn initial_password(stored: Option<String>, recovered: Option<String>) -> (r: String)
    ensures
        stored matches Some(s) ==> r@ == s@,
        stored is None ==> (recovered matches Some(p) ==> r@ == p@),
        stored is None && recovered is None ==> r@ == "Configure antes de iniciar"@,
{
    match stored {
        Some(s) => s,
        None => match recovered {
            Some(p) => p,
            None => String::from_str("Configure antes de iniciar"),
        },
    }
}

} // verus!
