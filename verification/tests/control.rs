use hostednet::controller::auto_start_enabled;
use hostednet::controller::auto_start_value;
use hostednet::controller::config_hosted_network;
use hostednet::controller::default_user;
use hostednet::controller::initial_password;
use hostednet::controller::is_alive;
use hostednet::controller::launch_accepted;
use hostednet::controller::settings_from_query;
use hostednet::controller::start_outcome;
use hostednet::controller::stop_outcome;
use hostednet::parser::parse_hosted_network_output;
use hostednet::session::SessionGate;
use hostednet::session::User;
use hostednet::settings::HostedNetworkSettings;

#[test]
fn is_alive_only_on_exact_started() {
    let base = parse_hosted_network_output("Status: Started", String::from("k"));
    assert!(is_alive(&base));
    for status in ["started", "STARTED", "Not started", "Not available", "Started "] {
        let s = parse_hosted_network_output(&format!("Status: {}", status), String::from("k"));
        // the value is trimmed, so "Started " still reads back as "Started"
        if status == "Started " {
            assert!(is_alive(&s));
        } else {
            assert!(!is_alive(&s));
        }
    }
    let absent = HostedNetworkSettings::fallback(String::from("k"));
    assert!(!is_alive(&absent));
}

#[test]
fn login_success_sets_flag_and_reports_true() {
    let mut gate = SessionGate::new();
    gate.logout();
    assert!(!gate.is_authenticated());
    let stored = User::new("svhg", "svhg54321");
    let attempt = User::new("svhg", "svhg54321");
    assert!(gate.login(&attempt, Some(&stored)));
    assert!(gate.is_authenticated());
}

#[test]
fn login_wrong_password_leaves_flag_untouched() {
    let mut gate = SessionGate::new();
    gate.logout();
    let stored = User::new("svhg", "svhg54321");
    let attempt = User::new("svhg", "wrong");
    assert!(!gate.login(&attempt, Some(&stored)));
    assert!(!gate.is_authenticated());
}

#[test]
fn login_wrong_name_leaves_flag_untouched() {
    let mut gate = SessionGate::new();
    gate.logout();
    let stored = User::new("svhg", "svhg54321");
    let attempt = User::new("other", "svhg54321");
    assert!(!gate.login(&attempt, Some(&stored)));
    assert!(!gate.is_authenticated());
}

#[test]
fn login_with_no_stored_record_fails() {
    let mut gate = SessionGate::new();
    let attempt = User::new("svhg", "svhg54321");
    assert!(!gate.login(&attempt, None));
    // the flag keeps its prior value
    assert!(gate.is_authenticated());
}

#[test]
fn logout_always_clears_flag() {
    let mut gate = SessionGate::new();
    assert!(gate.is_authenticated());
    gate.logout();
    assert!(!gate.is_authenticated());
    gate.logout();
    assert!(!gate.is_authenticated());
}

#[test]
fn fresh_store_startup_seeds_defaults_and_login_succeeds() {
    // A fresh store: no credential record, no auto-start flag, no
    // passphrase, and nothing recoverable from the security output.
    let seeded_user = default_user();
    assert_eq!(seeded_user.name, "svhg");
    assert_eq!(seeded_user.password, "svhg54321");
    let seeded_auto = auto_start_value(false);
    assert!(!auto_start_enabled(Some(&seeded_auto)));
    assert!(!auto_start_enabled(None));
    let seeded_password = initial_password(None, None);
    assert_eq!(seeded_password, "Configure antes de iniciar");

    let mut gate = SessionGate::new();
    gate.logout();
    let attempt = User::new("svhg", "svhg54321");
    assert!(gate.login(&attempt, Some(&seeded_user)));
    assert!(gate.is_authenticated());
}

#[test]
fn initial_password_prefers_stored_then_recovered() {
    assert_eq!(
        initial_password(Some(String::from("kept")), Some(String::from("found"))),
        "kept"
    );
    assert_eq!(initial_password(None, Some(String::from("found"))), "found");
}

#[test]
fn auto_start_reads_only_the_string_true() {
    assert!(auto_start_enabled(Some(&String::from("true"))));
    assert!(!auto_start_enabled(Some(&String::from("false"))));
    assert!(!auto_start_enabled(Some(&String::from("True"))));
    assert!(!auto_start_enabled(None));
    assert_eq!(auto_start_value(true), "true");
    assert_eq!(auto_start_value(false), "false");
}

#[test]
fn launch_handle_boundary_is_32() {
    assert!(!launch_accepted(0));
    assert!(!launch_accepted(32));
    assert!(launch_accepted(33));
}

#[test]
fn start_and_stop_outcomes_carry_notifications() {
    let (ok, msg) = start_outcome(42);
    assert!(ok);
    assert_eq!(msg, "started hosted network");
    let (ok, msg) = start_outcome(5);
    assert!(!ok);
    assert_eq!(msg, "Failed to start hosted network");
    let (ok, msg) = stop_outcome(true);
    assert!(ok);
    assert_eq!(msg, "Hosted network stopped successfully");
    let (ok, msg) = stop_outcome(false);
    assert!(!ok);
    assert_eq!(msg, "Failed to stop hosted network");
}

#[test]
fn configure_updates_snapshot_and_builds_command() {
    let mut snapshot = parse_hosted_network_output(
        "Mode: Allowed\nSSID name: \"Old\"\nStatus: Started",
        String::from("oldkey"),
    );
    let args = config_hosted_network(&mut snapshot, "NewNet", "newkey99");
    assert_eq!(
        args,
        "wlan set hostednetwork mode=allow ssid=NewNet key=newkey99 keyUsage=persistent"
    );
    assert_eq!(snapshot.ssid_name.as_deref(), Some("NewNet"));
    assert_eq!(snapshot.key.as_deref(), Some("newkey99"));
    // every other field keeps its value
    assert_eq!(snapshot.mode.as_deref(), Some("Allowed"));
    assert_eq!(snapshot.status.as_deref(), Some("Started"));
}

#[test]
fn query_failure_falls_back_to_key_only_snapshot() {
    let s = settings_from_query(None, String::from("known"));
    assert_eq!(s.mode, None);
    assert_eq!(s.ssid_name, None);
    assert_eq!(s.max_clients, None);
    assert_eq!(s.authentication, None);
    assert_eq!(s.cipher, None);
    assert_eq!(s.status, None);
    assert_eq!(s.key.as_deref(), Some("known"));
}

#[test]
fn query_success_parses_output() {
    let s = settings_from_query(Some("Status: Started\nMode: Allowed"), String::from("k"));
    assert_eq!(s.status.as_deref(), Some("Started"));
    assert_eq!(s.mode.as_deref(), Some("Allowed"));
    assert_eq!(s.key.as_deref(), Some("k"));
}

#[test]
fn frontend_copy_equals_snapshot() {
    let s = parse_hosted_network_output(
        "Mode: Allowed\nSSID name: \"Net\"\nMax number of clients: 3\nStatus: Started",
        String::from("k"),
    );
    let copy = s.get_hosted_network_settings_to_fronted();
    assert_eq!(copy.mode, s.mode);
    assert_eq!(copy.ssid_name, s.ssid_name);
    assert_eq!(copy.max_clients, s.max_clients);
    assert_eq!(copy.authentication, s.authentication);
    assert_eq!(copy.cipher, s.cipher);
    assert_eq!(copy.status, s.status);
    assert_eq!(copy.key, s.key);
}
