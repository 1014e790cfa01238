use hostednet::parser::parse_hosted_network_output;
use hostednet::parser::parse_security_key_output;

#[test]
fn mode_line_parses_in_both_locales() {
    let en = parse_hosted_network_output("Mode: allow", String::from("k"));
    let es = parse_hosted_network_output("Modo: allow", String::from("k"));
    assert_eq!(en.mode.as_deref(), Some("allow"));
    assert_eq!(es.mode.as_deref(), Some("allow"));
}

#[test]
fn every_field_parses_in_both_locales() {
    let en = parse_hosted_network_output(
        "Mode: Allowed\n\
         SSID name: \"MyNet\"\n\
         Max number of clients: 100\n\
         Authentication: WPA2-Personal\n\
         Cipher: CCMP\n\
         Status: Started",
        String::from("secret"),
    );
    assert_eq!(en.mode.as_deref(), Some("Allowed"));
    assert_eq!(en.ssid_name.as_deref(), Some("MyNet"));
    assert_eq!(en.max_clients, Some(100));
    assert_eq!(en.authentication.as_deref(), Some("WPA2-Personal"));
    assert_eq!(en.cipher.as_deref(), Some("CCMP"));
    assert_eq!(en.status.as_deref(), Some("Started"));
    assert_eq!(en.key.as_deref(), Some("secret"));

    let es = parse_hosted_network_output(
        "Modo: Permitido\n\
         Nombre SSID: \"MiRed\"\n\
         N máximo de clientes: 100\n\
         Autenticación: WPA2-Personal\n\
         Cifrado: CCMP\n\
         Estado: Iniciado",
        String::from("secreto"),
    );
    assert_eq!(es.mode.as_deref(), Some("Permitido"));
    assert_eq!(es.ssid_name.as_deref(), Some("MiRed"));
    assert_eq!(es.max_clients, Some(100));
    assert_eq!(es.authentication.as_deref(), Some("WPA2-Personal"));
    assert_eq!(es.cipher.as_deref(), Some("CCMP"));
    assert_eq!(es.status.as_deref(), Some("Iniciado"));
    assert_eq!(es.key.as_deref(), Some("secreto"));
}

#[test]
fn empty_input_yields_all_fields_absent_except_key() {
    let s = parse_hosted_network_output("", String::from("kept"));
    assert_eq!(s.mode, None);
    assert_eq!(s.ssid_name, None);
    assert_eq!(s.max_clients, None);
    assert_eq!(s.authentication, None);
    assert_eq!(s.cipher, None);
    assert_eq!(s.status, None);
    assert_eq!(s.key.as_deref(), Some("kept"));
}

#[test]
fn arbitrary_text_yields_all_fields_absent_except_key() {
    let s = parse_hosted_network_output(
        "lorem ipsum\n\n!!! ???\n: : :\nstatus lowercase is not a label\n\tgarbage",
        String::from("kept"),
    );
    assert_eq!(s.mode, None);
    assert_eq!(s.ssid_name, None);
    assert_eq!(s.max_clients, None);
    assert_eq!(s.authentication, None);
    assert_eq!(s.cipher, None);
    assert_eq!(s.status, None);
    assert_eq!(s.key.as_deref(), Some("kept"));
}

#[test]
fn ssid_quotes_stripped_once() {
    let quoted = parse_hosted_network_output("SSID name: \"MyNet\"", String::from("k"));
    assert_eq!(quoted.ssid_name.as_deref(), Some("MyNet"));
    let bare = parse_hosted_network_output("SSID name: MyNet", String::from("k"));
    assert_eq!(bare.ssid_name.as_deref(), Some("MyNet"));
}

#[test]
fn ssid_double_quotes_stripped_only_one_pair() {
    let s = parse_hosted_network_output("SSID name: \"\"MyNet\"\"", String::from("k"));
    assert_eq!(s.ssid_name.as_deref(), Some("\"MyNet\""));
}

#[test]
fn max_clients_number_parses() {
    let s = parse_hosted_network_output("Max number of clients: 8", String::from("k"));
    assert_eq!(s.max_clients, Some(8));
}

#[test]
fn max_clients_non_number_is_absent_without_error() {
    let s = parse_hosted_network_output("Max number of clients: eight", String::from("k"));
    assert_eq!(s.max_clients, None);
}

#[test]
fn max_clients_overflow_is_absent() {
    let s = parse_hosted_network_output(
        "Max number of clients: 99999999999999999999",
        String::from("k"),
    );
    assert_eq!(s.max_clients, None);
}

#[test]
fn last_matching_line_wins() {
    let s = parse_hosted_network_output("Status: Started\nStatus: Not started", String::from("k"));
    assert_eq!(s.status.as_deref(), Some("Not started"));
}

#[test]
fn line_without_colon_resets_field() {
    let s = parse_hosted_network_output("Mode: allow\nMode without a colon", String::from("k"));
    assert_eq!(s.mode, None);
}

#[test]
fn security_key_found_despite_usage_line() {
    let key = parse_security_key_output(
        "User security key usage: Persistent\nUser security key: abc123",
    );
    assert_eq!(key.as_deref(), Some("abc123"));
}

#[test]
fn security_key_spanish_label() {
    let key = parse_security_key_output("Clave de seguridad de usuario: clave99");
    assert_eq!(key.as_deref(), Some("clave99"));
}

#[test]
fn security_key_sentinel_english_is_no_key() {
    let key = parse_security_key_output("User security key: <Not specified>");
    assert_eq!(key, None);
}

#[test]
fn security_key_sentinel_spanish_is_no_key() {
    let key = parse_security_key_output("User security key: <No especificada>");
    assert_eq!(key, None);
}

#[test]
fn security_key_empty_value_is_no_key() {
    let key = parse_security_key_output("User security key:");
    assert_eq!(key, None);
}

#[test]
fn security_key_absent_from_unrelated_output() {
    let key = parse_security_key_output("Mode: allow\nStatus: Started");
    assert_eq!(key, None);
}

#[test]
fn max_clients_accepts_a_leading_plus_sign() {
    let s = parse_hosted_network_output("Max number of clients: +8", String::from("k"));
    assert_eq!(s.max_clients, Some(8));
}

#[test]
fn values_are_trimmed_of_tabs_and_carriage_returns() {
    let s = parse_hosted_network_output("Status:\tStarted\r\nMode: allow \r\n", String::from("k"));
    assert_eq!(s.status.as_deref(), Some("Started"));
    assert_eq!(s.mode.as_deref(), Some("allow"));
}
