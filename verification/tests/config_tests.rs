use scheduler::config::{config_line, config_string, forwards_to_client, line_addresses, scheduler_addresses};

const TEXT: &str = "model\nresnet18\n0.0.0.0:4242\n127.0.0.1:3333\n127.0.0.1:1235\n";

#[test]
fn config_line_indexes_lines() {
    assert_eq!(config_line(TEXT, 2), Some("0.0.0.0:4242"));
    assert_eq!(config_line(TEXT, 5), Some(""));
    assert_eq!(config_line(TEXT, 6), None);
    assert_eq!(config_line("", 0), Some(""));
}

#[test]
fn line_addresses_reads_three_lines() {
    let a = line_addresses(TEXT).unwrap();
    assert_eq!(a.server_address, "0.0.0.0:4242");
    assert_eq!(a.client_address, "127.0.0.1:3333");
    assert_eq!(a.sp_address, "127.0.0.1:1235");
    assert!(line_addresses("a\nb\nc\nd").is_none());
}

#[test]
fn forwarding_depends_on_none() {
    assert!(!forwards_to_client("None"));
    assert!(forwards_to_client("127.0.0.1:3333"));
    assert!(forwards_to_client("none"));
}

#[test]
fn json_members() {
    let text = r#"{"server_address": "0.0.0.0:1", "client_address": "c", "attestation_address": "a", "sp_address": "s", "n": 3}"#;
    assert_eq!(config_string(text, "client_address"), Some("c".to_string()));
    assert_eq!(config_string(text, "n"), None);
    assert_eq!(config_string(text, "missing"), None);
    assert_eq!(config_string("not json", "client_address"), None);
    let a = scheduler_addresses(text).unwrap();
    assert_eq!(a.server_address, "0.0.0.0:1");
    assert_eq!(a.client_address, "c");
    assert_eq!(a.attestation_address, "a");
    assert_eq!(a.sp_address, "s");
    assert!(scheduler_addresses(r#"{"server_address": "x"}"#).is_none());
}
