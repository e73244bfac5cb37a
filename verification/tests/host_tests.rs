use rustyping::host::{hosts_from_members, hosts_list_address, is_local_address, parse_host_entry, redis_url, Host};

fn host(name: &str, address: &str) -> Host {
    Host { name: name.to_string(), address: address.to_string() }
}

#[test]
fn parse_name_and_address() {
    let h = parse_host_entry("gateway@192.168.1.1").unwrap();
    assert_eq!(h.name, "gateway");
    assert_eq!(h.address, "192.168.1.1");
}

#[test]
fn parse_keeps_first_two_pieces() {
    let h = parse_host_entry("a@b@c").unwrap();
    assert_eq!(h.name, "a");
    assert_eq!(h.address, "b");
}

#[test]
fn parse_without_at_is_none() {
    assert!(parse_host_entry("server_ip").is_none());
    assert!(parse_host_entry("").is_none());
}

#[test]
fn parse_empty_pieces() {
    let h = parse_host_entry("@").unwrap();
    assert_eq!(h.name, "");
    assert_eq!(h.address, "");
    let h = parse_host_entry("web@").unwrap();
    assert_eq!(h.name, "web");
    assert_eq!(h.address, "");
}

#[test]
fn parse_roundtrip_of_written_member() {
    let member = format!("{}@{}", "dns", "8.8.8.8");
    let h = parse_host_entry(&member).unwrap();
    assert_eq!((h.name.as_str(), h.address.as_str()), ("dns", "8.8.8.8"));
}

#[test]
fn members_skip_entries_without_at() {
    let members = vec![
        "one@10.0.0.1".to_string(),
        "bogus".to_string(),
        "two@10.0.0.2".to_string(),
    ];
    let hosts = hosts_from_members(&members);
    assert_eq!(hosts.len(), 2);
    assert_eq!((hosts[0].name.as_str(), hosts[0].address.as_str()), ("one", "10.0.0.1"));
    assert_eq!((hosts[1].name.as_str(), hosts[1].address.as_str()), ("two", "10.0.0.2"));
}

#[test]
fn hosts_are_equal_by_address() {
    assert!(host("a", "10.0.0.1") == host("b", "10.0.0.1"));
    assert!(host("a", "10.0.0.1") != host("a", "10.0.0.2"));
}

#[test]
fn address_membership() {
    let hosts = vec![host("a", "10.0.0.1"), host("b", "10.0.0.2")];
    assert!(hosts_list_address(&hosts, "10.0.0.2"));
    assert!(!hosts_list_address(&hosts, "10.0.0.3"));
    let local = vec!["127.0.0.1".to_string()];
    assert!(is_local_address(&local, "127.0.0.1"));
    assert!(!is_local_address(&local, "10.0.0.1"));
}

#[test]
fn redis_url_wraps_host() {
    assert_eq!(redis_url("127.0.0.1"), "redis://127.0.0.1/");
}
