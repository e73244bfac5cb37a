use rustyping::host::Host;
use rustyping::table::HostTable;

fn host(name: &str, address: &str) -> Host {
    Host { name: name.to_string(), address: address.to_string() }
}

#[test]
fn insert_then_get() {
    let mut t = HostTable::new();
    assert_eq!(t.insert("10.0.0.1".to_string(), "a".to_string()), None);
    assert_eq!(t.get("10.0.0.1"), Some("a".to_string()));
    assert!(t.contains("10.0.0.1"));
    assert!(!t.contains("10.0.0.2"));
    assert_eq!(t.get("10.0.0.2"), None);
}

#[test]
fn insert_overwrites_and_returns_previous_name() {
    let mut t = HostTable::new();
    t.insert("10.0.0.1".to_string(), "a".to_string());
    assert_eq!(t.insert("10.0.0.1".to_string(), "b".to_string()), Some("a".to_string()));
    assert_eq!(t.get("10.0.0.1"), Some("b".to_string()));
}

#[test]
fn remove_stale_drops_unlisted_and_local() {
    let mut t = HostTable::new();
    t.insert("10.0.0.1".to_string(), "a".to_string());
    t.insert("10.0.0.2".to_string(), "b".to_string());
    t.insert("127.0.0.1".to_string(), "me".to_string());
    let hosts = vec![host("a", "10.0.0.1"), host("me", "127.0.0.1")];
    let local = vec!["127.0.0.1".to_string()];
    let removed = t.remove_stale(&hosts, &local);
    let mut gone: Vec<(String, String)> = removed.into_iter().map(|h| (h.address, h.name)).collect();
    gone.sort();
    assert_eq!(
        gone,
        vec![
            ("10.0.0.2".to_string(), "b".to_string()),
            ("127.0.0.1".to_string(), "me".to_string()),
        ]
    );
    assert!(t.contains("10.0.0.1"));
    assert!(!t.contains("10.0.0.2"));
    assert!(!t.contains("127.0.0.1"));
}

#[test]
fn remove_stale_keeps_renamed_host() {
    let mut t = HostTable::new();
    t.insert("10.0.0.1".to_string(), "old".to_string());
    let hosts = vec![host("new", "10.0.0.1")];
    let removed = t.remove_stale(&hosts, &Vec::new());
    assert!(removed.is_empty());
    assert_eq!(t.get("10.0.0.1"), Some("old".to_string()));
}
