use rustyping::net::{local_addresses, strip_port};
use rustyping::web::plan_response;

#[test]
fn strip_port_drops_port_zero() {
    assert_eq!(strip_port("192.168.1.5:0"), "192.168.1.5");
    assert_eq!(strip_port("[fe80::1]:0"), "[fe80::1]");
}

#[test]
fn local_addresses_strip_each() {
    let printed = vec!["127.0.0.1:0".to_string(), "10.1.2.3:0".to_string()];
    assert_eq!(local_addresses(&printed), vec!["127.0.0.1".to_string(), "10.1.2.3".to_string()]);
}

#[test]
fn metrics_path_is_served() {
    let r = plan_response("/metrics");
    assert_eq!(r.status, 200);
    assert!(r.serve_metrics);
    assert_eq!(r.location, None);
}

#[test]
fn other_paths_redirect() {
    for p in ["/", "/metrics/", "/metrics?x=1", "/other"] {
        let r = plan_response(p);
        assert_eq!(r.status, 301);
        assert!(!r.serve_metrics);
        assert_eq!(r.location, Some("/metrics".to_string()));
    }
}
