use rustyping::host::Host;
use rustyping::round::{plan_ping_round, record_hosts};
use rustyping::table::HostTable;
use rustyping::updates::{Metric, MetricLabels, MetricUpdate, PingOutcome, outcome_updates};

fn host(name: &str, address: &str) -> Host {
    Host { name: name.to_string(), address: address.to_string() }
}

fn labels(ip: &str, name: &str, from: &str) -> MetricLabels {
    MetricLabels { ip: ip.to_string(), name: name.to_string(), from: from.to_string() }
}

#[test]
fn first_round_registers_hosts_and_skips_local() {
    let mut t = HostTable::new();
    let hosts = vec![host("a", "10.0.0.1"), host("me", "127.0.0.1"), host("b", "10.0.0.2")];
    let local = vec!["127.0.0.1".to_string()];
    let plan = plan_ping_round(&mut t, &hosts, &local, "probe");
    assert!(plan.removed.is_empty());
    assert_eq!(plan.targets, vec!["10.0.0.1".to_string(), "10.0.0.2".to_string()]);
    assert_eq!(
        plan.updates,
        vec![
            MetricUpdate::ResetErrors { labels: labels("10.0.0.1", "a", "probe") },
            MetricUpdate::SetHostUp { labels: labels("10.0.0.1", "a", "probe"), up: false },
            MetricUpdate::ResetErrors { labels: labels("10.0.0.2", "b", "probe") },
            MetricUpdate::SetHostUp { labels: labels("10.0.0.2", "b", "probe"), up: false },
        ]
    );
    assert!(t.contains("10.0.0.1"));
    assert!(t.contains("10.0.0.2"));
    assert!(!t.contains("127.0.0.1"));
}

#[test]
fn repeated_round_is_quiet() {
    let mut t = HostTable::new();
    let hosts = vec![host("a", "10.0.0.1"), host("b", "10.0.0.2")];
    plan_ping_round(&mut t, &hosts, &Vec::new(), "probe");
    let plan = plan_ping_round(&mut t, &hosts, &Vec::new(), "probe");
    assert!(plan.removed.is_empty());
    assert!(plan.updates.is_empty());
    assert_eq!(plan.targets.len(), 2);
    assert_eq!(t.get("10.0.0.1"), Some("a".to_string()));
}

#[test]
fn host_leaving_the_list_is_removed_with_its_series() {
    let mut t = HostTable::new();
    plan_ping_round(&mut t, &vec![host("a", "10.0.0.1"), host("b", "10.0.0.2")], &Vec::new(), "probe");
    let plan = plan_ping_round(&mut t, &vec![host("a", "10.0.0.1")], &Vec::new(), "probe");
    assert_eq!(plan.removed.len(), 1);
    assert_eq!(plan.removed[0].address, "10.0.0.2");
    assert_eq!(plan.removed[0].name, "b");
    assert_eq!(
        plan.updates,
        vec![
            MetricUpdate::Remove { metric: Metric::Latency, labels: labels("10.0.0.2", "b", "probe") },
            MetricUpdate::Remove { metric: Metric::Errors, labels: labels("10.0.0.2", "b", "probe") },
            MetricUpdate::Remove { metric: Metric::Last, labels: labels("10.0.0.2", "b", "probe") },
            MetricUpdate::Remove { metric: Metric::HostUp, labels: labels("10.0.0.2", "b", "probe") },
        ]
    );
    assert!(!t.contains("10.0.0.2"));
}

#[test]
fn address_becoming_local_is_removed_and_not_pinged() {
    let mut t = HostTable::new();
    let hosts = vec![host("a", "10.0.0.1")];
    plan_ping_round(&mut t, &hosts, &Vec::new(), "probe");
    let plan = plan_ping_round(&mut t, &hosts, &vec!["10.0.0.1".to_string()], "probe");
    assert_eq!(plan.removed.len(), 1);
    assert!(plan.targets.is_empty());
    assert!(!t.contains("10.0.0.1"));
}

#[test]
fn renamed_host_keeps_its_series_and_takes_new_name() {
    let mut t = HostTable::new();
    plan_ping_round(&mut t, &vec![host("old", "10.0.0.1")], &Vec::new(), "probe");
    let plan = plan_ping_round(&mut t, &vec![host("new", "10.0.0.1")], &Vec::new(), "probe");
    assert!(plan.removed.is_empty());
    assert!(plan.updates.is_empty());
    assert_eq!(t.get("10.0.0.1"), Some("new".to_string()));
}

#[test]
fn repeated_address_is_pinged_twice_and_last_name_wins() {
    let mut t = HostTable::new();
    let reg = record_hosts(&mut t, &vec![host("x", "10.0.0.1"), host("y", "10.0.0.1")], &Vec::new());
    assert_eq!(reg.targets, vec!["10.0.0.1".to_string(), "10.0.0.1".to_string()]);
    assert_eq!(reg.new_hosts.len(), 1);
    assert_eq!(reg.new_hosts[0].name, "x");
    assert_eq!(t.get("10.0.0.1"), Some("y".to_string()));
}

#[test]
fn table_after_round_ignores_history() {
    let hosts = vec![host("a", "10.0.0.1"), host("b", "10.0.0.2")];
    let mut fresh = HostTable::new();
    plan_ping_round(&mut fresh, &hosts, &Vec::new(), "probe");
    let mut used = HostTable::new();
    plan_ping_round(&mut used, &vec![host("c", "10.0.0.3"), host("z", "10.0.0.2")], &Vec::new(), "probe");
    plan_ping_round(&mut used, &hosts, &Vec::new(), "probe");
    for a in ["10.0.0.1", "10.0.0.2", "10.0.0.3"] {
        assert_eq!(fresh.get(a), used.get(a));
    }
}

#[test]
fn idle_outcome_counts_an_error_and_marks_down() {
    let mut t = HostTable::new();
    plan_ping_round(&mut t, &vec![host("a", "10.0.0.1")], &Vec::new(), "probe");
    let u = outcome_updates(&t, &PingOutcome::Idle { addr: "10.0.0.1".to_string() }, "probe");
    assert_eq!(
        u,
        vec![
            MetricUpdate::IncrementErrors { labels: labels("10.0.0.1", "a", "probe") },
            MetricUpdate::Remove { metric: Metric::Last, labels: labels("10.0.0.1", "a", "probe") },
            MetricUpdate::SetHostUp { labels: labels("10.0.0.1", "a", "probe"), up: false },
        ]
    );
}

#[test]
fn received_outcome_records_latency_and_marks_up() {
    let mut t = HostTable::new();
    plan_ping_round(&mut t, &vec![host("a", "10.0.0.1")], &Vec::new(), "probe");
    let u = outcome_updates(
        &t,
        &PingOutcome::Receive { addr: "10.0.0.1".to_string(), rtt_millis: 12 },
        "probe",
    );
    assert_eq!(
        u,
        vec![
            MetricUpdate::RecordLatency { labels: labels("10.0.0.1", "a", "probe"), millis: 12 },
            MetricUpdate::SetLast { labels: labels("10.0.0.1", "a", "probe"), millis: 12 },
            MetricUpdate::SetHostUp { labels: labels("10.0.0.1", "a", "probe"), up: true },
        ]
    );
}
