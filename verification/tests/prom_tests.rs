use prometheus::{CounterVec, GaugeVec, HistogramOpts, HistogramVec, Opts, Registry};
use rustyping::prom::{init_custom_registry, next_registration, PingMetrics, Registrar, RegistrationStep};
use rustyping::updates::Metric;

fn metrics() -> PingMetrics {
    let labels = &["ip", "name", "from"];
    PingMetrics {
        latency: HistogramVec::new(
            HistogramOpts::new("rustyping_ping_latency", "Ping Latency")
                .buckets(prometheus::exponential_buckets(0.100, 1.37, 30).unwrap()),
            labels,
        )
        .unwrap(),
        errors: CounterVec::new(Opts::new("rustyping_ping_error", "Ping error"), labels).unwrap(),
        last: GaugeVec::new(Opts::new("rustyping_ping_last", "Last ping latency"), labels).unwrap(),
        host_up: GaugeVec::new(Opts::new("rustyping_host_up", "Host is responding to ICMP"), labels)
            .unwrap(),
    }
}

#[test]
fn registers_all_four_vectors() {
    let mut registry = Registrar::new(Registry::new());
    let m = metrics();
    assert!(init_custom_registry(&mut registry, &m).is_ok());
    m.host_up.with_label_values(&["10.0.0.1", "a", "probe"]).set(1.0);
    let names: Vec<String> = registry.registry().gather().iter().map(|f| f.get_name().to_string()).collect();
    assert!(names.contains(&"rustyping_host_up".to_string()));
}

#[test]
fn second_registration_is_refused_at_the_first_vector() {
    let mut registry = Registrar::new(Registry::new());
    let m = metrics();
    init_custom_registry(&mut registry, &m).ok().unwrap();
    let before = registry.registry().gather().len();
    let e = init_custom_registry(&mut registry, &m).err().unwrap();
    assert_eq!(registry.registry().gather().len(), before);
    assert_eq!(e.metric, Metric::Latency);
    assert!(matches!(e.cause, prometheus::Error::AlreadyReg));
}

#[test]
fn next_registration_follows_the_order() {
    assert!(matches!(next_registration(Metric::Latency, Ok(())), RegistrationStep::Next(Metric::Errors)));
    assert!(matches!(next_registration(Metric::Errors, Ok(())), RegistrationStep::Next(Metric::Last)));
    assert!(matches!(next_registration(Metric::Last, Ok(())), RegistrationStep::Next(Metric::HostUp)));
    assert!(matches!(next_registration(Metric::HostUp, Ok(())), RegistrationStep::Done));
}

#[test]
fn next_registration_stops_at_a_refusal() {
    match next_registration(Metric::Last, Err(prometheus::Error::AlreadyReg)) {
        RegistrationStep::Refused(e) => {
            assert_eq!(e.metric, Metric::Last);
            assert!(matches!(e.cause, prometheus::Error::AlreadyReg));
        }
        other => panic!("unexpected step {:?}", other),
    }
}

#[test]
fn registry_holds_exactly_the_four_vectors() {
    let mut registry = Registrar::new(Registry::new());
    let m = metrics();
    init_custom_registry(&mut registry, &m).ok().unwrap();
    let v = ["10.0.0.1", "a", "probe"];
    m.latency.with_label_values(&v).observe(1.0);
    m.errors.with_label_values(&v).inc();
    m.last.with_label_values(&v).set(1.0);
    m.host_up.with_label_values(&v).set(1.0);
    let mut names: Vec<String> = registry.registry().gather().iter().map(|f| f.get_name().to_string()).collect();
    names.sort();
    assert_eq!(
        names,
        vec![
            "rustyping_host_up".to_string(),
            "rustyping_ping_error".to_string(),
            "rustyping_ping_last".to_string(),
            "rustyping_ping_latency".to_string(),
        ]
    );
}

#[test]
fn handle_on_a_clone_registers_in_the_shared_registry() {
    let shared = Registry::new();
    let mut registrar = Registrar::new(shared.clone());
    let m = metrics();
    init_custom_registry(&mut registrar, &m).ok().unwrap();
    m.host_up.with_label_values(&["10.0.0.1", "a", "probe"]).set(0.0);
    let names: Vec<String> = shared.gather().iter().map(|f| f.get_name().to_string()).collect();
    assert!(names.contains(&"rustyping_host_up".to_string()));
}
