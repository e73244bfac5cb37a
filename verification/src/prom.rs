//! Registering the per-host metric vectors in the registry that the web
//! endpoint serves.

use vstd::prelude::*;
use prometheus::{CounterVec, GaugeVec, HistogramVec, Registry};
use crate::updates::Metric;

verus! {

#[verifier::external_type_specification]
#[verifier::external_body]
pub struct ExRegistry(prometheus::Registry);

#[verifier::external_type_specification]
#[verifier::external_body]
pub struct ExPrometheusError(prometheus::Error);

/// The four metric vectors kept per monitored host, each labelled by `ip`,
/// `name` and `from`. The builder types of these vectors are private to
/// prometheus, so the struct is opaque here: it is only carried to the
/// registry.
#[verifier::external_body]
pub struct PingMetrics {
    pub latency: HistogramVec,
    pub errors: CounterVec,
    pub last: GaugeVec,
    pub host_up: GaugeVec,
}

/// A registry together with the record of the metric vectors handed to it
/// through this handle, in order, each with the registry's answer.
pub struct Registrar {
    registry: Registry,
    handed: Ghost<Seq<(Metric, Result<(), prometheus::Error>)>>,
}

impl Registrar {
    /// A handle on `registry` that has handed nothing over yet.
    pub fn new(registry: Registry) -> (r: Self)
        ensures
            r.held() == registry,
            r.handed() == Seq::<(Metric, Result<(), prometheus::Error>)>::empty(),
    {
        Registrar { registry, handed: Ghost(Seq::empty()) }
    }

    /// The vectors handed to the registry through this handle, in order,
    /// each with the registry's answer.
    pub closed spec fn handed(&self) -> Seq<(Metric, Result<(), prometheus::Error>)> {
        self.handed@
    }

    /// The registry the handle holds.
    pub closed spec fn held(&self) -> Registry {
        self.registry
    }

    /// The registry.
    pub fn registry(&self) -> (r: &Registry)
        ensures
            *r == self.held(),
    {
        &self.registry
    }
}

/// Calls `Registry::register` with a clone of the latency histogram vector,
/// and records that vector with the registry's answer. Nothing is claimed of
/// the answer: it depends on what the registry holds.
#[verifier::external_body]
fn register_latency(reg: &mut Registrar, metrics: &PingMetrics) -> (r: Result<(), prometheus::Error>)
    ensures
        final(reg).handed() == old(reg).handed().push((Metric::Latency, r)),
{
    reg.registry.register(Box::new(metrics.latency.clone()))
}

/// Calls `Registry::register` with a clone of the error counter vector, and
/// records that vector with the registry's answer. Nothing is claimed of the
/// answer: it depends on what the registry holds.
#[verifier::external_body]
fn register_errors(reg: &mut Registrar, metrics: &PingMetrics) -> (r: Result<(), prometheus::Error>)
    ensures
        final(reg).handed() == old(reg).handed().push((Metric::Errors, r)),
{
    reg.registry.register(Box::new(metrics.errors.clone()))
}

/// Calls `Registry::register` with a clone of the last-latency gauge vector,
/// and records that vector with the registry's answer. Nothing is claimed of
/// the answer: it depends on what the registry holds.
#[verifier::external_body]
fn register_last(reg: &mut Registrar, metrics: &PingMetrics) -> (r: Result<(), prometheus::Error>)
    ensures
        final(reg).handed() == old(reg).handed().push((Metric::Last, r)),
{
    reg.registry.register(Box::new(metrics.last.clone()))
}

/// Calls `Registry::register` with a clone of the host-up gauge vector, and
/// records that vector with the registry's answer. Nothing is claimed of the
/// answer: it depends on what the registry holds.
#[verifier::external_body]
fn register_host_up(reg: &mut Registrar, metrics: &PingMetrics) -> (r: Result<(), prometheus::Error>)
    ensures
        final(reg).handed() == old(reg).handed().push((Metric::HostUp, r)),
{
    reg.registry.register(Box::new(metrics.host_up.clone()))
}

/// A metric vector that the registry refused, and why.
#[derive(Debug)]
pub struct RegistrationError {
    pub metric: Metric,
    pub cause: prometheus::Error,
}

/// The order in which the per-host vectors are handed to the registry.
pub open spec fn registration_order() -> Seq<Metric> {
    seq![Metric::Latency, Metric::Errors, Metric::Last, Metric::HostUp]
}

/// What registration does after the registry answers for one vector.
#[derive(Debug)]
pub enum RegistrationStep {
    /// Hand this vector over next.
    Next(Metric),
    /// Every vector was accepted.
    Done,
    /// The registry refused a vector: registration ends with this error.
    Refused(RegistrationError),
}

/// Decides what follows the registry's answer for the vector `handed`: on
/// acceptance, the next vector in the registration order, or the end after
/// the last one; on refusal, the end, with that vector and the registry's
/// error.
pub fn next_registration(handed: Metric, answer: Result<(), prometheus::Error>) -> (r:
    RegistrationStep)
    ensures
        answer is Ok && handed == Metric::Latency ==> r == RegistrationStep::Next(Metric::Errors),
        answer is Ok && handed == Metric::Errors ==> r == RegistrationStep::Next(Metric::Last),
        answer is Ok && handed == Metric::Last ==> r == RegistrationStep::Next(Metric::HostUp),
        answer is Ok && handed == Metric::HostUp ==> r is Done,
        answer matches Err(c) ==> (r matches RegistrationStep::Refused(e) && e.metric == handed
            && e.cause == c),
{
    match answer {
        Err(cause) => RegistrationStep::Refused(RegistrationError { metric: handed, cause }),
        Ok(()) => match handed {
            Metric::Latency => RegistrationStep::Next(Metric::Errors),
            Metric::Errors => RegistrationStep::Next(Metric::Last),
            Metric::Last => RegistrationStep::Next(Metric::HostUp),
            Metric::HostUp => RegistrationStep::Done,
        },
    }
}

/// Hands the vector `metric` of `metrics` to the registry and returns its
/// answer, which the record gains with that vector.
fn hand_over(reg: &mut Registrar, metrics: &PingMetrics, metric: Metric) -> (r: Result<
    (),
    prometheus::Error,
>)
    ensures
        final(reg).handed() == old(reg).handed().push((metric, r)),
{
    match metric {
        Metric::Latency => register_latency(reg, metrics),
        Metric::Errors => register_errors(reg, metrics),
        Metric::Last => register_last(reg, metrics),
        Metric::HostUp => register_host_up(reg, metrics),
    }
}

/// The vectors one registration handed over, with the registry's answers,
/// meet the registration rule: they follow the registration order, every
/// one but the last was accepted, and the result is `Ok` exactly when all
/// four were accepted; otherwise it names the last vector, which the
/// registry refused, with the registry's error.
pub open spec fn registration_follows(
    t: Seq<(Metric, Result<(), prometheus::Error>)>,
    result: Result<(), RegistrationError>,
) -> bool {
    &&& 1 <= t.len() <= 4
    &&& forall|i: int| 0 <= i < t.len() ==> (#[trigger] t[i]).0 == registration_order()[i]
    &&& forall|i: int| 0 <= i < t.len() - 1 ==> (#[trigger] t[i]).1 is Ok
    &&& result is Ok <==> t.len() == 4 && t[3].1 is Ok
    &&& result matches Err(e) ==> (t.last().1 matches Err(c) && e.cause == c) && e.metric
        == t.last().0
}

/// Registers the latency, error, last-latency and host-up vectors, in that
/// order, in the registry; stops at the first that the registry refuses and
/// reports it. Whether the registry accepts a vector depends on what it
/// already holds, so no input is promised success. The handle's record gains
/// exactly the vectors handed over, each with the registry's answer.
pub fn init_custom_registry(reg: &mut Registrar, metrics: &PingMetrics) -> (r: Result<
    (),
    RegistrationError,
>)
    ensures
        old(reg).handed().len() <= final(reg).handed().len(),
        final(reg).handed().subrange(0, old(reg).handed().len() as int) == old(reg).handed(),
        registration_follows(
            final(reg).handed().subrange(old(reg).handed().len() as int, final(reg).handed().len() as int),
            r,
        ),
{
    let ghost start = reg.handed();
    let mut step = RegistrationStep::Next(Metric::Latency);
    loop
        invariant
            start == old(reg).handed(),
            start.len() <= reg.handed().len() <= start.len() + 4,
            reg.handed().subrange(0, start.len() as int) == start,
            ({
                let t = reg.handed().subrange(start.len() as int, reg.handed().len() as int);
                &&& forall|i: int| 0 <= i < t.len() ==> (#[trigger] t[i]).0 == registration_order()[i]
                &&& forall|i: int| 0 <= i < t.len() - 1 ==> (#[trigger] t[i]).1 is Ok
                &&& step matches RegistrationStep::Next(m) ==> t.len() < 4 && m == registration_order()[t.len() as int]
                    && (t.len() > 0 ==> t.last().1 is Ok)
                &&& step is Done ==> t.len() == 4 && t[3].1 is Ok
                &&& step matches RegistrationStep::Refused(e) ==> t.len() >= 1 && (t.last().1 matches Err(c)
                    && e.cause == c) && e.metric == t.last().0
            }),
        decreases start.len() + 4 - reg.handed().len(), if step is Next { 1int } else { 0int },
    {
        match step {
            RegistrationStep::Next(m) => {
                let ghost before = reg.handed();
                let answer = hand_over(reg, metrics, m);
                proof {
                    let t0 = before.subrange(start.len() as int, before.len() as int);
                    let t1 = reg.handed().subrange(start.len() as int, reg.handed().len() as int);
                    assert(t1 =~= t0.push((m, answer)));
                    assert(reg.handed().subrange(0, start.len() as int) =~= start);
                }
                step = next_registration(m, answer);
            },
            RegistrationStep::Done => {
                return Ok(());
            },
            RegistrationStep::Refused(e) => {
                return Err(e);
            },
        }
    }
}

} // verus!
