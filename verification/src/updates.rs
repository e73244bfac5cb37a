//! The metric updates that a ping round decides: which series to drop, to
//! reset, to count, and what to record. Each series is labelled by the
//! pinged address, the host's name, and the name of this machine.

use vstd::prelude::*;
use crate::host::Host;
use crate::table::HostTable;

verus! {

/// The metric series kept per monitored host.
#[derive(Clone, Copy, Debug, PartialEq, Eq, Structural)]
pub enum Metric {
    /// The histogram of ping latencies.
    Latency,
    /// The count of pings left unanswered.
    Errors,
    /// The latency of the last answered ping.
    Last,
    /// Whether the host answered the last ping.
    HostUp,
}

/// The labels of one series: `ip`, `name` and `from`.
#[derive(Debug, PartialEq, Eq)]
pub struct MetricLabels {
    pub ip: String,
    pub name: String,
    pub from: String,
}

impl View for MetricLabels {
    type V = (Seq<char>, Seq<char>, Seq<char>);

    open spec fn view(&self) -> (Seq<char>, Seq<char>, Seq<char>) {
        (self.ip@, self.name@, self.from@)
    }
}

/// One change to the metrics.
#[derive(Debug, PartialEq, Eq)]
pub enum MetricUpdate {
    /// Drop the series of `metric` with these labels.
    Remove { metric: Metric, labels: MetricLabels },
    /// Set the count of unanswered pings back to zero.
    ResetErrors { labels: MetricLabels },
    /// Count one more unanswered ping.
    IncrementErrors { labels: MetricLabels },
    /// Record whether the host is up.
    SetHostUp { labels: MetricLabels, up: bool },
    /// Add a latency, in milliseconds, to the histogram.
    RecordLatency { labels: MetricLabels, millis: u128 },
    /// Record the latency of the last answered ping, in milliseconds.
    SetLast { labels: MetricLabels, millis: u128 },
}

/// What a metric update stands for, over the text of its labels.
pub ghost enum UpdateView {
    Remove(Metric, (Seq<char>, Seq<char>, Seq<char>)),
    ResetErrors((Seq<char>, Seq<char>, Seq<char>)),
    IncrementErrors((Seq<char>, Seq<char>, Seq<char>)),
    SetHostUp((Seq<char>, Seq<char>, Seq<char>), bool),
    RecordLatency((Seq<char>, Seq<char>, Seq<char>), u128),
    SetLast((Seq<char>, Seq<char>, Seq<char>), u128),
}

impl View for MetricUpdate {
    type V = UpdateView;

    open spec fn view(&self) -> UpdateView {
        match self {
            MetricUpdate::Remove { metric, labels } => UpdateView::Remove(*metric, labels@),
            MetricUpdate::ResetErrors { labels } => UpdateView::ResetErrors(labels@),
            MetricUpdate::IncrementErrors { labels } => UpdateView::IncrementErrors(labels@),
            MetricUpdate::SetHostUp { labels, up } => UpdateView::SetHostUp(labels@, *up),
            MetricUpdate::RecordLatency { labels, millis } => UpdateView::RecordLatency(
                labels@,
                *millis,
            ),
            MetricUpdate::SetLast { labels, millis } => UpdateView::SetLast(labels@, *millis),
        }
    }
}

/// The views of a list of updates, in order.
pub open spec fn update_views(v: Seq<MetricUpdate>) -> Seq<UpdateView> {
    v.map_values(|u: MetricUpdate| u@)
}

/// What a ping returned for one address.
#[derive(Debug, PartialEq, Eq)]
pub enum PingOutcome {
    /// No answer came before the timeout.
    Idle { addr: String },
    /// An answer came after `rtt_millis` milliseconds.
    Receive { addr: String, rtt_millis: u128 },
}

/// The address a ping outcome is about.
pub open spec fn outcome_address(o: PingOutcome) -> Seq<char> {
    match o {
        PingOutcome::Idle { addr } => addr@,
        PingOutcome::Receive { addr, .. } => addr@,
    }
}

/// For each host that left the table, in order: drop its latency, error,
/// last-latency and up series.
pub open spec fn removal_updates_spec(removed: Seq<Host>, from: Seq<char>) -> Seq<UpdateView>
    decreases removed.len(),
{
    if removed.len() == 0 {
        seq![]
    } else {
        let h = removed.last();
        let l = (h.address@, h.name@, from);
        removal_updates_spec(removed.drop_last(), from) + seq![
            UpdateView::Remove(Metric::Latency, l),
            UpdateView::Remove(Metric::Errors, l),
            UpdateView::Remove(Metric::Last, l),
            UpdateView::Remove(Metric::HostUp, l),
        ]
    }
}

/// For each host seen for the first time, in order: reset its error count
/// and mark it down until it answers.
pub open spec fn new_host_updates_spec(new_hosts: Seq<Host>, from: Seq<char>) -> Seq<UpdateView>
    decreases new_hosts.len(),
{
    if new_hosts.len() == 0 {
        seq![]
    } else {
        let h = new_hosts.last();
        let l = (h.address@, h.name@, from);
        new_host_updates_spec(new_hosts.drop_last(), from) + seq![
            UpdateView::ResetErrors(l),
            UpdateView::SetHostUp(l, false),
        ]
    }
}

/// For one ping outcome about an address of the table, labelled with the
/// name the table holds: an unanswered ping counts an error, drops the last
/// latency and marks the host down; an answered one records the latency in
/// the histogram and as the last latency, and marks the host up.
pub open spec fn outcome_updates_spec(
    m: Map<Seq<char>, Seq<char>>,
    o: PingOutcome,
    from: Seq<char>,
) -> Seq<UpdateView> {
    let a = outcome_address(o);
    let l = (a, m[a], from);
    match o {
        PingOutcome::Idle { .. } => seq![
            UpdateView::IncrementErrors(l),
            UpdateView::Remove(Metric::Last, l),
            UpdateView::SetHostUp(l, false),
        ],
        PingOutcome::Receive { rtt_millis, .. } => seq![
            UpdateView::RecordLatency(l, rtt_millis),
            UpdateView::SetLast(l, rtt_millis),
            UpdateView::SetHostUp(l, true),
        ],
    }
}

/// Every removed host, in order, has its own four series dropped, labelled
/// by its own address and name: the updates hold four per removed host, and
/// those at positions `4 i` to `4 i + 3` drop the latency, error,
/// last-latency and host-up series of the `i`-th removed host.
pub proof fn lemma_removal_updates_cover_each_removed_host(removed: Seq<Host>, from: Seq<char>)
    ensures
        removal_updates_spec(removed, from).len() == 4 * removed.len(),
        forall|i: int|
            0 <= i < removed.len() ==> {
                let l = ((#[trigger] removed[i]).address@, removed[i].name@, from);
                let u = removal_updates_spec(removed, from);
                &&& u[4 * i] == UpdateView::Remove(Metric::Latency, l)
                &&& u[4 * i + 1] == UpdateView::Remove(Metric::Errors, l)
                &&& u[4 * i + 2] == UpdateView::Remove(Metric::Last, l)
                &&& u[4 * i + 3] == UpdateView::Remove(Metric::HostUp, l)
            },
    decreases removed.len(),
{
    if removed.len() > 0 {
        let pre = removed.drop_last();
        lemma_removal_updates_cover_each_removed_host(pre, from);
        let u = removal_updates_spec(removed, from);
        let p = removal_updates_spec(pre, from);
        assert forall|i: int| 0 <= i < removed.len() implies {
            let l = ((#[trigger] removed[i]).address@, removed[i].name@, from);
            &&& u[4 * i] == UpdateView::Remove(Metric::Latency, l)
            &&& u[4 * i + 1] == UpdateView::Remove(Metric::Errors, l)
            &&& u[4 * i + 2] == UpdateView::Remove(Metric::Last, l)
            &&& u[4 * i + 3] == UpdateView::Remove(Metric::HostUp, l)
        } by {
            if i < removed.len() - 1 {
                assert(removed[i] == pre[i]);
                assert(u[4 * i] == p[4 * i]);
                assert(u[4 * i + 1] == p[4 * i + 1]);
                assert(u[4 * i + 2] == p[4 * i + 2]);
                assert(u[4 * i + 3] == p[4 * i + 3]);
            }
        }
    }
}

/// An answered ping, whatever its latency, records that latency as the
/// histogram sample and as the last latency and marks the host up, and never
/// counts an error or marks the host down; an unanswered ping counts an
/// error, drops the last latency and marks the host down, and records no
/// latency and never marks the host up. Either way the labels are the
/// address, the name the table holds for it, and this machine's name.
pub proof fn lemma_outcome_updates_follow_the_answer(
    m: Map<Seq<char>, Seq<char>>,
    o: PingOutcome,
    from: Seq<char>,
)
    ensures
        ({
            let a = outcome_address(o);
            let l = (a, m[a], from);
            let u = outcome_updates_spec(m, o, from);
            &&& o matches PingOutcome::Receive { rtt_millis, .. } ==> {
                &&& u.contains(UpdateView::RecordLatency(l, rtt_millis))
                &&& u.contains(UpdateView::SetLast(l, rtt_millis))
                &&& u.contains(UpdateView::SetHostUp(l, true))
                &&& forall|i: int|
                    0 <= i < u.len() ==> !((#[trigger] u[i]) is IncrementErrors) && !(u[i] is Remove)
                        && u[i] != UpdateView::SetHostUp(l, false)
            }
            &&& o is Idle ==> {
                &&& u.contains(UpdateView::IncrementErrors(l))
                &&& u.contains(UpdateView::Remove(Metric::Last, l))
                &&& u.contains(UpdateView::SetHostUp(l, false))
                &&& forall|i: int|
                    0 <= i < u.len() ==> !((#[trigger] u[i]) is RecordLatency) && !(u[i] is SetLast)
                        && u[i] != UpdateView::SetHostUp(l, true)
            }
        }),
{
    let a = outcome_address(o);
    let l = (a, m[a], from);
    let u = outcome_updates_spec(m, o, from);
    match o {
        PingOutcome::Receive { rtt_millis, .. } => {
            assert(u[0] == UpdateView::RecordLatency(l, rtt_millis));
            assert(u[1] == UpdateView::SetLast(l, rtt_millis));
            assert(u[2] == UpdateView::SetHostUp(l, true));
        },
        PingOutcome::Idle { .. } => {
            assert(u[0] == UpdateView::IncrementErrors(l));
            assert(u[1] == UpdateView::Remove(Metric::Last, l));
            assert(u[2] == UpdateView::SetHostUp(l, false));
        },
    }
}

fn labels_of(ip: &String, name: &String, from: &str) -> (l: MetricLabels)
    ensures
        l@ == (ip@, name@, from@),
{
    MetricLabels { ip: ip.clone(), name: name.clone(), from: from.to_owned() }
}

/// The updates that drop every series of the removed hosts.
pub fn removal_updates(removed: &Vec<Host>, hostname: &str) -> (r: Vec<MetricUpdate>)
    ensures
        update_views(r@) == removal_updates_spec(removed@, hostname@),
{
    let mut r: Vec<MetricUpdate> = Vec::new();
    let mut i: usize = 0;
    while i < removed.len()
        invariant
            i <= removed@.len(),
            update_views(r@) == removal_updates_spec(removed@.subrange(0, i as int), hostname@),
        decreases removed@.len() - i,
    {
        let ghost prev = r@;
        let h = &removed[i];
        r.push(MetricUpdate::Remove { metric: Metric::Latency, labels: labels_of(&h.address, &h.name, hostname) });
        r.push(MetricUpdate::Remove { metric: Metric::Errors, labels: labels_of(&h.address, &h.name, hostname) });
        r.push(MetricUpdate::Remove { metric: Metric::Last, labels: labels_of(&h.address, &h.name, hostname) });
        r.push(MetricUpdate::Remove { metric: Metric::HostUp, labels: labels_of(&h.address, &h.name, hostname) });
        assert(removed@.subrange(0, i + 1).drop_last() =~= removed@.subrange(0, i as int));
        assert(update_views(r@) =~= update_views(prev) + update_views(r@.subrange(prev.len() as int, r@.len() as int)));
        i = i + 1;
    }
    assert(removed@.subrange(0, removed@.len() as int) =~= removed@);
    r
}

/// The updates for the hosts seen for the first time.
pub fn new_host_updates(new_hosts: &Vec<Host>, hostname: &str) -> (r: Vec<MetricUpdate>)
    ensures
        update_views(r@) == new_host_updates_spec(new_hosts@, hostname@),
{
    let mut r: Vec<MetricUpdate> = Vec::new();
    let mut i: usize = 0;
    while i < new_hosts.len()
        invariant
            i <= new_hosts@.len(),
            update_views(r@) == new_host_updates_spec(new_hosts@.subrange(0, i as int), hostname@),
        decreases new_hosts@.len() - i,
    {
        let ghost prev = r@;
        let h = &new_hosts[i];
        r.push(MetricUpdate::ResetErrors { labels: labels_of(&h.address, &h.name, hostname) });
        r.push(MetricUpdate::SetHostUp { labels: labels_of(&h.address, &h.name, hostname), up: false });
        assert(new_hosts@.subrange(0, i + 1).drop_last() =~= new_hosts@.subrange(0, i as int));
        assert(update_views(r@) =~= update_views(prev) + update_views(r@.subrange(prev.len() as int, r@.len() as int)));
        i = i + 1;
    }
    assert(new_hosts@.subrange(0, new_hosts@.len() as int) =~= new_hosts@);
    r
}

/// The updates for one ping outcome. The address must be in the table:
/// outcomes only come for the addresses the round pinged.
pub fn outcome_updates(table: &HostTable, outcome: &PingOutcome, hostname: &str) -> (r: Vec<MetricUpdate>)
    requires
        table.wf(),
        table@.contains_key(outcome_address(*outcome)),
    ensures
        update_views(r@) == outcome_updates_spec(table@, *outcome, hostname@),
{
    let addr = match outcome {
        PingOutcome::Idle { addr } => addr,
        PingOutcome::Receive { addr, .. } => addr,
    };
    let name = table.get(addr.as_str()).unwrap();
    let mut r: Vec<MetricUpdate> = Vec::new();
    match outcome {
        PingOutcome::Idle { .. } => {
            r.push(MetricUpdate::IncrementErrors { labels: labels_of(addr, &name, hostname) });
            r.push(MetricUpdate::Remove { metric: Metric::Last, labels: labels_of(addr, &name, hostname) });
            r.push(MetricUpdate::SetHostUp { labels: labels_of(addr, &name, hostname), up: false });
        },
        PingOutcome::Receive { rtt_millis, .. } => {
            r.push(MetricUpdate::RecordLatency { labels: labels_of(addr, &name, hostname), millis: *rtt_millis });
            r.push(MetricUpdate::SetLast { labels: labels_of(addr, &name, hostname), millis: *rtt_millis });
            r.push(MetricUpdate::SetHostUp { labels: labels_of(addr, &name, hostname), up: true });
        },
    }
    assert(update_views(r@) =~= outcome_updates_spec(table@, *outcome, hostname@));
    r
}

} // verus!
