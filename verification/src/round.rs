//! One ping round: drop the hosts that left the list or are local, record
//! the current hosts, and decide which addresses to ping.

use vstd::prelude::*;
use crate::host::{Host, is_local, is_local_address, lists_address};
use crate::table::{HostTable, is_stale, stale_addresses};
use crate::updates::{
    MetricUpdate, update_views, removal_updates, new_host_updates, removal_updates_spec,
    new_host_updates_spec,
};

verus! {

/// The table after the hosts are recorded in order: each host whose address
/// is not local gets its name recorded, a later host overwriting an earlier
/// one with the same address.
pub open spec fn recorded(m: Map<Seq<char>, Seq<char>>, hosts: Seq<Host>, local: Seq<String>) -> Map<
    Seq<char>,
    Seq<char>,
>
    decreases hosts.len(),
{
    if hosts.len() == 0 {
        m
    } else {
        let prev = recorded(m, hosts.drop_last(), local);
        let h = hosts.last();
        if is_local(local, h.address@) {
            prev
        } else {
            prev.insert(h.address@, h.name@)
        }
    }
}

/// The addresses to ping: those of the hosts that are not local, in order,
/// a repeated address as often as it is listed.
pub open spec fn ping_targets(hosts: Seq<Host>, local: Seq<String>) -> Seq<Seq<char>>
    decreases hosts.len(),
{
    if hosts.len() == 0 {
        seq![]
    } else {
        let prev = ping_targets(hosts.drop_last(), local);
        let h = hosts.last();
        if is_local(local, h.address@) {
            prev
        } else {
            prev.push(h.address@)
        }
    }
}

/// The hosts that, when recorded in order, found no entry for their address:
/// the hosts seen for the first time.
pub open spec fn first_seen(m: Map<Seq<char>, Seq<char>>, hosts: Seq<Host>, local: Seq<String>) -> Seq<
    Host,
>
    decreases hosts.len(),
{
    if hosts.len() == 0 {
        seq![]
    } else {
        let prev = first_seen(m, hosts.drop_last(), local);
        let h = hosts.last();
        if is_local(local, h.address@) || recorded(m, hosts.drop_last(), local).contains_key(
            h.address@,
        ) {
            prev
        } else {
            prev.push(h)
        }
    }
}

/// The addresses to ping this round, and the hosts seen for the first time.
pub struct Registration {
    pub targets: Vec<String>,
    pub new_hosts: Vec<Host>,
}

/// Records every host whose address is not local, in order, and returns the
/// addresses to ping and the hosts that the table did not hold yet.
pub fn record_hosts(table: &mut HostTable, hosts: &Vec<Host>, local: &Vec<String>) -> (r: Registration)
    requires
        old(table).wf(),
    ensures
        final(table).wf(),
        final(table)@ == recorded(old(table)@, hosts@, local@),
        r.targets@.map_values(|t: String| t@) == ping_targets(hosts@, local@),
        r.new_hosts@ == first_seen(old(table)@, hosts@, local@),
{
    let ghost m0 = table@;
    let mut targets: Vec<String> = Vec::new();
    let mut new_hosts: Vec<Host> = Vec::new();
    let mut i: usize = 0;
    while i < hosts.len()
        invariant
            table.wf(),
            i <= hosts@.len(),
            table@ == recorded(m0, hosts@.subrange(0, i as int), local@),
            targets@.map_values(|t: String| t@) == ping_targets(hosts@.subrange(0, i as int), local@),
            new_hosts@ == first_seen(m0, hosts@.subrange(0, i as int), local@),
        decreases hosts@.len() - i,
    {
        let ghost pre = hosts@.subrange(0, i as int);
        let ghost next = hosts@.subrange(0, i + 1);
        assert(next.drop_last() =~= pre);
        assert(next.last() == hosts@[i as int]);
        let h = &hosts[i];
        if !is_local_address(local, h.address.as_str()) {
            let ghost old_targets = targets@;
            targets.push(h.address.clone());
            assert(targets@.map_values(|t: String| t@) =~= old_targets.map_values(|t: String| t@).push(
                h.address@,
            ));
            let previous = table.insert(h.address.clone(), h.name.clone());
            if previous.is_none() {
                new_hosts.push(h.clone());
            }
        }
        i = i + 1;
    }
    assert(hosts@.subrange(0, hosts@.len() as int) =~= hosts@);
    Registration { targets, new_hosts }
}

/// What a round does before it pings: the entries it removed, the addresses
/// to ping, and the metric updates for the removed and the new hosts.
pub struct RoundPlan {
    pub removed: Vec<Host>,
    pub targets: Vec<String>,
    pub updates: Vec<MetricUpdate>,
}

/// Prepares a ping round for the current host list: removes the stale
/// entries from the table, records the current hosts, and returns the
/// addresses to ping with the metric updates: first those that drop the
/// series of each removed host, then those that reset the series of each
/// host seen for the first time.
pub fn plan_ping_round(
    table: &mut HostTable,
    hosts: &Vec<Host>,
    local: &Vec<String>,
    hostname: &str,
) -> (plan: RoundPlan)
    requires
        old(table).wf(),
    ensures
        final(table).wf(),
        final(table)@ == round_table(old(table)@, hosts@, local@),
        forall|i: int, j: int|
            0 <= i < j < plan.removed@.len() ==> (#[trigger] plan.removed@[i]).address@
                != (#[trigger] plan.removed@[j]).address@,
        forall|i: int|
            0 <= i < plan.removed@.len() ==> {
                &&& old(table)@.contains_key((#[trigger] plan.removed@[i]).address@)
                &&& old(table)@[plan.removed@[i].address@] == plan.removed@[i].name@
                &&& is_stale(hosts@, local@, plan.removed@[i].address@)
            },
        forall|a: Seq<char>|
            old(table)@.contains_key(a) && is_stale(hosts@, local@, a) ==> exists|i: int|
                0 <= i < plan.removed@.len() && (#[trigger] plan.removed@[i]).address@ == a,
        plan.targets@.map_values(|t: String| t@) == ping_targets(hosts@, local@),
        update_views(plan.updates@) == removal_updates_spec(plan.removed@, hostname@)
            + new_host_updates_spec(
            first_seen(old(table)@.remove_keys(stale_addresses(hosts@, local@)), hosts@, local@),
            hostname@,
        ),
{
    let removed = table.remove_stale(hosts, local);
    let registration = record_hosts(table, hosts, local);
    let mut updates = removal_updates(&removed, hostname);
    let mut fresh = new_host_updates(&registration.new_hosts, hostname);
    let ghost u1 = updates@;
    let ghost u2 = fresh@;
    updates.append(&mut fresh);
    assert(update_views(updates@) =~= update_views(u1) + update_views(u2));
    RoundPlan { removed, targets: registration.targets, updates }
}

/// Every address a round pings is listed and not local, and every listed
/// address that is not local is pinged.
pub proof fn lemma_targets_are_listed_and_not_local(hosts: Seq<Host>, local: Seq<String>, a: Seq<char>)
    ensures
        ping_targets(hosts, local).contains(a) <==> lists_address(hosts, a) && !is_local(local, a),
    decreases hosts.len(),
{
    if hosts.len() > 0 {
        let pre = hosts.drop_last();
        lemma_targets_are_listed_and_not_local(pre, local, a);
        let t = ping_targets(pre, local);
        let h = hosts.last();
        if !is_local(local, h.address@) {
            assert(t.push(h.address@)[t.len() as int] == h.address@);
            if t.push(h.address@).contains(a) && a != h.address@ {
                let k = choose|k: int| 0 <= k < t.push(h.address@).len() && t.push(h.address@)[k] == a;
                assert(t[k] == a);
            }
            if t.contains(a) {
                let k = choose|k: int| 0 <= k < t.len() && t[k] == a;
                assert(t.push(h.address@)[k] == a);
            }
        }
        if lists_address(hosts, a) && !lists_address(pre, a) {
            let i = choose|i: int| 0 <= i < hosts.len() && (#[trigger] hosts[i]).address@ == a;
            if i < hosts.len() - 1 {
                assert(pre[i] == hosts[i]);
            }
        }
        if lists_address(pre, a) {
            let i = choose|i: int| 0 <= i < pre.len() && (#[trigger] pre[i]).address@ == a;
            assert(hosts[i] == pre[i]);
        }
    }
}

/// The `j`-th listed host is seen for the first time: its address is not
/// local, the table did not hold it, and no host listed before it has the
/// same address.
pub open spec fn is_first_sighting(
    m: Map<Seq<char>, Seq<char>>,
    hosts: Seq<Host>,
    local: Seq<String>,
    j: int,
) -> bool {
    &&& 0 <= j < hosts.len()
    &&& !is_local(local, hosts[j].address@)
    &&& !m.contains_key(hosts[j].address@)
    &&& forall|k: int| 0 <= k < j ==> (#[trigger] hosts[k]).address@ != hosts[j].address@
}

/// The hosts a round reports as seen for the first time are exactly its
/// first sightings: every first sighting is reported, and every reported
/// host is a first sighting.
pub proof fn lemma_first_seen_are_the_first_sightings(
    m: Map<Seq<char>, Seq<char>>,
    hosts: Seq<Host>,
    local: Seq<String>,
)
    ensures
        forall|j: int| #[trigger]
            is_first_sighting(m, hosts, local, j) ==> first_seen(m, hosts, local).contains(hosts[j]),
        forall|i: int|
            0 <= i < first_seen(m, hosts, local).len() ==> exists|j: int|
                is_first_sighting(m, hosts, local, j) && hosts[j] == #[trigger] first_seen(
                    m,
                    hosts,
                    local,
                )[i],
    decreases hosts.len(),
{
    if hosts.len() > 0 {
        let n = hosts.len() - 1;
        let pre = hosts.drop_last();
        let h = hosts.last();
        lemma_first_seen_are_the_first_sightings(m, pre, local);
        let fp = first_seen(m, pre, local);
        let fs = first_seen(m, hosts, local);
        lemma_recorded_keys(m, pre, local, h.address@);
        assert forall|j: int| 0 <= j < n implies is_first_sighting(m, hosts, local, j)
            == is_first_sighting(m, pre, local, j) by {
            assert(hosts[j] == pre[j]);
            assert forall|k: int| 0 <= k < j implies hosts[k] == pre[k] by {}
        }
        let last_first = is_first_sighting(m, hosts, local, n);
        if last_first {
            if lists_address(pre, h.address@) {
                let k = choose|k: int| 0 <= k < pre.len() && (#[trigger] pre[k]).address@ == h.address@;
                assert(hosts[k] == pre[k]);
            }
            assert(fs == fp.push(h));
        } else if !is_local(local, h.address@) && !m.contains_key(h.address@) {
            let k = choose|k: int| 0 <= k < n && (#[trigger] hosts[k]).address@ == hosts[n].address@;
            assert(pre[k] == hosts[k]);
            assert(lists_address(pre, h.address@));
            assert(fs == fp);
        } else {
            assert(fs == fp);
        }
        assert forall|j: int| #[trigger] is_first_sighting(m, hosts, local, j) implies fs.contains(hosts[j]) by {
            if j < n {
                assert(is_first_sighting(m, pre, local, j));
                assert(pre[j] == hosts[j]);
                let i = choose|i: int| 0 <= i < fp.len() && fp[i] == pre[j];
                assert(fs[i] == fp[i]);
            } else {
                assert(fs[fs.len() - 1] == h);
            }
        }
        assert forall|i: int| 0 <= i < fs.len() implies exists|j: int|
            is_first_sighting(m, hosts, local, j) && hosts[j] == #[trigger] fs[i] by {
            if i < fp.len() {
                assert(fs[i] == fp[i]);
                let j = choose|j: int| is_first_sighting(m, pre, local, j) && pre[j] == #[trigger] fp[i];
                assert(is_first_sighting(m, hosts, local, j));
                assert(hosts[j] == pre[j]);
            } else {
                assert(is_first_sighting(m, hosts, local, n));
            }
        }
    }
}

/// The table a round leaves: the stale entries removed, then the current
/// hosts recorded.
pub open spec fn round_table(m: Map<Seq<char>, Seq<char>>, hosts: Seq<Host>, local: Seq<String>) -> Map<
    Seq<char>,
    Seq<char>,
> {
    recorded(m.remove_keys(stale_addresses(hosts, local)), hosts, local)
}

proof fn lemma_recorded_over(m: Map<Seq<char>, Seq<char>>, hosts: Seq<Host>, local: Seq<String>)
    ensures
        recorded(m, hosts, local) == m.union_prefer_right(recorded(Map::empty(), hosts, local)),
    decreases hosts.len(),
{
    if hosts.len() == 0 {
        assert(m.union_prefer_right(Map::empty()) =~= m);
    } else {
        lemma_recorded_over(m, hosts.drop_last(), local);
        let h = hosts.last();
        if !is_local(local, h.address@) {
            assert(m.union_prefer_right(recorded(Map::empty(), hosts.drop_last(), local)).insert(
                h.address@,
                h.name@,
            ) =~= m.union_prefer_right(
                recorded(Map::empty(), hosts.drop_last(), local).insert(h.address@, h.name@),
            ));
        }
    }
}

proof fn lemma_recorded_keys(m: Map<Seq<char>, Seq<char>>, hosts: Seq<Host>, local: Seq<String>, a: Seq<char>)
    ensures
        recorded(m, hosts, local).contains_key(a) <==> m.contains_key(a) || (lists_address(
            hosts,
            a,
        ) && !is_local(local, a)),
    decreases hosts.len(),
{
    if hosts.len() > 0 {
        let pre = hosts.drop_last();
        lemma_recorded_keys(m, pre, local, a);
        if lists_address(hosts, a) && !lists_address(pre, a) {
            let i = choose|i: int| 0 <= i < hosts.len() && (#[trigger] hosts[i]).address@ == a;
            if i < hosts.len() - 1 {
                assert(pre[i] == hosts[i]);
            }
        }
        if lists_address(pre, a) {
            let i = choose|i: int| 0 <= i < pre.len() && (#[trigger] pre[i]).address@ == a;
            assert(hosts[i] == pre[i]);
        }
    }
}

/// The table after a round holds exactly the current hosts whose address is
/// not local, each under the name of the last host listed with its address;
/// what the table held before the round does not matter.
pub proof fn lemma_round_table_mirrors_hosts(
    m: Map<Seq<char>, Seq<char>>,
    hosts: Seq<Host>,
    local: Seq<String>,
)
    ensures
        round_table(m, hosts, local) == recorded(Map::empty(), hosts, local),
        forall|a: Seq<char>|
            #[trigger] round_table(m, hosts, local).contains_key(a) <==> lists_address(hosts, a)
                && !is_local(local, a),
{
    let kept = m.remove_keys(stale_addresses(hosts, local));
    let fresh = recorded(Map::empty(), hosts, local);
    lemma_recorded_over(kept, hosts, local);
    assert forall|a: Seq<char>| #[trigger] fresh.contains_key(a) <==> lists_address(hosts, a) && !is_local(
        local,
        a,
    ) by {
        lemma_recorded_keys(Map::empty(), hosts, local, a);
    }
    assert(kept.union_prefer_right(fresh) =~= fresh);
}

/// Running a second round on the same host list and local addresses changes
/// nothing: no entry is stale, no host is seen for the first time, and the
/// table stays as it was.
pub proof fn lemma_repeated_round_is_quiet(
    m: Map<Seq<char>, Seq<char>>,
    hosts: Seq<Host>,
    local: Seq<String>,
)
    ensures
        ({
            let m1 = round_table(m, hosts, local);
            &&& m1.remove_keys(stale_addresses(hosts, local)) == m1
            &&& first_seen(m1.remove_keys(stale_addresses(hosts, local)), hosts, local) == Seq::<
                Host,
            >::empty()
            &&& round_table(m1, hosts, local) == m1
        }),
{
    let m1 = round_table(m, hosts, local);
    lemma_round_table_mirrors_hosts(m, hosts, local);
    lemma_round_table_mirrors_hosts(m1, hosts, local);
    assert(m1.remove_keys(stale_addresses(hosts, local)) =~= m1);
    lemma_no_first_seen(m1, hosts, hosts.len() as int, local);
    assert(hosts.subrange(0, hosts.len() as int) =~= hosts);
}

proof fn lemma_no_first_seen(m: Map<Seq<char>, Seq<char>>, hosts: Seq<Host>, n: int, local: Seq<String>)
    requires
        0 <= n <= hosts.len(),
        forall|a: Seq<char>| lists_address(hosts, a) && !is_local(local, a) ==> #[trigger] m.contains_key(a),
    ensures
        first_seen(m, hosts.subrange(0, n), local) == Seq::<Host>::empty(),
    decreases n,
{
    if n > 0 {
        let pre = hosts.subrange(0, n);
        assert(pre.drop_last() =~= hosts.subrange(0, n - 1));
        lemma_no_first_seen(m, hosts, n - 1, local);
        let h = pre.last();
        assert(h == hosts[n - 1]);
        if !is_local(local, h.address@) {
            assert(lists_address(hosts, h.address@));
            assert(m.contains_key(h.address@));
            lemma_recorded_keys(m, pre.drop_last(), local, h.address@);
        }
    }
}

} // verus!
