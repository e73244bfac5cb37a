//! Monitored hosts, and how they are read from the members of the Redis set:
//! each member is written `name@address`.

use vstd::prelude::*;
use vstd::string::*;
use crate::text::{chars_of, text_eq};
use vstd::std_specs::cmp::PartialEqSpec;

verus! {

/// A host to be pinged: its display name and its address.
#[derive(Debug)]
pub struct Host {
    pub name: String,
    pub address: String,
}

impl Clone for Host {
    fn clone(&self) -> (r: Self)
        ensures
            r == *self,
    {
        Host { name: self.name.clone(), address: self.address.clone() }
    }
}

/// Two hosts are the same host when their addresses are equal, whatever
/// their names.
impl PartialEq for Host {
    fn eq(&self, other: &Self) -> (r: bool) {
        self.address == other.address
    }
}

impl vstd::std_specs::cmp::PartialEqSpecImpl for Host {
    open spec fn obeys_eq_spec() -> bool {
        true
    }

    open spec fn eq_spec(&self, other: &Self) -> bool {
        self.address@ == other.address@
    }
}

/// Host equality is an equivalence that looks at the address alone: a host
/// equals itself, equality is symmetric and transitive, and renaming a host
/// keeps it equal to the host it was.
pub proof fn lemma_host_eq_is_address_eq(a: Host, b: Host, c: Host)
    ensures
        a.eq_spec(&a),
        a.eq_spec(&b) == b.eq_spec(&a),
        a.eq_spec(&b) && b.eq_spec(&c) ==> a.eq_spec(&c),
        a.eq_spec(&b) <==> a.address@ == b.address@,
        (Host { name: b.name, address: a.address }).eq_spec(&a),
{
}

/// Position of the first `c` in `s` at or after `from`.
pub open spec fn find_from(s: Seq<char>, c: char, from: int) -> Option<int>
    decreases s.len() - from,
{
    if from < 0 || from >= s.len() {
        None
    } else if s[from] == c {
        Some(from)
    } else {
        find_from(s, c, from + 1)
    }
}

/// The host a Redis set member names, as `(name, address)`: `None` when the
/// member holds no `@`; else the name is the text before the first `@`, and
/// the address the text between the first `@` and the next one, or the end.
pub open spec fn spec_parse_host_entry(s: Seq<char>) -> Option<(Seq<char>, Seq<char>)> {
    match find_from(s, '@', 0) {
        None => None,
        Some(i) => Some(
            (
                s.subrange(0, i),
                match find_from(s, '@', i + 1) {
                    Some(j) => s.subrange(i + 1, j),
                    None => s.subrange(i + 1, s.len() as int),
                },
            ),
        ),
    }
}

proof fn lemma_find_from_skips(s: Seq<char>, c: char, from: int, k: int)
    requires
        0 <= from <= k <= s.len(),
        forall|j: int| from <= j < k ==> s[j] != c,
    ensures
        find_from(s, c, from) == find_from(s, c, k),
    decreases k - from,
{
    if from < k {
        lemma_find_from_skips(s, c, from + 1, k);
    }
}

/// The first `c` in `d[from..]`.
fn find_char(d: &Vec<char>, c: char, from: usize) -> (r: Option<usize>)
    requires
        from <= d@.len(),
    ensures
        match r {
            Some(i) => from <= i < d@.len() && find_from(d@, c, from as int) == Some(i as int),
            None => find_from(d@, c, from as int) is None,
        },
{
    let n = d.len();
    let mut i = from;
    while i < n
        invariant
            n == d@.len(),
            from <= i <= n,
            forall|j: int| from <= j < i ==> d@[j] != c,
        decreases n - i,
    {
        if d[i] == c {
            proof {
                lemma_find_from_skips(d@, c, from as int, i as int);
            }
            return Some(i);
        }
        i = i + 1;
    }
    proof {
        lemma_find_from_skips(d@, c, from as int, n as int);
    }
    None
}

/// Reads a Redis set member `name@address`, as the member's text split at
/// each `@`: `None` where there is no `@`, else the first two pieces.
pub fn parse_host_entry(entry: &str) -> (r: Option<Host>)
    ensures
        match r {
            Some(h) => spec_parse_host_entry(entry@) == Some((h.name@, h.address@)),
            None => spec_parse_host_entry(entry@) is None,
        },
{
    let d = chars_of(entry);
    match find_char(&d, '@', 0) {
        None => None,
        Some(i) => {
            let end = match find_char(&d, '@', i + 1) {
                Some(j) => j,
                None => d.len(),
            };
            let name = entry.substring_char(0, i).to_owned();
            let address = entry.substring_char(i + 1, end).to_owned();
            Some(Host { name, address })
        },
    }
}

/// The `(name, address)` of each host, in order.
pub open spec fn host_views(hosts: Seq<Host>) -> Seq<(Seq<char>, Seq<char>)> {
    hosts.map_values(|h: Host| (h.name@, h.address@))
}

/// The text of each string, in order.
pub open spec fn string_views(v: Seq<String>) -> Seq<Seq<char>> {
    v.map_values(|s: String| s@)
}

/// The hosts that a list of Redis set members names, in the members' order:
/// a member without `@` is skipped.
pub open spec fn spec_hosts_from_members(members: Seq<Seq<char>>) -> Seq<(Seq<char>, Seq<char>)>
    decreases members.len(),
{
    if members.len() == 0 {
        seq![]
    } else {
        let prev = spec_hosts_from_members(members.drop_last());
        match spec_parse_host_entry(members.last()) {
            Some(h) => prev.push(h),
            None => prev,
        }
    }
}

/// Reads every member of the Redis set of targets, keeping those that name a
/// host.
pub fn hosts_from_members(members: &Vec<String>) -> (hosts: Vec<Host>)
    ensures
        host_views(hosts@) == spec_hosts_from_members(string_views(members@)),
{
    let mut hosts: Vec<Host> = Vec::new();
    let mut i: usize = 0;
    while i < members.len()
        invariant
            i <= members@.len(),
            host_views(hosts@) == spec_hosts_from_members(string_views(members@.subrange(0, i as int))),
        decreases members@.len() - i,
    {
        proof {
            assert(string_views(members@.subrange(0, i + 1)).drop_last() =~= string_views(
                members@.subrange(0, i as int),
            ));
            assert(string_views(members@.subrange(0, i + 1)).last() == members@[i as int]@);
        }
        let ghost prev = hosts@;
        match parse_host_entry(members[i].as_str()) {
            Some(h) => {
                hosts.push(h);
                assert(host_views(hosts@) =~= host_views(prev).push((h.name@, h.address@)));
            },
            None => {},
        }
        i = i + 1;
    }
    assert(members@.subrange(0, members@.len() as int) =~= members@);
    hosts
}

/// The text holds an `@`.
pub open spec fn has_at(s: Seq<char>) -> bool {
    exists|i: int| 0 <= i < s.len() && s[i] == '@'
}

proof fn lemma_find_from_finds(s: Seq<char>, c: char, from: int)
    requires
        0 <= from,
    ensures
        find_from(s, c, from) is Some <==> exists|i: int| from <= i < s.len() && s[i] == c,
    decreases s.len() - from,
{
    if from < s.len() && s[from] != c {
        lemma_find_from_finds(s, c, from + 1);
        if exists|i: int| from <= i < s.len() && s[i] == c {
            let i = choose|i: int| from <= i < s.len() && s[i] == c;
            assert(from + 1 <= i);
        }
    }
}

/// A member names a host exactly when it holds an `@`.
pub proof fn lemma_member_names_a_host_iff_it_has_at(s: Seq<char>)
    ensures
        spec_parse_host_entry(s) is Some <==> has_at(s),
{
    lemma_find_from_finds(s, '@', 0);
}

/// The hosts read from a list of members are, in the members' order, the
/// hosts named by exactly the members that hold an `@`: one per such member,
/// none for any other.
pub proof fn lemma_hosts_from_members_reads_every_named_member(members: Seq<Seq<char>>)
    ensures
        spec_hosts_from_members(members) == members.filter(|m: Seq<char>| has_at(m)).map_values(
            |m: Seq<char>| spec_parse_host_entry(m).unwrap(),
        ),
    decreases members.len(),
{
    reveal(Seq::filter);
    let pred = |m: Seq<char>| has_at(m);
    let f = |m: Seq<char>| spec_parse_host_entry(m).unwrap();
    if members.len() == 0 {
        assert(members.filter(pred) =~= Seq::<Seq<char>>::empty());
        assert(members.filter(pred).map_values(f) =~= Seq::<(Seq<char>, Seq<char>)>::empty());
    } else {
        let pre = members.drop_last();
        lemma_hosts_from_members_reads_every_named_member(pre);
        lemma_member_names_a_host_iff_it_has_at(members.last());
        if has_at(members.last()) {
            assert(members.filter(pred) == pre.filter(pred).push(members.last()));
            assert(members.filter(pred).map_values(f) =~= pre.filter(pred).map_values(f).push(
                f(members.last()),
            ));
        } else {
            assert(members.filter(pred) == pre.filter(pred));
        }
    }
}

/// The text has no `@`.
pub open spec fn has_no_at(s: Seq<char>) -> bool {
    forall|i: int| 0 <= i < s.len() ==> s[i] != '@'
}

/// A member written from a name and an address that hold no `@` reads back
/// as that same name and address.
pub proof fn lemma_parse_host_entry_roundtrip(name: Seq<char>, address: Seq<char>)
    requires
        has_no_at(name),
        has_no_at(address),
    ensures
        spec_parse_host_entry(name + seq!['@'] + address) == Some((name, address)),
{
    let s = name + seq!['@'] + address;
    let n = name.len() as int;
    assert forall|j: int| 0 <= j < n implies s[j] != '@' by {
        assert(s[j] == name[j]);
    }
    lemma_find_from_skips(s, '@', 0, n);
    assert(find_from(s, '@', 0) == Some(n));
    assert forall|j: int| n + 1 <= j < s.len() implies s[j] != '@' by {
        assert(s[j] == address[j - n - 1]);
    }
    lemma_find_from_skips(s, '@', n + 1, s.len() as int);
    assert(s.subrange(0, n) =~= name);
    assert(s.subrange(n + 1, s.len() as int) =~= address);
}

/// The URL of the Redis server at `host`: `redis://host/`.
pub fn redis_url(host: &str) -> (url: String)
    ensures
        url@ == "redis://"@ + host@ + "/"@,
{
    let mut url = String::from_str("redis://");
    url.append(host);
    url.append("/");
    url
}

/// Some host of the list has this address.
pub open spec fn lists_address(hosts: Seq<Host>, a: Seq<char>) -> bool {
    exists|i: int| 0 <= i < hosts.len() && (#[trigger] hosts[i]).address@ == a
}

/// The address is one of this machine's own addresses.
pub open spec fn is_local(local: Seq<String>, a: Seq<char>) -> bool {
    exists|i: int| 0 <= i < local.len() && (#[trigger] local[i])@ == a
}

/// Whether some host of the list has the address `a`; this is what
/// `hosts.contains(..)` decides, since hosts compare by address.
pub fn hosts_list_address(hosts: &Vec<Host>, a: &str) -> (r: bool)
    ensures
        r == lists_address(hosts@, a@),
{
    let mut i: usize = 0;
    while i < hosts.len()
        invariant
            i <= hosts@.len(),
            forall|k: int| 0 <= k < i ==> (#[trigger] hosts@[k]).address@ != a@,
        decreases hosts@.len() - i,
    {
        if text_eq(hosts[i].address.as_str(), a) {
            return true;
        }
        i = i + 1;
    }
    false
}

/// Whether the address is one of this machine's own addresses.
pub fn is_local_address(local: &Vec<String>, a: &str) -> (r: bool)
    ensures
        r == is_local(local@, a@),
{
    let mut i: usize = 0;
    while i < local.len()
        invariant
            i <= local@.len(),
            forall|k: int| 0 <= k < i ==> (#[trigger] local@[k])@ != a@,
        decreases local@.len() - i,
    {
        if text_eq(local[i].as_str(), a) {
            return true;
        }
        i = i + 1;
    }
    false
}

} // verus!
