//! The table of hosts being monitored, from address to name. It outlives a
//! single ping round: it remembers which hosts earlier rounds pinged.

use vstd::prelude::*;
use crate::host::{Host, lists_address, is_local, hosts_list_address, is_local_address};
use crate::text::text_eq;

verus! {

/// An entry is stale when the current host list no longer names its address,
/// or when the address is one of this machine's own.
pub open spec fn is_stale(hosts: Seq<Host>, local: Seq<String>, a: Seq<char>) -> bool {
    !lists_address(hosts, a) || is_local(local, a)
}

/// The stale addresses.
pub open spec fn stale_addresses(hosts: Seq<Host>, local: Seq<String>) -> Set<Seq<char>> {
    Set::new(|a: Seq<char>| is_stale(hosts, local, a))
}

/// Address-to-name table of the monitored hosts; each address at most once.
pub struct HostTable {
    entries: Vec<Host>,
    map: Ghost<Map<Seq<char>, Seq<char>>>,
}

impl View for HostTable {
    type V = Map<Seq<char>, Seq<char>>;

    closed spec fn view(&self) -> Map<Seq<char>, Seq<char>> {
        self.map@
    }
}

impl HostTable {
    /// The entries hold distinct addresses and are exactly the pairs of the
    /// view.
    pub closed spec fn wf(&self) -> bool {
        &&& self.map@.dom().finite()
        &&& forall|i: int, j: int|
            0 <= i < j < self.entries@.len() ==> (#[trigger] self.entries@[i]).address@
                != (#[trigger] self.entries@[j]).address@
        &&& forall|i: int|
            0 <= i < self.entries@.len() ==> {
                &&& self.map@.contains_key((#[trigger] self.entries@[i]).address@)
                &&& self.map@[self.entries@[i].address@] == self.entries@[i].name@
            }
        &&& forall|a: Seq<char>|
            #[trigger] self.map@.contains_key(a) ==> exists|i: int|
                0 <= i < self.entries@.len() && (#[trigger] self.entries@[i]).address@ == a
    }

    /// An empty table.
    pub fn new() -> (t: Self)
        ensures
            t.wf(),
            t@ == Map::<Seq<char>, Seq<char>>::empty(),
    {
        HostTable { entries: Vec::new(), map: Ghost(Map::empty()) }
    }

    fn find(&self, address: &str) -> (r: Option<usize>)
        requires
            self.wf(),
        ensures
            match r {
                Some(i) => i < self.entries@.len() && self.entries@[i as int].address@ == address@,
                None => !self@.contains_key(address@),
            },
    {
        let mut i: usize = 0;
        while i < self.entries.len()
            invariant
                self.wf(),
                i <= self.entries@.len(),
                forall|k: int| 0 <= k < i ==> (#[trigger] self.entries@[k]).address@ != address@,
            decreases self.entries@.len() - i,
        {
            if text_eq(self.entries[i].address.as_str(), address) {
                return Some(i);
            }
            i = i + 1;
        }
        None
    }

    /// Whether the table holds the address.
    pub fn contains(&self, address: &str) -> (r: bool)
        requires
            self.wf(),
        ensures
            r == self@.contains_key(address@),
    {
        match self.find(address) {
            Some(_) => true,
            None => false,
        }
    }

    /// The name recorded for the address, if the table holds it.
    pub fn get(&self, address: &str) -> (r: Option<String>)
        requires
            self.wf(),
        ensures
            r is Some == self@.contains_key(address@),
            r matches Some(n) ==> n@ == self@[address@],
    {
        match self.find(address) {
            Some(i) => Some(self.entries[i].name.clone()),
            None => None,
        }
    }

    /// Records `name` for `address`, and returns the name recorded before, if
    /// the table held the address.
    pub fn insert(&mut self, address: String, name: String) -> (r: Option<String>)
        requires
            old(self).wf(),
        ensures
            final(self).wf(),
            final(self)@ == old(self)@.insert(address@, name@),
            r is Some == old(self)@.contains_key(address@),
            r matches Some(n) ==> n@ == old(self)@[address@],
    {
        let ghost m = self.map@.insert(address@, name@);
        match self.find(address.as_str()) {
            Some(i) => {
                let previous = self.entries[i].name.clone();
                self.entries.set(i, Host { name, address });
                self.map = Ghost(m);
                assert forall|a: Seq<char>| #[trigger] self.map@.contains_key(a) implies exists|k: int|
                    0 <= k < self.entries@.len() && (#[trigger] self.entries@[k]).address@ == a by {
                    if a != self.entries@[i as int].address@ {
                        let k = choose|k: int|
                            0 <= k < old(self).entries@.len() && (#[trigger] old(
                                self,
                            ).entries@[k]).address@ == a;
                        assert(self.entries@[k] == old(self).entries@[k]);
                    }
                }
                Some(previous)
            },
            None => {
                self.entries.push(Host { name, address });
                self.map = Ghost(m);
                let ghost last = (self.entries@.len() - 1) as int;
                assert forall|a: Seq<char>| #[trigger] self.map@.contains_key(a) implies exists|k: int|
                    0 <= k < self.entries@.len() && (#[trigger] self.entries@[k]).address@ == a by {
                    if a != self.entries@[last].address@ {
                        let k = choose|k: int|
                            0 <= k < old(self).entries@.len() && (#[trigger] old(
                                self,
                            ).entries@[k]).address@ == a;
                        assert(self.entries@[k] == old(self).entries@[k]);
                    } else {
                        assert(self.entries@[last].address@ == a);
                    }
                }
                None
            },
        }
    }

    /// Removes every stale entry and returns the removed entries, each once,
    /// as hosts (address and the name the table held).
    pub fn remove_stale(&mut self, hosts: &Vec<Host>, local: &Vec<String>) -> (removed: Vec<Host>)
        requires
            old(self).wf(),
        ensures
            final(self).wf(),
            final(self)@ == old(self)@.remove_keys(stale_addresses(hosts@, local@)),
            forall|i: int, j: int|
                0 <= i < j < removed@.len() ==> (#[trigger] removed@[i]).address@
                    != (#[trigger] removed@[j]).address@,
            forall|i: int|
                0 <= i < removed@.len() ==> {
                    &&& old(self)@.contains_key((#[trigger] removed@[i]).address@)
                    &&& old(self)@[removed@[i].address@] == removed@[i].name@
                    &&& is_stale(hosts@, local@, removed@[i].address@)
                },
            forall|a: Seq<char>|
                old(self)@.contains_key(a) && is_stale(hosts@, local@, a) ==> exists|i: int|
                    0 <= i < removed@.len() && (#[trigger] removed@[i]).address@ == a,
    {
        let ghost e = self.entries@;
        let ghost m = self.map@;
        let n = self.entries.len();
        let mut kept: Vec<Host> = Vec::new();
        let mut removed: Vec<Host> = Vec::new();
        let ghost mut kidx: Seq<int> = seq![];
        let ghost mut ridx: Seq<int> = seq![];
        let mut i: usize = 0;
        while i < n
            invariant
                self.wf(),
                e == self.entries@,
                m == self.map@,
                n == e.len(),
                i <= n,
                kept@.len() == kidx.len(),
                removed@.len() == ridx.len(),
                forall|k: int|
                    0 <= k < kidx.len() ==> 0 <= #[trigger] kidx[k] < i && kept@[k] == e[kidx[k]]
                        && !is_stale(hosts@, local@, e[kidx[k]].address@),
                forall|k1: int, k2: int|
                    0 <= k1 < k2 < kidx.len() ==> #[trigger] kidx[k1] < #[trigger] kidx[k2],
                forall|j: int|
                    0 <= j < i && !is_stale(hosts@, local@, (#[trigger] e[j]).address@) ==> exists|
                        k: int,
                    | 0 <= k < kidx.len() && #[trigger] kidx[k] == j,
                forall|k: int|
                    0 <= k < ridx.len() ==> 0 <= #[trigger] ridx[k] < i && removed@[k] == e[ridx[k]]
                        && is_stale(hosts@, local@, e[ridx[k]].address@),
                forall|k1: int, k2: int|
                    0 <= k1 < k2 < ridx.len() ==> #[trigger] ridx[k1] < #[trigger] ridx[k2],
                forall|j: int|
                    0 <= j < i && is_stale(hosts@, local@, (#[trigger] e[j]).address@) ==> exists|
                        k: int,
                    | 0 <= k < ridx.len() && #[trigger] ridx[k] == j,
            decreases n - i,
        {
            let h = self.entries[i].clone();
            let listed = hosts_list_address(hosts, h.address.as_str());
            let local_addr = is_local_address(local, h.address.as_str());
            if !listed || local_addr {
                removed.push(h);
                proof {
                    let old_ridx = ridx;
                    ridx = ridx.push(i as int);
                    assert(ridx[ridx.len() - 1] == i);
                    assert forall|j: int|
                        0 <= j < i + 1 && is_stale(hosts@, local@, (#[trigger] e[j]).address@) implies exists|
                            k: int,
                        | 0 <= k < ridx.len() && #[trigger] ridx[k] == j by {
                        if j < i {
                            let k = choose|k: int| 0 <= k < old_ridx.len() && #[trigger] old_ridx[k] == j;
                            assert(ridx[k] == old_ridx[k]);
                        } else {
                            assert(ridx[ridx.len() - 1] == j);
                        }
                    }
                }
            } else {
                kept.push(h);
                proof {
                    let old_kidx = kidx;
                    kidx = kidx.push(i as int);
                    assert(kidx[kidx.len() - 1] == i);
                    assert forall|j: int|
                        0 <= j < i + 1 && !is_stale(hosts@, local@, (#[trigger] e[j]).address@) implies exists|
                            k: int,
                        | 0 <= k < kidx.len() && #[trigger] kidx[k] == j by {
                        if j < i {
                            let k = choose|k: int| 0 <= k < old_kidx.len() && #[trigger] old_kidx[k] == j;
                            assert(kidx[k] == old_kidx[k]);
                        } else {
                            assert(kidx[kidx.len() - 1] == j);
                        }
                    }
                }
            }
            i = i + 1;
        }
        let ghost m2 = m.remove_keys(stale_addresses(hosts@, local@));
        proof {
            assert(m2.dom().subset_of(m.dom()));
            vstd::set_lib::lemma_set_subset_finite(m.dom(), m2.dom());
            assert forall|k1: int, k2: int| 0 <= k1 < k2 < kept@.len() implies (#[trigger] kept@[k1]).address@
                != (#[trigger] kept@[k2]).address@ by {
                assert(kidx[k1] < kidx[k2]);
            }
            assert forall|k1: int, k2: int| 0 <= k1 < k2 < removed@.len() implies (#[trigger] removed@[k1]).address@
                != (#[trigger] removed@[k2]).address@ by {
                assert(ridx[k1] < ridx[k2]);
            }
            assert forall|k: int| 0 <= k < kept@.len() implies {
                &&& m2.contains_key((#[trigger] kept@[k]).address@)
                &&& m2[kept@[k].address@] == kept@[k].name@
            } by {
                assert(e[kidx[k]] == kept@[k]);
            }
            assert forall|a: Seq<char>| #[trigger] m2.contains_key(a) implies exists|k: int|
                0 <= k < kept@.len() && (#[trigger] kept@[k]).address@ == a by {
                let j = choose|j: int| 0 <= j < e.len() && (#[trigger] e[j]).address@ == a;
                let k = choose|k: int| 0 <= k < kidx.len() && #[trigger] kidx[k] == j;
                assert(kept@[k] == e[j]);
            }
            assert forall|k: int| 0 <= k < removed@.len() implies {
                &&& m.contains_key((#[trigger] removed@[k]).address@)
                &&& m[removed@[k].address@] == removed@[k].name@
                &&& is_stale(hosts@, local@, removed@[k].address@)
            } by {
                assert(e[ridx[k]] == removed@[k]);
            }
            assert forall|a: Seq<char>| m.contains_key(a) && is_stale(hosts@, local@, a) implies exists|k: int|
                0 <= k < removed@.len() && (#[trigger] removed@[k]).address@ == a by {
                let j = choose|j: int| 0 <= j < e.len() && (#[trigger] e[j]).address@ == a;
                let k = choose|k: int| 0 <= k < ridx.len() && #[trigger] ridx[k] == j;
                assert(removed@[k] == e[j]);
            }
        }
        self.entries = kept;
        self.map = Ghost(m2);
        assert(self.map@.dom().finite());
        assert(forall|i: int, j: int|
            0 <= i < j < self.entries@.len() ==> (#[trigger] self.entries@[i]).address@
                != (#[trigger] self.entries@[j]).address@);
        assert(forall|i: int|
            0 <= i < self.entries@.len() ==> {
                &&& self.map@.contains_key((#[trigger] self.entries@[i]).address@)
                &&& self.map@[self.entries@[i].address@] == self.entries@[i].name@
            });
        removed
    }
}

} // verus!
