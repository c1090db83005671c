use vstd::prelude::*;
use std::collections::HashMap;
use crate::endpoint::{Endpoint, endpoint_key, ip_key, ip_to_u32};
use crate::status::{Status, BLOCKED_BIT, has_bit};

verus! {

broadcast use vstd::std_specs::hash::group_hash_axioms;

/// One entry of the peer-identity table: a peer's public key and the endpoint it is connected from.
#[derive(Clone, Copy, Debug, PartialEq, Eq)]
pub struct PeerEntry {
    pub public_key: [u8; 32],
    pub endpoint: Endpoint,
}

/// The state shared by the classifier, the event consumer and the control plane.
///
/// Addresses, ports, endpoints and pairs are keyed by their big-endian numeric value.
pub struct StateStore {
    /// Remote address to status (`BLOCKED`, `POW_SENT`).
    pub blacklist: HashMap<u32, u32>,
    /// Connection pair to the status last recorded for it.
    pub pairs: HashMap<u128, u32>,
    /// Local ports under filtering.
    pub node_ports: HashMap<u16, u32>,
    /// Remote endpoints the node is about to connect to.
    pub pending_peers: HashMap<u64, u32>,
    /// Connected peers, each public key at most once.
    pub peers: Vec<PeerEntry>,
}

/// The status bits recorded for a key, no flag where there is no entry.
pub open spec fn bits_or_empty<K>(m: Map<K, u32>, k: K) -> u32 {
    if m.contains_key(k) {
        m[k]
    } else {
        0
    }
}

/// A peer connected from `e` conflicts with a connection from `remote`: same address, other port.
pub open spec fn conflicts(e: Endpoint, remote: Endpoint) -> bool {
    ip_key(e.ipv4) == ip_key(remote.ipv4) && endpoint_key(e) != endpoint_key(remote)
}

/// The endpoint of the first peer that conflicts with `remote`.
pub open spec fn first_conflict(s: Seq<PeerEntry>, remote: Endpoint) -> Option<Endpoint>
    decreases s.len(),
{
    if s.len() == 0 {
        None
    } else if conflicts(s[0].endpoint, remote) {
        Some(s[0].endpoint)
    } else {
        first_conflict(s.drop_first(), remote)
    }
}

/// The peer table holds each public key at most once.
pub open spec fn keys_unique(s: Seq<PeerEntry>) -> bool {
    forall|i: int, j: int|
        0 <= i < s.len() && 0 <= j < s.len() && i != j ==> s[i].public_key != s[j].public_key
}

/// The peer table without the entry for `pk`.
pub open spec fn without_key(s: Seq<PeerEntry>, pk: [u8; 32]) -> Seq<PeerEntry> {
    if exists|i: int| 0 <= i < s.len() && s[i].public_key == pk {
        s.remove(choose|i: int| 0 <= i < s.len() && s[i].public_key == pk)
    } else {
        s
    }
}

/// Whether two public keys are equal.
fn same_key(a: &[u8; 32], b: &[u8; 32]) -> (r: bool)
    ensures
        r == (*a == *b),
{
    broadcast use vstd::array::group_array_axioms;

    let mut i: usize = 0;
    while i < 32
        invariant
            i <= 32,
            forall|j: int| 0 <= j < i ==> a[j] == b[j],
        decreases 32 - i,
    {
        if a[i] != b[i] {
            return false;
        }
        i = i + 1;
    }
    assert(*a =~= *b);
    true
}

impl StateStore {
    pub open spec fn wf(&self) -> bool {
        keys_unique(self.peers@)
    }

    /// The status bits recorded for an address.
    pub open spec fn ip_bits(&self, ip: [u8; 4]) -> u32 {
        bits_or_empty(self.blacklist@, ip_key(ip))
    }

    /// A store with every map empty.
    pub fn new() -> (r: StateStore)
        ensures
            r.wf(),
            r.blacklist@ == Map::<u32, u32>::empty(),
            r.pairs@ == Map::<u128, u32>::empty(),
            r.node_ports@ == Map::<u16, u32>::empty(),
            r.pending_peers@ == Map::<u64, u32>::empty(),
            r.peers@ == Seq::<PeerEntry>::empty(),
    {
        StateStore {
            blacklist: HashMap::new(),
            pairs: HashMap::new(),
            node_ports: HashMap::new(),
            pending_peers: HashMap::new(),
            peers: Vec::new(),
        }
    }

    /// The status of an address, no flag where none is recorded.
    pub fn ip_status(&self, ip: &[u8; 4]) -> (r: Status)
        ensures
            r.bits == self.ip_bits(*ip),
    {
        let k = ip_to_u32(ip);
        match self.blacklist.get(&k) {
            Some(b) => Status::from_bits(*b),
            None => Status::empty(),
        }
    }

    /// Whether an address is marked blocked.
    pub fn is_blocked(&self, ip: &[u8; 4]) -> (r: bool)
        ensures
            r == has_bit(self.ip_bits(*ip), BLOCKED_BIT),
    {
        self.ip_status(ip).is_blocked()
    }

    /// Marks an address blocked, keeping its other flags.
    pub fn block_ip(&mut self, ip: [u8; 4])
        ensures
            final(self).blacklist@ == old(self).blacklist@.insert(
                ip_key(ip),
                old(self).ip_bits(ip) | BLOCKED_BIT,
            ),
            final(self).pairs@ == old(self).pairs@,
            final(self).node_ports@ == old(self).node_ports@,
            final(self).pending_peers@ == old(self).pending_peers@,
            final(self).peers@ == old(self).peers@,
    {
        let st = self.ip_status(&ip).with_blocked();
        let k = ip_to_u32(&ip);
        self.blacklist.insert(k, st.bits);
    }

    /// Removes an address from the blacklist; nothing changes where it is absent.
    pub fn unblock_ip(&mut self, ip: [u8; 4])
        ensures
            final(self).blacklist@ == old(self).blacklist@.remove(ip_key(ip)),
            final(self).pairs@ == old(self).pairs@,
            final(self).node_ports@ == old(self).node_ports@,
            final(self).pending_peers@ == old(self).pending_peers@,
            final(self).peers@ == old(self).peers@,
    {
        let k = ip_to_u32(&ip);
        self.blacklist.remove(&k);
    }

    /// Puts a local port under filtering.
    pub fn filter_local_port(&mut self, port: u16)
        ensures
            final(self).node_ports@ == old(self).node_ports@.insert(port, 0),
            final(self).blacklist@ == old(self).blacklist@,
            final(self).pairs@ == old(self).pairs@,
            final(self).pending_peers@ == old(self).pending_peers@,
            final(self).peers@ == old(self).peers@,
    {
        self.node_ports.insert(port, 0);
    }

    /// Records a remote endpoint as a pending peer.
    pub fn filter_remote_addr(&mut self, e: Endpoint)
        ensures
            final(self).pending_peers@ == old(self).pending_peers@.insert(endpoint_key(e), 0),
            final(self).blacklist@ == old(self).blacklist@,
            final(self).pairs@ == old(self).pairs@,
            final(self).node_ports@ == old(self).node_ports@,
            final(self).peers@ == old(self).peers@,
    {
        let k = e.key();
        self.pending_peers.insert(k, 0);
    }

    /// Index of the entry holding `pk`, if any.
    fn peer_index(&self, pk: &[u8; 32]) -> (r: Option<usize>)
        ensures
            match r {
                Some(i) => i < self.peers@.len() && self.peers@[i as int].public_key == *pk,
                None => forall|j: int| 0 <= j < self.peers@.len() ==> self.peers@[j].public_key != *pk,
            },
    {
        let mut i: usize = 0;
        while i < self.peers.len()
            invariant
                i <= self.peers@.len(),
                forall|j: int| 0 <= j < i ==> self.peers@[j].public_key != *pk,
            decreases self.peers@.len() - i,
        {
            if same_key(&self.peers[i].public_key, pk) {
                return Some(i);
            }
            i = i + 1;
        }
        None
    }

    /// Removes the peer with public key `pk`; nothing changes where there is none.
    pub fn remove_peer(&mut self, pk: &[u8; 32])
        requires
            old(self).wf(),
        ensures
            final(self).wf(),
            final(self).peers@ == without_key(old(self).peers@, *pk),
            final(self).blacklist@ == old(self).blacklist@,
            final(self).pairs@ == old(self).pairs@,
            final(self).node_ports@ == old(self).node_ports@,
            final(self).pending_peers@ == old(self).pending_peers@,
    {
        match self.peer_index(pk) {
            Some(i) => {
                let ghost s = self.peers@;
                self.peers.remove(i);
                assert forall|a: int, b: int|
                    0 <= a < self.peers@.len() && 0 <= b < self.peers@.len() && a != b implies
                    self.peers@[a].public_key != self.peers@[b].public_key by {
                    let a0 = if a < i { a } else { a + 1 };
                    let b0 = if b < i { b } else { b + 1 };
                    assert(self.peers@[a] == s[a0]);
                    assert(self.peers@[b] == s[b0]);
                }
                proof {
                    let k = choose|k: int| 0 <= k < s.len() && s[k].public_key == *pk;
                    assert(k == i);
                }
            },
            None => {},
        }
    }

    /// Records that the peer with public key `pk` is connected from `e`, replacing an earlier entry for it.
    pub fn add_peer(&mut self, pk: [u8; 32], e: Endpoint)
        requires
            old(self).wf(),
        ensures
            final(self).wf(),
            final(self).peers@ == without_key(old(self).peers@, pk).push(
                PeerEntry { public_key: pk, endpoint: e },
            ),
            final(self).blacklist@ == old(self).blacklist@,
            final(self).pairs@ == old(self).pairs@,
            final(self).node_ports@ == old(self).node_ports@,
            final(self).pending_peers@ == old(self).pending_peers@,
    {
        self.remove_peer(&pk);
        let ghost rest = self.peers@;
        proof {
            let s = old(self).peers@;
            assert forall|j: int| 0 <= j < rest.len() implies rest[j].public_key != pk by {
                if exists|i: int| 0 <= i < s.len() && s[i].public_key == pk {
                    let i = choose|i: int| 0 <= i < s.len() && s[i].public_key == pk;
                    let j0 = if j < i { j } else { j + 1 };
                    assert(rest[j] == s[j0]);
                } else {
                    assert(rest[j] == s[j]);
                }
            }
        }
        self.peers.push(PeerEntry { public_key: pk, endpoint: e });
        assert(self.peers@[rest.len() as int].public_key == pk);
    }

    /// The endpoint of the first connected peer that conflicts with a connection from `remote`.
    pub fn connected_conflict(&self, remote: &Endpoint) -> (r: Option<Endpoint>)
        ensures
            r == first_conflict(self.peers@, *remote),
    {
        let ghost s = self.peers@;
        let rk = remote.key();
        let rip = remote.ip_number();
        let mut i: usize = 0;
        assert(s.subrange(0, s.len() as int) =~= s);
        while i < self.peers.len()
            invariant
                i <= s.len(),
                s == self.peers@,
                rk == endpoint_key(*remote),
                rip == ip_key(remote.ipv4),
                first_conflict(s, *remote) == first_conflict(s.subrange(i as int, s.len() as int), *remote),
            decreases s.len() - i,
        {
            let e = self.peers[i].endpoint;
            assert(s.subrange(i as int, s.len() as int)[0].endpoint == e);
            if e.ip_number() == rip && e.key() != rk {
                return Some(e);
            }
            assert(s.subrange(i as int, s.len() as int).drop_first() =~= s.subrange(i + 1, s.len() as int));
            i = i + 1;
        }
        assert(s.subrange(i as int, s.len() as int).len() == 0);
        None
    }
}

} // verus!
