//! Which process an endpoint belongs to, remembered for a moment.
//!
//! Asking the system is expensive, and a flow that just opened is often asked
//! about again, so an answer is trusted for [`CACHE_TTL`].

use std::collections::HashMap;
use vstd::prelude::*;

use crate::addr::IpAddr;

verus! {

/// How long an answer is trusted before the system is asked again: a quarter of a
/// second, in nanoseconds.
pub const CACHE_TTL: u64 = 250_000_000;

/// The local endpoint of a flow.
#[derive(Debug, Clone, Copy, PartialEq, Eq, Structural)]
pub struct Endpoint {
    /// The address.
    pub ip: IpAddr,
    /// The port.
    pub port: u16,
    /// Whether it is a UDP endpoint rather than a TCP one.
    pub is_udp: bool,
}

/// A process that an endpoint was found to belong to.
#[derive(Debug, Clone, Copy, PartialEq, Eq, Structural)]
pub struct Owner {
    /// The process.
    pub pid: u32,
    /// When that was found.
    pub resolved: u64,
}

/// What is remembered, by endpoint.
pub type Owners = Map<Endpoint, Owner>;

/// The process that `endpoint` belongs to, as far as that is known at time `now`.
pub open spec fn owner_at(owners: Owners, endpoint: Endpoint, now: u64) -> Option<u32> {
    if owners.contains_key(endpoint) && now - owners[endpoint].resolved < CACHE_TTL {
        Some(owners[endpoint].pid)
    } else {
        None
    }
}

struct Known {
    ip: IpAddr,
    owner: Owner,
}

/// The last entry of `known` for `ip`.
spec fn entry_for(known: Seq<Known>, ip: IpAddr) -> Option<Owner>
    decreases known.len(),
{
    if known.len() == 0 {
        None
    } else if known.last().ip == ip {
        Some(known.last().owner)
    } else {
        entry_for(known.drop_last(), ip)
    }
}

proof fn lemma_entry_pushed(known: Seq<Known>, k: Known, ip: IpAddr)
    ensures
        entry_for(known.push(k), ip) == if k.ip == ip {
            Some(k.owner)
        } else {
            entry_for(known, ip)
        },
{
    assert(known.push(k).drop_last() =~= known);
}

/// The number under which the endpoints with a port and a protocol are kept.
spec fn slot_of(endpoint: Endpoint) -> u32 {
    (endpoint.port * 2 + if endpoint.is_udp {
        1int
    } else {
        0int
    }) as u32
}

fn slot(endpoint: Endpoint) -> (r: u32)
    ensures
        r == slot_of(endpoint),
{
    endpoint.port as u32 * 2 + if endpoint.is_udp {
        1
    } else {
        0
    }
}

/// Remembered owners of endpoints.
///
/// Times are nanoseconds on a clock of the caller's.
pub struct EndpointCache {
    slots: HashMap<u32, Vec<Known>>,
}

impl View for EndpointCache {
    type V = Owners;

    closed spec fn view(&self) -> Owners {
        Map::new(
            |e: Endpoint| self.entry(e) is Some,
            |e: Endpoint| self.entry(e)->0,
        )
    }
}

impl EndpointCache {
    spec fn entry(&self, endpoint: Endpoint) -> Option<Owner> {
        if self.slots@.contains_key(slot_of(endpoint)) {
            entry_for(self.slots@[slot_of(endpoint)]@, endpoint.ip)
        } else {
            None
        }
    }

    /// An empty cache.
    pub fn new() -> (r: EndpointCache)
        ensures
            r@ == Owners::empty(),
    {
        broadcast use vstd::std_specs::hash::group_hash_axioms;

        let r = EndpointCache { slots: HashMap::new() };
        assert(r@ =~= Owners::empty());
        r
    }

    /// The process that `endpoint` belongs to, as far as that is known.
    pub fn lookup(&self, endpoint: Endpoint, now: u64) -> (r: Option<u32>)
        ensures
            r == owner_at(self@, endpoint, now),
    {
        broadcast use vstd::std_specs::hash::group_hash_axioms;

        match self.slots.get(&slot(endpoint)) {
            None => None,
            Some(known) => {
                let mut i: usize = known.len();
                assert(known@.take(i as int) =~= known@);
                while i > 0
                    invariant
                        i <= known@.len(),
                        entry_for(known@, endpoint.ip) == entry_for(
                            known@.take(i as int),
                            endpoint.ip,
                        ),
                        self.entry(endpoint) == entry_for(known@, endpoint.ip),
                    decreases i,
                {
                    assert(known@.take(i as int).drop_last() =~= known@.take(i - 1));
                    assert(known@.take(i as int).last() == known@[i - 1]);
                    i -= 1;
                    if known[i].ip == endpoint.ip {
                        let owner = known[i].owner;
                        if now < owner.resolved || now - owner.resolved < CACHE_TTL {
                            return Some(owner.pid);
                        }
                        return None;
                    }
                }
                assert(known@.take(0) =~= Seq::empty());
                None
            },
        }
    }

    /// Remembers that `endpoint` belongs to `pid`.
    pub fn remember(&mut self, endpoint: Endpoint, pid: u32, now: u64)
        ensures
            final(self)@ == old(self)@.insert(endpoint, Owner { pid, resolved: now }),
    {
        broadcast use vstd::std_specs::hash::group_hash_axioms;

        let ghost before = *self;
        let owner = Owner { pid, resolved: now };
        let key = slot(endpoint);
        let mut kept: Vec<Known> = Vec::new();
        if let Some(known) = self.slots.get(&key) {
            let mut i: usize = 0;
            while i < known.len()
                invariant
                    i <= known@.len(),
                    forall|ip: IpAddr|
                        ip != endpoint.ip ==> entry_for(kept@, ip) == entry_for(
                            known@.take(i as int),
                            ip,
                        ),
                decreases known@.len() - i,
            {
                let ghost kept_before = kept@;
                if known[i].ip != endpoint.ip {
                    kept.push(Known { ip: known[i].ip, owner: known[i].owner });
                }
                assert(known@.take(i + 1) =~= known@.take(i as int).push(known@[i as int]));
                assert forall|ip: IpAddr| ip != endpoint.ip implies entry_for(kept@, ip)
                    == entry_for(known@.take(i + 1), ip) by {
                    lemma_entry_pushed(known@.take(i as int), known@[i as int], ip);
                    lemma_entry_pushed(kept_before, known@[i as int], ip);
                }
                i += 1;
            }
            assert(known@.take(i as int) =~= known@);
        }
        let ghost others = kept@;
        let entry = Known { ip: endpoint.ip, owner };
        kept.push(entry);
        self.slots.insert(key, kept);
        proof {
            assert forall|e: Endpoint| e != endpoint implies self.entry(e) == before.entry(e) by {
                if slot_of(e) == slot_of(endpoint) {
                    assert(e.port == endpoint.port && e.is_udp == endpoint.is_udp);
                    lemma_entry_pushed(others, entry, e.ip);
                }
            }
            lemma_entry_pushed(others, entry, endpoint.ip);
            assert(self.entry(endpoint) == Some(owner));
            assert(self@ =~= before@.insert(endpoint, owner));
        }
    }
}

/// An answer is given again until [`CACHE_TTL`] has passed, and not after.
pub proof fn law_owner_is_trusted_for_the_ttl(
    owners: Owners,
    endpoint: Endpoint,
    pid: u32,
    resolved: u64,
    now: u64,
)
    ensures
        owner_at(owners.insert(endpoint, Owner { pid, resolved }), endpoint, now) == if now
            < resolved + CACHE_TTL {
            Some(pid)
        } else {
            None
        },
{
}

/// Remembering an endpoint changes nothing about any other.
pub proof fn law_endpoints_are_kept_apart(
    owners: Owners,
    endpoint: Endpoint,
    owner: Owner,
    other: Endpoint,
    now: u64,
)
    requires
        other != endpoint,
    ensures
        owner_at(owners.insert(endpoint, owner), other, now) == owner_at(owners, other, now),
{
}

/// An owner is trusted for a quarter of a second, in nanoseconds, and not longer.
pub proof fn law_owner_is_trusted_for_a_quarter_of_a_second(
    owners: Owners,
    endpoint: Endpoint,
    pid: u32,
    resolved: u64,
    now: u64,
)
    ensures
        owner_at(owners.insert(endpoint, Owner { pid, resolved }), endpoint, now) is Some <==> now
            < resolved + 250_000_000,
        owner_at(owners.remove(endpoint), endpoint, now) is None,
{
}

} // verus!
