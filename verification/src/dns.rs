//! DNS response snooping and a cache from destination address to hostname.
//!
//! Inbound DNS responses are parsed passively: every `A` and `AAAA` answer is
//! remembered under its address together with the name of the first question,
//! so that hostname rules can match a destination address. Only plaintext DNS
//! is visible.

use std::collections::HashMap;

use vstd::prelude::*;
use vstd::slice::slice_subrange;

use crate::addr::{IpAddr, Ipv4Addr, Ipv6Addr};
use crate::bytes;
use crate::bytes::u16_of_be;
use crate::text;
use crate::text::{is_empty_text, text_from_utf8};

verus! {

// ── Names ───────────────────────────────────────────────────────────────────

/// How many compression pointers a name may follow.
pub const MAX_JUMPS: u8 = 10;

/// The offset that a compression pointer holds.
pub open spec fn pointer_target(hi: u8, lo: u8) -> int {
    (hi - 192) * 256 + lo
}

/// The labels of the name at `pos`, following at most `jumps` compression
/// pointers; `None` where the name runs out of the message or follows more.
pub open spec fn labels_at(msg: Seq<u8>, pos: int, jumps: nat) -> Option<Seq<Seq<u8>>>
    decreases jumps, msg.len() - pos,
{
    if !(0 <= pos < msg.len()) {
        None
    } else if msg[pos] == 0 {
        Some(Seq::empty())
    } else if msg[pos] >= 192 {
        if pos + 1 < msg.len() && jumps > 0 {
            labels_at(msg, pointer_target(msg[pos], msg[pos + 1]), (jumps - 1) as nat)
        } else {
            None
        }
    } else if pos + 1 + msg[pos] > msg.len() {
        None
    } else {
        match labels_at(msg, pos + 1 + msg[pos], jumps) {
            Some(rest) => Some(seq![msg.subrange(pos + 1, pos + 1 + msg[pos])] + rest),
            None => None,
        }
    }
}

/// The position behind the name at `pos`: behind its closing zero octet or its
/// first compression pointer.
pub open spec fn name_end(msg: Seq<u8>, pos: int) -> int
    decreases msg.len() - pos,
{
    if !(0 <= pos < msg.len()) {
        pos
    } else if msg[pos] == 0 {
        pos + 1
    } else if msg[pos] >= 192 {
        pos + 2
    } else if pos + 1 + msg[pos] > msg.len() {
        pos
    } else {
        name_end(msg, pos + 1 + msg[pos])
    }
}

/// The texts of `labels` with dots between them.
pub open spec fn dotted(labels: Seq<Seq<u8>>) -> Seq<char>
    decreases labels.len(),
{
    if labels.len() == 0 {
        Seq::empty()
    } else if labels.len() == 1 {
        vstd::utf8::decode_utf8(labels[0])
    } else {
        dotted(labels.drop_last()).push('.') + vstd::utf8::decode_utf8(labels.last())
    }
}

/// Whether every label is valid UTF-8.
pub open spec fn readable(labels: Seq<Seq<u8>>) -> bool {
    forall|i: int| 0 <= i < labels.len() ==> vstd::utf8::valid_utf8(#[trigger] labels[i])
}

/// The name at `pos`, where there is one.
pub open spec fn name_at(msg: Seq<u8>, pos: int) -> Option<Seq<char>> {
    match labels_at(msg, pos, MAX_JUMPS as nat) {
        Some(labels) => if readable(labels) {
            Some(dotted(labels))
        } else {
            None
        },
        None => None,
    }
}

/// `rest` behind the labels that were already read.
spec fn behind(done: Seq<Seq<u8>>, rest: Option<Seq<Seq<u8>>>) -> Option<Seq<Seq<u8>>> {
    match rest {
        Some(r) => Some(done + r),
        None => None,
    }
}

/// Reads the name at `*offset` (with compression pointers) and moves `*offset`
/// behind it. `*offset` stays where it is if there is no name.
pub fn parse_name(msg: &[u8], offset: &mut usize) -> (name: Option<String>)
    ensures
        name is Some <==> name_at(msg@, *old(offset) as int) is Some,
        name is Some ==> name->Some_0@ == name_at(msg@, *old(offset) as int)->Some_0,
        name is Some ==> *final(offset) == name_end(msg@, *old(offset) as int),
        name is None ==> *final(offset) == *old(offset),
        *final(offset) <= msg@.len() || *final(offset) == *old(offset),
{
    let start: usize = *offset;
    let mut pos: usize = start;
    let mut out: String = String::new();
    let mut labelled: bool = false;
    let mut left: u8 = MAX_JUMPS;
    let mut jumped_end: Option<usize> = None;
    let ghost mut done: Seq<Seq<u8>> = Seq::empty();
    proof {
        match labels_at(msg@, start as int, MAX_JUMPS as nat) {
            Some(r) => assert(done + r == r),
            None => {},
        }
    }
    loop
        invariant
            *offset == start,
            *old(offset) == start,
            labels_at(msg@, start as int, MAX_JUMPS as nat) == behind(
                done,
                labels_at(msg@, pos as int, left as nat),
            ),
            readable(done),
            labelled == (done.len() > 0),
            out@ == dotted(done),
            match jumped_end {
                Some(end) => end == name_end(msg@, start as int) && end <= msg@.len(),
                None => name_end(msg@, start as int) == name_end(msg@, pos as int),
            },
        decreases left, msg@.len() - pos,
    {
        if pos >= msg.len() {
            return None;
        }
        let b: u8 = msg[pos];
        if b == 0 {
            assert(done + Seq::<Seq<u8>>::empty() == done);
            *offset = match jumped_end {
                Some(end) => end,
                None => pos + 1,
            };
            return Some(out);
        }
        if b >= 192 {
            if msg.len() - pos < 2 {
                return None;
            }
            if jumped_end.is_none() {
                jumped_end = Some(pos + 2);
            }
            if left == 0 {
                return None;
            }
            left = left - 1;
            pos = (b as usize - 192) * 256 + msg[pos + 1] as usize;
            continue;
        }
        let len: usize = b as usize;
        if len > msg.len() - pos - 1 {
            return None;
        }
        let label: &[u8] = slice_subrange(msg, pos + 1, pos + 1 + len);
        let ghost rest = labels_at(msg@, pos + 1 + len, left as nat);
        let ghost now = labels_at(msg@, pos as int, left as nat);
        proof {
            match rest {
                Some(r) => {
                    assert(now == Some(seq![label@] + r));
                    assert(done + (seq![label@] + r) == done.push(label@) + r);
                },
                None => {},
            }
        }
        match text_from_utf8(label) {
            Some(text) => {
                if labelled {
                    out.push('.');
                }
                out.append(text);
                labelled = true;
            },
            None => {
                proof {
                    match rest {
                        Some(r) => {
                            let whole = done + (seq![label@] + r);
                            assert(whole[done.len() as int] == label@);
                            assert(!readable(whole));
                        },
                        None => {},
                    }
                }
                return None;
            },
        }
        proof {
            let next = done.push(label@);
            assert(next.drop_last() == done);
            assert(next.last() == label@);
            if done.len() == 0 {
                assert(next[0] == label@);
                assert(dotted(done) == Seq::<char>::empty());
            }
            assert(out@ == dotted(next));
            assert forall|i: int| 0 <= i < next.len() implies vstd::utf8::valid_utf8(
                #[trigger] next[i],
            ) by {
                if i < done.len() {
                    assert(next[i] == done[i]);
                }
            }
            done = next;
        }
        pos = pos + 1 + len;
    }
}

// ── Answers ─────────────────────────────────────────────────────────────────

/// The 16-bit number at `pos`.
pub open spec fn u16_at(msg: Seq<u8>, pos: int) -> nat {
    bytes::be_value(seq![msg[pos], msg[pos + 1]])
}

/// Whether a message is a response without error that announces an answer.
pub open spec fn answers_something(msg: Seq<u8>) -> bool {
    msg.len() >= 12 && msg[2] >= 128 && msg[3] % 16 == 0 && u16_at(msg, 6) > 0
}

/// The position behind the `n` questions from `pos` on.
pub open spec fn questions_end(msg: Seq<u8>, pos: int, n: nat) -> Option<int>
    decreases n,
{
    if n == 0 {
        Some(pos)
    } else if name_at(msg, pos) is None || name_end(msg, pos) + 4 > msg.len() {
        None
    } else {
        questions_end(msg, name_end(msg, pos) + 4, (n - 1) as nat)
    }
}

/// The address of a resource record: an internet `A` record of four octets or
/// `AAAA` record of sixteen.
pub open spec fn record_address(rtype: nat, rclass: nat, rdata: Seq<u8>) -> Option<IpAddr> {
    if rclass == 1 && rtype == 1 && rdata.len() == 4 {
        Some(IpAddr::V4(Ipv4Addr { bits: bytes::be_value(rdata) as u32 }))
    } else if rclass == 1 && rtype == 28 && rdata.len() == 16 {
        Some(IpAddr::V6(Ipv6Addr { bits: bytes::be_value(rdata) as u128 }))
    } else {
        None
    }
}

/// The addresses of the resource records from `pos` on, at most `n` of them, up
/// to the first that runs out of the message.
pub open spec fn record_addresses(msg: Seq<u8>, pos: int, n: nat) -> Seq<IpAddr>
    decreases n,
{
    let fixed = name_end(msg, pos);
    let data = fixed + 10;
    let end = data + u16_at(msg, fixed + 8);
    if n == 0 || name_at(msg, pos) is None || data > msg.len() || end > msg.len() {
        Seq::empty()
    } else {
        let rest = record_addresses(msg, end, (n - 1) as nat);
        match record_address(
            u16_at(msg, fixed),
            u16_at(msg, fixed + 2),
            msg.subrange(data, end),
        ) {
            Some(ip) => seq![ip] + rest,
            None => rest,
        }
    }
}

/// The addresses that a message answers with, and the name they answer: that of
/// its first question.
pub open spec fn dns_answers(msg: Seq<u8>) -> (Seq<IpAddr>, Seq<char>) {
    let first = name_end(msg, 12) + 4;
    let more = (u16_at(msg, 4) - 1) as nat;
    if !answers_something(msg) || name_at(msg, 12) is None || first > msg.len() {
        (Seq::empty(), Seq::empty())
    } else {
        let answers = if u16_at(msg, 4) <= 1 {
            Some(first)
        } else {
            questions_end(msg, first, more)
        };
        match answers {
            Some(pos) => (
                record_addresses(msg, pos, u16_at(msg, 6)),
                name_at(msg, 12)->Some_0,
            ),
            None => (Seq::empty(), Seq::empty()),
        }
    }
}

/// Whether `list` pairs each address of `answers` with their common name.
pub open spec fn pairs_up(list: Seq<(IpAddr, String)>, answers: (Seq<IpAddr>, Seq<char>)) -> bool {
    &&& list.len() == answers.0.len()
    &&& forall|i: int|
        0 <= i < list.len() ==> (#[trigger] list[i]).0 == answers.0[i] && list[i].1@ == answers.1
}

fn read_u16(msg: &[u8], pos: usize) -> (x: u16)
    requires
        pos + 2 <= msg@.len(),
    ensures
        x == u16_at(msg@, pos as int),
{
    u16_of_be(msg[pos], msg[pos + 1])
}

fn skip_questions(msg: &[u8], pos: usize, n: u16) -> (r: Option<usize>)
    requires
        pos <= msg@.len(),
    ensures
        r is Some <==> questions_end(msg@, pos as int, n as nat) is Some,
        r is Some ==> r->Some_0 == questions_end(msg@, pos as int, n as nat)->Some_0,
        r is Some ==> r->Some_0 <= msg@.len(),
{
    let mut at: usize = pos;
    let mut left: u16 = n;
    while left > 0
        invariant
            at <= msg@.len(),
            questions_end(msg@, pos as int, n as nat) == questions_end(
                msg@,
                at as int,
                left as nat,
            ),
        decreases left,
    {
        if parse_name(msg, &mut at).is_none() {
            return None;
        }
        if msg.len() - at < 4 {
            return None;
        }
        at = at + 4;
        left = left - 1;
    }
    Some(at)
}

fn address_of(rtype: u16, rclass: u16, rdata: &[u8]) -> (r: Option<IpAddr>)
    ensures
        r == record_address(rtype as nat, rclass as nat, rdata@),
{
    if rclass != 1 {
        return None;
    }
    if rtype == 1 && rdata.len() == 4 {
        assert(rdata@ == seq![rdata@[0], rdata@[1], rdata@[2], rdata@[3]]);
        Some(IpAddr::V4(Ipv4Addr::new(rdata[0], rdata[1], rdata[2], rdata[3])))
    } else if rtype == 28 && rdata.len() == 16 {
        Some(IpAddr::V6(Ipv6Addr::from_octets(rdata)))
    } else {
        None
    }
}

/// Parses a DNS message and returns the answered address and the name of the
/// first question for every `A` and `AAAA` record. Malformed messages and
/// messages that are no response yield nothing; a truncated one yields the
/// records before the cut.
pub fn parse_dns_answers(payload: &[u8]) -> (r: Vec<(IpAddr, String)>)
    ensures
        pairs_up(r@, dns_answers(payload@)),
{
    let mut out: Vec<(IpAddr, String)> = Vec::new();
    if payload.len() < 12 || payload[2] < 128 || payload[3] % 16 != 0 {
        return out;
    }
    let qdcount: u16 = read_u16(payload, 4);
    let ancount: u16 = read_u16(payload, 6);
    if ancount == 0 {
        return out;
    }
    let mut offset: usize = 12;
    let qname: String = match parse_name(payload, &mut offset) {
        Some(n) => n,
        None => {
            return out;
        },
    };
    if payload.len() - offset < 4 {
        return out;
    }
    offset = offset + 4;
    if qdcount > 1 {
        offset = match skip_questions(payload, offset, qdcount - 1) {
            Some(pos) => pos,
            None => {
                return out;
            },
        };
    }
    let ghost start = offset as int;
    let ghost all = record_addresses(payload@, start, ancount as nat);
    let mut left: u16 = ancount;
    while left > 0
        invariant_except_break
            all == firsts(out@) + record_addresses(payload@, offset as int, left as nat),
            left == 0 ==> all == firsts(out@),
        invariant
            offset <= payload@.len(),
            forall|i: int| 0 <= i < out@.len() ==> (#[trigger] out@[i]).1@ == qname@,
        ensures
            all == firsts(out@),
        decreases left,
    {
        let ghost pos = offset as int;
        let ghost before = out@;
        if parse_name(payload, &mut offset).is_none() {
            assert(all == firsts(out@));
            break;
        }
        if payload.len() - offset < 10 {
            assert(all == firsts(out@));
            break;
        }
        let rtype: u16 = read_u16(payload, offset);
        let rclass: u16 = read_u16(payload, offset + 2);
        let rdlen: usize = read_u16(payload, offset + 8) as usize;
        offset = offset + 10;
        if rdlen > payload.len() - offset {
            assert(all == firsts(out@));
            break;
        }
        let rdata: &[u8] = slice_subrange(payload, offset, offset + rdlen);
        let ghost rest = record_addresses(payload@, offset + rdlen, (left - 1) as nat);
        match address_of(rtype, rclass, rdata) {
            Some(ip) => {
                out.push((ip, qname.clone()));
                assert(firsts(out@) == firsts(before).push(ip));
                assert(firsts(before).push(ip) + rest == firsts(before) + (seq![ip] + rest));
            },
            None => {},
        }
        offset = offset + rdlen;
        left = left - 1;
        assert(left == 0 ==> all == firsts(out@));
    }
    assert forall|i: int| 0 <= i < out@.len() implies (#[trigger] out@[i]).0 == all[i] by {
        assert(firsts(out@)[i] == out@[i].0);
    }
    out
}

/// The addresses of a list of pairs.
spec fn firsts(list: Seq<(IpAddr, String)>) -> Seq<IpAddr> {
    list.map_values(|p: (IpAddr, String)| p.0)
}

// ── Cache ───────────────────────────────────────────────────────────────────

/// Default time to live of a cached hostname: five minutes, in nanoseconds.
pub const DNS_CACHE_TTL: u64 = 300_000_000_000;

/// A remembered hostname and when it expires.
#[verifier::ext_equal]
pub struct Remembered {
    /// The hostname.
    pub domain: Seq<char>,
    /// The time from which on it no longer counts.
    pub expires: nat,
}

struct Entry {
    domain: String,
    expires: u128,
}

impl Entry {
    spec fn model(self) -> Remembered {
        Remembered { domain: self.domain@, expires: self.expires as nat }
    }
}

/// A cache from address to the hostname that resolved to it.
///
/// Times are nanoseconds on a clock of the caller's that never runs backwards.
pub struct DnsCache {
    v4: HashMap<u32, Entry>,
    v6: HashMap<u128, Entry>,
    ttl: u64,
}

/// What is remembered, by address.
pub type Hostnames = Map<IpAddr, Remembered>;

/// The hostname of `ip` at time `now`.
pub open spec fn hostname_of(names: Hostnames, ip: IpAddr, now: u64) -> Option<Seq<char>> {
    if names.contains_key(ip) && names[ip].expires > now {
        Some(names[ip].domain)
    } else {
        None
    }
}

/// `names` with `domain` remembered for `ip`; an empty one is not.
pub open spec fn remembering(
    names: Hostnames,
    ip: IpAddr,
    domain: Seq<char>,
    expires: nat,
) -> Hostnames {
    if domain.len() == 0 {
        names
    } else {
        names.insert(ip, Remembered { domain, expires })
    }
}

/// `names` with `domain` remembered for each of `ips`, in order.
pub open spec fn remembering_all(
    names: Hostnames,
    ips: Seq<IpAddr>,
    domain: Seq<char>,
    expires: nat,
) -> Hostnames
    decreases ips.len(),
{
    if ips.len() == 0 {
        names
    } else {
        remembering(
            remembering_all(names, ips.drop_last(), domain, expires),
            ips.last(),
            domain,
            expires,
        )
    }
}

/// Those of `names` that have not expired at time `now`.
pub open spec fn unexpired(names: Hostnames, now: u64) -> Hostnames {
    names.restrict(
        Set::new(|ip: IpAddr| names.contains_key(ip) && names[ip].expires > now),
    )
}

spec fn live_keys<K>(m: Map<K, Entry>, now: u64) -> Set<K> {
    Set::new(|k: K| m.contains_key(k) && m[k].expires > now)
}

spec fn v4_ip(k: u32) -> IpAddr {
    IpAddr::V4(Ipv4Addr { bits: k })
}

spec fn v6_ip(k: u128) -> IpAddr {
    IpAddr::V6(Ipv6Addr { bits: k })
}

impl View for DnsCache {
    type V = Hostnames;

    closed spec fn view(&self) -> Hostnames {
        Map::new(
            |ip: IpAddr|
                match ip {
                    IpAddr::V4(a) => self.v4@.contains_key(a.bits),
                    IpAddr::V6(a) => self.v6@.contains_key(a.bits),
                },
            |ip: IpAddr|
                match ip {
                    IpAddr::V4(a) => self.v4@[a.bits].model(),
                    IpAddr::V6(a) => self.v6@[a.bits].model(),
                },
        )
    }
}

/// The keys of `m`, each once.
fn keys_of<K: Copy + Eq + core::hash::Hash>(m: &HashMap<K, Entry>) -> (r: Vec<K>)
    requires
        vstd::std_specs::hash::obeys_key_model::<K>(),
    ensures
        r@.no_duplicates(),
        r@.to_set() == m@.dom(),
{
    broadcast use vstd::std_specs::hash::group_hash_axioms;

    let mut out: Vec<K> = Vec::new();
    for k in it: m.keys()
        invariant
            it.seq().unref().to_set() == m@.dom(),
            it.seq().unref().no_duplicates(),
            it.seq().unref().take(it.seq().len() as int) == it.seq().unref(),
            out@ == it.seq().unref().take(it.index()),
    {
        assert(it.seq().unref().take(it.index() + 1) == it.seq().unref().take(it.index()).push(*k));
        out.push(*k);
    }
    out
}

/// The number of entries of `m` that have not expired at time `now`.
fn count_live<K: Copy + Eq + core::hash::Hash>(m: &HashMap<K, Entry>, now: u64) -> (r: usize)
    requires
        vstd::std_specs::hash::obeys_key_model::<K>(),
    ensures
        r == live_keys(m@, now).len(),
        live_keys(m@, now).finite(),
{
    broadcast use vstd::std_specs::hash::group_hash_axioms;

    let keys: Vec<K> = keys_of(m);
    let mut live: usize = 0;
    let ghost mut seen: Set<K> = Set::empty();
    let mut i: usize = 0;
    while i < keys.len()
        invariant
            vstd::std_specs::hash::obeys_key_model::<K>(),
            keys@.no_duplicates(),
            keys@.to_set() == m@.dom(),
            i <= keys.len(),
            live <= i,
            seen.finite(),
            live == seen.len(),
            forall|k: K| #[trigger]
                seen.contains(k) <==> live_keys(m@, now).contains(k) && keys@.take(i as int).contains(
                    k,
                ),
        decreases keys.len() - i,
    {
        let key: K = keys[i];
        proof {
            assert(keys@.to_set().contains(key)) by {
                assert(keys@[i as int] == key);
            }
            assert(m@.contains_key(key));
            let prefix = keys@.take(i as int);
            assert(keys@.take(i + 1) == prefix.push(key));
            assert(!prefix.contains(key)) by {
                if prefix.contains(key) {
                    let j = choose|j: int| 0 <= j < prefix.len() && prefix[j] == key;
                    assert(keys@[j] == key && keys@[i as int] == key);
                }
            }
            assert forall|k: K|
                prefix.push(key).contains(k) == (prefix.contains(k) || k == key) by {
                if prefix.contains(k) {
                    let j = choose|j: int| 0 <= j < prefix.len() && prefix[j] == k;
                    assert(prefix.push(key)[j] == k);
                }
                assert(prefix.push(key)[prefix.len() as int] == key);
                if prefix.push(key).contains(k) && k != key {
                    let j = choose|j: int| 0 <= j <= prefix.len() && prefix.push(key)[j] == k;
                    assert(prefix[j] == k);
                }
            }
        }
        match m.get(&key) {
            Some(e) => {
                if e.expires > now as u128 {
                    live = live + 1;
                    proof {
                        seen = seen.insert(key);
                    }
                }
            },
            None => {},
        }
        i = i + 1;
    }
    proof {
        assert(keys@.take(keys@.len() as int) == keys@);
        assert forall|k: K| seen.contains(k) == live_keys(m@, now).contains(k) by {
            if m@.contains_key(k) {
                assert(keys@.to_set().contains(k));
            }
        }
        assert(seen == live_keys(m@, now));
    }
    live
}

/// Removes the entries of `m` that have expired at time `now`.
fn drop_expired<K: Copy + Eq + core::hash::Hash>(m: &mut HashMap<K, Entry>, now: u64)
    requires
        vstd::std_specs::hash::obeys_key_model::<K>(),
    ensures
        final(m)@ == old(m)@.restrict(live_keys(old(m)@, now)),
{
    broadcast use vstd::std_specs::hash::group_hash_axioms;

    let ghost before = m@;
    let keys: Vec<K> = keys_of(m);
    let mut i: usize = 0;
    while i < keys.len()
        invariant
            vstd::std_specs::hash::obeys_key_model::<K>(),
            keys@.to_set() == before.dom(),
            i <= keys.len(),
            forall|k: K| #[trigger]
                m@.contains_key(k) <==> before.contains_key(k) && (before[k].expires > now
                    || !keys@.take(i as int).contains(k)),
            forall|k: K| #[trigger] m@.contains_key(k) ==> m@[k] == before[k],
        decreases keys.len() - i,
    {
        let key: K = keys[i];
        let ghost now_map = m@;
        proof {
            assert(keys@.to_set().contains(key)) by {
                assert(keys@[i as int] == key);
            }
            let prefix = keys@.take(i as int);
            assert(keys@.take(i + 1) == prefix.push(key));
            assert forall|k: K|
                prefix.push(key).contains(k) == (prefix.contains(k) || k == key) by {
                if prefix.contains(k) {
                    let j = choose|j: int| 0 <= j < prefix.len() && prefix[j] == k;
                    assert(prefix.push(key)[j] == k);
                }
                assert(prefix.push(key)[prefix.len() as int] == key);
                if prefix.push(key).contains(k) && k != key {
                    let j = choose|j: int| 0 <= j <= prefix.len() && prefix.push(key)[j] == k;
                    assert(prefix[j] == k);
                }
            }
        }
        let gone: bool = match m.get(&key) {
            Some(e) => e.expires <= now as u128,
            None => false,
        };
        if gone {
            m.remove(&key);
            assert(m@ == now_map.remove(key));
        }
        i = i + 1;
    }
    proof {
        assert(keys@.take(keys@.len() as int) == keys@);
        assert forall|k: K| m@.contains_key(k) == before.restrict(
            live_keys(before, now),
        ).contains_key(k) by {
            if before.contains_key(k) {
                assert(keys@.to_set().contains(k));
            }
        }
        assert(m@ == before.restrict(live_keys(before, now)));
    }
}

impl DnsCache {
    /// How long a stored hostname counts, in nanoseconds.
    pub closed spec fn ttl(self) -> u64 {
        self.ttl
    }

    /// An empty cache whose entries count for `ttl` nanoseconds.
    pub fn new(ttl: u64) -> (r: DnsCache)
        ensures
            r@ == Hostnames::empty(),
            r.ttl() == ttl,
    {
        let r: DnsCache = DnsCache { v4: HashMap::new(), v6: HashMap::new(), ttl };
        assert(r@ == Hostnames::empty());
        r
    }

    /// Stores (or refreshes) a mapping at time `now`.
    pub fn store(&mut self, ip: IpAddr, domain: &str, now: u64)
        ensures
            final(self)@ == remembering(old(self)@, ip, domain@, (now + old(self).ttl()) as nat),
            final(self).ttl() == old(self).ttl(),
    {
        broadcast use vstd::std_specs::hash::group_hash_axioms;

        if is_empty_text(domain) {
            return;
        }
        let expires: u128 = now as u128 + self.ttl as u128;
        let entry: Entry = Entry { domain: domain.to_string(), expires };
        match ip {
            IpAddr::V4(a) => {
                self.v4.insert(a.bits, entry);
            },
            IpAddr::V6(a) => {
                self.v6.insert(a.bits, entry);
            },
        }
        assert(self@ == old(self)@.insert(
            ip,
            Remembered { domain: domain@, expires: (now + old(self).ttl()) as nat },
        ));
    }

    /// Looks up the hostname for an address, if present and not expired at time
    /// `now`.
    pub fn lookup(&self, ip: IpAddr, now: u64) -> (r: Option<String>)
        ensures
            r is Some <==> hostname_of(self@, ip, now) is Some,
            r is Some ==> r->Some_0@ == hostname_of(self@, ip, now)->Some_0,
    {
        broadcast use vstd::std_specs::hash::group_hash_axioms;

        let entry: Option<&Entry> = match ip {
            IpAddr::V4(a) => self.v4.get(&a.bits),
            IpAddr::V6(a) => self.v6.get(&a.bits),
        };
        match entry {
            Some(e) => {
                assert(self@.contains_key(ip) && self@[ip] == e.model());
                if e.expires > now as u128 {
                    Some(e.domain.clone())
                } else {
                    None
                }
            },
            None => None,
        }
    }

    /// Removes all entries that have expired at time `now`.
    pub fn purge_expired(&mut self, now: u64)
        ensures
            final(self)@ == unexpired(old(self)@, now),
            final(self).ttl() == old(self).ttl(),
    {
        broadcast use vstd::std_specs::hash::group_hash_axioms;

        drop_expired(&mut self.v4, now);
        drop_expired(&mut self.v6, now);
        assert(self@ == unexpired(old(self)@, now));
    }

    /// The number of entries that have not expired at time `now`.
    pub fn len(&self, now: u64) -> (r: usize)
        requires
            unexpired(self@, now).dom().len() <= usize::MAX,
        ensures
            r == unexpired(self@, now).dom().len(),
    {
        broadcast use vstd::std_specs::hash::group_hash_axioms;

        let v4: usize = count_live(&self.v4, now);
        let v6: usize = count_live(&self.v6, now);
        proof {
            self.lemma_live_count(now);
        }
        v4 + v6
    }

    /// Whether the cache holds no entry that has not expired at time `now`.
    pub fn is_empty(&self, now: u64) -> (r: bool)
        ensures
            r == (unexpired(self@, now).dom().len() == 0),
    {
        broadcast use vstd::std_specs::hash::group_hash_axioms;

        let v4: usize = count_live(&self.v4, now);
        let v6: usize = count_live(&self.v6, now);
        proof {
            self.lemma_live_count(now);
        }
        v4 == 0 && v6 == 0
    }

    proof fn lemma_live_count(self, now: u64)
        requires
            live_keys(self.v4@, now).finite(),
            live_keys(self.v6@, now).finite(),
        ensures
            unexpired(self@, now).dom().len() == live_keys(self.v4@, now).len() + live_keys(
                self.v6@,
                now,
            ).len(),
    {
        let f4 = |k: u32| v4_ip(k);
        let f6 = |k: u128| v6_ip(k);
        let a = live_keys(self.v4@, now).map(f4);
        let b = live_keys(self.v6@, now).map(f6);
        vstd::set_lib::lemma_map_size(live_keys(self.v4@, now), a, f4);
        vstd::set_lib::lemma_map_size(live_keys(self.v6@, now), b, f6);
        vstd::set_lib::lemma_set_disjoint_lens(a, b);
        let d = unexpired(self@, now).dom();
        assert forall|ip: IpAddr| d.contains(ip) == (a + b).contains(ip) by {
            match ip {
                IpAddr::V4(x) => {
                    if live_keys(self.v4@, now).contains(x.bits) {
                        assert(f4(x.bits) == ip);
                        assert(a.contains(ip));
                    }
                },
                IpAddr::V6(x) => {
                    if live_keys(self.v6@, now).contains(x.bits) {
                        assert(f6(x.bits) == ip);
                        assert(b.contains(ip));
                    }
                },
            }
        }
        assert(d == a + b);
        assert(a.disjoint(b));
    }

    /// Parses a DNS response (starting at the DNS header) and stores all its
    /// `A` and `AAAA` answers under the name of its first question.
    pub fn snoop_response(&mut self, payload: &[u8], now: u64)
        ensures
            final(self)@ == remembering_all(
                old(self)@,
                dns_answers(payload@).0,
                dns_answers(payload@).1,
                (now + old(self).ttl()) as nat,
            ),
            final(self).ttl() == old(self).ttl(),
    {
        let answers: Vec<(IpAddr, String)> = parse_dns_answers(payload);
        let ghost ips = dns_answers(payload@).0;
        let ghost name = dns_answers(payload@).1;
        let ghost expires = (now + old(self).ttl()) as nat;
        let mut i: usize = 0;
        assert(ips.take(0) == Seq::<IpAddr>::empty());
        while i < answers.len()
            invariant
                i <= answers.len(),
                self.ttl() == old(self).ttl(),
                expires == now + old(self).ttl(),
                pairs_up(answers@, (ips, name)),
                self@ == remembering_all(old(self)@, ips.take(i as int), name, expires),
            decreases answers.len() - i,
        {
            let ghost next = ips.take(i + 1);
            assert(next.drop_last() == ips.take(i as int));
            assert(next.last() == ips[i as int]);
            self.store(answers[i].0, answers[i].1.as_str(), now);
            i = i + 1;
        }
        assert(ips.take(ips.len() as int) == ips);
    }
}

impl Default for DnsCache {
    fn default() -> (r: DnsCache)
        ensures
            r@ == Hostnames::empty(),
            r.ttl() == DNS_CACHE_TTL,
    {
        DnsCache::new(DNS_CACHE_TTL)
    }
}

// ── Laws ────────────────────────────────────────────────────────────────────

/// How a name is written without compression: each label behind its length,
/// and a zero octet.
pub open spec fn plain_name(labels: Seq<Seq<u8>>) -> Seq<u8>
    decreases labels.len(),
{
    if labels.len() == 0 {
        seq![0u8]
    } else {
        seq![labels[0].len() as u8] + labels[0] + plain_name(labels.drop_first())
    }
}

/// A name written without compression reads back as its labels, and the
/// position behind it is where it ends.
pub proof fn law_plain_name_reads_back(
    msg: Seq<u8>,
    pos: int,
    labels: Seq<Seq<u8>>,
    jumps: nat,
)
    requires
        0 <= pos,
        pos + plain_name(labels).len() <= msg.len(),
        msg.subrange(pos, pos + plain_name(labels).len()) == plain_name(labels),
        forall|i: int| 0 <= i < labels.len() ==> 1 <= (#[trigger] labels[i]).len() <= 63,
    ensures
        labels_at(msg, pos, jumps) == Some(labels),
        name_end(msg, pos) == pos + plain_name(labels).len(),
    decreases labels.len(),
{
    let wire = plain_name(labels);
    let part = msg.subrange(pos, pos + wire.len());
    assert(msg[pos] == part[0]);
    if labels.len() == 0 {
        assert(labels == Seq::<Seq<u8>>::empty());
    } else {
        let first = labels[0];
        let rest = labels.drop_first();
        let n = first.len() as int;
        let tail = plain_name(rest);
        assert(wire == seq![first.len() as u8] + first + tail);
        assert(wire[0] == first.len() as u8);
        assert(msg.subrange(pos + 1, pos + 1 + n) == first) by {
            assert forall|i: int| 0 <= i < n implies msg[pos + 1 + i] == first[i] by {
                assert(part[1 + i] == wire[1 + i]);
                assert(wire[1 + i] == first[i]);
            }
        }
        assert(msg.subrange(pos + 1 + n, pos + 1 + n + tail.len()) == tail) by {
            assert forall|i: int| 0 <= i < tail.len() implies msg[pos + 1 + n + i] == tail[i] by {
                assert(part[1 + n + i] == wire[1 + n + i]);
                assert(wire[1 + n + i] == tail[i]);
            }
        }
        assert forall|i: int| 0 <= i < rest.len() implies 1 <= (#[trigger] rest[i]).len() <= 63 by {
            assert(rest[i] == labels[i + 1]);
        }
        law_plain_name_reads_back(msg, pos + 1 + n, rest, jumps);
        assert(seq![first] + rest == labels);
    }
}

/// What may happen to a cache.
pub enum CacheEvent {
    /// A hostname is stored for an address at a time.
    Store(IpAddr, Seq<char>, u64),
    /// Expired entries are removed at a time.
    Purge(u64),
}

/// What is remembered after some events, in a cache whose entries count for `ttl`.
pub open spec fn after_events(names: Hostnames, ttl: u64, events: Seq<CacheEvent>) -> Hostnames
    decreases events.len(),
{
    if events.len() == 0 {
        names
    } else {
        let before = after_events(names, ttl, events.drop_last());
        match events.last() {
            CacheEvent::Store(ip, domain, at) => remembering(before, ip, domain, (at + ttl) as nat),
            CacheEvent::Purge(at) => unexpired(before, at),
        }
    }
}

/// Whether an event up to time `now` stores no hostname for `ip`.
pub open spec fn leaves_address(event: CacheEvent, ip: IpAddr, now: u64) -> bool {
    match event {
        CacheEvent::Store(other, domain, _) => other != ip || domain.len() == 0,
        CacheEvent::Purge(at) => at <= now,
    }
}

/// A hostname that is the last to be stored for an address is found until its
/// time to live has passed, and not afterwards, whatever is stored for other
/// addresses and however often the cache is purged in between.
pub proof fn law_stored_hostname_is_found_until_it_expires(
    names: Hostnames,
    ttl: u64,
    ip: IpAddr,
    domain: Seq<char>,
    stored: u64,
    events: Seq<CacheEvent>,
    now: u64,
)
    requires
        domain.len() > 0,
        forall|i: int| 0 <= i < events.len() ==> leaves_address(#[trigger] events[i], ip, now),
    ensures
        hostname_of(
            after_events(
                remembering(names, ip, domain, (stored + ttl) as nat),
                ttl,
                events,
            ),
            ip,
            now,
        ) == if now < stored + ttl {
            Some(domain)
        } else {
            None
        },
    decreases events.len(),
{
    if events.len() > 0 {
        let front = events.drop_last();
        assert forall|i: int| 0 <= i < front.len() implies leaves_address(
            #[trigger] front[i],
            ip,
            now,
        ) by {
            assert(front[i] == events[i]);
        }
        law_stored_hostname_is_found_until_it_expires(names, ttl, ip, domain, stored, front, now);
        assert(leaves_address(events[events.len() - 1], ip, now));
    }
}

/// Storing a hostname leaves the lookups of other addresses as they were.
pub proof fn law_store_keeps_other_addresses(
    names: Hostnames,
    ip: IpAddr,
    other: IpAddr,
    domain: Seq<char>,
    expires: nat,
    now: u64,
)
    requires
        ip != other,
    ensures
        hostname_of(remembering(names, ip, domain, expires), other, now) == hostname_of(
            names,
            other,
            now,
        ),
{
}

/// Purging changes no lookup from that time on.
pub proof fn law_purge_changes_no_lookup(names: Hostnames, ip: IpAddr, purged: u64, now: u64)
    requires
        purged <= now,
    ensures
        hostname_of(unexpired(names, purged), ip, now) == hostname_of(names, ip, now),
{
}

/// Every snooped address resolves to the name of the question until the entry
/// expires; every other address resolves as before.
pub proof fn law_snooped_addresses_resolve(
    names: Hostnames,
    ips: Seq<IpAddr>,
    domain: Seq<char>,
    expires: nat,
    ip: IpAddr,
    now: u64,
)
    requires
        domain.len() > 0,
    ensures
        hostname_of(remembering_all(names, ips, domain, expires), ip, now) == if ips.contains(ip) {
            if now < expires {
                Some(domain)
            } else {
                None
            }
        } else {
            hostname_of(names, ip, now)
        },
    decreases ips.len(),
{
    if ips.len() > 0 {
        law_snooped_addresses_resolve(names, ips.drop_last(), domain, expires, ip, now);
        assert(ips.contains(ip) == (ips.drop_last().contains(ip) || ips.last() == ip)) by {
            if ips.contains(ip) {
                let i = choose|i: int| 0 <= i < ips.len() && ips[i] == ip;
                if i < ips.len() - 1 {
                    assert(ips.drop_last()[i] == ip);
                }
            }
            if ips.drop_last().contains(ip) {
                let i = choose|i: int| 0 <= i < ips.len() - 1 && ips.drop_last()[i] == ip;
                assert(ips[i] == ip);
            }
        }
    }
}

/// Right after a response was snooped, each address among its answers resolves to
/// the name of its question, and every other address as before.
pub proof fn law_snooped_response_resolves(
    names: Hostnames,
    payload: Seq<u8>,
    ttl: u64,
    ip: IpAddr,
    now: u64,
)
    requires
        ttl > 0,
        dns_answers(payload).1.len() > 0,
    ensures
        ({
            let (ips, name) = dns_answers(payload);
            hostname_of(remembering_all(names, ips, name, (now + ttl) as nat), ip, now)
                == if ips.contains(ip) {
                Some(name)
            } else {
                hostname_of(names, ip, now)
            }
        }),
{
    let (ips, name) = dns_answers(payload);
    law_snooped_addresses_resolve(names, ips, name, (now + ttl) as nat, ip, now);
}

/// A message that is no response, or reports an error, teaches nothing.
pub proof fn law_queries_and_errors_teach_nothing(names: Hostnames, msg: Seq<u8>, expires: nat)
    requires
        msg.len() < 12 || msg[2] < 128 || msg[3] % 16 != 0,
    ensures
        remembering_all(names, dns_answers(msg).0, dns_answers(msg).1, expires) == names,
{
}

/// Labels behind their lengths, without the zero octet that ends a name.
pub open spec fn label_octets(labels: Seq<Seq<u8>>) -> Seq<u8>
    decreases labels.len(),
{
    if labels.len() == 0 {
        Seq::empty()
    } else {
        seq![labels[0].len() as u8] + labels[0] + label_octets(labels.drop_first())
    }
}

/// Whether every label has a length that is told apart from the end of a name and
/// from a compression pointer.
pub open spec fn are_labels(labels: Seq<Seq<u8>>) -> bool {
    forall|i: int| 0 <= i < labels.len() ==> 1 <= (#[trigger] labels[i]).len() < 192
}

/// Whether `part` stands in `msg` at `pos`.
pub open spec fn holds_at(msg: Seq<u8>, pos: int, part: Seq<u8>) -> bool {
    0 <= pos && pos + part.len() <= msg.len() && msg.subrange(pos, pos + part.len()) == part
}

proof fn lemma_holds_both(msg: Seq<u8>, pos: int, a: Seq<u8>, b: Seq<u8>)
    requires
        holds_at(msg, pos, a + b),
    ensures
        holds_at(msg, pos, a),
        holds_at(msg, pos + a.len(), b),
{
    let part = msg.subrange(pos, pos + (a + b).len());
    assert forall|i: int| 0 <= i < a.len() implies msg[pos + i] == a[i] by {
        assert(part[i] == (a + b)[i]);
    }
    assert forall|i: int| 0 <= i < b.len() implies msg[pos + a.len() + i] == b[i] by {
        assert(part[a.len() + i] == (a + b)[a.len() + i]);
    }
    assert(msg.subrange(pos, pos + a.len()) =~= a);
    assert(msg.subrange(pos + a.len(), pos + a.len() + b.len()) =~= b);
}

/// A name goes on behind its labels: those labels come first in what is read, and
/// the name ends where the rest of it does.
pub proof fn law_name_goes_on_behind_its_labels(
    msg: Seq<u8>,
    pos: int,
    labels: Seq<Seq<u8>>,
    jumps: nat,
)
    requires
        holds_at(msg, pos, label_octets(labels)),
        are_labels(labels),
    ensures
        ({
            let rest = pos + label_octets(labels).len();
            &&& labels_at(msg, pos, jumps) == match labels_at(msg, rest, jumps) {
                Some(more) => Some(labels + more),
                None => None,
            }
            &&& rest < msg.len() ==> name_end(msg, pos) == name_end(msg, rest)
        }),
    decreases labels.len(),
{
    if labels.len() == 0 {
        if let Some(more) = labels_at(msg, pos, jumps) {
            assert(labels + more == more);
        }
    } else {
        let first = labels[0];
        let behind = labels.drop_first();
        let n = first.len() as int;
        let wire = label_octets(labels);
        lemma_holds_both(msg, pos, seq![first.len() as u8] + first, label_octets(behind));
        lemma_holds_both(msg, pos, seq![first.len() as u8], first);
        assert(msg.subrange(pos, pos + 1)[0] == seq![first.len() as u8][0]);
        assert(msg[pos] == n);
        assert forall|i: int| 0 <= i < behind.len() implies 1 <= (
        #[trigger] behind[i]).len() < 192 by {
            assert(behind[i] == labels[i + 1]);
        }
        law_name_goes_on_behind_its_labels(msg, pos + 1 + n, behind, jumps);
        if let Some(more) = labels_at(msg, pos + wire.len(), jumps) {
            assert(seq![first] + (behind + more) == labels + more);
        }
    }
}

/// A name goes on where a compression pointer leads, and ends behind the pointer.
pub proof fn law_name_goes_on_where_a_pointer_leads(
    msg: Seq<u8>,
    pos: int,
    target: nat,
    jumps: nat,
)
    requires
        target < 0x4000,
        holds_at(msg, pos, seq![(192 + target / 256) as u8, (target % 256) as u8]),
    ensures
        name_end(msg, pos) == pos + 2,
        labels_at(msg, pos, jumps + 1) == labels_at(msg, target as int, jumps),
        labels_at(msg, pos, 0) is None,
{
    let pointer = seq![(192 + target / 256) as u8, (target % 256) as u8];
    let part = msg.subrange(pos, pos + 2);
    assert(part[0] == pointer[0] && part[1] == pointer[1]);
    assert(msg[pos] == 192 + target / 256 && msg[pos + 1] == target % 256);
}

/// A zero octet ends a name.
pub proof fn law_name_ends_with_zero(msg: Seq<u8>, pos: int, jumps: nat)
    requires
        holds_at(msg, pos, seq![0u8]),
    ensures
        name_end(msg, pos) == pos + 1,
        labels_at(msg, pos, jumps) == Some(Seq::<Seq<u8>>::empty()),
{
    assert(msg.subrange(pos, pos + 1)[0] == seq![0u8][0]);
}

/// Whether compression pointers lead through the positions of `path` in turn.
pub open spec fn leads_through(msg: Seq<u8>, path: Seq<nat>) -> bool {
    forall|i: int|
        0 < i < path.len() ==> #[trigger] path[i] < 0x4000 && holds_at(
            msg,
            path[i - 1] as int,
            seq![(192 + path[i] / 256) as u8, (path[i] % 256) as u8],
        )
}

/// A name behind compression pointers is read through ten of them and no more.
pub proof fn law_ten_pointers_are_followed(msg: Seq<u8>, path: Seq<nat>, labels: Seq<Seq<u8>>)
    requires
        path.len() > 0,
        leads_through(msg, path),
        holds_at(msg, path.last() as int, label_octets(labels) + seq![0u8]),
        are_labels(labels),
        readable(labels),
    ensures
        path.len() - 1 <= 10 ==> name_at(msg, path[0] as int) == Some(dotted(labels)),
        path.len() - 1 > 10 ==> name_at(msg, path[0] as int) is None,
{
    lemma_pointer_chain(msg, path, labels, 10);
}

proof fn lemma_pointer_chain(msg: Seq<u8>, path: Seq<nat>, labels: Seq<Seq<u8>>, jumps: nat)
    requires
        path.len() > 0,
        leads_through(msg, path),
        holds_at(msg, path.last() as int, label_octets(labels) + seq![0u8]),
        are_labels(labels),
    ensures
        path.len() - 1 <= jumps ==> labels_at(msg, path[0] as int, jumps) == Some(labels),
        path.len() - 1 > jumps ==> labels_at(msg, path[0] as int, jumps) is None,
    decreases path.len(),
{
    if path.len() == 1 {
        let pos = path[0] as int;
        lemma_holds_both(msg, pos, label_octets(labels), seq![0u8]);
        law_name_goes_on_behind_its_labels(msg, pos, labels, jumps);
        law_name_ends_with_zero(msg, pos + label_octets(labels).len(), jumps);
        assert(labels + Seq::<Seq<u8>>::empty() == labels);
    } else {
        let rest = path.drop_first();
        assert forall|i: int| 0 < i < rest.len() implies #[trigger] rest[i] < 0x4000 && holds_at(
            msg,
            rest[i - 1] as int,
            seq![(192 + rest[i] / 256) as u8, (rest[i] % 256) as u8],
        ) by {
            assert(rest[i] == path[i + 1]);
            assert(rest[i - 1] == path[i]);
        }
        assert(path[1] < 0x4000);
        assert(rest.last() == path.last());
        if jumps > 0 {
            lemma_pointer_chain(msg, rest, labels, (jumps - 1) as nat);
            law_name_goes_on_where_a_pointer_leads(
                msg,
                path[0] as int,
                path[1],
                (jumps - 1) as nat,
            );
        } else {
            law_name_goes_on_where_a_pointer_leads(msg, path[0] as int, path[1], 0);
        }
    }
}

/// The text of a name is the texts of its labels with dots between them: cut at
/// the dots, it gives them back.
pub proof fn law_name_text_gives_back_its_labels(labels: Seq<Seq<u8>>)
    requires
        labels.len() > 0,
        forall|i: int|
            0 <= i < labels.len() ==> !vstd::utf8::decode_utf8(#[trigger] labels[i]).contains('.'),
    ensures
        text::split(dotted(labels), seq!['.']) == labels.map_values(
            |label: Seq<u8>| vstd::utf8::decode_utf8(label),
        ),
    decreases labels.len(),
{
    let dot = seq!['.'];
    assert(dot[0] == '.');
    let f = |label: Seq<u8>| vstd::utf8::decode_utf8(label);
    let last = vstd::utf8::decode_utf8(labels.last());
    assert(!vstd::utf8::decode_utf8(labels[labels.len() - 1]).contains('.'));
    assert forall|i: int| 0 <= i < last.len() implies !dot.contains(#[trigger] last[i]) by {
        assert(last.contains(last[i]));
    }
    text::lemma_split_single(last, dot);
    if labels.len() == 1 {
        assert(labels.map_values(f) =~= seq![last]);
    } else {
        let front = labels.drop_last();
        assert forall|i: int| 0 <= i < front.len() implies !vstd::utf8::decode_utf8(
            #[trigger] front[i],
        ).contains('.') by {
            assert(front[i] == labels[i]);
        }
        law_name_text_gives_back_its_labels(front);
        text::law_split_of_joined_texts(dotted(front), '.', last, dot);
        assert(labels.map_values(f) =~= front.map_values(f) + seq![last]);
    }
}

/// A 16-bit number, high octet first.
pub open spec fn two_octets(x: nat) -> Seq<u8> {
    seq![(x / 256) as u8, (x % 256) as u8]
}

proof fn lemma_two_octets(msg: Seq<u8>, pos: int, x: nat)
    requires
        x < 0x1_0000,
        holds_at(msg, pos, two_octets(x)),
    ensures
        u16_at(msg, pos) == x,
{
    let part = msg.subrange(pos, pos + 2);
    let pair = two_octets(x);
    assert(part[0] == pair[0] && part[1] == pair[1]);
    lemma_pair_value(msg[pos], msg[pos + 1]);
}

proof fn lemma_pair_value(hi: u8, lo: u8)
    ensures
        bytes::be_value(seq![hi, lo]) == hi * 256 + lo,
{
    reveal_with_fuel(bytes::be_value, 3);
    assert(seq![hi, lo].drop_last() =~= seq![hi]);
    assert(seq![hi].drop_last() =~= Seq::<u8>::empty());
}

/// A question: how its name is written, and its type and class.
pub struct WireQuestion {
    /// The octets of the name.
    pub name: Seq<u8>,
    /// The four octets of type and class.
    pub kind: Seq<u8>,
}

/// A resource record.
pub struct WireRecord {
    /// The octets of the owner's name.
    pub owner: Seq<u8>,
    /// The type.
    pub rtype: u16,
    /// The class.
    pub rclass: u16,
    /// The four octets of the time to live.
    pub ttl: Seq<u8>,
    /// The data.
    pub rdata: Seq<u8>,
}

impl WireQuestion {
    /// The octets of the question.
    pub open spec fn octets(self) -> Seq<u8> {
        self.name + self.kind
    }
}

impl WireRecord {
    /// The octets of the record.
    pub open spec fn octets(self) -> Seq<u8> {
        self.owner + (two_octets(self.rtype as nat) + (two_octets(self.rclass as nat) + (self.ttl
            + (two_octets(self.rdata.len()) + self.rdata))))
    }

    /// Whether the record can be written.
    pub open spec fn fits(self) -> bool {
        self.ttl.len() == 4 && self.rdata.len() < 0x1_0000
    }

    /// Whether the record is an address on the internet: class IN, and type A with
    /// four octets or type AAAA with sixteen.
    pub open spec fn is_address(self) -> bool {
        self.rclass == 1 && (self.rtype == 1 && self.rdata.len() == 4 || self.rtype == 28
            && self.rdata.len() == 16)
    }
}

/// The octets of some questions.
pub open spec fn questions_octets(questions: Seq<WireQuestion>) -> Seq<u8>
    decreases questions.len(),
{
    if questions.len() == 0 {
        Seq::empty()
    } else {
        questions[0].octets() + questions_octets(questions.drop_first())
    }
}

/// The octets of some records.
pub open spec fn records_octets(records: Seq<WireRecord>) -> Seq<u8>
    decreases records.len(),
{
    if records.len() == 0 {
        Seq::empty()
    } else {
        records[0].octets() + records_octets(records.drop_first())
    }
}

/// Whether `msg` holds a name at `pos` that can be read and takes `len` octets.
pub open spec fn reads_name(msg: Seq<u8>, pos: int, len: nat) -> bool {
    name_at(msg, pos) is Some && name_end(msg, pos) == pos + len
}

/// Whether the names of the questions that stand at `pos` can be read.
pub open spec fn questions_read(msg: Seq<u8>, pos: int, questions: Seq<WireQuestion>) -> bool
    decreases questions.len(),
{
    questions.len() == 0 || (reads_name(msg, pos, questions[0].name.len()) && questions_read(
        msg,
        pos + questions[0].octets().len(),
        questions.drop_first(),
    ))
}

/// Whether the owners of the records that stand at `pos` can be read.
pub open spec fn owners_read(msg: Seq<u8>, pos: int, records: Seq<WireRecord>) -> bool
    decreases records.len(),
{
    records.len() == 0 || (reads_name(msg, pos, records[0].owner.len()) && owners_read(
        msg,
        pos + records[0].octets().len(),
        records.drop_first(),
    ))
}

/// Whether `ips` are the addresses that the records among `records` hold that are
/// addresses, in their order.
pub open spec fn are_addresses_of(ips: Seq<IpAddr>, records: Seq<WireRecord>) -> bool {
    let held = records.filter(|r: WireRecord| r.is_address());
    &&& ips.len() == held.len()
    &&& forall|i: int|
        0 <= i < ips.len() ==> (#[trigger] ips[i]).octets_spec() == held[i].rdata && (ips[i] is V4
            <==> held[i].rtype == 1)
}

proof fn lemma_address_of_record(r: WireRecord)
    requires
        r.is_address(),
    ensures
        record_address(r.rtype as nat, r.rclass as nat, r.rdata) matches Some(ip)
            && ip.octets_spec() == r.rdata && (ip is V4 <==> r.rtype == 1),
{
    bytes::lemma_be_value_bytes(r.rdata);
    bytes::lemma_be_value_bound(r.rdata);
    reveal_with_fuel(bytes::be_limit, 17);
}

/// One record more in front.
proof fn lemma_addresses_cons(r: WireRecord, rest: Seq<WireRecord>, ips: Seq<IpAddr>)
    requires
        are_addresses_of(ips, rest),
    ensures
        ({
            let all = seq![r] + rest;
            match record_address(r.rtype as nat, r.rclass as nat, r.rdata) {
                Some(ip) => are_addresses_of(seq![ip] + ips, all),
                None => are_addresses_of(ips, all),
            }
        }),
{
    let p = |r: WireRecord| r.is_address();
    let all = seq![r] + rest;
    Seq::filter_distributes_over_add(seq![r], rest, p);
    reveal(Seq::filter);
    assert(seq![r].drop_last() =~= Seq::<WireRecord>::empty());
    assert(seq![r].drop_last().filter(p) =~= Seq::<WireRecord>::empty());
    if r.is_address() {
        lemma_address_of_record(r);
        assert(seq![r].filter(p) =~= seq![r]);
        let ip = record_address(r.rtype as nat, r.rclass as nat, r.rdata)->Some_0;
        let held = all.filter(p);
        assert(held == seq![r] + rest.filter(p));
        assert forall|i: int| 0 <= i < (seq![ip] + ips).len() implies (#[trigger] (seq![ip]
            + ips)[i]).octets_spec() == held[i].rdata && ((seq![ip] + ips)[i] is V4
            <==> held[i].rtype == 1) by {
            if i > 0 {
                assert((seq![ip] + ips)[i] == ips[i - 1]);
                assert(held[i] == rest.filter(p)[i - 1]);
            }
        }
    } else {
        assert(seq![r].filter(p) =~= Seq::<WireRecord>::empty());
        assert(all.filter(p) =~= rest.filter(p));
    }
}

/// Records that stand in a message are read one after the other.
proof fn lemma_records_are_read(msg: Seq<u8>, pos: int, records: Seq<WireRecord>, n: nat)
    requires
        holds_at(msg, pos, records_octets(records)),
        owners_read(msg, pos, records),
        forall|i: int| 0 <= i < records.len() ==> (#[trigger] records[i]).fits(),
        n >= records.len(),
        n > records.len() ==> record_addresses(
            msg,
            pos + records_octets(records).len(),
            (n - records.len()) as nat,
        ).len() == 0,
    ensures
        are_addresses_of(record_addresses(msg, pos, n), records),
    decreases records.len(),
{
    let p = |r: WireRecord| r.is_address();
    if records.len() == 0 {
        reveal(Seq::filter);
        assert(records.filter(p).len() == 0);
        assert(record_addresses(msg, pos, n).len() == 0);
    } else {
        let r = records[0];
        let rest = records.drop_first();
        assert(r.fits());
        let f = pos + r.owner.len();
        lemma_holds_both(msg, pos, r.octets(), records_octets(rest));
        let t4 = two_octets(r.rdata.len()) + r.rdata;
        let t3 = r.ttl + t4;
        let t2 = two_octets(r.rclass as nat) + t3;
        let t1 = two_octets(r.rtype as nat) + t2;
        lemma_holds_both(msg, pos, r.owner, t1);
        lemma_holds_both(msg, f, two_octets(r.rtype as nat), t2);
        lemma_holds_both(msg, f + 2, two_octets(r.rclass as nat), t3);
        lemma_holds_both(msg, f + 4, r.ttl, t4);
        lemma_holds_both(msg, f + 8, two_octets(r.rdata.len()), r.rdata);
        lemma_two_octets(msg, f, r.rtype as nat);
        lemma_two_octets(msg, f + 2, r.rclass as nat);
        lemma_two_octets(msg, f + 8, r.rdata.len());
        let next = pos + r.octets().len();
        assert(next == f + 10 + r.rdata.len());
        assert forall|i: int| 0 <= i < rest.len() implies (#[trigger] rest[i]).fits() by {
            assert(rest[i] == records[i + 1]);
        }
        assert(pos + records_octets(records).len() == next + records_octets(rest).len());
        lemma_records_are_read(msg, next, rest, (n - 1) as nat);
        lemma_addresses_cons(r, rest, record_addresses(msg, next, (n - 1) as nat));
        assert(seq![r] + rest =~= records);
        assert(msg.subrange(f + 10, next) == r.rdata);
    }
}

/// Questions that stand in a message are skipped one after the other.
proof fn lemma_questions_are_skipped(msg: Seq<u8>, pos: int, questions: Seq<WireQuestion>)
    requires
        holds_at(msg, pos, questions_octets(questions)),
        questions_read(msg, pos, questions),
        forall|i: int| 0 <= i < questions.len() ==> (#[trigger] questions[i]).kind.len() == 4,
    ensures
        questions_end(msg, pos, questions.len()) == Some(
            pos + questions_octets(questions).len() as int,
        ),
    decreases questions.len(),
{
    if questions.len() > 0 {
        let q = questions[0];
        let rest = questions.drop_first();
        assert(q.kind.len() == 4);
        lemma_holds_both(msg, pos, q.octets(), questions_octets(rest));
        assert forall|i: int| 0 <= i < rest.len() implies (#[trigger] rest[i]).kind.len() == 4 by {
            assert(rest[i] == questions[i + 1]);
        }
        lemma_questions_are_skipped(msg, pos + q.octets().len(), rest);
    }
}

/// A response made of a header, questions and records: a response without error,
/// whose names can be read, with its sections where the header announces them.
/// What stands behind the answers, such as other sections, is `tail`; a response
/// that announces more answers than it holds ends with the last one.
pub open spec fn is_response(
    msg: Seq<u8>,
    header: Seq<u8>,
    questions: Seq<WireQuestion>,
    records: Seq<WireRecord>,
    tail: Seq<u8>,
) -> bool {
    let asked = header[4] * 256 + header[5];
    let answered = header[6] * 256 + header[7];
    &&& msg == header + (questions_octets(questions) + (records_octets(records) + tail))
    &&& header.len() == 12
    &&& header[2] >= 128
    &&& header[3] % 16 == 0
    &&& questions.len() > 0
    &&& asked == questions.len() || (asked == 0 && questions.len() == 1)
    &&& answered > 0
    &&& answered == records.len() || (answered > records.len() && tail.len() == 0)
    &&& forall|i: int| 0 <= i < questions.len() ==> (#[trigger] questions[i]).kind.len() == 4
    &&& forall|i: int| 0 <= i < records.len() ==> (#[trigger] records[i]).fits()
    &&& questions_read(msg, 12, questions)
    &&& owners_read(msg, 12 + questions_octets(questions).len() as int, records)
}

proof fn lemma_sections(
    msg: Seq<u8>,
    header: Seq<u8>,
    questions: Seq<WireQuestion>,
    records: Seq<WireRecord>,
    tail: Seq<u8>,
)
    requires
        msg == header + (questions_octets(questions) + (records_octets(records) + tail)),
        header.len() == 12,
    ensures
        ({
            let first = 12 + questions_octets(questions).len();
            &&& holds_at(msg, 12, questions_octets(questions))
            &&& holds_at(msg, first as int, records_octets(records))
            &&& msg.len() == first + records_octets(records).len() + tail.len()
            &&& msg.len() >= 12
            &&& forall|i: int| 0 <= i < 12 ==> msg[i] == header[i]
            &&& u16_at(msg, 4) == header[4] * 256 + header[5]
            &&& u16_at(msg, 6) == header[6] * 256 + header[7]
        }),
{
    let q = questions_octets(questions);
    let r = records_octets(records);
    assert(msg.subrange(0, msg.len() as int) =~= header + (q + (r + tail)));
    lemma_holds_both(msg, 0, header, q + (r + tail));
    lemma_holds_both(msg, 12, q, r + tail);
    lemma_holds_both(msg, 12 + q.len() as int, r, tail);
    lemma_pair_value(header[4], header[5]);
    lemma_pair_value(header[6], header[7]);
}

/// The answers of a message whose records are read up to where no more is read.
proof fn lemma_answers(
    msg: Seq<u8>,
    header: Seq<u8>,
    questions: Seq<WireQuestion>,
    records: Seq<WireRecord>,
    tail: Seq<u8>,
)
    requires
        msg == header + (questions_octets(questions) + (records_octets(records) + tail)),
        header.len() == 12,
        header[2] >= 128,
        header[3] % 16 == 0,
        questions.len() > 0,
        header[4] * 256 + header[5] == questions.len() || (header[4] * 256 + header[5] == 0
            && questions.len() == 1),
        header[6] * 256 + header[7] > 0,
        header[6] * 256 + header[7] >= records.len(),
        header[6] * 256 + header[7] > records.len() ==> record_addresses(
            msg,
            12 + questions_octets(questions).len() as int + records_octets(records).len(),
            (header[6] * 256 + header[7] - records.len()) as nat,
        ).len() == 0,
        forall|i: int| 0 <= i < questions.len() ==> (#[trigger] questions[i]).kind.len() == 4,
        forall|i: int| 0 <= i < records.len() ==> (#[trigger] records[i]).fits(),
        questions_read(msg, 12, questions),
        owners_read(msg, 12 + questions_octets(questions).len() as int, records),
    ensures
        are_addresses_of(dns_answers(msg).0, records),
        Some(dns_answers(msg).1) == name_at(msg, 12),
{
    lemma_sections(msg, header, questions, records, tail);
    let first = 12 + questions_octets(questions).len();
    let n = u16_at(msg, 6);
    let q = questions[0];
    let more = questions.drop_first();
    assert(q.kind.len() == 4);
    assert(questions_octets(questions) == q.octets() + questions_octets(more));
    lemma_holds_both(msg, 12, q.octets(), questions_octets(more));
    assert(name_end(msg, 12) + 4 == 12 + q.octets().len());
    assert forall|i: int| 0 <= i < more.len() implies (#[trigger] more[i]).kind.len() == 4 by {
        assert(more[i] == questions[i + 1]);
    }
    lemma_questions_are_skipped(msg, 12 + q.octets().len() as int, more);
    if u16_at(msg, 4) <= 1 {
        assert(more.len() == 0);
        assert(questions_octets(more).len() == 0);
    }
    lemma_records_are_read(msg, first as int, records, n);
}

/// A response answers with the addresses of all its records of class IN that are
/// an A of four octets or an AAAA of sixteen, in their order, whatever their
/// owners are called and however long they live, and with those alone. The name
/// that they answer is that of the first question.
pub proof fn law_response_answers_with_its_addresses(
    msg: Seq<u8>,
    header: Seq<u8>,
    questions: Seq<WireQuestion>,
    records: Seq<WireRecord>,
    tail: Seq<u8>,
)
    requires
        is_response(msg, header, questions, records, tail),
    ensures
        are_addresses_of(dns_answers(msg).0, records),
        Some(dns_answers(msg).1) == name_at(msg, 12),
{
    lemma_sections(msg, header, questions, records, tail);
    if header[6] * 256 + header[7] > records.len() {
        assert(name_at(msg, msg.len() as int) is None);
    }
    lemma_answers(msg, header, questions, records, tail);
}

/// How a name can be written: its labels and a zero octet, or its first labels and
/// a pointer to where it goes on.
pub enum WireName {
    /// All the labels.
    Plain(Seq<Seq<u8>>),
    /// The first labels, and a pointer to the name of the first question.
    Behind(Seq<Seq<u8>>),
}

impl WireName {
    /// The octets of the name.
    pub open spec fn octets(self) -> Seq<u8> {
        match self {
            WireName::Plain(labels) => label_octets(labels) + seq![0u8],
            WireName::Behind(labels) => label_octets(labels) + seq![192u8, 12],
        }
    }

    /// Whether the labels are such that the name can be read.
    pub open spec fn is_sound(self) -> bool {
        match self {
            WireName::Plain(labels) => are_labels(labels) && readable(labels),
            WireName::Behind(labels) => are_labels(labels) && readable(labels),
        }
    }
}

/// A name is read, plain or with a pointer to the name of the first question.
proof fn lemma_name_is_read(msg: Seq<u8>, pos: int, name: WireName, asked: Seq<Seq<u8>>)
    requires
        holds_at(msg, 12, label_octets(asked) + seq![0u8]),
        are_labels(asked),
        readable(asked),
        holds_at(msg, pos, name.octets()),
        name.is_sound(),
    ensures
        reads_name(msg, pos, name.octets().len()),
        name matches WireName::Plain(labels) ==> name_at(msg, pos) == Some(dotted(labels)),
        name matches WireName::Behind(labels) ==> name_at(msg, pos) == Some(
            dotted(labels + asked),
        ),
{
    let none = Seq::<Seq<u8>>::empty();
    match name {
        WireName::Plain(labels) => {
            lemma_holds_both(msg, pos, label_octets(labels), seq![0u8]);
            let at = pos + label_octets(labels).len();
            law_name_goes_on_behind_its_labels(msg, pos, labels, 10);
            law_name_ends_with_zero(msg, at, 10);
            assert(labels + none == labels);
        },
        WireName::Behind(labels) => {
            lemma_holds_both(msg, pos, label_octets(labels), seq![192u8, 12]);
            let at = pos + label_octets(labels).len();
            law_name_goes_on_behind_its_labels(msg, pos, labels, 10);
            law_name_goes_on_where_a_pointer_leads(msg, at, 12, 9);
            lemma_holds_both(msg, 12, label_octets(asked), seq![0u8]);
            law_name_goes_on_behind_its_labels(msg, 12, asked, 9);
            law_name_ends_with_zero(msg, 12 + label_octets(asked).len() as int, 9);
            assert(asked + none == asked);
            let all = labels + asked;
            assert forall|i: int| 0 <= i < all.len() implies vstd::utf8::valid_utf8(
                #[trigger] all[i],
            ) by {
                if i < labels.len() {
                    assert(all[i] == labels[i]);
                } else {
                    assert(all[i] == asked[i - labels.len()]);
                }
            }
        },
    }
}

proof fn lemma_owners_are_read(
    msg: Seq<u8>,
    pos: int,
    records: Seq<WireRecord>,
    owners: Seq<WireName>,
    asked: Seq<Seq<u8>>,
)
    requires
        holds_at(msg, 12, label_octets(asked) + seq![0u8]),
        are_labels(asked),
        readable(asked),
        holds_at(msg, pos, records_octets(records)),
        owners.len() == records.len(),
        forall|i: int|
            0 <= i < records.len() ==> (#[trigger] records[i]).owner == owners[i].octets()
                && owners[i].is_sound(),
    ensures
        owners_read(msg, pos, records),
    decreases records.len(),
{
    if records.len() > 0 {
        let r = records[0];
        let rest = records.drop_first();
        lemma_holds_both(msg, pos, r.octets(), records_octets(rest));
        let t1 = two_octets(r.rtype as nat) + (two_octets(r.rclass as nat) + (r.ttl + (two_octets(
            r.rdata.len(),
        ) + r.rdata)));
        lemma_holds_both(msg, pos, r.owner, t1);
        assert(records[0].owner == owners[0].octets() && owners[0].is_sound());
        lemma_name_is_read(msg, pos, owners[0], asked);
        let names = owners.drop_first();
        assert forall|i: int| 0 <= i < rest.len() implies (#[trigger] rest[i]).owner
            == names[i].octets() && names[i].is_sound() by {
            assert(rest[i] == records[i + 1]);
            assert(names[i] == owners[i + 1]);
        }
        lemma_owners_are_read(msg, pos + r.octets().len(), rest, names, asked);
    }
}

/// A response to one question answers with the addresses of all its address
/// records, in their order, under the name that was asked for: each owner may be
/// written in full, or with a pointer to that name behind some labels of its own,
/// and may be any name at all.
pub proof fn law_response_answers_whatever_its_owners(
    header: Seq<u8>,
    asked: Seq<Seq<u8>>,
    kind: Seq<u8>,
    records: Seq<WireRecord>,
    owners: Seq<WireName>,
    tail: Seq<u8>,
)
    requires
        header.len() == 12,
        header[2] >= 128,
        header[3] % 16 == 0,
        header[4] == 0,
        header[5] <= 1,
        header[6] * 256 + header[7] == records.len(),
        records.len() > 0,
        are_labels(asked),
        readable(asked),
        kind.len() == 4,
        owners.len() == records.len(),
        forall|i: int|
            0 <= i < records.len() ==> (#[trigger] records[i]).fits() && records[i].owner
                == owners[i].octets() && owners[i].is_sound(),
    ensures
        ({
            let msg = header + (label_octets(asked) + seq![0u8] + kind + (records_octets(records)
                + tail));
            &&& are_addresses_of(dns_answers(msg).0, records)
            &&& dns_answers(msg).1 == dotted(asked)
        }),
{
    let name = label_octets(asked) + seq![0u8];
    let question = WireQuestion { name, kind };
    let questions = seq![question];
    let msg = header + (name + kind + (records_octets(records) + tail));
    assert(questions.drop_first() =~= Seq::<WireQuestion>::empty());
    assert(questions_octets(questions.drop_first()) =~= Seq::<u8>::empty());
    assert(questions_octets(questions) =~= name + kind);
    lemma_sections(msg, header, questions, records, tail);
    lemma_holds_both(msg, 12, name, kind);
    lemma_name_is_read(msg, 12, WireName::Plain(asked), asked);
    assert(questions_read(msg, 12 + question.octets().len() as int, questions.drop_first()));
    assert(questions_read(msg, 12, questions));
    assert forall|i: int| 0 <= i < records.len() implies (#[trigger] records[i]).owner
        == owners[i].octets() && owners[i].is_sound() by {
        assert(records[i].fits());
    }
    let first = 12 + questions_octets(questions).len();
    lemma_owners_are_read(msg, first as int, records, owners, asked);
    assert(is_response(msg, header, questions, records, tail));
    law_response_answers_with_its_addresses(msg, header, questions, records, tail);
}

/// A name that is cut off cannot be read, and one that is not ends where it did.
proof fn lemma_name_in_part(msg: Seq<u8>, pos: int, jumps: nat, k: int)
    requires
        labels_at(msg, pos, jumps) is Some,
        0 <= pos,
        0 <= k <= msg.len(),
    ensures
        k < name_end(msg, pos) ==> labels_at(msg.take(k), pos, jumps) is None,
        k >= name_end(msg, pos) ==> name_end(msg.take(k), pos) == name_end(msg, pos),
    decreases msg.len() - pos,
{
    let part = msg.take(k);
    if msg[pos] != 0 && msg[pos] < 192 {
        lemma_name_in_part(msg, pos + 1 + msg[pos], jumps, k);
    }
    if pos < k {
        assert(part[pos] == msg[pos]);
    }
    lemma_name_end_is_behind(msg, pos, jumps);
}

proof fn lemma_name_end_is_behind(msg: Seq<u8>, pos: int, jumps: nat)
    requires
        labels_at(msg, pos, jumps) is Some,
        0 <= pos,
    ensures
        pos < name_end(msg, pos) <= msg.len(),
    decreases msg.len() - pos,
{
    if msg[pos] != 0 && msg[pos] < 192 {
        lemma_name_end_is_behind(msg, pos + 1 + msg[pos], jumps);
    }
}

/// No record is read where one is cut off.
proof fn lemma_cut_record_is_not_read(
    whole: Seq<u8>,
    pos: int,
    cut: WireRecord,
    k: int,
    n: nat,
)
    requires
        holds_at(whole, pos, cut.octets()),
        reads_name(whole, pos, cut.owner.len()),
        cut.fits(),
        pos <= k < pos + cut.octets().len(),
    ensures
        record_addresses(whole.take(k), pos, n).len() == 0,
{
    let msg = whole.take(k);
    let f = pos + cut.owner.len();
    lemma_name_in_part(whole, pos, MAX_JUMPS as nat, k);
    let t4 = two_octets(cut.rdata.len()) + cut.rdata;
    let t3 = cut.ttl + t4;
    let t2 = two_octets(cut.rclass as nat) + t3;
    let t1 = two_octets(cut.rtype as nat) + t2;
    lemma_holds_both(whole, pos, cut.owner, t1);
    lemma_holds_both(whole, f, two_octets(cut.rtype as nat), t2);
    lemma_holds_both(whole, f + 2, two_octets(cut.rclass as nat), t3);
    lemma_holds_both(whole, f + 4, cut.ttl, t4);
    lemma_holds_both(whole, f + 8, two_octets(cut.rdata.len()), cut.rdata);
    lemma_two_octets(whole, f + 8, cut.rdata.len());
    assert(pos + cut.octets().len() == f + 10 + cut.rdata.len());
    if f + 10 <= k {
        assert(msg[f + 8] == whole[f + 8] && msg[f + 9] == whole[f + 9]);
        assert(u16_at(msg, f + 8) == cut.rdata.len());
    }
}

/// A response that is cut off inside a record answers with the addresses of the
/// records before the cut.
pub proof fn law_cut_response_answers_with_what_came_before(
    whole: Seq<u8>,
    k: int,
    header: Seq<u8>,
    questions: Seq<WireQuestion>,
    records: Seq<WireRecord>,
    cut: WireRecord,
    tail: Seq<u8>,
)
    requires
        is_response(whole, header, questions, records.push(cut), tail),
        ({
            let end = 12 + questions_octets(questions).len() + records_octets(records).len();
            end <= k < end + cut.octets().len()
        }),
        questions_read(whole.take(k), 12, questions),
        owners_read(whole.take(k), 12 + questions_octets(questions).len() as int, records),
    ensures
        are_addresses_of(dns_answers(whole.take(k)).0, records),
{
    let all = records.push(cut);
    let first = 12 + questions_octets(questions).len() as int;
    let end = first + records_octets(records).len();
    let msg = whole.take(k);
    let partial = cut.octets().take(k - end);
    lemma_sections(whole, header, questions, all, tail);
    lemma_records_push(records, cut);
    lemma_holds_both(whole, first, records_octets(records), cut.octets());
    lemma_owners_push(whole, first, records, cut);
    lemma_cut_sections(header, questions_octets(questions), records_octets(records), cut, tail, k);
    assert(all[all.len() - 1] == cut);
    assert(cut.fits());
    assert forall|i: int| 0 <= i < records.len() implies (#[trigger] records[i]).fits() by {
        assert(all[i] == records[i]);
    }
    lemma_cut_record_is_not_read(
        whole,
        end,
        cut,
        k,
        (header[6] * 256 + header[7] - records.len()) as nat,
    );
    lemma_answers(msg, header, questions, records, partial);
}

proof fn lemma_cut_sections(
    header: Seq<u8>,
    questions: Seq<u8>,
    records: Seq<u8>,
    cut: WireRecord,
    tail: Seq<u8>,
    k: int,
)
    requires
        ({
            let end = header.len() + questions.len() + records.len();
            end <= k <= end + cut.octets().len()
        }),
    ensures
        (header + (questions + (records + cut.octets() + tail))).take(k) == header + (questions + (
        records + cut.octets().take(k - header.len() - questions.len() - records.len()))),
{
    let octets = cut.octets();
    let end = header.len() + questions.len() + records.len();
    let whole = header + (questions + (records + octets + tail));
    let part = header + (questions + (records + octets.take(k - end)));
    assert forall|i: int| 0 <= i < k implies whole[i] == part[i] by {
        if i < header.len() {
        } else if i < header.len() + questions.len() {
        } else if i < end {
            let j = i - header.len() - questions.len();
            assert(whole[i] == (records + octets + tail)[j]);
            assert(part[i] == (records + octets.take(k - end))[j]);
        } else {
            let j = i - header.len() - questions.len();
            assert(whole[i] == (records + octets + tail)[j]);
            assert(part[i] == (records + octets.take(k - end))[j]);
            assert(whole[i] == octets[i - end]);
        }
    }
    assert(whole.take(k) =~= part);
}

proof fn lemma_records_push(records: Seq<WireRecord>, last: WireRecord)
    ensures
        records_octets(records.push(last)) == records_octets(records) + last.octets(),
    decreases records.len(),
{
    let all = records.push(last);
    if records.len() == 0 {
        assert(all.drop_first() =~= Seq::<WireRecord>::empty());
        assert(records_octets(all.drop_first()) =~= Seq::<u8>::empty());
        assert(records_octets(all) =~= records_octets(records) + last.octets());
    } else {
        lemma_records_push(records.drop_first(), last);
        assert(all.drop_first() =~= records.drop_first().push(last));
        assert(records_octets(all) =~= records_octets(records) + last.octets());
    }
}

proof fn lemma_owners_push(msg: Seq<u8>, pos: int, records: Seq<WireRecord>, last: WireRecord)
    requires
        owners_read(msg, pos, records.push(last)),
    ensures
        reads_name(msg, pos + records_octets(records).len(), last.owner.len()),
    decreases records.len(),
{
    let all = records.push(last);
    if records.len() > 0 {
        assert(all.drop_first() =~= records.drop_first().push(last));
        lemma_owners_push(msg, pos + records[0].octets().len(), records.drop_first(), last);
    }
}

/// A name is found in the cache exactly for the addresses that are counted as
/// entries.
pub proof fn law_entries_are_those_that_are_found(names: Hostnames, ip: IpAddr, now: u64)
    ensures
        unexpired(names, now).dom().contains(ip) <==> hostname_of(names, ip, now) is Some,
        unexpired(names, now).dom().contains(ip) ==> unexpired(names, now)[ip] == names[ip],
{
}

/// An empty hostname is not stored, and a stored one replaces the one before.
pub proof fn law_last_hostname_counts(
    names: Hostnames,
    ip: IpAddr,
    first: (Seq<char>, nat),
    last: (Seq<char>, nat),
)
    ensures
        first.0.len() == 0 ==> remembering(names, ip, first.0, first.1) == names,
        last.0.len() > 0 ==> remembering(
            remembering(names, ip, first.0, first.1),
            ip,
            last.0,
            last.1,
        ) == remembering(names, ip, last.0, last.1),
{
}

/// A name with a label that is not UTF-8 is no name.
pub proof fn law_names_are_utf8(msg: Seq<u8>, pos: int, i: int)
    requires
        labels_at(msg, pos, 10) is Some,
        0 <= i < labels_at(msg, pos, 10)->Some_0.len(),
        !vstd::utf8::valid_utf8(labels_at(msg, pos, 10)->Some_0[i]),
    ensures
        name_at(msg, pos) is None,
{
}

/// Reading the answers stops at a record whose owner cannot be read.
pub proof fn law_unreadable_owner_ends_the_answers(msg: Seq<u8>, pos: int, n: nat)
    requires
        name_at(msg, pos) is None,
    ensures
        record_addresses(msg, pos, n).len() == 0,
{
}

/// A message whose first question cannot be read or is cut off, or that announces no
/// answer, answers nothing.
pub proof fn law_unreadable_question_answers_nothing(msg: Seq<u8>)
    requires
        msg.len() >= 12,
        name_at(msg, 12) is None || name_end(msg, 12) + 4 > msg.len() || (msg[6] == 0 && msg[7]
            == 0),
    ensures
        dns_answers(msg).0.len() == 0,
{
    lemma_pair_value(msg[6], msg[7]);
}

/// A cache with the usual time to live finds a hostname for five minutes, in
/// nanoseconds, and not longer.
pub proof fn law_hostnames_count_for_five_minutes(
    names: Hostnames,
    ip: IpAddr,
    domain: Seq<char>,
    stored: u64,
    now: u64,
)
    requires
        domain.len() > 0,
    ensures
        hostname_of(
            remembering(names, ip, domain, (stored + DNS_CACHE_TTL) as nat),
            ip,
            now,
        ) is Some <==> now < stored + 5 * 60 * 1_000_000_000,
{
}

} // verus!
