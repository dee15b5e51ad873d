//! Routing rules and their evaluation.
//!
//! A [`Rule`] pairs match criteria (process names, destination hosts, ports,
//! domains) with a [`RuleAction`]. A [`RuleSet`] compiles the rules once and
//! evaluates a connection against them:
//!
//! * Rules are tried top to bottom; the first specific match wins.
//! * A rule without any criterion is a fallback, applied only where no other
//!   rule matched.
//! * Where nothing matches, the action is [`RuleAction::Direct`].
//! * Host, port and domain criteria must all hold; an empty or `*` list holds
//!   always.

use vstd::prelude::*;
use vstd::slice::slice_subrange;

use crate::addr;
use crate::addr::{agree_in_prefix, IpAddr, Ipv4Addr, Ipv6Addr};
use crate::addr_text;
use crate::addr_text::{parse_ipv4, parse_ipv6};
use crate::bytes;
use crate::glob;
use crate::glob::{push_compiled, Glob};
use crate::text;
use crate::text::{
    chars_of, parse_unsigned, same_ignoring_case, same_text, split_any, split_first, string_of,
    trimmed,
};

verus! {

/// What to do with a matched connection.
#[derive(Debug, Clone, Copy, PartialEq, Eq, Structural)]
pub enum RuleAction {
    /// Redirect the connection through the configured upstream proxy.
    Proxy,
    /// Let the connection through untouched.
    Direct,
    /// Drop the connection entirely.
    Block,
}

/// Which transport protocol a rule applies to.
#[derive(Debug, Clone, Copy, PartialEq, Eq, Structural)]
pub enum RuleProtocol {
    /// TCP only.
    Tcp,
    /// UDP only.
    Udp,
    /// Both TCP and UDP.
    Both,
}

/// Outcome of evaluating a connection against a [`RuleSet`].
#[derive(Debug, Clone, Copy, PartialEq, Eq, Structural)]
pub struct RuleMatch {
    /// The action to take.
    pub action: RuleAction,
    /// The proxy config id to use (only relevant for [`RuleAction::Proxy`]).
    pub proxy_config_id: u32,
}

/// A single routing rule.
#[derive(Debug)]
pub struct Rule {
    process_names: String,
    hosts: String,
    ports: String,
    domains: String,
    except_hosts: Option<String>,
    protocol: RuleProtocol,
    action: RuleAction,
    proxy_config_id: u32,
}

/// The criteria and the outcome of a rule.
#[verifier::ext_equal]
pub struct RuleModel {
    /// Process name globs, separated by `;` or `,`.
    pub process_names: Seq<char>,
    /// Destination address patterns.
    pub hosts: Seq<char>,
    /// Destination port patterns.
    pub ports: Seq<char>,
    /// Destination hostname globs.
    pub domains: Seq<char>,
    /// Destination address patterns that the rule does not apply to.
    pub except_hosts: Option<Seq<char>>,
    /// The transport that the rule applies to.
    pub protocol: RuleProtocol,
    /// What the rule decides.
    pub action: RuleAction,
    /// The proxy that a proxied connection uses.
    pub proxy_config_id: u32,
}

/// A rule as it is evaluated: its globs compiled, its lists classified.
#[verifier::ext_equal]
pub struct CompiledModel {
    /// The process globs that compile.
    pub process_globs: Seq<Seq<char>>,
    /// Whether the rule applies to every process.
    pub process_wildcard: bool,
    /// Destination address patterns.
    pub hosts: Seq<char>,
    /// Destination port patterns.
    pub ports: Seq<char>,
    /// The hostname globs that compile.
    pub domain_globs: Seq<Seq<char>>,
    /// Whether the rule applies to every hostname.
    pub domains_all: bool,
    /// Destination address patterns that the rule does not apply to.
    pub except_hosts: Option<Seq<char>>,
    /// The transport that the rule applies to.
    pub protocol: RuleProtocol,
    /// What the rule decides.
    pub outcome: RuleMatch,
}

/// What the rules are evaluated against.
#[verifier::ext_equal]
pub struct Connection {
    /// File name of the owning process.
    pub process_name: Seq<char>,
    /// Original destination address.
    pub dest: IpAddr,
    /// Original destination port.
    pub port: u16,
    /// Whether the transport is UDP.
    pub is_udp: bool,
    /// Hostname of the destination, where it is known.
    pub domain: Option<Seq<char>>,
}

// ── Lists ───────────────────────────────────────────────────────────────────

/// A list matches everything if it is blank or a single `*` or `ANY`.
pub open spec fn match_all(list: Seq<char>) -> bool {
    let t = text::trim(list);
    t.len() == 0 || t == seq!['*'] || text::eq_ignore_case(t, seq!['A', 'N', 'Y'])
}

/// The pieces that hold more than white space, without the white space around
/// them.
pub open spec fn filled(pieces: Seq<Seq<char>>) -> Seq<Seq<char>>
    decreases pieces.len(),
{
    if pieces.len() == 0 {
        Seq::empty()
    } else {
        let front = filled(pieces.drop_last());
        let last = text::trim(pieces.last());
        if last.len() == 0 {
            front
        } else {
            front.push(last)
        }
    }
}

/// The entries of a list: separated by `;` or `,`, trimmed, blank ones left out.
pub open spec fn entries(list: Seq<char>) -> Seq<Seq<char>> {
    filled(text::split(list, seq![';', ',']))
}

/// `name` without a trailing `.exe` of any letter case.
pub open spec fn without_exe(name: Seq<char>) -> Seq<char> {
    if name.len() >= 4 && text::eq_ignore_case(
        name.skip(name.len() - 4),
        seq!['.', 'e', 'x', 'e'],
    ) {
        name.take(name.len() - 4)
    } else {
        name
    }
}

/// The process globs of a list: its entries without their `.exe` suffix.
pub open spec fn process_globs(list: Seq<char>) -> Seq<Seq<char>> {
    entries(list).map_values(|e: Seq<char>| without_exe(e))
}

/// Whether a list matches everything.
pub fn is_match_all(list: &str) -> (r: bool)
    ensures
        r == match_all(list@),
{
    let chars: Vec<char> = chars_of(list);
    matches_everything(&chars)
}

fn matches_everything(list: &[char]) -> (r: bool)
    ensures
        r == match_all(list@),
{
    let t: &[char] = trimmed(list);
    let star: [char; 1] = ['*'];
    let any: [char; 3] = ['A', 'N', 'Y'];
    assert(star@ == seq!['*']);
    assert(any@ == seq!['A', 'N', 'Y']);
    t.len() == 0 || same_text(t, &star) || same_ignoring_case(t, &any)
}

fn split_list<'a>(list: &'a [char]) -> (r: Vec<&'a [char]>)
    ensures
        text::texts(r@) == entries(list@),
{
    let seps: [char; 2] = [';', ','];
    assert(seps@ == seq![';', ',']);
    let pieces: Vec<&'a [char]> = split_any(list, &seps);
    let mut out: Vec<&'a [char]> = Vec::new();
    let mut i: usize = 0;
    assert(text::texts(out@) == filled(text::texts(pieces@).take(0)));
    while i < pieces.len()
        invariant
            i <= pieces.len(),
            text::texts(out@) == filled(text::texts(pieces@).take(i as int)),
        decreases pieces.len() - i,
    {
        let t: &'a [char] = trimmed(pieces[i]);
        let ghost before = out@;
        proof {
            let next = text::texts(pieces@).take(i + 1);
            assert(next.drop_last() == text::texts(pieces@).take(i as int));
            assert(next.last() == pieces@[i as int]@);
        }
        if t.len() > 0 {
            out.push(t);
            assert(text::texts(out@) == text::texts(before).push(t@));
        }
        i = i + 1;
    }
    assert(text::texts(pieces@).take(pieces@.len() as int) == text::texts(pieces@));
    out
}

/// `token` without a trailing `.exe` of any letter case. Glob characters are
/// kept: `chrome*` is left alone, `*.exe` becomes `*`.
pub fn strip_exe_suffix(token: &str) -> (r: String)
    ensures
        r@ == without_exe(token@),
{
    let chars: Vec<char> = chars_of(token);
    string_of(cut_exe(&chars))
}

fn cut_exe(token: &[char]) -> (r: &[char])
    ensures
        r@ == without_exe(token@),
{
    let suffix: [char; 4] = ['.', 'e', 'x', 'e'];
    assert(suffix@ == seq!['.', 'e', 'x', 'e']);
    let n: usize = token.len();
    if n >= 4 {
        let tail: &[char] = slice_subrange(token, n - 4, n);
        assert(tail@ == token@.skip(n - 4));
        if same_ignoring_case(tail, &suffix) {
            let head: &[char] = slice_subrange(token, 0, n - 4);
            assert(head@ == token@.take(n - 4));
            return head;
        }
    }
    token
}

fn compile_list(list: &[char], cut: bool) -> (r: Vec<Glob>)
    ensures
        glob::globs_of(r@) == if match_all(list@) {
            Seq::empty()
        } else if cut {
            glob::accepted(process_globs(list@))
        } else {
            glob::accepted(entries(list@))
        },
{
    let mut out: Vec<Glob> = Vec::new();
    assert(glob::globs_of(out@) == Seq::<Seq<char>>::empty());
    if matches_everything(list) {
        return out;
    }
    let tokens: Vec<&[char]> = split_list(list);
    let ghost globs = if cut {
        process_globs(list@)
    } else {
        entries(list@)
    };
    assert(globs.len() == tokens@.len()) by {
        assert(text::texts(tokens@).len() == tokens@.len());
    }
    assert(glob::accepted(globs.take(0)) == Seq::<Seq<char>>::empty());
    let mut i: usize = 0;
    while i < tokens.len()
        invariant
            i <= tokens.len(),
            text::texts(tokens@) == entries(list@),
            globs == if cut {
                process_globs(list@)
            } else {
                entries(list@)
            },
            globs.len() == tokens@.len(),
            glob::globs_of(out@) == glob::accepted(globs.take(i as int)),
        decreases tokens.len() - i,
    {
        let token: &[char] = tokens[i];
        let glob: &[char] = if cut {
            cut_exe(token)
        } else {
            token
        };
        proof {
            assert(text::texts(tokens@)[i as int] == token@);
            assert(glob@ == globs[i as int]);
            let next = globs.take(i + 1);
            assert(next.drop_last() == globs.take(i as int));
            assert(next.last() == globs[i as int]);
        }
        push_compiled(&mut out, glob);
        i = i + 1;
    }
    assert(globs.take(globs.len() as int) == globs);
    out
}

// ── Address patterns ────────────────────────────────────────────────────────

/// Whether a dotted pattern with `*` for any octet describes `ip`.
pub open spec fn octets_match(pattern: Seq<char>, ip: Ipv4Addr) -> bool {
    let parts = text::split(pattern, seq!['.']);
    parts.len() == 4 && forall|i: int|
        0 <= i < 4 ==> #[trigger] parts[i] == seq!['*'] || text::unsigned_value(parts[i], 255)
            == Some(ip.octets_spec()[i] as nat)
}

/// Whether a pattern describes the IPv4 address `ip`: a range `a-b` that holds
/// it, or a dotted pattern. A pattern with a colon describes IPv6 only.
pub open spec fn ipv4_pattern(pattern: Seq<char>, ip: Ipv4Addr) -> bool {
    if pattern.contains(':') {
        false
    } else {
        match text::split_once(pattern, '-') {
            Some((start, end)) => match (
                addr_text::ipv4_text(text::trim(start)),
                addr_text::ipv4_text(text::trim(end)),
            ) {
                (Some(s), Some(e)) => s.bits <= ip.bits <= e.bits,
                _ => false,
            },
            None => octets_match(pattern, ip),
        }
    }
}

/// Whether a pattern describes the IPv6 address `ip`: `*`, a network
/// `net/len`, a range `a-b`, or the address itself. A pattern without a colon
/// describes IPv4 only.
pub open spec fn ipv6_pattern(pattern: Seq<char>, ip: Ipv6Addr) -> bool {
    if pattern == seq!['*'] {
        true
    } else if !pattern.contains(':') {
        false
    } else {
        match (text::split_once(pattern, '/'), text::split_once(pattern, '-')) {
            (Some((net, len)), _) => match (
                addr_text::ipv6_text(text::trim(net)),
                text::unsigned_value(text::trim(len), 0xffff_ffff),
            ) {
                (Some(n), Some(l)) => l <= 128 && addr::same_prefix(
                    n.bits as nat,
                    ip.bits as nat,
                    128,
                    l,
                ),
                _ => false,
            },
            (None, Some((start, end))) => match (
                addr_text::ipv6_text(text::trim(start)),
                addr_text::ipv6_text(text::trim(end)),
            ) {
                (Some(s), Some(e)) => s.bits <= ip.bits <= e.bits,
                _ => false,
            },
            (None, None) => addr_text::ipv6_text(text::trim(pattern)) == Some(ip),
        }
    }
}

/// Whether a pattern describes `ip`.
pub open spec fn ip_pattern(pattern: Seq<char>, ip: IpAddr) -> bool {
    pattern == seq!['*'] || match ip {
        IpAddr::V4(v4) => ipv4_pattern(pattern, v4),
        IpAddr::V6(v6) => ipv6_pattern(pattern, v6),
    }
}

/// Whether a list of address patterns describes `ip`.
pub open spec fn ip_listed(list: Seq<char>, ip: IpAddr) -> bool {
    match_all(list) || exists|i: int|
        0 <= i < entries(list).len() && ip_pattern(#[trigger] entries(list)[i], ip)
}

/// Whether a pattern describes `port`: `*`, a range `a-b`, or the port itself.
pub open spec fn port_pattern(pattern: Seq<char>, port: u16) -> bool {
    if pattern == seq!['*'] {
        true
    } else {
        match text::split_once(pattern, '-') {
            Some((start, end)) => match (
                text::unsigned_value(text::trim(start), 65535),
                text::unsigned_value(text::trim(end), 65535),
            ) {
                (Some(s), Some(e)) => s <= port <= e,
                _ => false,
            },
            None => text::unsigned_value(text::trim(pattern), 65535) == Some(port as nat),
        }
    }
}

/// Whether a list of port patterns describes `port`.
pub open spec fn port_listed(list: Seq<char>, port: u16) -> bool {
    match_all(list) || exists|i: int|
        0 <= i < entries(list).len() && port_pattern(#[trigger] entries(list)[i], port)
}

fn has_char(s: &[char], c: char) -> (r: bool)
    ensures
        r == s@.contains(c),
{
    let mut i: usize = 0;
    while i < s.len()
        invariant
            i <= s.len(),
            forall|j: int| 0 <= j < i ==> s@[j] != c,
        decreases s.len() - i,
    {
        if s[i] == c {
            assert(s@[i as int] == c);
            return true;
        }
        i = i + 1;
    }
    false
}

fn is_star(s: &[char]) -> (r: bool)
    ensures
        r == (s@ == seq!['*']),
{
    let star: [char; 1] = ['*'];
    assert(star@ == seq!['*']);
    same_text(s, &star)
}

fn octets_apply(pattern: &[char], ip: Ipv4Addr) -> (r: bool)
    ensures
        r == octets_match(pattern@, ip),
{
    let seps: [char; 1] = ['.'];
    assert(seps@ == seq!['.']);
    let parts: Vec<&[char]> = split_any(pattern, &seps);
    let ghost whole = text::split(pattern@, seq!['.']);
    assert(text::texts(parts@) == whole);
    assert(parts@.len() == whole.len());
    if parts.len() != 4 {
        return false;
    }
    let octets: [u8; 4] = ip.octets();
    let mut i: usize = 0;
    while i < 4
        invariant
            i <= 4,
            text::texts(parts@) == whole,
            whole == text::split(pattern@, seq!['.']),
            parts@.len() == 4,
            octets@ == ip.octets_spec(),
            forall|j: int|
                0 <= j < i ==> #[trigger] whole[j] == seq!['*'] || text::unsigned_value(
                    whole[j],
                    255,
                ) == Some(ip.octets_spec()[j] as nat),
        decreases 4 - i,
    {
        let part: &[char] = parts[i];
        assert(text::texts(parts@)[i as int] == part@);
        assert(whole[i as int] == part@);
        if !is_star(part) {
            match parse_unsigned(part, 255) {
                Some(v) => {
                    if v != octets[i] as u64 {
                        return false;
                    }
                },
                None => {
                    return false;
                },
            }
        }
        i = i + 1;
    }
    true
}

fn ipv4_applies(pattern: &[char], ip: Ipv4Addr) -> (r: bool)
    ensures
        r == ipv4_pattern(pattern@, ip),
{
    if has_char(pattern, ':') {
        return false;
    }
    match split_first(pattern, '-') {
        Some((start, end)) => match (parse_ipv4(trimmed(start)), parse_ipv4(trimmed(end))) {
            (Some(s), Some(e)) => s.bits <= ip.bits && ip.bits <= e.bits,
            _ => false,
        },
        None => octets_apply(pattern, ip),
    }
}

fn ipv6_applies(pattern: &[char], ip: Ipv6Addr) -> (r: bool)
    ensures
        r == ipv6_pattern(pattern@, ip),
{
    if is_star(pattern) {
        return true;
    }
    if !has_char(pattern, ':') {
        return false;
    }
    match split_first(pattern, '/') {
        Some((net, len)) => {
            return match (parse_ipv6(trimmed(net)), parse_unsigned(trimmed(len), 0xffff_ffff)) {
                (Some(n), Some(l)) => l <= 128 && agree_in_prefix(n.bits, ip.bits, l as u32),
                _ => false,
            };
        },
        None => {},
    }
    match split_first(pattern, '-') {
        Some((start, end)) => match (parse_ipv6(trimmed(start)), parse_ipv6(trimmed(end))) {
            (Some(s), Some(e)) => s.bits <= ip.bits && ip.bits <= e.bits,
            _ => false,
        },
        None => match parse_ipv6(trimmed(pattern)) {
            Some(a) => a == ip,
            None => false,
        },
    }
}

fn ip_applies(pattern: &[char], ip: IpAddr) -> (r: bool)
    ensures
        r == ip_pattern(pattern@, ip),
{
    if is_star(pattern) {
        return true;
    }
    match ip {
        IpAddr::V4(v4) => ipv4_applies(pattern, v4),
        IpAddr::V6(v6) => ipv6_applies(pattern, v6),
    }
}

fn ip_in_list(list: &[char], ip: IpAddr) -> (r: bool)
    ensures
        r == ip_listed(list@, ip),
{
    if matches_everything(list) {
        return true;
    }
    let tokens: Vec<&[char]> = split_list(list);
    assert(text::texts(tokens@).len() == tokens@.len());
    let mut i: usize = 0;
    while i < tokens.len()
        invariant
            i <= tokens.len(),
            text::texts(tokens@) == entries(list@),
            text::texts(tokens@).len() == tokens@.len(),
            forall|j: int| 0 <= j < i ==> !ip_pattern(#[trigger] entries(list@)[j], ip),
        decreases tokens.len() - i,
    {
        assert(text::texts(tokens@)[i as int] == tokens@[i as int]@);
        if ip_applies(tokens[i], ip) {
            assert(ip_pattern(entries(list@)[i as int], ip));
            return true;
        }
        i = i + 1;
    }
    false
}

fn port_applies(pattern: &[char], port: u16) -> (r: bool)
    ensures
        r == port_pattern(pattern@, port),
{
    if is_star(pattern) {
        return true;
    }
    match split_first(pattern, '-') {
        Some((start, end)) => match (
            parse_unsigned(trimmed(start), 65535),
            parse_unsigned(trimmed(end), 65535),
        ) {
            (Some(s), Some(e)) => s <= port as u64 && port as u64 <= e,
            _ => false,
        },
        None => match parse_unsigned(trimmed(pattern), 65535) {
            Some(p) => p == port as u64,
            None => false,
        },
    }
}

fn port_in_list(list: &[char], port: u16) -> (r: bool)
    ensures
        r == port_listed(list@, port),
{
    if matches_everything(list) {
        return true;
    }
    let tokens: Vec<&[char]> = split_list(list);
    assert(text::texts(tokens@).len() == tokens@.len());
    let mut i: usize = 0;
    while i < tokens.len()
        invariant
            i <= tokens.len(),
            text::texts(tokens@) == entries(list@),
            text::texts(tokens@).len() == tokens@.len(),
            forall|j: int| 0 <= j < i ==> !port_pattern(#[trigger] entries(list@)[j], port),
        decreases tokens.len() - i,
    {
        assert(text::texts(tokens@)[i as int] == tokens@[i as int]@);
        if port_applies(tokens[i], port) {
            assert(port_pattern(entries(list@)[i as int], port));
            return true;
        }
        i = i + 1;
    }
    false
}

/// Whether a list of address patterns describes `ip`.
pub fn match_ip_list(list: &str, ip: IpAddr) -> (r: bool)
    ensures
        r == ip_listed(list@, ip),
{
    let chars: Vec<char> = chars_of(list);
    ip_in_list(&chars, ip)
}

/// Whether a pattern describes the IPv4 address `ip`.
pub fn match_ipv4_pattern(pattern: &str, ip: Ipv4Addr) -> (r: bool)
    ensures
        r == ipv4_pattern(pattern@, ip),
{
    let chars: Vec<char> = chars_of(pattern);
    ipv4_applies(&chars, ip)
}

/// Whether a pattern describes the IPv6 address `ip`.
pub fn match_ipv6_pattern(pattern: &str, ip: Ipv6Addr) -> (r: bool)
    ensures
        r == ipv6_pattern(pattern@, ip),
{
    let chars: Vec<char> = chars_of(pattern);
    ipv6_applies(&chars, ip)
}

/// Whether a pattern describes `port`.
pub fn match_port_pattern(pattern: &str, port: u16) -> (r: bool)
    ensures
        r == port_pattern(pattern@, port),
{
    let chars: Vec<char> = chars_of(pattern);
    port_applies(&chars, port)
}

/// Whether a list of port patterns describes `port`.
pub fn match_port_list(list: &str, port: u16) -> (r: bool)
    ensures
        r == port_listed(list@, port),
{
    let chars: Vec<char> = chars_of(list);
    port_in_list(&chars, port)
}

// ── Evaluation ──────────────────────────────────────────────────────────────

/// The compiled form of a rule. Globs that do not compile are left out.
pub open spec fn compiled(rule: RuleModel) -> CompiledModel {
    CompiledModel {
        process_globs: if match_all(rule.process_names) {
            Seq::empty()
        } else {
            glob::accepted(process_globs(rule.process_names))
        },
        process_wildcard: match_all(rule.process_names),
        hosts: rule.hosts,
        ports: rule.ports,
        domain_globs: if match_all(rule.domains) {
            Seq::empty()
        } else {
            glob::accepted(entries(rule.domains))
        },
        domains_all: match_all(rule.domains),
        except_hosts: rule.except_hosts,
        protocol: rule.protocol,
        outcome: RuleMatch { action: rule.action, proxy_config_id: rule.proxy_config_id },
    }
}

/// Whether one of `globs` matches `text`.
pub open spec fn any_glob_matches(globs: Seq<Seq<char>>, text: Seq<char>) -> bool {
    exists|i: int| 0 <= i < globs.len() && glob::glob_matches(#[trigger] globs[i], text)
}

/// Whether the rule applies to the transport.
pub open spec fn covers_protocol(protocol: RuleProtocol, is_udp: bool) -> bool {
    match protocol {
        RuleProtocol::Both => true,
        RuleProtocol::Tcp => !is_udp,
        RuleProtocol::Udp => is_udp,
    }
}

impl CompiledModel {
    /// Whether the rule has no criterion besides the transport.
    pub open spec fn unfiltered(self) -> bool {
        self.process_wildcard && match_all(self.hosts) && match_all(self.ports) && self.domains_all
            && self.except_hosts is None
    }

    /// Whether the rule applies to the process.
    pub open spec fn covers_process(self, name: Seq<char>) -> bool {
        self.process_wildcard || any_glob_matches(self.process_globs, without_exe(name))
    }

    /// Whether the rule applies to the destination.
    pub open spec fn covers_target(self, c: Connection) -> bool {
        &&& self.except_hosts is Some ==> !ip_listed(self.except_hosts->Some_0, c.dest)
        &&& ip_listed(self.hosts, c.dest)
        &&& port_listed(self.ports, c.port)
        &&& self.domains_all || (c.domain is Some && any_glob_matches(
            self.domain_globs,
            c.domain->Some_0,
        ))
    }

    /// Whether the rule is a specific match for the connection.
    pub open spec fn specific(self, c: Connection) -> bool {
        &&& covers_protocol(self.protocol, c.is_udp)
        &&& !self.unfiltered()
        &&& self.covers_process(c.process_name)
        &&& self.covers_target(c)
    }

    /// Whether the rule is a fallback for the connection.
    pub open spec fn fallback(self, c: Connection) -> bool {
        covers_protocol(self.protocol, c.is_udp) && self.unfiltered()
    }
}

/// The first rule of which `p` holds.
pub open spec fn first_rule(
    rules: Seq<CompiledModel>,
    p: spec_fn(CompiledModel) -> bool,
) -> Option<CompiledModel>
    decreases rules.len(),
{
    if rules.len() == 0 {
        None
    } else if p(rules[0]) {
        Some(rules[0])
    } else {
        first_rule(rules.drop_first(), p)
    }
}

/// The outcome where no rule applies.
pub open spec fn default_outcome() -> RuleMatch {
    RuleMatch { action: RuleAction::Direct, proxy_config_id: 0 }
}

/// What `rules` decide for the connection: the first specific match, or else
/// the first fallback, or else direct.
pub open spec fn decided(rules: Seq<CompiledModel>, c: Connection) -> RuleMatch {
    match first_rule(rules, |r: CompiledModel| r.specific(c)) {
        Some(r) => r.outcome,
        None => match first_rule(rules, |r: CompiledModel| r.fallback(c)) {
            Some(r) => r.outcome,
            None => default_outcome(),
        },
    }
}

proof fn lemma_first_rule_push(
    rules: Seq<CompiledModel>,
    next: CompiledModel,
    p: spec_fn(CompiledModel) -> bool,
)
    ensures
        first_rule(rules.push(next), p) == if first_rule(rules, p) is Some {
            first_rule(rules, p)
        } else if p(next) {
            Some(next)
        } else {
            None
        },
    decreases rules.len(),
{
    if rules.len() == 0 {
        assert(rules.push(next).drop_first() == rules);
    } else {
        assert(rules.push(next).drop_first() == rules.drop_first().push(next));
        lemma_first_rule_push(rules.drop_first(), next, p);
    }
}

struct CompiledRule {
    process_matchers: Vec<Glob>,
    process_wildcard: bool,
    hosts: Vec<char>,
    ports: Vec<char>,
    domain_matchers: Vec<Glob>,
    domains_all: bool,
    except_hosts: Option<Vec<char>>,
    protocol: RuleProtocol,
    outcome: RuleMatch,
}

impl CompiledRule {
    spec fn model(self) -> CompiledModel {
        CompiledModel {
            process_globs: glob::globs_of(self.process_matchers@),
            process_wildcard: self.process_wildcard,
            hosts: self.hosts@,
            ports: self.ports@,
            domain_globs: glob::globs_of(self.domain_matchers@),
            domains_all: self.domains_all,
            except_hosts: match self.except_hosts {
                Some(e) => Some(e@),
                None => None,
            },
            protocol: self.protocol,
            outcome: self.outcome,
        }
    }

    fn is_unfiltered(&self) -> (r: bool)
        ensures
            r == self.model().unfiltered(),
    {
        self.process_wildcard && matches_everything(&self.hosts) && matches_everything(&self.ports)
            && self.domains_all && self.except_hosts.is_none()
    }

    fn matches_process(&self, process_name: &str) -> (r: bool)
        ensures
            r == self.model().covers_process(process_name@),
    {
        if self.process_wildcard {
            return true;
        }
        let name: String = strip_exe_suffix(process_name);
        any_matches(&self.process_matchers, name.as_str())
    }

    fn matches_domain(&self, domain: Option<&str>) -> (r: bool)
        ensures
            r == (domain is Some && any_glob_matches(
                self.model().domain_globs,
                domain->Some_0@,
            )),
    {
        match domain {
            Some(d) => any_matches(&self.domain_matchers, d),
            None => false,
        }
    }

    fn matches_target(&self, dest: IpAddr, dest_port: u16, domain: Option<&str>) -> (r: bool)
        ensures
            forall|c: Connection|
                c.dest == dest && c.port == dest_port && c.domain == text_of(domain)
                    ==> r == #[trigger] self.model().covers_target(c),
    {
        match &self.except_hosts {
            Some(except) => {
                if ip_in_list(except, dest) {
                    return false;
                }
            },
            None => {},
        }
        ip_in_list(&self.hosts, dest) && port_in_list(&self.ports, dest_port) && (self.domains_all
            || self.matches_domain(domain))
    }
}

/// The text behind an optional string.
pub open spec fn text_of(s: Option<&str>) -> Option<Seq<char>> {
    match s {
        Some(t) => Some(t@),
        None => None,
    }
}

fn any_matches(list: &Vec<Glob>, text: &str) -> (r: bool)
    ensures
        r == any_glob_matches(glob::globs_of(list@), text@),
{
    let mut i: usize = 0;
    while i < list.len()
        invariant
            i <= list.len(),
            forall|j: int|
                0 <= j < i ==> !glob::glob_matches(#[trigger] glob::globs_of(list@)[j], text@),
        decreases list.len() - i,
    {
        assert(glob::globs_of(list@)[i as int] == list@[i as int]@);
        if list[i].is_match(text) {
            assert(glob::glob_matches(glob::globs_of(list@)[i as int], text@));
            return true;
        }
        i = i + 1;
    }
    false
}

/// Whether a rule for `protocol` applies to the transport.
fn protocol_matches(protocol: RuleProtocol, is_udp: bool) -> (r: bool)
    ensures
        r == covers_protocol(protocol, is_udp),
{
    match protocol {
        RuleProtocol::Both => true,
        RuleProtocol::Tcp => !is_udp,
        RuleProtocol::Udp => is_udp,
    }
}

impl View for Rule {
    type V = RuleModel;

    closed spec fn view(&self) -> RuleModel {
        RuleModel {
            process_names: self.process_names@,
            hosts: self.hosts@,
            ports: self.ports@,
            domains: self.domains@,
            except_hosts: match self.except_hosts {
                Some(e) => Some(e@),
                None => None,
            },
            protocol: self.protocol,
            action: self.action,
            proxy_config_id: self.proxy_config_id,
        }
    }
}

impl Clone for Rule {
    fn clone(&self) -> (r: Rule)
        ensures
            r@ == self@,
    {
        Rule {
            process_names: self.process_names.clone(),
            hosts: self.hosts.clone(),
            ports: self.ports.clone(),
            domains: self.domains.clone(),
            except_hosts: match &self.except_hosts {
                Some(e) => Some(e.clone()),
                None => None,
            },
            protocol: self.protocol,
            action: self.action,
            proxy_config_id: self.proxy_config_id,
        }
    }
}

impl Rule {
    /// A rule for the given process list, with no other criterion, that lets
    /// connections through. `"*"` (or `"ANY"`) matches every process.
    pub fn new(process_names: &str) -> (r: Rule)
        ensures
            r@ == (RuleModel {
                process_names: process_names@,
                hosts: seq!['*'],
                ports: seq!['*'],
                domains: seq!['*'],
                except_hosts: None,
                protocol: RuleProtocol::Both,
                action: RuleAction::Direct,
                proxy_config_id: 0,
            }),
    {
        let star: [char; 1] = ['*'];
        assert(star@ == seq!['*']);
        Rule {
            process_names: process_names.to_string(),
            hosts: string_of(&star),
            ports: string_of(&star),
            domains: string_of(&star),
            except_hosts: None,
            protocol: RuleProtocol::Both,
            action: RuleAction::Direct,
            proxy_config_id: 0,
        }
    }

    /// Restricts the rule to these destination addresses: exact ones, octet
    /// wildcards (`192.168.*.*`), ranges (`a-b`) and IPv6 networks
    /// (`2001:db8::/32`). `"*"` matches all.
    pub fn hosts(self, hosts: &str) -> (r: Rule)
        ensures
            r@ == (RuleModel { hosts: hosts@, ..self@ }),
    {
        Rule { hosts: hosts.to_string(), ..self }
    }

    /// Restricts the rule to these destination ports (`"80;443;8000-9000"`).
    pub fn ports(self, ports: &str) -> (r: Rule)
        ensures
            r@ == (RuleModel { ports: ports@, ..self@ }),
    {
        Rule { ports: ports.to_string(), ..self }
    }

    /// Restricts the rule to these destination hostnames (globs like
    /// `*.example.com`).
    pub fn domains(self, domains: &str) -> (r: Rule)
        ensures
            r@ == (RuleModel { domains: domains@, ..self@ }),
    {
        Rule { domains: domains.to_string(), ..self }
    }

    /// Excludes these destination addresses from the rule.
    pub fn except(self, hosts: &str) -> (r: Rule)
        ensures
            r@ == (RuleModel { except_hosts: Some(hosts@), ..self@ }),
    {
        Rule { except_hosts: Some(hosts.to_string()), ..self }
    }

    /// Restricts the rule to a transport (default [`RuleProtocol::Both`]).
    pub fn protocol(self, protocol: RuleProtocol) -> (r: Rule)
        ensures
            r@ == (RuleModel { protocol, ..self@ }),
    {
        Rule { protocol, ..self }
    }

    /// Sets the action taken when the rule matches (default
    /// [`RuleAction::Direct`]).
    pub fn action(self, action: RuleAction) -> (r: Rule)
        ensures
            r@ == (RuleModel { action, ..self@ }),
    {
        Rule { action, ..self }
    }

    /// Selects the upstream proxy of the rule (0 = first available).
    pub fn proxy_config(self, id: u32) -> (r: Rule)
        ensures
            r@ == (RuleModel { proxy_config_id: id, ..self@ }),
    {
        Rule { proxy_config_id: id, ..self }
    }

    /// The action this rule yields on match.
    pub fn action_kind(&self) -> (r: RuleAction)
        ensures
            r == self@.action,
    {
        self.action
    }

    fn compile(&self) -> (r: CompiledRule)
        ensures
            r.model() == compiled(self@),
    {
        let process_names: Vec<char> = chars_of(self.process_names.as_str());
        let domains: Vec<char> = chars_of(self.domains.as_str());
        CompiledRule {
            process_matchers: compile_list(&process_names, true),
            process_wildcard: matches_everything(&process_names),
            hosts: chars_of(self.hosts.as_str()),
            ports: chars_of(self.ports.as_str()),
            domain_matchers: compile_list(&domains, false),
            domains_all: matches_everything(&domains),
            except_hosts: match &self.except_hosts {
                Some(e) => Some(chars_of(e.as_str())),
                None => None,
            },
            protocol: self.protocol,
            outcome: RuleMatch { action: self.action, proxy_config_id: self.proxy_config_id },
        }
    }
}

/// A compiled, evaluation-ready collection of [`Rule`]s.
pub struct RuleSet {
    rules: Vec<CompiledRule>,
    has_domain_rules: bool,
}

/// The compiled forms of a sequence of rules.
pub open spec fn compiled_rules(rules: Seq<Rule>) -> Seq<CompiledModel> {
    rules.map_values(|r: Rule| compiled(r@))
}

/// Whether one of the rules has a hostname criterion.
pub open spec fn any_domain_rule(rules: Seq<CompiledModel>) -> bool {
    exists|i: int| 0 <= i < rules.len() && !(#[trigger] rules[i]).domains_all
}

impl View for RuleSet {
    type V = Seq<CompiledModel>;

    closed spec fn view(&self) -> Seq<CompiledModel> {
        self.rules@.map_values(|r: CompiledRule| r.model())
    }
}

impl RuleSet {
    #[verifier::type_invariant]
    spec fn flag_is_current(self) -> bool {
        self.has_domain_rules == any_domain_rule(self@)
    }

    /// Compiles a list of rules into an evaluation-ready set.
    pub fn new(rules: &[Rule]) -> (r: RuleSet)
        ensures
            r@ == compiled_rules(rules@),
    {
        let mut out: Vec<CompiledRule> = Vec::new();
        let mut flag: bool = false;
        let mut i: usize = 0;
        while i < rules.len()
            invariant
                i <= rules.len(),
                out@.len() == i,
                forall|j: int| 0 <= j < i ==> (#[trigger] out@[j]).model() == compiled(rules@[j]@),
                flag == exists|j: int| 0 <= j < i && !(#[trigger] out@[j]).domains_all,
            decreases rules.len() - i,
        {
            let c: CompiledRule = rules[i].compile();
            let ghost before = out@;
            flag = flag || !c.domains_all;
            out.push(c);
            proof {
                assert(forall|j: int| 0 <= j < i ==> out@[j] == before[j]);
                if exists|j: int| 0 <= j < i && !(#[trigger] before[j]).domains_all {
                    let j = choose|j: int| 0 <= j < i && !(#[trigger] before[j]).domains_all;
                    assert(!out@[j].domains_all);
                }
                assert(out@[i as int] == c);
            }
            i = i + 1;
        }
        proof {
            let models = out@.map_values(|r: CompiledRule| r.model());
            assert(models == compiled_rules(rules@));
            if flag {
                let j = choose|j: int| 0 <= j < i && !(#[trigger] out@[j]).domains_all;
                assert(!models[j].domains_all);
            }
            if any_domain_rule(models) {
                let j = choose|j: int| 0 <= j < models.len() && !(#[trigger] models[j]).domains_all;
                assert(!out@[j].domains_all);
            }
        }
        RuleSet { rules: out, has_domain_rules: flag }
    }

    /// Whether any rule needs a resolved destination hostname.
    pub fn needs_domain_resolution(&self) -> (r: bool)
        ensures
            r == any_domain_rule(self@),
    {
        proof {
            use_type_invariant(self);
        }
        self.has_domain_rules
    }

    /// Whether the set has no rules at all.
    pub fn is_empty(&self) -> (r: bool)
        ensures
            r == (self@.len() == 0),
    {
        self.rules.len() == 0
    }

    /// Evaluates a connection.
    ///
    /// `process_name` is the executable file name of the owning process,
    /// `dest` and `dest_port` the original destination, `is_udp` the transport,
    /// and `domain` the hostname of the destination, where it is known.
    pub fn evaluate(
        &self,
        process_name: &str,
        dest: IpAddr,
        dest_port: u16,
        is_udp: bool,
        domain: Option<&str>,
    ) -> (r: RuleMatch)
        ensures
            r == decided(
                self@,
                (Connection {
                    process_name: process_name@,
                    dest,
                    port: dest_port,
                    is_udp,
                    domain: text_of(domain),
                }),
            ),
    {
        let ghost c = Connection {
            process_name: process_name@,
            dest,
            port: dest_port,
            is_udp,
            domain: text_of(domain),
        };
        let ghost specific = |r: CompiledModel| r.specific(c);
        let ghost is_fallback = |r: CompiledModel| r.fallback(c);
        let mut fallback: Option<RuleMatch> = None;
        let mut i: usize = 0;
        assert(self@.take(0) == Seq::<CompiledModel>::empty());
        while i < self.rules.len()
            invariant
                i <= self.rules.len(),
                self@.len() == self.rules@.len(),
                c == (Connection {
                    process_name: process_name@,
                    dest,
                    port: dest_port,
                    is_udp,
                    domain: text_of(domain),
                }),
                specific == (|r: CompiledModel| r.specific(c)),
                is_fallback == (|r: CompiledModel| r.fallback(c)),
                first_rule(self@.take(i as int), specific) is None,
                fallback == match first_rule(self@.take(i as int), is_fallback) {
                    Some(r) => Some(r.outcome),
                    None => None,
                },
            decreases self.rules.len() - i,
        {
            let rule: &CompiledRule = &self.rules[i];
            let ghost model = rule.model();
            proof {
                assert(self@[i as int] == model);
                assert(self@.take(i + 1) == self@.take(i as int).push(model));
                lemma_first_rule_push(self@.take(i as int), model, specific);
                lemma_first_rule_push(self@.take(i as int), model, is_fallback);
            }
            if protocol_matches(rule.protocol, is_udp) {
                if rule.is_unfiltered() {
                    if fallback.is_none() {
                        fallback = Some(rule.outcome);
                    }
                } else if rule.matches_process(process_name) && rule.matches_target(
                    dest,
                    dest_port,
                    domain,
                ) {
                    proof {
                        assert(model.covers_target(c));
                        lemma_first_rule_prefix(self@, i + 1, specific);
                    }
                    return rule.outcome;
                } else {
                    assert(!model.specific(c)) by {
                        assert(model.covers_target(c) ==> !model.covers_process(c.process_name));
                    }
                }
            }
            i = i + 1;
        }
        assert(self@.take(self@.len() as int) == self@);
        match fallback {
            Some(m) => m,
            None => RuleMatch { action: RuleAction::Direct, proxy_config_id: 0 },
        }
    }
}

/// What is first among the leading rules is first among all of them.
proof fn lemma_first_rule_prefix(
    rules: Seq<CompiledModel>,
    n: int,
    p: spec_fn(CompiledModel) -> bool,
)
    requires
        0 <= n <= rules.len(),
        first_rule(rules.take(n), p) is Some,
    ensures
        first_rule(rules, p) == first_rule(rules.take(n), p),
    decreases n,
{
    if n > 0 && !p(rules[0]) {
        assert(rules.take(n).drop_first() == rules.drop_first().take(n - 1));
        lemma_first_rule_prefix(rules.drop_first(), n - 1, p);
    }
}

// ── Laws ────────────────────────────────────────────────────────────────────

/// Without rules every connection goes direct.
pub proof fn law_no_rules_is_direct(c: Connection)
    ensures
        decided(Seq::empty(), c) == default_outcome(),
{
}

proof fn lemma_first_rule_at(rules: Seq<CompiledModel>, p: spec_fn(CompiledModel) -> bool, i: int)
    requires
        0 <= i < rules.len(),
        p(rules[i]),
        forall|j: int| 0 <= j < i ==> !p(#[trigger] rules[j]),
    ensures
        first_rule(rules, p) == Some(rules[i]),
    decreases i,
{
    if i > 0 {
        assert(!p(rules[0]));
        assert forall|j: int| 0 <= j < i - 1 implies !p(#[trigger] rules.drop_first()[j]) by {
            assert(rules.drop_first()[j] == rules[j + 1]);
        }
        lemma_first_rule_at(rules.drop_first(), p, i - 1);
    }
}

proof fn lemma_first_rule_none(rules: Seq<CompiledModel>, p: spec_fn(CompiledModel) -> bool)
    requires
        forall|j: int| 0 <= j < rules.len() ==> !p(#[trigger] rules[j]),
    ensures
        first_rule(rules, p) is None,
    decreases rules.len(),
{
    if rules.len() > 0 {
        assert(!p(rules[0]));
        assert forall|j: int| 0 <= j < rules.len() - 1 implies !p(
            #[trigger] rules.drop_first()[j],
        ) by {
            assert(rules.drop_first()[j] == rules[j + 1]);
        }
        lemma_first_rule_none(rules.drop_first(), p);
    }
}

/// The first specific match wins, whatever fallbacks stand before it and
/// whatever rules stand after it.
pub proof fn law_first_specific_rule_wins(rules: Seq<CompiledModel>, c: Connection, i: int)
    requires
        0 <= i < rules.len(),
        rules[i].specific(c),
        forall|j: int| 0 <= j < i ==> !(#[trigger] rules[j]).specific(c),
    ensures
        decided(rules, c) == rules[i].outcome,
{
    lemma_first_rule_at(rules, |r: CompiledModel| r.specific(c), i);
}

/// A rule without criteria decides only where no rule is a specific match, and
/// then the first such rule does.
pub proof fn law_fallback_decides_last(rules: Seq<CompiledModel>, c: Connection, i: int)
    requires
        0 <= i < rules.len(),
        rules[i].fallback(c),
        forall|j: int| 0 <= j < i ==> !(#[trigger] rules[j]).fallback(c),
        forall|j: int| 0 <= j < rules.len() ==> !(#[trigger] rules[j]).specific(c),
    ensures
        decided(rules, c) == rules[i].outcome,
{
    lemma_first_rule_none(rules, |r: CompiledModel| r.specific(c));
    lemma_first_rule_at(rules, |r: CompiledModel| r.fallback(c), i);
}

/// A connection that no rule covers goes direct.
pub proof fn law_uncovered_connection_is_direct(rules: Seq<CompiledModel>, c: Connection)
    requires
        forall|j: int|
            0 <= j < rules.len() ==> !(#[trigger] rules[j]).specific(c) && !rules[j].fallback(c),
    ensures
        decided(rules, c) == default_outcome(),
{
    lemma_first_rule_none(rules, |r: CompiledModel| r.specific(c));
    lemma_first_rule_none(rules, |r: CompiledModel| r.fallback(c));
}

/// The rule that is first is one of the rules, and `p` holds of it.
pub proof fn lemma_first_rule_holds(rules: Seq<CompiledModel>, p: spec_fn(CompiledModel) -> bool)
    ensures
        first_rule(rules, p) matches Some(r) ==> p(r) && rules.contains(r),
    decreases rules.len(),
{
    if rules.len() > 0 {
        if p(rules[0]) {
            assert(rules.contains(rules[0]));
        } else {
            let rest = rules.drop_first();
            lemma_first_rule_holds(rest, p);
            if let Some(r) = first_rule(rest, p) {
                let i = choose|i: int| 0 <= i < rest.len() && rest[i] == r;
                assert(rules[i + 1] == r);
            }
        }
    }
}

/// A connection whose process is not known is blocked only by a rule for every
/// process.
pub proof fn law_unknown_process_is_not_blocked(rules: Seq<CompiledModel>, c: Connection)
    requires
        c.process_name.len() == 0,
        forall|i: int|
            0 <= i < rules.len() && (#[trigger] rules[i]).outcome.action == RuleAction::Block
                ==> !rules[i].covers_process(Seq::empty()),
    ensures
        decided(rules, c).action != RuleAction::Block,
{
    assert(c.process_name == Seq::<char>::empty());
    assert(without_exe(c.process_name) == c.process_name);
    lemma_first_rule_holds(rules, |r: CompiledModel| r.specific(c));
    lemma_first_rule_holds(rules, |r: CompiledModel| r.fallback(c));
}

/// A rule never applies to a destination that it excepts.
pub proof fn law_excepted_destination_skips_rule(rule: CompiledModel, c: Connection)
    requires
        rule.except_hosts is Some,
        ip_listed(rule.except_hosts->Some_0, c.dest),
    ensures
        !rule.specific(c),
        !rule.fallback(c),
{
}

/// A rule with a hostname criterion never applies to a connection whose
/// hostname is not known.
pub proof fn law_domain_rule_needs_a_domain(rule: CompiledModel, c: Connection)
    requires
        !rule.domains_all,
        c.domain is None,
    ensures
        !rule.specific(c),
        !rule.fallback(c),
{
}

/// Cutting the suffix off `name.exe` gives `name`, whatever its letter case.
pub proof fn lemma_without_exe_suffix(name: Seq<char>, suffix: Seq<char>)
    requires
        suffix.len() == 4,
        text::eq_ignore_case(suffix, seq!['.', 'e', 'x', 'e']),
    ensures
        without_exe(name + suffix) == name,
{
    let whole = name + suffix;
    assert(whole.skip(whole.len() - 4) == suffix);
    assert(whole.take(whole.len() - 4) == name);
}

/// A process is treated alike with and without an `.exe` suffix of any letter
/// case.
pub proof fn law_exe_suffix_of_process_is_ignored(
    rules: Seq<CompiledModel>,
    c: Connection,
    suffix: Seq<char>,
)
    requires
        without_exe(c.process_name) == c.process_name,
        suffix.len() == 4,
        text::eq_ignore_case(suffix, seq!['.', 'e', 'x', 'e']),
    ensures
        decided(rules, (Connection { process_name: c.process_name + suffix, ..c })) == decided(
            rules,
            c,
        ),
{
    lemma_without_exe_suffix(c.process_name, suffix);
    lemma_decided_alike(rules, c, Connection { process_name: c.process_name + suffix, ..c });
}

/// Cutting the suffix off keeps texts alike that differ in letter case at most.
proof fn lemma_without_exe_ignores_case(a: Seq<char>, b: Seq<char>)
    requires
        text::eq_ignore_case(a, b),
    ensures
        text::eq_ignore_case(without_exe(a), without_exe(b)),
{
    text::lemma_same_but_for_case(a, b);
    if a.len() >= 4 {
        let n = a.len() - 4;
        assert(text::lowered(a.skip(n)) == text::lowered(a).skip(n));
        assert(text::lowered(b.skip(n)) == text::lowered(b).skip(n));
        assert(text::lowered(a.take(n)) == text::lowered(a).take(n));
        assert(text::lowered(b.take(n)) == text::lowered(b).take(n));
    }
}

/// Processes whose names differ in letter case and an `.exe` suffix at most are
/// covered alike.
proof fn lemma_decided_alike(rules: Seq<CompiledModel>, c: Connection, d: Connection)
    requires
        d == (Connection { process_name: d.process_name, ..c }),
        text::eq_ignore_case(without_exe(c.process_name), without_exe(d.process_name)),
    ensures
        decided(rules, c) == decided(rules, d),
{
    let (x, y) = (without_exe(c.process_name), without_exe(d.process_name));
    assert forall|r: CompiledModel| #[trigger] r.specific(d) == r.specific(c) by {
        assert(r.covers_target(d) == r.covers_target(c));
        assert forall|i: int| 0 <= i < r.process_globs.len() implies glob::glob_matches(
            #[trigger] r.process_globs[i],
            x,
        ) == glob::glob_matches(r.process_globs[i], y) by {
            glob::law_globs_ignore_letter_case(r.process_globs[i], x, y);
        }
        assert(any_glob_matches(r.process_globs, x) == any_glob_matches(r.process_globs, y));
    }
    assert((|r: CompiledModel| r.specific(d)) =~= (|r: CompiledModel| r.specific(c)));
    assert((|r: CompiledModel| r.fallback(d)) =~= (|r: CompiledModel| r.fallback(c)));
}

/// The letter case of a process name makes no difference to any rules.
pub proof fn law_letter_case_of_process_is_ignored(
    rules: Seq<CompiledModel>,
    c: Connection,
    name: Seq<char>,
)
    requires
        text::eq_ignore_case(name, c.process_name),
    ensures
        decided(rules, (Connection { process_name: name, ..c })) == decided(rules, c),
{
    lemma_without_exe_ignores_case(c.process_name, name);
    lemma_decided_alike(rules, c, Connection { process_name: name, ..c });
}

/// A process is treated alike under its bare name and under any spelling of that
/// name with `.exe` behind it, whatever the letter case of either.
pub proof fn law_process_spellings_are_alike(
    rules: Seq<CompiledModel>,
    c: Connection,
    spelling: Seq<char>,
)
    requires
        without_exe(c.process_name) == c.process_name,
        text::eq_ignore_case(spelling, c.process_name + seq!['.', 'e', 'x', 'e']),
    ensures
        decided(rules, (Connection { process_name: spelling, ..c })) == decided(rules, c),
{
    let suffix = seq!['.', 'e', 'x', 'e'];
    lemma_without_exe_suffix(c.process_name, suffix);
    lemma_without_exe_ignores_case(c.process_name + suffix, spelling);
    lemma_decided_alike(rules, c, Connection { process_name: spelling, ..c });
}

/// A list that is one entry: it holds no separator and no white space at its
/// ends.
pub open spec fn is_single_entry(list: Seq<char>) -> bool {
    list.len() > 0 && text::trim(list) == list && !list.contains(';') && !list.contains(',')
}

proof fn lemma_single_entry(list: Seq<char>)
    requires
        is_single_entry(list),
    ensures
        entries(list) == seq![list],
{
    let seps = seq![';', ','];
    assert forall|i: int| 0 <= i < list.len() implies !seps.contains(#[trigger] list[i]) by {
        assert(list.contains(list[i]));
    }
    text::lemma_split_single(list, seps);
    reveal_with_fuel(filled, 2);
    assert(seq![list].drop_last() == Seq::<Seq<char>>::empty());
    assert(filled(seq![list]) == seq![list]);
}

/// A rule that names one process covers that process and no other, letter case
/// and `.exe` suffixes aside.
pub proof fn law_named_process_is_covered(rule: RuleModel, process: Seq<char>)
    requires
        is_single_entry(rule.process_names),
        !match_all(rule.process_names),
        glob::is_literal(without_exe(rule.process_names)),
        vstd::utf8::is_ascii_chars(without_exe(rule.process_names)),
        vstd::utf8::is_ascii_chars(without_exe(process)),
        glob::compiles(without_exe(rule.process_names)),
    ensures
        compiled(rule).covers_process(process) == text::eq_ignore_case(
            without_exe(rule.process_names),
            without_exe(process),
        ),
{
    let glob = without_exe(rule.process_names);
    lemma_single_entry(rule.process_names);
    assert(process_globs(rule.process_names) == seq![glob]);
    reveal_with_fuel(glob::accepted, 2);
    assert(seq![glob].drop_last() == Seq::<Seq<char>>::empty());
    assert(glob::accepted(seq![glob]) == seq![glob]);
    glob::law_literal_glob_ignores_case(glob, without_exe(process));
    let globs = compiled(rule).process_globs;
    assert(globs == seq![glob]);
    if glob::glob_matches(glob, without_exe(process)) {
        assert(glob::glob_matches(globs[0], without_exe(process)));
    }
}

/// The dotted text of an IPv4 address describes that address and no other.
pub proof fn law_exact_ipv4_pattern(address: Ipv4Addr, ip: Ipv4Addr)
    ensures
        ipv4_pattern(addr_text::write_ipv4(address), ip) == (address == ip),
        ip_pattern(addr_text::write_ipv4(address), IpAddr::V4(ip)) == (address == ip),
{
    let text = addr_text::write_ipv4(address);
    let o = address.octets_spec();
    addr_text::lemma_ipv4_pieces(address);
    addr_text::lemma_dotted_chars(address);
    bytes::lemma_be_bytes(address.bits as nat, 4);
    bytes::lemma_be_bytes(ip.bits as nat, 4);
    text::lemma_first_of_bounds(text, seq!['-']);
    let parts = text::split(text, seq!['.']);
    assert forall|i: int| 0 <= i < 4 implies {
        &&& #[trigger] parts[i] != seq!['*']
        &&& text::unsigned_value(parts[i], 255) == Some(o[i] as nat)
    } by {
        text::lemma_decimal_reads_back(o[i] as nat);
        assert(parts[i] == text::decimal(o[i] as nat));
        assert(text::is_digit(parts[i][0]));
    }
    if octets_match(text, ip) {
        assert forall|i: int| 0 <= i < 4 implies o[i] == ip.octets_spec()[i] by {
            assert(parts[i] != seq!['*']);
        }
        assert(o == ip.octets_spec());
        addr::law_octets_identify_address(IpAddr::V4(address), IpAddr::V4(ip));
    }
    assert(text.len() >= 4);
}

/// The text of an IPv6 address describes that address and no other.
pub proof fn law_exact_ipv6_pattern(address: Ipv6Addr, ip: Ipv6Addr)
    ensures
        ipv6_pattern(addr_text::write_ipv6(address), ip) == (address == ip),
        ip_pattern(addr_text::write_ipv6(address), IpAddr::V6(ip)) == (address == ip),
{
    let text = addr_text::write_ipv6(address);
    addr_text::law_ipv6_text_round_trip(address);
    addr_text::lemma_ipv6_chars(address);
    text::lemma_first_of_bounds(text, seq!['/']);
    text::lemma_first_of_bounds(text, seq!['-']);
}

/// A pattern with a colon describes no IPv4 address, and one without a colon,
/// unless it is `*`, no IPv6 address.
pub proof fn law_patterns_keep_to_their_family(pattern: Seq<char>, v4: Ipv4Addr, v6: Ipv6Addr)
    requires
        pattern != seq!['*'],
    ensures
        pattern.contains(':') ==> !ip_pattern(pattern, IpAddr::V4(v4)),
        !pattern.contains(':') ==> !ip_pattern(pattern, IpAddr::V6(v6)),
{
}

/// A range whose start lies above its end describes no address.
pub proof fn law_descending_range_matches_nothing(
    pattern: Seq<char>,
    start: Seq<char>,
    end: Seq<char>,
    ip: Ipv4Addr,
)
    requires
        text::split_once(pattern, '-') == Some((start, end)),
        addr_text::ipv4_text(text::trim(start)) is Some,
        addr_text::ipv4_text(text::trim(end)) is Some,
        addr_text::ipv4_text(text::trim(start))->Some_0.bits > addr_text::ipv4_text(
            text::trim(end),
        )->Some_0.bits,
    ensures
        !ipv4_pattern(pattern, ip),
{
}

/// A text of digits alone, with white space around it, reads as its number.
proof fn lemma_padded_number(pre: Seq<char>, n: nat, post: Seq<char>, max: nat)
    requires
        text::is_blank(pre),
        text::is_blank(post),
        n <= max,
    ensures
        text::unsigned_value(text::trim(pre + text::decimal(n) + post), max) == Some(n),
        forall|i: int|
            0 <= i < (pre + text::decimal(n) + post).len() ==> text::is_digit(
                #[trigger] (pre + text::decimal(n) + post)[i],
            ) || text::is_space((pre + text::decimal(n) + post)[i]),
        exists|i: int|
            0 <= i < (pre + text::decimal(n) + post).len() && text::is_digit(
                #[trigger] (pre + text::decimal(n) + post)[i],
            ),
{
    let d = text::decimal(n);
    text::lemma_decimal_reads_back(n);
    assert(text::is_digit(d[0]) && text::is_digit(d.last()));
    text::law_trim_cuts_blanks_only(pre, d, post);
    let whole = pre + d + post;
    assert(whole[pre.len() as int] == d[0]);
    assert forall|i: int| 0 <= i < whole.len() implies text::is_digit(#[trigger] whole[i])
        || text::is_space(whole[i]) by {
        if i < pre.len() {
            assert(whole[i] == pre[i]);
        } else if i < pre.len() + d.len() {
            assert(whole[i] == d[i - pre.len()]);
        } else {
            assert(whole[i] == post[i - pre.len() - d.len()]);
        }
    }
}

/// The parts around the first `sep`.
proof fn lemma_split_at(a: Seq<char>, sep: char, b: Seq<char>)
    requires
        !a.contains(sep),
    ensures
        text::split_once(a.push(sep) + b, sep) == Some((a, b)),
{
    let s = a.push(sep) + b;
    let n = a.len() as int;
    let seps = seq![sep];
    assert forall|i: int| 0 <= i < n implies !seps.contains(#[trigger] s[i]) by {
        assert(s[i] == a[i]);
        assert(a.contains(a[i]));
    }
    assert(s[n] == sep);
    assert(seps[0] == sep);
    text::lemma_first_of(s, seps, n);
    assert(s.take(n) == a);
    assert(s.skip(n + 1) == b);
}

/// A text without `sep` has no parts around it.
proof fn lemma_no_split(s: Seq<char>, sep: char)
    requires
        !s.contains(sep),
    ensures
        text::split_once(s, sep) is None,
{
    text::lemma_first_of_bounds(s, seq![sep]);
    let n = text::first_of(s, seq![sep]);
    if n < s.len() {
        assert(s.contains(s[n]));
    }
}

/// The decimal text of a port, white space around it aside, describes that port
/// and no other.
pub proof fn law_port_text_describes_its_port(pre: Seq<char>, p: u16, post: Seq<char>, q: u16)
    requires
        text::is_blank(pre),
        text::is_blank(post),
    ensures
        port_pattern(pre + text::decimal(p as nat) + post, q) <==> p == q,
{
    let s = pre + text::decimal(p as nat) + post;
    lemma_padded_number(pre, p as nat, post, 65535);
    lemma_no_split(s, '-');
}

/// Two ports with a dash between them describe the ports from the first to the
/// second, both included; white space around either makes no difference.
pub proof fn law_port_range_holds_its_ends(
    a: u16,
    b: u16,
    q: u16,
    blanks: (Seq<char>, Seq<char>, Seq<char>, Seq<char>),
)
    requires
        text::is_blank(blanks.0),
        text::is_blank(blanks.1),
        text::is_blank(blanks.2),
        text::is_blank(blanks.3),
    ensures
        port_pattern(
            (blanks.0 + text::decimal(a as nat) + blanks.1).push('-') + (blanks.2 + text::decimal(
                b as nat,
            ) + blanks.3),
            q,
        ) <==> a <= q <= b,
{
    let start = blanks.0 + text::decimal(a as nat) + blanks.1;
    let end = blanks.2 + text::decimal(b as nat) + blanks.3;
    lemma_padded_number(blanks.0, a as nat, blanks.1, 65535);
    lemma_padded_number(blanks.2, b as nat, blanks.3, 65535);
    lemma_split_at(start, '-', end);
    assert((start.push('-') + end).len() >= 3);
}

/// A port pattern that is neither `*` nor a range describes one port at most.
pub proof fn law_single_port_pattern_is_single(pattern: Seq<char>, p: u16, q: u16)
    requires
        pattern != seq!['*'],
        !pattern.contains('-'),
        port_pattern(pattern, p),
        port_pattern(pattern, q),
    ensures
        p == q,
{
    lemma_no_split(pattern, '-');
}

/// The text of an IPv4 address, white space around it cut off.
proof fn lemma_padded_ipv4(pre: Seq<char>, a: Ipv4Addr, post: Seq<char>)
    requires
        text::is_blank(pre),
        text::is_blank(post),
    ensures
        addr_text::ipv4_text(text::trim(pre + addr_text::write_ipv4(a) + post)) == Some(a),
        forall|i: int|
            0 <= i < (pre + addr_text::write_ipv4(a) + post).len() ==> text::is_digit(
                #[trigger] (pre + addr_text::write_ipv4(a) + post)[i],
            ) || (pre + addr_text::write_ipv4(a) + post)[i] == '.' || text::is_space(
                (pre + addr_text::write_ipv4(a) + post)[i],
            ),
{
    let d = addr_text::write_ipv4(a);
    addr_text::lemma_dotted_chars(a);
    addr_text::law_ipv4_text_round_trip(a);
    text::law_trim_cuts_blanks_only(pre, d, post);
    let whole = pre + d + post;
    assert forall|i: int| 0 <= i < whole.len() implies text::is_digit(#[trigger] whole[i])
        || whole[i] == '.' || text::is_space(whole[i]) by {
        if i < pre.len() {
            assert(whole[i] == pre[i]);
        } else if i < pre.len() + d.len() {
            assert(whole[i] == d[i - pre.len()]);
        } else {
            assert(whole[i] == post[i - pre.len() - d.len()]);
        }
    }
}

/// Two IPv4 addresses with a dash between them describe the addresses from the
/// first to the second, both included; white space around either makes no
/// difference.
pub proof fn law_ipv4_range_holds_its_ends(
    a: Ipv4Addr,
    b: Ipv4Addr,
    ip: Ipv4Addr,
    blanks: (Seq<char>, Seq<char>, Seq<char>, Seq<char>),
)
    requires
        text::is_blank(blanks.0),
        text::is_blank(blanks.1),
        text::is_blank(blanks.2),
        text::is_blank(blanks.3),
    ensures
        ip_pattern(
            (blanks.0 + addr_text::write_ipv4(a) + blanks.1).push('-') + (blanks.2
                + addr_text::write_ipv4(b) + blanks.3),
            IpAddr::V4(ip),
        ) <==> a.bits <= ip.bits <= b.bits,
{
    let start = blanks.0 + addr_text::write_ipv4(a) + blanks.1;
    let end = blanks.2 + addr_text::write_ipv4(b) + blanks.3;
    lemma_padded_ipv4(blanks.0, a, blanks.1);
    lemma_padded_ipv4(blanks.2, b, blanks.3);
    addr_text::lemma_dotted_chars(a);
    lemma_split_at(start, '-', end);
    let s = start.push('-') + end;
    assert(!s.contains(':')) by {
        if s.contains(':') {
            let i = choose|i: int| 0 <= i < s.len() && s[i] == ':';
            if i < start.len() {
                assert(s[i] == start[i]);
            } else if i > start.len() {
                assert(s[i] == end[i - start.len() - 1]);
            }
        }
    }
    assert(s.len() > 1);
}

/// The text of an IPv6 address, white space around it cut off.
proof fn lemma_padded_ipv6(pre: Seq<char>, a: Ipv6Addr, post: Seq<char>)
    requires
        text::is_blank(pre),
        text::is_blank(post),
    ensures
        addr_text::ipv6_text(text::trim(pre + addr_text::write_ipv6(a) + post)) == Some(a),
        (pre + addr_text::write_ipv6(a) + post).contains(':'),
        !(pre + addr_text::write_ipv6(a) + post).contains('/'),
        !(pre + addr_text::write_ipv6(a) + post).contains('-'),
        (pre + addr_text::write_ipv6(a) + post).len() >= 2,
{
    let d = addr_text::write_ipv6(a);
    addr_text::lemma_ipv6_chars(a);
    addr_text::law_ipv6_text_round_trip(a);
    assert(addr_text::hex_digit(d[0]) is Some || d[0] == ':');
    assert(addr_text::hex_digit(d.last()) is Some || d.last() == ':' || d.last() == '.');
    text::law_trim_cuts_blanks_only(pre, d, post);
    let whole = pre + d + post;
    let k = choose|k: int| 0 <= k < d.len() && d[k] == ':';
    assert(whole[k + pre.len()] == ':');
    assert forall|i: int| 0 <= i < whole.len() implies whole[i] != '/' && whole[i] != '-' by {
        if i < pre.len() {
            assert(whole[i] == pre[i]);
        } else if i < pre.len() + d.len() {
            assert(whole[i] == d[i - pre.len()]);
        } else {
            assert(whole[i] == post[i - pre.len() - d.len()]);
        }
    }
}

/// Two IPv6 addresses with a dash between them describe the addresses from the
/// first to the second, both included; white space around either makes no
/// difference.
pub proof fn law_ipv6_range_holds_its_ends(
    a: Ipv6Addr,
    b: Ipv6Addr,
    ip: Ipv6Addr,
    blanks: (Seq<char>, Seq<char>, Seq<char>, Seq<char>),
)
    requires
        text::is_blank(blanks.0),
        text::is_blank(blanks.1),
        text::is_blank(blanks.2),
        text::is_blank(blanks.3),
    ensures
        ip_pattern(
            (blanks.0 + addr_text::write_ipv6(a) + blanks.1).push('-') + (blanks.2
                + addr_text::write_ipv6(b) + blanks.3),
            IpAddr::V6(ip),
        ) <==> a.bits <= ip.bits <= b.bits,
{
    let start = blanks.0 + addr_text::write_ipv6(a) + blanks.1;
    let end = blanks.2 + addr_text::write_ipv6(b) + blanks.3;
    lemma_padded_ipv6(blanks.0, a, blanks.1);
    lemma_padded_ipv6(blanks.2, b, blanks.3);
    lemma_split_at(start, '-', end);
    let s = start.push('-') + end;
    let k = choose|k: int| 0 <= k < start.len() && start[k] == ':';
    assert(s[k] == ':');
    assert(!s.contains('/')) by {
        if s.contains('/') {
            let i = choose|i: int| 0 <= i < s.len() && s[i] == '/';
            if i < start.len() {
                assert(s[i] == start[i]);
                assert(start.contains('/'));
            } else if i > start.len() {
                assert(s[i] == end[i - start.len() - 1]);
                assert(end.contains('/'));
            }
        }
    }
    lemma_no_split(s, '/');
    assert(s.len() > 1);
}

/// An IPv6 address, a slash and a number of bits describe the addresses that
/// agree with that address in as many leading bits; a number above 128 describes
/// none.
pub proof fn law_ipv6_network_holds_its_prefix(
    net: Ipv6Addr,
    len: u32,
    ip: Ipv6Addr,
    blanks: (Seq<char>, Seq<char>, Seq<char>, Seq<char>),
)
    requires
        text::is_blank(blanks.0),
        text::is_blank(blanks.1),
        text::is_blank(blanks.2),
        text::is_blank(blanks.3),
    ensures
        ip_pattern(
            (blanks.0 + addr_text::write_ipv6(net) + blanks.1).push('/') + (blanks.2
                + text::decimal(len as nat) + blanks.3),
            IpAddr::V6(ip),
        ) <==> len <= 128 && ip.bits as nat / vstd::arithmetic::power2::pow2((128 - len) as nat)
            == net.bits as nat / vstd::arithmetic::power2::pow2((128 - len) as nat),
{
    let start = blanks.0 + addr_text::write_ipv6(net) + blanks.1;
    let end = blanks.2 + text::decimal(len as nat) + blanks.3;
    lemma_padded_ipv6(blanks.0, net, blanks.1);
    lemma_padded_number(blanks.2, len as nat, blanks.3, 0xffff_ffff);
    lemma_split_at(start, '/', end);
    let s = start.push('/') + end;
    let k = choose|k: int| 0 <= k < start.len() && start[k] == ':';
    assert(s[k] == ':');
    assert(s.len() > 1);
}

/// How a pattern writes one octet of an IPv4 address: its number, or `*` for any.
pub open spec fn octet_or_any(octet: Option<u8>) -> Seq<char> {
    match octet {
        Some(n) => text::decimal(n as nat),
        None => seq!['*'],
    }
}

/// Four octets with dots between them, some of them `*`, describe the addresses
/// that have each of the octets that are given.
pub proof fn law_octet_pattern(
    a: Option<u8>,
    b: Option<u8>,
    c: Option<u8>,
    d: Option<u8>,
    ip: Ipv4Addr,
)
    ensures
        ip_pattern(
            octet_or_any(a).push('.') + (octet_or_any(b).push('.') + (octet_or_any(c).push('.')
                + octet_or_any(d))),
            IpAddr::V4(ip),
        ) <==> {
            &&& a is Some ==> ip.bits / 0x100_0000 == a->Some_0
            &&& b is Some ==> ip.bits / 0x1_0000 % 256 == b->Some_0
            &&& c is Some ==> ip.bits / 0x100 % 256 == c->Some_0
            &&& d is Some ==> ip.bits % 256 == d->Some_0
        },
{
    let (ta, tb, tc, td) = (octet_or_any(a), octet_or_any(b), octet_or_any(c), octet_or_any(d));
    let s = ta.push('.') + (tb.push('.') + (tc.push('.') + td));
    lemma_octet_pieces(a, b, c, d);
    lemma_octet_or_any(a);
    lemma_octet_or_any(b);
    lemma_octet_or_any(c);
    lemma_octet_or_any(d);
    addr::lemma_octets_by_division(ip);
    lemma_no_split(s, '-');
    let parts = text::split(s, seq!['.']);
    let o = ip.octets_spec();
    assert(parts[0] == ta && parts[1] == tb && parts[2] == tc && parts[3] == td);
    assert(octets_match(s, ip) == ipv4_pattern(s, ip));
}

proof fn lemma_octet_pieces(a: Option<u8>, b: Option<u8>, c: Option<u8>, d: Option<u8>)
    ensures
        ({
            let s = octet_or_any(a).push('.') + (octet_or_any(b).push('.') + (octet_or_any(c).push(
                '.',
            ) + octet_or_any(d)));
            &&& text::split(s, seq!['.']) == seq![
                octet_or_any(a),
                octet_or_any(b),
                octet_or_any(c),
                octet_or_any(d),
            ]
            &&& !s.contains(':')
            &&& !s.contains('-')
            &&& s != seq!['*']
        }),
{
    let seps = seq!['.'];
    assert(seps[0] == '.');
    let (ta, tb, tc, td) = (octet_or_any(a), octet_or_any(b), octet_or_any(c), octet_or_any(d));
    lemma_octet_or_any(a);
    lemma_octet_or_any(b);
    lemma_octet_or_any(c);
    lemma_octet_or_any(d);
    let s2 = tc.push('.') + td;
    let s1 = tb.push('.') + s2;
    let s = ta.push('.') + s1;
    text::lemma_split_single(td, seps);
    text::lemma_split_cons(tc, '.', td, seps);
    text::lemma_split_cons(tb, '.', s2, seps);
    text::lemma_split_cons(ta, '.', s1, seps);
    assert(text::split(s, seps) == seq![ta, tb, tc, td]);
    assert forall|i: int| 0 <= i < s.len() implies s[i] != ':' && s[i] != '-' by {
        if i < ta.len() {
            assert(s[i] == ta[i]);
        } else if i > ta.len() {
            let j = i - ta.len() - 1;
            assert(s[i] == s1[j]);
            if j < tb.len() {
                assert(s1[j] == tb[j]);
            } else if j > tb.len() {
                let k = j - tb.len() - 1;
                assert(s1[j] == s2[k]);
                if k < tc.len() {
                    assert(s2[k] == tc[k]);
                } else if k > tc.len() {
                    assert(s2[k] == td[k - tc.len() - 1]);
                }
            }
        }
    }
    assert(s.len() > 1);
}

proof fn lemma_octet_or_any(octet: Option<u8>)
    ensures
        octet is Some ==> octet_or_any(octet) != seq!['*'] && text::unsigned_value(
            octet_or_any(octet),
            255,
        ) == Some(octet->Some_0 as nat),
        octet is None ==> octet_or_any(octet) == seq!['*'],
        octet_or_any(octet).len() > 0,
        forall|i: int|
            0 <= i < octet_or_any(octet).len() ==> text::is_digit(#[trigger] octet_or_any(octet)[i])
                || octet_or_any(octet)[i] == '*',
        forall|i: int|
            0 <= i < octet_or_any(octet).len() ==> !seq!['.'].contains(
                #[trigger] octet_or_any(octet)[i],
            ),
{
    if let Some(n) = octet {
        text::lemma_decimal_reads_back(n as nat);
        assert(text::is_digit(octet_or_any(octet)[0]));
    }
}

proof fn lemma_filled_of_joined(a: Seq<Seq<char>>, b: Seq<Seq<char>>)
    ensures
        filled(a + b) == filled(a) + filled(b),
    decreases b.len(),
{
    if b.len() == 0 {
        assert(a + b == a);
        assert(filled(a) + filled(b) == filled(a));
    } else {
        lemma_filled_of_joined(a, b.drop_last());
        assert((a + b).drop_last() == a + b.drop_last());
        assert((a + b).last() == b.last());
        assert(filled(a + b) == filled(a) + filled(b));
    }
}

/// Two lists with a `;` or a `,` between them hold the entries of the one and
/// those of the other.
pub proof fn law_joined_lists_hold_both_entries(a: Seq<char>, sep: char, b: Seq<char>)
    requires
        sep == ';' || sep == ',',
    ensures
        entries(a.push(sep) + b) == entries(a) + entries(b),
{
    let seps = seq![';', ','];
    assert(seps[0] == ';' && seps[1] == ',');
    text::law_split_of_joined_texts(a, sep, b, seps);
    lemma_filled_of_joined(text::split(a, seps), text::split(b, seps));
}

/// A text without separators is one entry, without the white space around it.
pub proof fn law_entry_is_trimmed(pre: Seq<char>, entry: Seq<char>, post: Seq<char>)
    requires
        text::is_blank(pre),
        text::is_blank(post),
        entry.len() > 0,
        !text::is_space(entry[0]),
        !text::is_space(entry.last()),
        !entry.contains(';'),
        !entry.contains(','),
    ensures
        entries(pre + entry + post) == seq![entry],
{
    let s = pre + entry + post;
    let seps = seq![';', ','];
    assert forall|i: int| 0 <= i < s.len() implies !seps.contains(#[trigger] s[i]) by {
        if i < pre.len() {
            assert(s[i] == pre[i]);
        } else if i < pre.len() + entry.len() {
            assert(s[i] == entry[i - pre.len()]);
            assert(entry.contains(s[i]));
        } else {
            assert(s[i] == post[i - pre.len() - entry.len()]);
        }
    }
    text::lemma_split_single(s, seps);
    text::law_trim_cuts_blanks_only(pre, entry, post);
    reveal_with_fuel(filled, 2);
    assert(seq![s].drop_last() == Seq::<Seq<char>>::empty());
    assert(filled(seq![s]) == seq![entry]);
}

/// A blank text holds no entry.
pub proof fn law_blank_list_holds_nothing(list: Seq<char>)
    requires
        text::is_blank(list),
    ensures
        entries(list).len() == 0,
{
    let none = Seq::<char>::empty();
    assert(list == list + none + none);
    text::law_trim_cuts_blanks_only(list, none, none);
    let seps = seq![';', ','];
    text::lemma_split_single(list, seps);
    reveal_with_fuel(filled, 2);
    assert(seq![list].drop_last() == Seq::<Seq<char>>::empty());
}

/// A list with a separator in it does not stand for everything.
proof fn lemma_joined_list_is_no_wildcard(a: Seq<char>, sep: char, b: Seq<char>)
    requires
        sep == ';' || sep == ',',
    ensures
        !match_all(a.push(sep) + b),
{
    let s = a.push(sep) + b;
    assert(s[a.len() as int] == sep);
    text::law_trim_keeps_what_is_no_blank(s, sep);
    let t = text::trim(s);
    let i = choose|i: int| 0 <= i < t.len() && t[i] == sep;
    if text::eq_ignore_case(t, seq!['A', 'N', 'Y']) {
        text::lemma_same_but_for_case(t, seq!['A', 'N', 'Y']);
        assert(text::ascii_lower(t[i]) == text::ascii_lower(seq!['A', 'N', 'Y'][i]));
    }
}

/// A list of ports or addresses with a `;` or a `,` in it describes what the part
/// before it describes and what the part behind it describes, and no more.
pub proof fn law_joined_lists_describe_both(
    a: Seq<char>,
    sep: char,
    b: Seq<char>,
    port: u16,
    ip: IpAddr,
)
    requires
        sep == ';' || sep == ',',
        !match_all(a),
        !match_all(b),
    ensures
        port_listed(a.push(sep) + b, port) <==> port_listed(a, port) || port_listed(b, port),
        ip_listed(a.push(sep) + b, ip) <==> ip_listed(a, ip) || ip_listed(b, ip),
{
    let s = a.push(sep) + b;
    law_joined_lists_hold_both_entries(a, sep, b);
    lemma_joined_list_is_no_wildcard(a, sep, b);
    let (ea, eb, es) = (entries(a), entries(b), entries(s));
    assert forall|i: int| 0 <= i < ea.len() implies #[trigger] ea[i] == es[i] by {}
    assert forall|i: int| 0 <= i < eb.len() implies #[trigger] eb[i] == es[i + ea.len()] by {}
    if port_listed(s, port) {
        let i = choose|i: int| 0 <= i < es.len() && port_pattern(#[trigger] es[i], port);
        if i < ea.len() {
            assert(port_pattern(ea[i], port));
        } else {
            assert(port_pattern(eb[i - ea.len()], port));
        }
    }
    if ip_listed(s, ip) {
        let i = choose|i: int| 0 <= i < es.len() && ip_pattern(#[trigger] es[i], ip);
        if i < ea.len() {
            assert(ip_pattern(ea[i], ip));
        } else {
            assert(ip_pattern(eb[i - ea.len()], ip));
        }
    }
}

/// A list of one entry describes what the entry describes.
pub proof fn law_list_of_one_entry(list: Seq<char>, port: u16, ip: IpAddr)
    requires
        is_single_entry(list),
        !match_all(list),
    ensures
        port_listed(list, port) <==> port_pattern(list, port),
        ip_listed(list, ip) <==> ip_pattern(list, ip),
{
    lemma_single_entry(list);
    assert(entries(list)[0] == list);
}

/// A blank list, a `*` and an `ANY` of any letter case describe every port and
/// every address, with or without white space around them.
pub proof fn law_wildcard_list_describes_everything(
    pre: Seq<char>,
    word: Seq<char>,
    post: Seq<char>,
    port: u16,
    ip: IpAddr,
)
    requires
        text::is_blank(pre),
        text::is_blank(post),
        word.len() == 0 || word == seq!['*'] || (word.len() == 3 && (word[0] == 'a' || word[0]
            == 'A') && (word[1] == 'n' || word[1] == 'N') && (word[2] == 'y' || word[2] == 'Y')),
    ensures
        match_all(pre + word + post),
        port_listed(pre + word + post, port),
        ip_listed(pre + word + post, ip),
{
    text::law_trim_cuts_blanks_only(pre, word, post);
    if word.len() == 3 {
        assert(text::lowered(word) == text::lowered(seq!['A', 'N', 'Y']));
    }
}

/// The transport of a connection, as a rule names it.
pub open spec fn transport(is_udp: bool) -> RuleProtocol {
    if is_udp {
        RuleProtocol::Udp
    } else {
        RuleProtocol::Tcp
    }
}

/// A rule for one transport never applies to the other, and applies to its own as
/// a rule for both would.
pub proof fn law_rule_keeps_to_its_transport(rule: RuleModel, c: Connection)
    ensures
        rule.protocol == RuleProtocol::Tcp && c.is_udp ==> !compiled(rule).specific(c)
            && !compiled(rule).fallback(c),
        rule.protocol == RuleProtocol::Udp && !c.is_udp ==> !compiled(rule).specific(c)
            && !compiled(rule).fallback(c),
        rule.protocol == transport(c.is_udp) ==> compiled(rule).specific(c) == compiled(
            (RuleModel { protocol: RuleProtocol::Both, ..rule }),
        ).specific(c),
        rule.protocol == transport(c.is_udp) ==> compiled(rule).fallback(c) == compiled(
            (RuleModel { protocol: RuleProtocol::Both, ..rule }),
        ).fallback(c),
        rule.protocol == RuleProtocol::Both ==> compiled(rule).specific(c) == compiled(
            rule,
        ).specific((Connection { is_udp: !c.is_udp, ..c })),
        rule.protocol == RuleProtocol::Both ==> compiled(rule).fallback(c) == compiled(
            rule,
        ).fallback((Connection { is_udp: !c.is_udp, ..c })),
{
    let both = RuleModel { protocol: RuleProtocol::Both, ..rule };
    let other = Connection { is_udp: !c.is_udp, ..c };
    assert(compiled(rule).covers_target(c) == compiled(both).covers_target(c));
    assert(compiled(rule).covers_target(c) == compiled(rule).covers_target(other));
}

/// A rule applies to no port and no address that its lists do not describe, to no
/// address that it excepts, and to no process and no hostname that its globs do
/// not match.
pub proof fn law_rule_keeps_to_its_criteria(rule: RuleModel, c: Connection)
    ensures
        compiled(rule).specific(c) || compiled(rule).fallback(c) ==> port_listed(rule.ports, c.port),
        compiled(rule).specific(c) || compiled(rule).fallback(c) ==> ip_listed(rule.hosts, c.dest),
        compiled(rule).specific(c) || compiled(rule).fallback(c) ==> rule.except_hosts is None
            || !ip_listed(rule.except_hosts->Some_0, c.dest),
        compiled(rule).specific(c) || compiled(rule).fallback(c) ==> match_all(rule.process_names)
            || any_glob_matches(
            glob::accepted(process_globs(rule.process_names)),
            without_exe(c.process_name),
        ),
        compiled(rule).specific(c) || compiled(rule).fallback(c) ==> match_all(rule.domains) || (
        c.domain is Some && any_glob_matches(
            glob::accepted(entries(rule.domains)),
            c.domain->Some_0,
        )),
{
}

/// A rule whose every criterion holds decides for the connection when it stands
/// alone: with its action and its proxy.
pub proof fn law_rule_applies_where_its_criteria_hold(rule: RuleModel, c: Connection)
    requires
        rule.protocol == RuleProtocol::Both || rule.protocol == transport(c.is_udp),
        port_listed(rule.ports, c.port),
        ip_listed(rule.hosts, c.dest),
        rule.except_hosts is None || !ip_listed(rule.except_hosts->Some_0, c.dest),
        match_all(rule.process_names) || any_glob_matches(
            glob::accepted(process_globs(rule.process_names)),
            without_exe(c.process_name),
        ),
        match_all(rule.domains) || (c.domain is Some && any_glob_matches(
            glob::accepted(entries(rule.domains)),
            c.domain->Some_0,
        )),
    ensures
        compiled(rule).specific(c) || compiled(rule).fallback(c),
        compiled(rule).fallback(c) <==> match_all(rule.process_names) && match_all(rule.hosts)
            && match_all(rule.ports) && match_all(rule.domains) && rule.except_hosts is None,
        compiled(rule).specific(c) <==> !compiled(rule).fallback(c),
        decided(seq![compiled(rule)], c).action == rule.action,
        decided(seq![compiled(rule)], c).proxy_config_id == rule.proxy_config_id,
{
    let rules = seq![compiled(rule)];
    assert(rules[0] == compiled(rule));
    if compiled(rule).specific(c) {
        law_first_specific_rule_wins(rules, c, 0);
    } else {
        law_fallback_decides_last(rules, c, 0);
    }
}

/// A connection for which a rule standing alone decides nothing goes direct.
pub proof fn law_rule_that_does_not_apply_is_as_none(rule: RuleModel, c: Connection)
    requires
        !compiled(rule).specific(c),
        !compiled(rule).fallback(c),
    ensures
        decided(seq![compiled(rule)], c).action == RuleAction::Direct,
{
    law_uncovered_connection_is_direct(seq![compiled(rule)], c);
}

/// A process list with a `;` or a `,` in it covers the processes that the part
/// before it covers and those that the part behind it covers; so does a list of
/// hostnames.
pub proof fn law_joined_globs_match_both(a: Seq<char>, sep: char, b: Seq<char>, text: Seq<char>)
    requires
        sep == ';' || sep == ',',
    ensures
        any_glob_matches(glob::accepted(process_globs(a.push(sep) + b)), text) <==> {
            ||| any_glob_matches(glob::accepted(process_globs(a)), text)
            ||| any_glob_matches(glob::accepted(process_globs(b)), text)
        },
        any_glob_matches(glob::accepted(entries(a.push(sep) + b)), text) <==> {
            ||| any_glob_matches(glob::accepted(entries(a)), text)
            ||| any_glob_matches(glob::accepted(entries(b)), text)
        },
{
    law_joined_lists_hold_both_entries(a, sep, b);
    let s = a.push(sep) + b;
    assert(process_globs(s) == process_globs(a) + process_globs(b));
    glob::lemma_accepted_of_joined(process_globs(a), process_globs(b));
    glob::lemma_accepted_of_joined(entries(a), entries(b));
    lemma_any_glob_of_joined(
        glob::accepted(process_globs(a)),
        glob::accepted(process_globs(b)),
        text,
    );
    lemma_any_glob_of_joined(glob::accepted(entries(a)), glob::accepted(entries(b)), text);
}

proof fn lemma_any_glob_of_joined(a: Seq<Seq<char>>, b: Seq<Seq<char>>, text: Seq<char>)
    ensures
        any_glob_matches(a + b, text) <==> any_glob_matches(a, text) || any_glob_matches(b, text),
{
    let s = a + b;
    assert forall|i: int| 0 <= i < a.len() implies #[trigger] a[i] == s[i] by {}
    assert forall|i: int| 0 <= i < b.len() implies #[trigger] b[i] == s[i + a.len()] by {}
    if any_glob_matches(s, text) {
        let i = choose|i: int| 0 <= i < s.len() && glob::glob_matches(#[trigger] s[i], text);
        if i < a.len() {
            assert(glob::glob_matches(a[i], text));
        } else {
            assert(glob::glob_matches(b[i - a.len()], text));
        }
    }
}

/// A rule that names one hostname applies to that hostname and no other, letter
/// case aside.
pub proof fn law_named_domain_is_covered(domains: Seq<char>, domain: Seq<char>)
    requires
        is_single_entry(domains),
        glob::is_literal(domains),
        vstd::utf8::is_ascii_chars(domains),
        vstd::utf8::is_ascii_chars(domain),
        glob::compiles(domains),
    ensures
        any_glob_matches(glob::accepted(entries(domains)), domain) <==> text::eq_ignore_case(
            domains,
            domain,
        ),
{
    lemma_single_entry(domains);
    reveal_with_fuel(glob::accepted, 2);
    assert(seq![domains].drop_last() == Seq::<Seq<char>>::empty());
    assert(glob::accepted(seq![domains]) == seq![domains]);
    glob::law_literal_glob_ignores_case(domains, domain);
    assert(seq![domains][0] == domains);
}

/// The hostname makes no difference to rules without a hostname criterion.
pub proof fn law_hostname_matters_to_domain_rules_only(
    rules: Seq<CompiledModel>,
    c: Connection,
    domain: Option<Seq<char>>,
)
    requires
        !any_domain_rule(rules),
    ensures
        decided(rules, (Connection { domain, ..c })) == decided(rules, c),
{
    let d = Connection { domain, ..c };
    lemma_first_rule_alike(
        rules,
        |r: CompiledModel| r.specific(c),
        |r: CompiledModel| r.specific(d),
    );
    lemma_first_rule_alike(
        rules,
        |r: CompiledModel| r.fallback(c),
        |r: CompiledModel| r.fallback(d),
    );
}

proof fn lemma_first_rule_alike(
    rules: Seq<CompiledModel>,
    p: spec_fn(CompiledModel) -> bool,
    q: spec_fn(CompiledModel) -> bool,
)
    requires
        forall|i: int| 0 <= i < rules.len() ==> p(#[trigger] rules[i]) == q(rules[i]),
    ensures
        first_rule(rules, p) == first_rule(rules, q),
    decreases rules.len(),
{
    if rules.len() > 0 {
        assert(p(rules[0]) == q(rules[0]));
        assert forall|i: int| 0 <= i < rules.len() - 1 implies p(
            #[trigger] rules.drop_first()[i],
        ) == q(rules.drop_first()[i]) by {
            assert(rules.drop_first()[i] == rules[i + 1]);
        }
        lemma_first_rule_alike(rules.drop_first(), p, q);
    }
}

/// A rule set has a hostname criterion exactly where one of its rules has.
pub proof fn law_domain_rules_are_those_with_domains(rules: Seq<RuleModel>)
    ensures
        any_domain_rule(rules.map_values(|r: RuleModel| compiled(r))) <==> exists|i: int|
            0 <= i < rules.len() && !match_all((#[trigger] rules[i]).domains),
{
    let models = rules.map_values(|r: RuleModel| compiled(r));
    if any_domain_rule(models) {
        let i = choose|i: int| 0 <= i < models.len() && !(#[trigger] models[i]).domains_all;
        assert(!match_all(rules[i].domains));
    }
    assert forall|i: int| 0 <= i < rules.len() && !match_all((#[trigger] rules[i]).domains) implies
        any_domain_rule(models) by {
        assert(!models[i].domains_all);
    }
}

/// A port pattern that is neither `*` nor a range describes the port that its number
/// is, however the number is spelt, and nothing where it is no number up to
/// 65535.
pub proof fn law_port_pattern_is_its_number(
    pre: Seq<char>,
    number: Seq<char>,
    post: Seq<char>,
    port: u16,
)
    requires
        text::is_blank(pre),
        text::is_blank(post),
        number.len() > 0,
        number != seq!['*'],
        forall|i: int|
            0 <= i < number.len() ==> !text::is_space(#[trigger] number[i]) && number[i] != '-',
    ensures
        port_pattern(pre + number + post, port) <==> text::unsigned_value(number, 65535) == Some(
            port as nat,
        ),
{
    let s = pre + number + post;
    assert(!text::is_space(number[0]) && !text::is_space(number[number.len() - 1]));
    text::law_trim_cuts_blanks_only(pre, number, post);
    assert forall|i: int| 0 <= i < s.len() implies s[i] != '-' by {
        if i < pre.len() {
            assert(s[i] == pre[i]);
        } else if i < pre.len() + number.len() {
            assert(s[i] == number[i - pre.len()]);
        } else {
            assert(s[i] == post[i - pre.len() - number.len()]);
        }
    }
    lemma_no_split(s, '-');
    if s == seq!['*'] {
        text::law_trim_cuts_blanks_only(Seq::empty(), s, Seq::empty());
        assert(Seq::<char>::empty() + s + Seq::empty() =~= s);
        assert(number =~= seq!['*']);
    }
}

/// A pattern that is neither `*` nor a range describes an IPv4 address only where it
/// has four parts, each of them `*` or the number of its octet.
pub proof fn law_dotted_pattern_has_four_parts(pattern: Seq<char>, ip: Ipv4Addr, i: int)
    requires
        pattern != seq!['*'],
        !pattern.contains('-'),
        ip_pattern(pattern, IpAddr::V4(ip)),
        0 <= i < 4,
    ensures
        text::split(pattern, seq!['.']).len() == 4,
        text::split(pattern, seq!['.'])[i] == seq!['*'] || text::unsigned_value(
            text::split(pattern, seq!['.'])[i],
            255,
        ) == Some(ip.octets_spec()[i] as nat),
{
    lemma_no_split(pattern, '-');
}

/// A list stands for everything only where it is blank, a `*` or an `ANY`.
pub proof fn law_no_other_list_stands_for_everything(list: Seq<char>)
    requires
        match_all(list),
    ensures
        ({
            let word = text::trim(list);
            ||| word.len() == 0
            ||| word.len() == 1 && word[0] == '*'
            ||| word.len() == 3 && (word[0] == 'a' || word[0] == 'A') && (word[1] == 'n' || word[1]
                == 'N') && (word[2] == 'y' || word[2] == 'Y')
        }),
{
    let word = text::trim(list);
    let any = seq!['A', 'N', 'Y'];
    if text::eq_ignore_case(word, any) {
        text::lemma_same_but_for_case(word, any);
        assert(text::ascii_lower(word[0]) == text::ascii_lower(any[0]));
        assert(text::ascii_lower(word[1]) == text::ascii_lower(any[1]));
        assert(text::ascii_lower(word[2]) == text::ascii_lower(any[2]));
    }
}

/// A name keeps its end unless that is `.exe` in some letter case.
pub proof fn law_other_names_are_kept(name: Seq<char>)
    requires
        name.len() < 4 || !text::eq_ignore_case(name.skip(name.len() - 4), ".exe"@),
    ensures
        without_exe(name) == name,
{
    reveal_strlit(".exe");
    assert(".exe"@ =~= seq!['.', 'e', 'x', 'e']);
}

/// A `*` describes every port and every address, alone and in a list.
pub proof fn law_star_describes_everything(port: u16, ip: IpAddr, list: Seq<char>, i: int)
    requires
        0 <= i < entries(list).len(),
        entries(list)[i] == seq!['*'],
    ensures
        port_pattern(seq!['*'], port),
        ip_pattern(seq!['*'], ip),
        port_listed(list, port),
        ip_listed(list, ip),
{
    assert(port_pattern(entries(list)[i], port));
    assert(ip_pattern(entries(list)[i], ip));
}

/// A pattern with a dash describes the ports between the two numbers around its first
/// dash, however they are spelt, and none where one of them is no number up to
/// 65535.
pub proof fn law_port_range_is_its_numbers(start: Seq<char>, end: Seq<char>, port: u16)
    requires
        !start.contains('-'),
    ensures
        port_pattern(start.push('-') + end, port) <==> {
            let a = text::unsigned_value(text::trim(start), 65535);
            let b = text::unsigned_value(text::trim(end), 65535);
            a is Some && b is Some && a->Some_0 <= port <= b->Some_0
        },
{
    lemma_split_at(start, '-', end);
    let s = start.push('-') + end;
    assert(s[start.len() as int] == '-');
    if s == seq!['*'] {
        assert(s[0] == '*');
    }
}

/// A pattern with a dash and no colon describes the IPv4 addresses between the two
/// addresses around its first dash, and none where one of them is no address.
pub proof fn law_ipv4_range_is_its_addresses(start: Seq<char>, end: Seq<char>, ip: Ipv4Addr)
    requires
        !start.contains('-'),
        !start.contains(':'),
        !end.contains(':'),
    ensures
        ip_pattern(start.push('-') + end, IpAddr::V4(ip)) <==> {
            let a = addr_text::ipv4_text(text::trim(start));
            let b = addr_text::ipv4_text(text::trim(end));
            a is Some && b is Some && a->Some_0.bits <= ip.bits <= b->Some_0.bits
        },
{
    lemma_split_at(start, '-', end);
    let s = start.push('-') + end;
    assert(s[start.len() as int] == '-');
    if s == seq!['*'] {
        assert(s[0] == '*');
    }
    assert(!s.contains(':')) by {
        if s.contains(':') {
            let i = choose|i: int| 0 <= i < s.len() && s[i] == ':';
            if i < start.len() {
                assert(start[i] == ':');
            } else if i > start.len() {
                assert(end[i - start.len() - 1] == ':');
            }
        }
    }
}

/// What an IPv6 pattern describes, however its addresses are spelt: behind a slash a
/// number of bits, behind a dash the end of a range, and without either itself.
pub proof fn law_ipv6_patterns_in_any_spelling(first: Seq<char>, second: Seq<char>, ip: Ipv6Addr)
    requires
        first.contains(':'),
        !first.contains('/'),
        !first.contains('-'),
    ensures
        ip_pattern(first.push('/') + second, IpAddr::V6(ip)) <==> {
            let net = addr_text::ipv6_text(text::trim(first));
            let len = text::unsigned_value(text::trim(second), 0xffff_ffff);
            net is Some && len is Some && len->Some_0 <= 128 && addr::same_prefix(
                net->Some_0.bits as nat,
                ip.bits as nat,
                128,
                len->Some_0,
            )
        },
        !second.contains('/') ==> (ip_pattern(first.push('-') + second, IpAddr::V6(ip)) <==> {
            let a = addr_text::ipv6_text(text::trim(first));
            let b = addr_text::ipv6_text(text::trim(second));
            a is Some && b is Some && a->Some_0.bits <= ip.bits <= b->Some_0.bits
        }),
        ip_pattern(first, IpAddr::V6(ip)) <==> addr_text::ipv6_text(text::trim(first)) == Some(ip),
{
    let k = choose|k: int| 0 <= k < first.len() && first[k] == ':';
    let (slashed, dashed) = (first.push('/') + second, first.push('-') + second);
    assert(slashed[k] == ':' && dashed[k] == ':');
    lemma_split_at(first, '/', second);
    lemma_split_at(first, '-', second);
    lemma_no_split(first, '/');
    lemma_no_split(first, '-');
    assert(first != seq!['*']) by {
        if first == seq!['*'] {
            assert(first[k] == '*');
        }
    }
    assert(slashed.len() > 1 && dashed.len() > 1);
    if !second.contains('/') {
        assert(!dashed.contains('/')) by {
            if dashed.contains('/') {
                let i = choose|i: int| 0 <= i < dashed.len() && dashed[i] == '/';
                if i < first.len() {
                    assert(first[i] == '/');
                } else if i > first.len() {
                    assert(second[i - first.len() - 1] == '/');
                }
            }
        }
        lemma_no_split(dashed, '/');
    }
}

/// A list that does not stand for everything describes what one of its entries
/// describes, and nothing else; blank entries describe nothing.
pub proof fn law_list_describes_what_its_entries_do(list: Seq<char>, port: u16, ip: IpAddr)
    requires
        !match_all(list),
    ensures
        port_listed(list, port) <==> exists|i: int|
            0 <= i < entries(list).len() && port_pattern(#[trigger] entries(list)[i], port),
        ip_listed(list, ip) <==> exists|i: int|
            0 <= i < entries(list).len() && ip_pattern(#[trigger] entries(list)[i], ip),
{
}

} // verus!
