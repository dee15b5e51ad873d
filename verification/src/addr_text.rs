//! The textual form of internet addresses.

use vstd::prelude::*;
use vstd::slice::slice_subrange;

use crate::addr;
use crate::addr::{IpAddr, Ipv4Addr, Ipv6Addr, SocketAddr};
use crate::bytes;
use crate::text;
use crate::text::{
    chars_of, parse_digits, push_decimal, push_text, split_any, split_first, string_of,
};

verus! {

// ── Reading ─────────────────────────────────────────────────────────────────

/// The octet written by `s`: one to three digits without a superfluous zero.
pub open spec fn octet_text(s: Seq<char>) -> Option<nat> {
    if s.len() > 3 || (s.len() > 1 && s[0] == '0') {
        None
    } else {
        text::digits_value(s, 255)
    }
}

/// The IPv4 address written by `s`: four octets with dots between them.
pub open spec fn ipv4_text(s: Seq<char>) -> Option<Ipv4Addr> {
    let p = text::split(s, seq!['.']);
    if p.len() == 4 && octet_text(p[0]) is Some && octet_text(p[1]) is Some && octet_text(
        p[2],
    ) is Some && octet_text(p[3]) is Some {
        Some(
            Ipv4Addr {
                bits: bytes::be_value(
                    seq![
                        octet_text(p[0])->Some_0 as u8,
                        octet_text(p[1])->Some_0 as u8,
                        octet_text(p[2])->Some_0 as u8,
                        octet_text(p[3])->Some_0 as u8,
                    ],
                ) as u32,
            },
        )
    } else {
        None
    }
}

/// The value of a hexadecimal digit of either case.
pub open spec fn hex_digit(c: char) -> Option<nat> {
    if '0' <= c <= '9' {
        Some((c as u32 - 48) as nat)
    } else if 'a' <= c <= 'f' {
        Some((c as u32 - 87) as nat)
    } else if 'A' <= c <= 'F' {
        Some((c as u32 - 55) as nat)
    } else {
        None
    }
}

/// The number that a sequence of hexadecimal digits writes.
pub open spec fn hex_value(s: Seq<char>) -> nat
    decreases s.len(),
{
    if s.len() == 0 {
        0
    } else {
        hex_value(s.drop_last()) * 16 + hex_digit(s.last())->Some_0
    }
}

/// The 16-bit group written by `s`: one to four hexadecimal digits.
pub open spec fn group_text(s: Seq<char>) -> Option<u16> {
    if 1 <= s.len() <= 4 && forall|i: int| 0 <= i < s.len() ==> hex_digit(#[trigger] s[i]) is Some {
        Some(hex_value(s) as u16)
    } else {
        None
    }
}

/// The groups written by `parts`, where each of them is a group.
pub open spec fn groups_text(parts: Seq<Seq<char>>) -> Option<Seq<u16>>
    decreases parts.len(),
{
    if parts.len() == 0 {
        Some(Seq::empty())
    } else {
        match (groups_text(parts.drop_last()), group_text(parts.last())) {
            (Some(g), Some(last)) => Some(g.push(last)),
            _ => None,
        }
    }
}

/// The two groups that an IPv4 address fills.
pub open spec fn embedded_groups(v4: Ipv4Addr) -> Seq<u16> {
    seq![(v4.bits / 65536) as u16, (v4.bits % 65536) as u16]
}

/// The groups written by a run of groups with colons between them. The last
/// piece may be an IPv4 address where `allow_v4` says so. An empty run writes
/// no group.
pub open spec fn run_text(s: Seq<char>, allow_v4: bool) -> Option<Seq<u16>> {
    let parts = text::split(s, seq![':']);
    if s.len() == 0 {
        Some(Seq::empty())
    } else if groups_text(parts) is Some {
        groups_text(parts)
    } else if allow_v4 && groups_text(parts.drop_last()) is Some && ipv4_text(
        parts.last(),
    ) is Some {
        Some(
            groups_text(parts.drop_last())->Some_0 + embedded_groups(
                ipv4_text(parts.last())->Some_0,
            ),
        )
    } else {
        None
    }
}

/// The position of the first `::` in `s`, or the length of `s`.
pub open spec fn double_colon(s: Seq<char>) -> int
    decreases s.len(),
{
    if s.len() == 0 {
        0
    } else if s.len() >= 2 && s[0] == ':' && s[1] == ':' {
        0
    } else {
        1 + double_colon(s.drop_first())
    }
}

/// The eight groups written by `s`. A `::` stands for one zero group or more.
pub open spec fn ipv6_groups(s: Seq<char>) -> Option<Seq<u16>> {
    let k = double_colon(s);
    if k == s.len() {
        match run_text(s, true) {
            Some(g) if g.len() == 8 => Some(g),
            _ => None,
        }
    } else {
        match (run_text(s.take(k), false), run_text(s.skip(k + 2), true)) {
            (Some(head), Some(tail)) if head.len() + tail.len() <= 7 => Some(
                head + Seq::new((8 - head.len() - tail.len()) as nat, |i: int| 0u16) + tail,
            ),
            _ => None,
        }
    }
}

/// The IPv6 address written by `s`.
pub open spec fn ipv6_text(s: Seq<char>) -> Option<Ipv6Addr> {
    match ipv6_groups(s) {
        Some(g) => Some(Ipv6Addr { bits: addr::groups_value(g) as u128 }),
        None => None,
    }
}

/// The address of either family written by `s`.
pub open spec fn ip_text(s: Seq<char>) -> Option<IpAddr> {
    match (ipv4_text(s), ipv6_text(s)) {
        (Some(v4), _) => Some(IpAddr::V4(v4)),
        (None, Some(v6)) => Some(IpAddr::V6(v6)),
        _ => None,
    }
}

/// The address between the brackets of an IPv6 endpoint, which may carry a
/// numeric zone behind a `%`.
pub open spec fn bracketed_text(s: Seq<char>) -> Option<Ipv6Addr> {
    match text::split_once(s, '%') {
        Some((ip, zone)) => if text::digits_value(zone, 0xffff_ffff) is Some {
            ipv6_text(ip)
        } else {
            None
        },
        None => ipv6_text(s),
    }
}

/// The endpoint written by `s`: `a.b.c.d:port` or `[v6]:port`.
pub open spec fn socket_text(s: Seq<char>) -> Option<SocketAddr> {
    if s.len() > 0 && s[0] == '[' {
        match text::split_once(s.drop_first(), ']') {
            Some((inner, rest)) => if rest.len() > 0 && rest[0] == ':' {
                match (bracketed_text(inner), text::digits_value(rest.drop_first(), 65535)) {
                    (Some(v6), Some(port)) => Some(
                        SocketAddr { ip: IpAddr::V6(v6), port: port as u16 },
                    ),
                    _ => None,
                }
            } else {
                None
            },
            None => None,
        }
    } else {
        match text::split_once(s, ':') {
            Some((ip, port)) => match (ipv4_text(ip), text::digits_value(port, 65535)) {
                (Some(v4), Some(p)) => Some(SocketAddr { ip: IpAddr::V4(v4), port: p as u16 }),
                _ => None,
            },
            None => None,
        }
    }
}

fn parse_octet(s: &[char]) -> (r: Option<u8>)
    ensures
        r is Some <==> octet_text(s@) is Some,
        r is Some ==> r->Some_0 == octet_text(s@)->Some_0,
{
    if s.len() > 3 || (s.len() > 1 && s[0] == '0') {
        return None;
    }
    match parse_digits(s, 255) {
        Some(v) => Some(v as u8),
        None => None,
    }
}

/// Reads an IPv4 address.
pub fn parse_ipv4(s: &[char]) -> (r: Option<Ipv4Addr>)
    ensures
        r == ipv4_text(s@),
{
    let seps: [char; 1] = ['.'];
    assert(seps@ == seq!['.']);
    let parts: Vec<&[char]> = split_any(s, &seps);
    assert(text::texts(parts@) == text::split(s@, seq!['.']));
    assert(parts@.len() == text::split(s@, seq!['.']).len());
    if parts.len() != 4 {
        return None;
    }
    assert forall|i: int| 0 <= i < 4 implies parts@[i]@ == text::split(s@, seq!['.'])[i] by {
        assert(text::texts(parts@)[i] == parts@[i]@);
    }
    match (
        parse_octet(parts[0]),
        parse_octet(parts[1]),
        parse_octet(parts[2]),
        parse_octet(parts[3]),
    ) {
        (Some(a), Some(b), Some(c), Some(d)) => Some(Ipv4Addr::new(a, b, c, d)),
        _ => None,
    }
}

fn parse_hex_digit(c: char) -> (r: Option<u16>)
    ensures
        r is Some <==> hex_digit(c) is Some,
        r is Some ==> r->Some_0 == hex_digit(c)->Some_0 && r->Some_0 < 16,
{
    if '0' <= c && c <= '9' {
        Some((c as u32 - 48) as u16)
    } else if 'a' <= c && c <= 'f' {
        Some((c as u32 - 87) as u16)
    } else if 'A' <= c && c <= 'F' {
        Some((c as u32 - 55) as u16)
    } else {
        None
    }
}

/// How many numbers `n` hexadecimal digits can write.
spec fn hex_limit(n: nat) -> nat
    decreases n,
{
    if n == 0 {
        1
    } else {
        16 * hex_limit((n - 1) as nat)
    }
}

fn parse_group(s: &[char]) -> (r: Option<u16>)
    ensures
        r == group_text(s@),
{
    if s.len() == 0 || s.len() > 4 {
        return None;
    }
    let mut acc: u32 = 0;
    let mut i: usize = 0;
    while i < s.len()
        invariant
            i <= s.len() <= 4,
            forall|j: int| 0 <= j < i ==> hex_digit(#[trigger] s@[j]) is Some,
            acc == hex_value(s@.take(i as int)),
            acc < hex_limit(i as nat),
        decreases s.len() - i,
    {
        proof {
            reveal_with_fuel(hex_limit, 6);
            assert(s@.take(i + 1).drop_last() == s@.take(i as int));
            assert(s@.take(i + 1).last() == s@[i as int]);
        }
        match parse_hex_digit(s[i]) {
            Some(d) => {
                acc = acc * 16 + d as u32;
            },
            None => {
                assert(hex_digit(s@[i as int]) is None);
                return None;
            },
        }
        i = i + 1;
    }
    proof {
        reveal_with_fuel(hex_limit, 6);
        assert(s@.take(s@.len() as int) == s@);
    }
    Some(acc as u16)
}

fn parse_groups(parts: &[&[char]]) -> (r: Option<Vec<u16>>)
    ensures
        r is Some <==> groups_text(text::texts(parts@)) is Some,
        r is Some ==> r->Some_0@ == groups_text(text::texts(parts@))->Some_0,
    decreases parts.len(),
{
    let n: usize = parts.len();
    if n == 0 {
        let none: Vec<u16> = Vec::new();
        assert(none@ == Seq::<u16>::empty());
        return Some(none);
    }
    let front: &[&[char]] = slice_subrange(parts, 0, n - 1);
    assert(text::texts(front@) == text::texts(parts@).drop_last());
    assert(text::texts(parts@).last() == parts@[n - 1]@);
    match (parse_groups(front), parse_group(parts[n - 1])) {
        (Some(mut g), Some(last)) => {
            g.push(last);
            Some(g)
        },
        _ => None,
    }
}

fn parse_run(s: &[char], allow_v4: bool) -> (r: Option<Vec<u16>>)
    ensures
        r is Some <==> run_text(s@, allow_v4) is Some,
        r is Some ==> r->Some_0@ == run_text(s@, allow_v4)->Some_0,
{
    if s.len() == 0 {
        let none: Vec<u16> = Vec::new();
        assert(none@ == Seq::<u16>::empty());
        return Some(none);
    }
    let seps: [char; 1] = [':'];
    assert(seps@ == seq![':']);
    let parts: Vec<&[char]> = split_any(s, &seps);
    let ghost whole = text::split(s@, seq![':']);
    assert(text::texts(parts@) == whole);
    let n: usize = parts.len();
    assert(whole.len() == n);
    assert(n > 0);
    match parse_groups(parts.as_slice()) {
        Some(g) => {
            return Some(g);
        },
        None => {},
    }
    if !allow_v4 {
        return None;
    }
    let front: &[&[char]] = slice_subrange(parts.as_slice(), 0, n - 1);
    assert(text::texts(front@) == whole.drop_last());
    assert(whole.last() == text::texts(parts@)[n - 1]);
    assert(whole.last() == parts@[n - 1]@);
    match (parse_groups(front), parse_ipv4(parts[n - 1])) {
        (Some(mut g), Some(v4)) => {
            let ghost before = g@;
            g.push((v4.bits / 65536) as u16);
            g.push((v4.bits % 65536) as u16);
            assert(g@ == before + embedded_groups(v4));
            Some(g)
        },
        _ => None,
    }
}

proof fn lemma_double_colon(s: Seq<char>, n: int)
    requires
        0 <= n <= s.len(),
        forall|i: int|
            0 <= i < n && i + 1 < s.len() ==> !(s[i] == ':' && #[trigger] s[i + 1] == ':'),
        n < s.len() ==> n + 1 < s.len() && s[n] == ':' && s[n + 1] == ':',
    ensures
        double_colon(s) == n,
    decreases n,
{
    if n > 0 {
        let t = s.drop_first();
        if s.len() >= 2 {
            assert(!(s[0] == ':' && s[0int + 1] == ':'));
        }
        assert forall|i: int| 0 <= i < n - 1 && i + 1 < t.len() implies !(t[i] == ':'
            && #[trigger] t[i + 1] == ':') by {
            assert(t[i] == s[i + 1]);
            assert(t[i + 1] == s[(i + 1) + 1]);
        }
        lemma_double_colon(t, n - 1);
    }
}

fn find_double_colon(s: &[char]) -> (n: usize)
    ensures
        n == double_colon(s@),
        n <= s.len(),
        n < s.len() ==> n + 2 <= s.len(),
{
    let mut i: usize = 0;
    while i < s.len()
        invariant
            i <= s.len(),
            forall|j: int|
                0 <= j < i && j + 1 < s@.len() ==> !(s@[j] == ':' && #[trigger] s@[j + 1] == ':'),
        decreases s.len() - i,
    {
        if s.len() - i >= 2 && s[i] == ':' && s[i + 1] == ':' {
            proof {
                lemma_double_colon(s@, i as int);
            }
            return i;
        }
        i = i + 1;
    }
    proof {
        lemma_double_colon(s@, i as int);
    }
    i
}

fn ipv6_of_groups(g: &Vec<u16>) -> (r: Ipv6Addr)
    requires
        g@.len() == 8,
    ensures
        r == (Ipv6Addr { bits: addr::groups_value(g@) as u128 }),
{
    assert(g@ == seq![g@[0], g@[1], g@[2], g@[3], g@[4], g@[5], g@[6], g@[7]]);
    Ipv6Addr::new(g[0], g[1], g[2], g[3], g[4], g[5], g[6], g[7])
}

fn push_groups(out: &mut Vec<u16>, g: &Vec<u16>)
    ensures
        final(out)@ == old(out)@ + g@,
{
    let mut i: usize = 0;
    while i < g.len()
        invariant
            i <= g.len(),
            out@ == old(out)@ + g@.take(i as int),
        decreases g.len() - i,
    {
        assert(g@.take(i + 1) == g@.take(i as int).push(g@[i as int]));
        out.push(g[i]);
        i = i + 1;
    }
    assert(g@.take(g@.len() as int) == g@);
}

/// Reads an IPv6 address.
pub fn parse_ipv6(s: &[char]) -> (r: Option<Ipv6Addr>)
    ensures
        r == ipv6_text(s@),
{
    let k: usize = find_double_colon(s);
    if k == s.len() {
        return match parse_run(s, true) {
            Some(g) => if g.len() == 8 {
                Some(ipv6_of_groups(&g))
            } else {
                None
            },
            None => None,
        };
    }
    let head_text: &[char] = slice_subrange(s, 0, k);
    let tail_text: &[char] = slice_subrange(s, k + 2, s.len());
    assert(head_text@ == s@.take(k as int));
    assert(tail_text@ == s@.skip(k + 2));
    match (parse_run(head_text, false), parse_run(tail_text, true)) {
        (Some(head), Some(tail)) => {
            if head.len() > 7 || tail.len() > 7 - head.len() {
                return None;
            }
            let mut g: Vec<u16> = Vec::new();
            push_groups(&mut g, &head);
            let zeros: usize = 8 - head.len() - tail.len();
            let mut i: usize = 0;
            while i < zeros
                invariant
                    i <= zeros,
                    g@ == head@ + Seq::new(i as nat, |j: int| 0u16),
                decreases zeros - i,
            {
                g.push(0);
                i = i + 1;
                assert(g@ == head@ + Seq::new(i as nat, |j: int| 0u16));
            }
            push_groups(&mut g, &tail);
            assert(g@ == ipv6_groups(s@)->Some_0);
            Some(ipv6_of_groups(&g))
        },
        _ => None,
    }
}

/// Reads an address of either family.
pub fn parse_ip(s: &str) -> (r: Option<IpAddr>)
    ensures
        r == ip_text(s@),
{
    let chars: Vec<char> = chars_of(s);
    match parse_ipv4(&chars) {
        Some(v4) => Some(IpAddr::V4(v4)),
        None => match parse_ipv6(&chars) {
            Some(v6) => Some(IpAddr::V6(v6)),
            None => None,
        },
    }
}

fn parse_bracketed(s: &[char]) -> (r: Option<Ipv6Addr>)
    ensures
        r == bracketed_text(s@),
{
    match split_first(s, '%') {
        Some((ip, zone)) => match parse_digits(zone, 0xffff_ffff) {
            Some(_) => parse_ipv6(ip),
            None => None,
        },
        None => parse_ipv6(s),
    }
}

/// Reads an endpoint.
pub fn parse_socket_addr(s: &str) -> (r: Option<SocketAddr>)
    ensures
        r == socket_text(s@),
{
    let chars: Vec<char> = chars_of(s);
    if chars.len() > 0 && chars[0] == '[' {
        let body: &[char] = slice_subrange(chars.as_slice(), 1, chars.len());
        assert(body@ == s@.drop_first());
        match split_first(body, ']') {
            Some((inner, rest)) => {
                if rest.len() > 0 && rest[0] == ':' {
                    let port: &[char] = slice_subrange(rest, 1, rest.len());
                    assert(port@ == rest@.drop_first());
                    match (parse_bracketed(inner), parse_digits(port, 65535)) {
                        (Some(v6), Some(p)) => Some(
                            SocketAddr { ip: IpAddr::V6(v6), port: p as u16 },
                        ),
                        _ => None,
                    }
                } else {
                    None
                }
            },
            None => None,
        }
    } else {
        match split_first(chars.as_slice(), ':') {
            Some((ip, port)) => match (parse_ipv4(ip), parse_digits(port, 65535)) {
                (Some(v4), Some(p)) => Some(SocketAddr { ip: IpAddr::V4(v4), port: p as u16 }),
                _ => None,
            },
            None => None,
        }
    }
}

/// A text is not an address.
#[derive(Debug, Clone, Copy, PartialEq, Eq, Structural)]
pub struct AddrParseError;

impl core::str::FromStr for Ipv4Addr {
    type Err = AddrParseError;

    fn from_str(s: &str) -> (r: core::result::Result<Ipv4Addr, AddrParseError>)
        ensures
            r == match ipv4_text(s@) {
                Some(addr) => Ok::<Ipv4Addr, AddrParseError>(addr),
                None => Err(AddrParseError),
            },
    {
        match parse_ipv4(&chars_of(s)) {
            Some(addr) => Ok(addr),
            None => Err(AddrParseError),
        }
    }
}

impl core::str::FromStr for Ipv6Addr {
    type Err = AddrParseError;

    fn from_str(s: &str) -> (r: core::result::Result<Ipv6Addr, AddrParseError>)
        ensures
            r == match ipv6_text(s@) {
                Some(addr) => Ok::<Ipv6Addr, AddrParseError>(addr),
                None => Err(AddrParseError),
            },
    {
        match parse_ipv6(&chars_of(s)) {
            Some(addr) => Ok(addr),
            None => Err(AddrParseError),
        }
    }
}

impl core::str::FromStr for IpAddr {
    type Err = AddrParseError;

    fn from_str(s: &str) -> (r: core::result::Result<IpAddr, AddrParseError>)
        ensures
            r == match ip_text(s@) {
                Some(addr) => Ok::<IpAddr, AddrParseError>(addr),
                None => Err(AddrParseError),
            },
    {
        match parse_ip(s) {
            Some(addr) => Ok(addr),
            None => Err(AddrParseError),
        }
    }
}

impl core::str::FromStr for SocketAddr {
    type Err = AddrParseError;

    fn from_str(s: &str) -> (r: core::result::Result<SocketAddr, AddrParseError>)
        ensures
            r == match socket_text(s@) {
                Some(addr) => Ok::<SocketAddr, AddrParseError>(addr),
                None => Err(AddrParseError),
            },
    {
        match parse_socket_addr(s) {
            Some(addr) => Ok(addr),
            None => Err(AddrParseError),
        }
    }
}

// ── Writing ─────────────────────────────────────────────────────────────────

/// The small hexadecimal digit of a number below sixteen.
pub open spec fn hex_char(d: nat) -> char {
    if d < 10 {
        (48 + d) as char
    } else {
        (87 + d) as char
    }
}

/// The hexadecimal digits of `n`, without leading zeros.
pub open spec fn hex(n: nat) -> Seq<char>
    decreases n,
{
    if n < 16 {
        seq![hex_char(n)]
    } else {
        hex(n / 16).push(hex_char(n % 16))
    }
}

/// The groups in hexadecimal with colons between them.
pub open spec fn write_groups(g: Seq<u16>) -> Seq<char>
    decreases g.len(),
{
    if g.len() == 0 {
        Seq::empty()
    } else if g.len() == 1 {
        hex(g[0] as nat)
    } else {
        write_groups(g.drop_last()).push(':') + hex(g.last() as nat)
    }
}

/// How many zero groups follow each other from position `i` on.
pub open spec fn zero_run(g: Seq<u16>, i: int) -> nat
    decreases g.len() - i,
{
    if 0 <= i < g.len() && g[i] == 0 {
        1 + zero_run(g, i + 1)
    } else {
        0
    }
}

/// The start and length of the longest run of zero groups from position `i`
/// on; of several equally long ones, the first.
pub open spec fn longest_zero_run(g: Seq<u16>, i: int) -> (int, nat)
    decreases g.len() - i,
{
    if i >= g.len() {
        (g.len() as int, 0)
    } else if zero_run(g, i) >= longest_zero_run(g, i + 1).1 {
        (i, zero_run(g, i))
    } else {
        longest_zero_run(g, i + 1)
    }
}

/// The text of an IPv4 address.
pub open spec fn write_ipv4(ip: Ipv4Addr) -> Seq<char> {
    let o = ip.octets_spec();
    text::decimal(o[0] as nat).push('.') + text::decimal(o[1] as nat).push('.') + text::decimal(
        o[2] as nat,
    ).push('.') + text::decimal(o[3] as nat)
}

/// Whether an address maps an IPv4 address (`::ffff:0:0/96`).
pub open spec fn maps_ipv4(ip: Ipv6Addr) -> bool {
    ip.bits / 0x1_0000_0000 == 0xffff
}

/// The text of an IPv6 address: the longest run of two zero groups or more is
/// written `::`, and a mapped IPv4 address in dotted form.
pub open spec fn write_ipv6(ip: Ipv6Addr) -> Seq<char> {
    let g = ip.segments_spec();
    let (start, len) = longest_zero_run(g, 0);
    if maps_ipv4(ip) {
        seq![':', ':', 'f', 'f', 'f', 'f', ':'] + write_ipv4(
            Ipv4Addr { bits: (ip.bits % 0x1_0000_0000) as u32 },
        )
    } else if len > 1 {
        write_groups(g.take(start)).push(':').push(':') + write_groups(g.skip(start + len))
    } else {
        write_groups(g)
    }
}

/// The text of an address.
pub open spec fn write_ip(ip: IpAddr) -> Seq<char> {
    match ip {
        IpAddr::V4(v4) => write_ipv4(v4),
        IpAddr::V6(v6) => write_ipv6(v6),
    }
}

fn push_hex(out: &mut Vec<char>, n: u16)
    ensures
        final(out)@ == old(out)@ + hex(n as nat),
    decreases n,
{
    if n >= 16 {
        push_hex(out, n / 16);
    }
    let d: u8 = (n % 16) as u8;
    let c: char = if d < 10 {
        (48 + d) as char
    } else {
        (87 + d) as char
    };
    out.push(c);
    assert(out@ == old(out)@ + hex(n as nat));
}

fn push_groups_text(out: &mut Vec<char>, g: &[u16])
    ensures
        final(out)@ == old(out)@ + write_groups(g@),
    decreases g.len(),
{
    let n: usize = g.len();
    if n == 0 {
        assert(out@ == old(out)@ + write_groups(g@));
        return;
    }
    if n == 1 {
        push_hex(out, g[0]);
        return;
    }
    let front: &[u16] = slice_subrange(g, 0, n - 1);
    assert(front@ == g@.drop_last());
    push_groups_text(out, front);
    out.push(':');
    push_hex(out, g[n - 1]);
    assert(out@ == old(out)@ + write_groups(g@));
}

fn push_ipv4(out: &mut Vec<char>, ip: Ipv4Addr)
    ensures
        final(out)@ == old(out)@ + write_ipv4(ip),
{
    let o: [u8; 4] = ip.octets();
    push_decimal(out, o[0] as u64);
    out.push('.');
    push_decimal(out, o[1] as u64);
    out.push('.');
    push_decimal(out, o[2] as u64);
    out.push('.');
    push_decimal(out, o[3] as u64);
    assert(out@ == old(out)@ + write_ipv4(ip));
}

fn find_zero_run(g: &Vec<u16>) -> (r: (usize, usize))
    ensures
        (r.0 as int, r.1 as nat) == longest_zero_run(g@, 0),
        r.0 + r.1 <= g@.len(),
{
    let mut i: usize = g.len();
    let mut run: usize = 0;
    let mut best: (usize, usize) = (g.len(), 0);
    while i > 0
        invariant
            i <= g.len(),
            run == zero_run(g@, i as int),
            i + run <= g.len(),
            (best.0 as int, best.1 as nat) == longest_zero_run(g@, i as int),
            best.0 + best.1 <= g.len(),
        decreases i,
    {
        i = i - 1;
        run = if g[i] == 0 {
            run + 1
        } else {
            0
        };
        assert(run == zero_run(g@, i as int));
        if run >= best.1 {
            best = (i, run);
        }
    }
    best
}

fn push_ipv6(out: &mut Vec<char>, ip: Ipv6Addr)
    ensures
        final(out)@ == old(out)@ + write_ipv6(ip),
{
    if ip.bits / 0x1_0000_0000 == 0xffff {
        let prefix: [char; 7] = [':', ':', 'f', 'f', 'f', 'f', ':'];
        push_text(out, &prefix);
        push_ipv4(out, Ipv4Addr { bits: (ip.bits % 0x1_0000_0000) as u32 });
        assert(out@ == old(out)@ + write_ipv6(ip));
        return;
    }
    let g: Vec<u16> = ip.segments();
    let (start, len) = find_zero_run(&g);
    if len > 1 {
        let head: &[u16] = slice_subrange(g.as_slice(), 0, start);
        let tail: &[u16] = slice_subrange(g.as_slice(), start + len, g.len());
        assert(head@ == g@.take(start as int));
        assert(tail@ == g@.skip(start + len));
        push_groups_text(out, head);
        out.push(':');
        out.push(':');
        push_groups_text(out, tail);
        assert(out@ == old(out)@ + write_ipv6(ip));
    } else {
        push_groups_text(out, g.as_slice());
    }
}

/// Appends the text of `ip` to `out`.
pub fn push_ip(out: &mut Vec<char>, ip: IpAddr)
    ensures
        final(out)@ == old(out)@ + write_ip(ip),
{
    match ip {
        IpAddr::V4(v4) => push_ipv4(out, v4),
        IpAddr::V6(v6) => push_ipv6(out, v6),
    }
}

/// The text of an address.
pub fn format_ip(ip: IpAddr) -> (s: String)
    ensures
        s@ == write_ip(ip),
{
    let mut out: Vec<char> = Vec::new();
    push_ip(&mut out, ip);
    assert(out@ == write_ip(ip));
    string_of(&out)
}

// ── Laws ────────────────────────────────────────────────────────────────────

/// The text of an IPv4 address splits at its dots into its four octets.
pub proof fn lemma_ipv4_pieces(ip: Ipv4Addr)
    ensures
        text::split(write_ipv4(ip), seq!['.']) == seq![
            text::decimal(ip.octets_spec()[0] as nat),
            text::decimal(ip.octets_spec()[1] as nat),
            text::decimal(ip.octets_spec()[2] as nat),
            text::decimal(ip.octets_spec()[3] as nat),
        ],
{
    let o = ip.octets_spec();
    let (a, b, c, d) = (
        text::decimal(o[0] as nat),
        text::decimal(o[1] as nat),
        text::decimal(o[2] as nat),
        text::decimal(o[3] as nat),
    );
    let seps = seq!['.'];
    assert(seps.contains('.')) by {
        assert(seps[0] == '.');
    }
    lemma_digits_hold_no_dot(o[0] as nat);
    lemma_digits_hold_no_dot(o[1] as nat);
    lemma_digits_hold_no_dot(o[2] as nat);
    lemma_digits_hold_no_dot(o[3] as nat);
    assert(write_ipv4(ip) == a.push('.') + (b.push('.') + (c.push('.') + d)));
    text::lemma_split_cons(a, '.', b.push('.') + (c.push('.') + d), seps);
    text::lemma_split_cons(b, '.', c.push('.') + d, seps);
    text::lemma_split_cons(c, '.', d, seps);
    text::lemma_split_single(d, seps);
    assert(text::split(write_ipv4(ip), seps) == seq![a] + (seq![b] + (seq![c] + seq![d])));
}

proof fn lemma_digits_hold_no_dot(n: nat)
    ensures
        forall|i: int|
            0 <= i < text::decimal(n).len() ==> !seq!['.'].contains(
                #[trigger] text::decimal(n)[i],
            ),
{
    text::lemma_decimal_reads_back(n);
    assert forall|i: int| 0 <= i < text::decimal(n).len() implies !seq!['.'].contains(
        #[trigger] text::decimal(n)[i],
    ) by {
        assert(text::is_digit(text::decimal(n)[i]));
    }
}

/// The decimal text of an octet reads back as that octet.
pub proof fn lemma_octet_reads_back(n: nat)
    requires
        n <= 255,
    ensures
        octet_text(text::decimal(n)) == Some(n),
        text::decimal(n).len() <= 3,
{
    text::lemma_decimal_reads_back(n);
    reveal_with_fuel(text::decimal, 4);
}

/// Reading the text of an IPv4 address gives the address back.
pub proof fn law_ipv4_text_round_trip(ip: Ipv4Addr)
    ensures
        ipv4_text(write_ipv4(ip)) == Some(ip),
{
    let o = ip.octets_spec();
    lemma_ipv4_pieces(ip);
    lemma_octet_reads_back(o[0] as nat);
    lemma_octet_reads_back(o[1] as nat);
    lemma_octet_reads_back(o[2] as nat);
    lemma_octet_reads_back(o[3] as nat);
    reveal_with_fuel(bytes::be_limit, 5);
    bytes::lemma_be_bytes(ip.bits as nat, 4);
    bytes::lemma_be_bytes_value(ip.bits as nat, 4);
    assert(o == seq![o[0], o[1], o[2], o[3]]);
}

/// The hexadecimal text of a group reads back as that group.
proof fn lemma_hex_reads_back(n: nat)
    ensures
        hex(n).len() > 0,
        hex_value(hex(n)) == n,
        forall|i: int| 0 <= i < hex(n).len() ==> hex_digit(#[trigger] hex(n)[i]) is Some,
    decreases n,
{
    if n < 16 {
        assert(hex(n).drop_last() == Seq::<char>::empty());
        assert(hex_value(hex(n).drop_last()) == 0);
    } else {
        lemma_hex_reads_back(n / 16);
        assert(hex(n).drop_last() == hex(n / 16));
        assert forall|i: int| 0 <= i < hex(n).len() implies hex_digit(
            #[trigger] hex(n)[i],
        ) is Some by {
            if i < hex(n / 16).len() {
                assert(hex(n)[i] == hex(n / 16)[i]);
            }
        }
    }
}

proof fn lemma_group_reads_back(n: u16)
    ensures
        group_text(hex(n as nat)) == Some(n),
{
    lemma_hex_reads_back(n as nat);
    reveal_with_fuel(hex, 5);
}

/// The texts of the groups.
spec fn group_texts(g: Seq<u16>) -> Seq<Seq<char>> {
    g.map_values(|n: u16| hex(n as nat))
}

proof fn lemma_group_texts_read_back(g: Seq<u16>)
    ensures
        groups_text(group_texts(g)) == Some(g),
    decreases g.len(),
{
    if g.len() > 0 {
        lemma_group_texts_read_back(g.drop_last());
        lemma_group_reads_back(g.last());
        assert(group_texts(g).drop_last() == group_texts(g.drop_last()));
        assert(g.drop_last().push(g.last()) == g);
    } else {
        assert(group_texts(g).len() == 0);
        assert(g == Seq::<u16>::empty());
    }
}

/// The text of groups begins with that of the first one.
proof fn lemma_write_groups_first(g: Seq<u16>)
    requires
        g.len() >= 2,
    ensures
        write_groups(g) == hex(g[0] as nat).push(':') + write_groups(g.drop_first()),
    decreases g.len(),
{
    let head = hex(g[0] as nat);
    if g.len() == 2 {
        assert(write_groups(g.drop_last()) == head);
        assert(write_groups(g.drop_first()) == hex(g.last() as nat));
    } else {
        lemma_write_groups_first(g.drop_last());
        assert(g.drop_last().drop_first() == g.drop_first().drop_last());
        let middle = write_groups(g.drop_first().drop_last());
        let last = hex(g.last() as nat);
        assert(write_groups(g.drop_first()) == middle.push(':') + last);
        assert((head.push(':') + middle).push(':') + last == head.push(':') + (middle.push(':')
            + last));
    }
}

proof fn lemma_write_groups_split(g: Seq<u16>)
    requires
        g.len() >= 1,
    ensures
        text::split(write_groups(g), seq![':']) == group_texts(g),
    decreases g.len(),
{
    let seps = seq![':'];
    let head = hex(g[0] as nat);
    lemma_hex_reads_back(g[0] as nat);
    assert forall|i: int| 0 <= i < head.len() implies !seps.contains(#[trigger] head[i]) by {
        assert(hex_digit(head[i]) is Some);
    }
    if g.len() == 1 {
        text::lemma_split_single(head, seps);
        assert(group_texts(g) == seq![head]);
    } else {
        assert(seps[0] == ':');
        lemma_write_groups_first(g);
        lemma_write_groups_split(g.drop_first());
        text::lemma_split_cons(head, ':', write_groups(g.drop_first()), seps);
        assert(group_texts(g) == seq![head] + group_texts(g.drop_first()));
    }
}

/// The text of groups holds hexadecimal digits and single colons, with no colon
/// at either end.
proof fn lemma_write_groups_chars(g: Seq<u16>)
    ensures
        ({
            let s = write_groups(g);
            &&& g.len() > 0 ==> s.len() > 0
            &&& g.len() == 0 ==> s.len() == 0
            &&& g.len() > 1 ==> s.contains(':')
            &&& s.len() > 0 ==> s[0] != ':' && s.last() != ':'
            &&& forall|i: int|
                0 <= i < s.len() ==> hex_digit(#[trigger] s[i]) is Some || s[i] == ':'
            &&& forall|i: int|
                0 <= i && i + 1 < s.len() ==> !(s[i] == ':' && #[trigger] s[i + 1] == ':')
        }),
    decreases g.len(),
{
    if g.len() > 0 {
        let s = write_groups(g);
        let last = hex(g.last() as nat);
        let head = write_groups(g.drop_last());
        lemma_hex_reads_back(g.last() as nat);
        lemma_write_groups_chars(g.drop_last());
        if g.len() > 1 {
            assert(s == head.push(':') + last);
            assert(s[head.len() as int] == ':');
        } else {
            assert(s == last);
        }
        let at = (s.len() - last.len()) as int;
        assert forall|i: int| at <= i < s.len() implies hex_digit(#[trigger] s[i]) is Some by {
            assert(s[i] == last[i - at]);
        }
        assert forall|i: int| 0 <= i < s.len() implies hex_digit(#[trigger] s[i]) is Some || s[i]
            == ':' by {
            if i < head.len() {
                assert(s[i] == head[i]);
            }
        }
        assert forall|i: int| 0 <= i && i + 1 < s.len() implies !(s[i] == ':' && #[trigger] s[i + 1]
            == ':') by {
            if i + 1 < head.len() {
                assert(s[i] == head[i]);
                assert(s[i + 1] == head[i + 1]);
            }
        }
        if head.len() > 0 {
            assert(s[0] == head[0]);
        }
    }
}

proof fn lemma_run_reads_back(g: Seq<u16>, allow_v4: bool)
    ensures
        run_text(write_groups(g), allow_v4) == Some(g),
{
    lemma_write_groups_chars(g);
    if g.len() > 0 {
        lemma_write_groups_split(g);
        lemma_group_texts_read_back(g);
    } else {
        assert(g == Seq::<u16>::empty());
    }
}

proof fn lemma_zero_run(g: Seq<u16>, i: int)
    requires
        0 <= i <= g.len(),
    ensures
        i + zero_run(g, i) <= g.len(),
        forall|j: int| i <= j < i + zero_run(g, i) ==> #[trigger] g[j] == 0,
    decreases g.len() - i,
{
    if i < g.len() && g[i] == 0 {
        lemma_zero_run(g, i + 1);
    }
}

proof fn lemma_longest_zero_run(g: Seq<u16>, i: int)
    requires
        0 <= i <= g.len(),
    ensures
        ({
            let (start, len) = longest_zero_run(g, i);
            &&& i <= start
            &&& start + len <= g.len()
            &&& forall|j: int| start <= j < start + len ==> #[trigger] g[j] == 0
        }),
    decreases g.len() - i,
{
    if i < g.len() {
        lemma_zero_run(g, i);
        lemma_longest_zero_run(g, i + 1);
    }
}

/// Groups written around a `::` read back with zeros in its place.
proof fn lemma_compressed_reads_back(g: Seq<u16>, start: int, len: int)
    requires
        g.len() == 8,
        0 <= start,
        1 <= len,
        start + len <= 8,
        forall|j: int| start <= j < start + len ==> #[trigger] g[j] == 0,
    ensures
        ipv6_groups(
            write_groups(g.take(start)).push(':').push(':') + write_groups(g.skip(start + len)),
        ) == Some(g),
{
    let head = write_groups(g.take(start));
    let tail = write_groups(g.skip(start + len));
    let s = head.push(':').push(':') + tail;
    let k = head.len() as int;
    lemma_write_groups_chars(g.take(start));
    assert forall|i: int| 0 <= i < k && i + 1 < s.len() implies !(s[i] == ':' && #[trigger] s[i + 1]
        == ':') by {
        assert(s[i] == head[i]);
        if i + 1 < k {
            assert(s[i + 1] == head[i + 1]);
        }
    }
    lemma_double_colon(s, k);
    assert(s.take(k) == head);
    assert(s.skip(k + 2) == tail);
    lemma_run_reads_back(g.take(start), false);
    lemma_run_reads_back(g.skip(start + len), true);
    let zeros = Seq::new((8 - start - (8 - start - len)) as nat, |i: int| 0u16);
    assert(g.take(start) + zeros + g.skip(start + len) == g);
}

/// Groups written without a `::` read back.
proof fn lemma_plain_reads_back(g: Seq<u16>)
    requires
        g.len() == 8,
    ensures
        ipv6_groups(write_groups(g)) == Some(g),
{
    let s = write_groups(g);
    lemma_write_groups_chars(g);
    lemma_double_colon(s, s.len() as int);
    lemma_run_reads_back(g, true);
}

/// The text of a mapped IPv4 address reads back.
proof fn lemma_mapped_reads_back(ip: Ipv6Addr)
    requires
        maps_ipv4(ip),
    ensures
        ipv6_text(write_ipv6(ip)) == Some(ip),
{
    let v4 = Ipv4Addr { bits: (ip.bits % 0x1_0000_0000) as u32 };
    let dotted = write_ipv4(v4);
    let ffff = seq!['f', 'f', 'f', 'f'];
    let s = write_ipv6(ip);
    let seps = seq![':'];
    lemma_dotted_chars(v4);
    law_ipv4_text_round_trip(v4);
    lemma_double_colon(s, 0);
    assert(s.take(0) == Seq::<char>::empty());
    assert(s.skip(2) == ffff.push(':') + dotted);
    assert(seps[0] == ':');
    text::lemma_split_single(dotted, seps);
    text::lemma_split_cons(ffff, ':', dotted, seps);
    let parts = text::split(s.skip(2), seps);
    assert(parts == seq![ffff, dotted]);
    assert(group_text(parts.last()) is None);
    assert(parts.drop_last() == seq![ffff]);
    lemma_group_reads_back(0xffff);
    reveal_with_fuel(hex, 5);
    assert(hex(0xffff) == ffff);
    assert(group_texts(seq![0xffffu16]) == seq![ffff]);
    lemma_group_texts_read_back(seq![0xffffu16]);
    let g = seq![0u16, 0u16, 0u16, 0u16, 0u16, 0xffffu16] + embedded_groups(v4);
    assert(Seq::<u16>::empty() + Seq::new(5, |i: int| 0u16) + (seq![0xffffu16] + embedded_groups(
        v4,
    )) == g);
    assert(ipv6_groups(s) == Some(g));
    reveal_with_fuel(addr::groups_value, 9);
    assert(addr::groups_value(g) == ip.bits);
}

/// The characters of the text of an IPv4 address.
pub proof fn lemma_dotted_chars(address: Ipv4Addr)
    ensures
        forall|i: int|
            0 <= i < write_ipv4(address).len() ==> text::is_digit(#[trigger] write_ipv4(address)[i])
                || write_ipv4(address)[i] == '.',
        write_ipv4(address).len() >= 7,
{
    let o = address.octets_spec();
    text::lemma_decimal_reads_back(o[0] as nat);
    text::lemma_decimal_reads_back(o[1] as nat);
    text::lemma_decimal_reads_back(o[2] as nat);
    text::lemma_decimal_reads_back(o[3] as nat);
}

/// The characters of the text of an IPv6 address. A dot occurs only behind
/// `::ffff:`.
pub proof fn lemma_ipv6_chars(ip: Ipv6Addr)
    ensures
        ({
            let s = write_ipv6(ip);
            &&& s.len() >= 2
            &&& s.contains(':')
            &&& forall|i: int|
                0 <= i < s.len() ==> hex_digit(#[trigger] s[i]) is Some || s[i] == ':' || (s[i]
                    == '.' && i >= 7)
        }),
{
    let s = write_ipv6(ip);
    let g = ip.segments_spec();
    let (start, len) = longest_zero_run(g, 0);
    addr::lemma_segments_hold_address(ip);
    lemma_longest_zero_run(g, 0);
    if maps_ipv4(ip) {
        let v4 = Ipv4Addr { bits: (ip.bits % 0x1_0000_0000) as u32 };
        lemma_dotted_chars(v4);
        assert(s[0] == ':');
        assert forall|i: int| 0 <= i < s.len() implies hex_digit(#[trigger] s[i]) is Some || s[i]
            == ':' || (s[i] == '.' && i >= 7) by {
            if i >= 7 {
                assert(s[i] == write_ipv4(v4)[i - 7]);
            }
        }
    } else if len > 1 {
        let head = write_groups(g.take(start));
        let tail = write_groups(g.skip(start + len));
        lemma_write_groups_chars(g.take(start));
        lemma_write_groups_chars(g.skip(start + len));
        assert(s[head.len() as int] == ':');
        assert forall|i: int| 0 <= i < s.len() implies hex_digit(#[trigger] s[i]) is Some || s[i]
            == ':' || (s[i] == '.' && i >= 7) by {
            if i < head.len() {
                assert(s[i] == head[i]);
            } else if i >= head.len() + 2 {
                assert(s[i] == tail[i - head.len() - 2]);
            }
        }
    } else {
        lemma_write_groups_chars(g);
        assert(s[0] != ':');
    }
}

/// Reading the text of an IPv6 address gives the address back.
pub proof fn law_ipv6_text_round_trip(ip: Ipv6Addr)
    ensures
        ipv6_text(write_ipv6(ip)) == Some(ip),
{
    if maps_ipv4(ip) {
        lemma_mapped_reads_back(ip);
    } else {
        let g = ip.segments_spec();
        let (start, len) = longest_zero_run(g, 0);
        addr::lemma_segments_hold_address(ip);
        lemma_longest_zero_run(g, 0);
        if len > 1 {
            lemma_compressed_reads_back(g, start, len as int);
        } else {
            lemma_plain_reads_back(g);
        }
    }
}

/// The text of an IPv6 address does not read as an IPv4 address.
proof fn lemma_ipv6_is_no_ipv4(ip: Ipv6Addr)
    ensures
        ipv4_text(write_ipv6(ip)) is None,
{
    let s = write_ipv6(ip);
    let seps = seq!['.'];
    let n = text::first_of(s, seps);
    text::lemma_first_of_bounds(s, seps);
    lemma_ipv6_chars(ip);
    if n < s.len() {
        assert(n >= 7);
        assert(text::split(s, seps)[0] == s.take(n));
    }
}

/// Reading the text of an address of either family gives the address back.
pub proof fn law_ip_text_round_trip(ip: IpAddr)
    ensures
        ip_text(write_ip(ip)) == Some(ip),
{
    match ip {
        IpAddr::V4(v4) => {
            law_ipv4_text_round_trip(v4);
        },
        IpAddr::V6(v6) => {
            law_ipv6_text_round_trip(v6);
            lemma_ipv6_is_no_ipv4(v6);
        },
    }
}

/// The only text that is read as an IPv4 address is the one that is written for
/// it: four numbers up to 255 without superfluous zeros, with dots between them.
pub proof fn law_ipv4_address_has_one_text(s: Seq<char>, ip: Ipv4Addr)
    requires
        ipv4_text(s) == Some(ip),
    ensures
        s == write_ipv4(ip),
{
    let p = text::split(s, seq!['.']);
    lemma_four_pieces(s);
    lemma_octet_has_one_text(p[0]);
    lemma_octet_has_one_text(p[1]);
    lemma_octet_has_one_text(p[2]);
    lemma_octet_has_one_text(p[3]);
    let o = seq![
        octet_text(p[0])->Some_0 as u8,
        octet_text(p[1])->Some_0 as u8,
        octet_text(p[2])->Some_0 as u8,
        octet_text(p[3])->Some_0 as u8,
    ];
    assert(ip.octets_spec() == o) by {
        bytes::lemma_be_value_bytes(o);
        bytes::lemma_be_value_bound(o);
        reveal_with_fuel(bytes::be_limit, 5);
    }
    lemma_written_pieces(p[0], p[1], p[2], p[3]);
}

proof fn lemma_written_pieces(a: Seq<char>, b: Seq<char>, c: Seq<char>, d: Seq<char>)
    ensures
        a.push('.') + (b.push('.') + (c.push('.') + d)) == a.push('.') + b.push('.') + c.push('.')
            + d,
{
    assert(a.push('.') + (b.push('.') + (c.push('.') + d)) =~= a.push('.') + b.push('.') + c.push(
        '.',
    ) + d);
}

/// A text of four pieces is those pieces with dots between them.
proof fn lemma_four_pieces(s: Seq<char>)
    requires
        text::split(s, seq!['.']).len() == 4,
    ensures
        ({
            let p = text::split(s, seq!['.']);
            s == p[0].push('.') + (p[1].push('.') + (p[2].push('.') + p[3]))
        }),
{
    let dot = seq!['.'];
    let p = text::split(s, dot);
    let n1 = text::first_of(s, dot);
    let s1 = s.skip(n1 + 1);
    let n2 = text::first_of(s1, dot);
    let s2 = s1.skip(n2 + 1);
    let n3 = text::first_of(s2, dot);
    let s3 = s2.skip(n3 + 1);
    text::lemma_split_peel(s, dot);
    let p1 = p.drop_first();
    assert(text::split(s1, dot) == p1);
    text::lemma_split_peel(s1, dot);
    let p2 = p1.drop_first();
    assert(text::split(s2, dot) == p2);
    text::lemma_split_peel(s2, dot);
    let p3 = p2.drop_first();
    assert(text::split(s3, dot) == p3);
    text::lemma_split_whole(s3, dot);
    assert(p1[0] == p[1] && p2[0] == p[2] && p3[0] == p[3]);
}

proof fn lemma_octet_has_one_text(s: Seq<char>)
    requires
        octet_text(s) is Some,
    ensures
        s == text::decimal(octet_text(s)->Some_0),
        octet_text(s)->Some_0 <= 255,
{
    text::law_digits_are_the_text_of_their_number(s);
}

/// An IPv6 address may be written with all its groups, and with any one run of
/// zero groups left out for a `::`: each text reads back as the address.
pub proof fn law_any_run_of_zeros_may_be_left_out(ip: Ipv6Addr, start: int, len: int)
    requires
        0 <= start,
        1 <= len,
        start + len <= 8,
        forall|j: int| start <= j < start + len ==> #[trigger] ip.segments_spec()[j] == 0,
    ensures
        ipv6_text(write_groups(ip.segments_spec())) == Some(ip),
        ipv6_text(
            write_groups(ip.segments_spec().take(start)).push(':').push(':') + write_groups(
                ip.segments_spec().skip(start + len),
            ),
        ) == Some(ip),
{
    let g = ip.segments_spec();
    addr::lemma_segments_hold_address(ip);
    lemma_plain_reads_back(g);
    lemma_compressed_reads_back(g, start, len);
}

/// The run of zero groups that is left out in writing is the longest, and of
/// several equally long ones the first.
pub proof fn law_longest_run_of_zeros_is_left_out(g: Seq<u16>, at: int, len: nat)
    requires
        0 <= at,
        at + len <= g.len(),
        forall|j: int| at <= j < at + len ==> #[trigger] g[j] == 0,
    ensures
        ({
            let run = longest_zero_run(g, 0);
            &&& len <= run.1
            &&& len == run.1 ==> run.0 <= at
            &&& 0 <= run.0 && run.0 + run.1 <= g.len()
            &&& forall|j: int| run.0 <= j < run.0 + run.1 ==> #[trigger] g[j] == 0
        }),
{
    lemma_longest_zero_run(g, 0);
    lemma_longest_of_all(g, 0, at, len);
}

proof fn lemma_zero_run_reaches(g: Seq<u16>, at: int, len: nat)
    requires
        0 <= at,
        at + len <= g.len(),
        forall|j: int| at <= j < at + len ==> #[trigger] g[j] == 0,
    ensures
        zero_run(g, at) >= len,
    decreases len,
{
    if len > 0 {
        assert(g[at] == 0);
        lemma_zero_run_reaches(g, at + 1, (len - 1) as nat);
    }
}

proof fn lemma_longest_of_all(g: Seq<u16>, i: int, at: int, len: nat)
    requires
        0 <= i <= at,
        at + len <= g.len(),
        forall|j: int| at <= j < at + len ==> #[trigger] g[j] == 0,
    ensures
        len <= longest_zero_run(g, i).1,
        len == longest_zero_run(g, i).1 ==> longest_zero_run(g, i).0 <= at,
    decreases g.len() - i,
{
    if i < g.len() {
        if i == at {
            lemma_zero_run_reaches(g, at, len);
            lemma_longest_zero_run(g, i + 1);
        } else {
            lemma_longest_of_all(g, i + 1, at, len);
        }
    }
}

/// The letter case of a group makes no difference, nor does a zero in front of it
/// as long as it has four digits at most.
pub proof fn law_groups_may_be_spelt_differently(s: Seq<char>)
    ensures
        group_text(text::lowered(s)) == group_text(s),
        1 <= s.len() < 4 ==> group_text(seq!['0'] + s) == group_text(s),
        s.len() == 0 || s.len() > 4 ==> group_text(s) is None,
{
    let low = text::lowered(s);
    assert(low.len() == s.len());
    assert forall|i: int| 0 <= i < s.len() implies hex_digit(#[trigger] low[i]) == hex_digit(
        s[i],
    ) by {
        assert(low[i] == text::ascii_lower(s[i]));
        assert('A' as u32 == 65 && 'F' as u32 == 70 && 'Z' as u32 == 90 && 'a' as u32 == 97
            && 'f' as u32 == 102);
    }
    lemma_hex_value_of_low(s);
    if forall|i: int| 0 <= i < s.len() ==> hex_digit(#[trigger] s[i]) is Some {
        assert forall|i: int| 0 <= i < low.len() implies hex_digit(#[trigger] low[i]) is Some by {
            assert(hex_digit(s[i]) is Some);
        }
    } else {
        let i = choose|i: int| 0 <= i < s.len() && hex_digit(#[trigger] s[i]) is None;
        assert(hex_digit(low[i]) is None);
    }
    let more = seq!['0'] + s;
    lemma_hex_value_of_zero(s);
    assert forall|i: int| 0 <= i < s.len() implies #[trigger] s[i] == more[i + 1] by {}
    if forall|i: int| 0 <= i < s.len() ==> hex_digit(#[trigger] s[i]) is Some {
        assert forall|i: int| 0 <= i < more.len() implies hex_digit(#[trigger] more[i]) is Some by {
            if i > 0 {
                assert(more[i] == s[i - 1]);
            }
        }
    } else {
        let i = choose|i: int| 0 <= i < s.len() && hex_digit(#[trigger] s[i]) is None;
        assert(hex_digit(more[i + 1]) is None);
    }
}

proof fn lemma_hex_value_of_low(s: Seq<char>)
    ensures
        hex_value(text::lowered(s)) == hex_value(s),
    decreases s.len(),
{
    let low = text::lowered(s);
    if s.len() > 0 {
        lemma_hex_value_of_low(s.drop_last());
        assert(low.drop_last() =~= text::lowered(s.drop_last()));
        assert(low.last() == text::ascii_lower(s.last()));
    } else {
        assert(low =~= s);
    }
}

proof fn lemma_hex_value_of_zero(s: Seq<char>)
    ensures
        hex_value(seq!['0'] + s) == hex_value(s),
    decreases s.len(),
{
    let more = seq!['0'] + s;
    if s.len() > 0 {
        lemma_hex_value_of_zero(s.drop_last());
        assert(more.drop_last() =~= seq!['0'] + s.drop_last());
    } else {
        assert(more.drop_last() =~= Seq::<char>::empty());
        assert(hex_value(more.drop_last()) == 0);
    }
}

/// An IPv4 endpoint is written as its address, a colon and its port, an IPv6
/// endpoint with brackets around the address: each reads back as the endpoint.
pub proof fn law_endpoint_text_reads_back(endpoint: SocketAddr)
    ensures
        ({
            let port = text::decimal(endpoint.port as nat);
            let s = match endpoint.ip {
                IpAddr::V4(v4) => write_ipv4(v4).push(':') + port,
                IpAddr::V6(v6) => (seq!['['] + write_ipv6(v6).push(']')).push(':') + port,
            };
            socket_text(s) == Some(endpoint)
        }),
{
    let port = text::decimal(endpoint.port as nat);
    text::lemma_decimal_reads_back(endpoint.port as nat);
    match endpoint.ip {
        IpAddr::V4(v4) => {
            let ip = write_ipv4(v4);
            let s = ip.push(':') + port;
            let colon = seq![':'];
            lemma_dotted_chars(v4);
            law_ipv4_text_round_trip(v4);
            let n = ip.len() as int;
            assert forall|i: int| 0 <= i < n implies !colon.contains(#[trigger] s[i]) by {
                assert(s[i] == ip[i]);
            }
            assert(s[n] == ':' && colon[0] == ':');
            text::lemma_first_of(s, colon, n);
            assert(s.take(n) =~= ip);
            assert(s.skip(n + 1) =~= port);
            assert(s[0] == ip[0]);
        },
        IpAddr::V6(v6) => {
            let ip = write_ipv6(v6);
            let s = (seq!['['] + ip.push(']')).push(':') + port;
            let t = s.drop_first();
            let close = seq![']'];
            lemma_ipv6_chars(v6);
            law_ipv6_text_round_trip(v6);
            let n = ip.len() as int;
            assert(s[0] == '[');
            assert forall|i: int| 0 <= i < n implies !close.contains(#[trigger] t[i]) by {
                assert(t[i] == ip[i]);
            }
            assert(t[n] == ']' && close[0] == ']');
            text::lemma_first_of(t, close, n);
            assert(t.take(n) =~= ip);
            let rest = t.skip(n + 1);
            assert(rest =~= seq![':'] + port);
            assert(rest.drop_first() =~= port);
            let percent = seq!['%'];
            assert forall|i: int| 0 <= i < n implies !percent.contains(#[trigger] ip[i]) by {}
            text::lemma_first_of(ip, percent, n);
        },
    }
}

/// A run of groups may end in a dotted IPv4 address, which fills the last two.
proof fn lemma_run_with_ipv4(g: Seq<u16>, v4: Ipv4Addr)
    ensures
        ({
            let s = if g.len() == 0 {
                write_ipv4(v4)
            } else {
                write_groups(g).push(':') + write_ipv4(v4)
            };
            run_text(s, true) == Some(g + embedded_groups(v4))
        }),
{
    let colon = seq![':'];
    assert(colon[0] == ':');
    let dotted = write_ipv4(v4);
    lemma_dotted_chars(v4);
    law_ipv4_text_round_trip(v4);
    lemma_dotted_is_no_group(v4);
    text::lemma_split_single(dotted, colon);
    lemma_group_texts_read_back(g);
    let s = if g.len() == 0 {
        dotted
    } else {
        write_groups(g).push(':') + dotted
    };
    if g.len() > 0 {
        lemma_write_groups_split(g);
        text::law_split_of_joined_texts(write_groups(g), ':', dotted, colon);
    } else {
        assert(group_texts(g) =~= Seq::<Seq<char>>::empty());
    }
    let parts = text::split(s, colon);
    assert(parts =~= group_texts(g) + seq![dotted]);
    assert(parts.drop_last() =~= group_texts(g));
    assert(parts.last() == dotted);
    assert(groups_text(parts) is None);
}

proof fn lemma_dotted_is_no_group(v4: Ipv4Addr)
    ensures
        group_text(write_ipv4(v4)) is None,
{
    lemma_dotted_chars(v4);
}

/// The last two groups of an IPv6 address may be written as a dotted IPv4 address,
/// behind six groups or behind fewer with a `::` between them.
pub proof fn law_ipv6_may_end_in_dotted_form(head: Seq<u16>, tail: Seq<u16>, v4: Ipv4Addr)
    requires
        head.len() + tail.len() <= 5,
    ensures
        ({
            let dotted = if tail.len() == 0 {
                write_ipv4(v4)
            } else {
                write_groups(tail).push(':') + write_ipv4(v4)
            };
            let zeros = Seq::new((6 - head.len() - tail.len()) as nat, |i: int| 0u16);
            ipv6_groups(write_groups(head).push(':').push(':') + dotted) == Some(
                head + zeros + (tail + embedded_groups(v4)),
            )
        }),
{
    let dotted = if tail.len() == 0 {
        write_ipv4(v4)
    } else {
        write_groups(tail).push(':') + write_ipv4(v4)
    };
    let front = write_groups(head);
    let s = front.push(':').push(':') + dotted;
    let k = front.len() as int;
    lemma_write_groups_chars(head);
    assert forall|i: int| 0 <= i < k && i + 1 < s.len() implies !(s[i] == ':' && #[trigger] s[i + 1]
        == ':') by {
        assert(s[i] == front[i]);
        if i + 1 < k {
            assert(s[i + 1] == front[i + 1]);
        }
    }
    lemma_double_colon(s, k);
    assert(s.take(k) =~= front);
    assert(s.skip(k + 2) =~= dotted);
    lemma_run_reads_back(head, false);
    lemma_run_with_ipv4(tail, v4);
}

/// Six groups and a dotted IPv4 address are an IPv6 address too.
pub proof fn law_six_groups_and_dotted_form(g: Seq<u16>, v4: Ipv4Addr)
    requires
        g.len() == 6,
    ensures
        ipv6_groups(write_groups(g).push(':') + write_ipv4(v4)) == Some(g + embedded_groups(v4)),
{
    let front = write_groups(g);
    let dotted = write_ipv4(v4);
    let s = front.push(':') + dotted;
    lemma_write_groups_chars(g);
    lemma_dotted_chars(v4);
    assert forall|i: int| 0 <= i < s.len() && i + 1 < s.len() implies !(s[i] == ':'
        && #[trigger] s[i + 1] == ':') by {
        if i + 1 < front.len() {
            assert(s[i] == front[i] && s[i + 1] == front[i + 1]);
        } else if i + 1 == front.len() {
            assert(s[i] == front.last());
        } else {
            assert(s[i + 1] == dotted[i + 1 - front.len() - 1]);
        }
    }
    lemma_double_colon(s, s.len() as int);
    lemma_run_with_ipv4(g, v4);
}

/// An IPv6 endpoint may carry a numeric zone behind its address, which is left out.
pub proof fn law_zone_of_an_endpoint_is_left_out(ip: Ipv6Addr, zone: u32, port: u16)
    ensures
        socket_text(
            (seq!['['] + (write_ipv6(ip).push('%') + text::decimal(zone as nat)).push(']')).push(
                ':',
            ) + text::decimal(port as nat),
        ) == Some(SocketAddr { ip: IpAddr::V6(ip), port }),
{
    let number = text::decimal(port as nat);
    let digits = text::decimal(zone as nat);
    let text = write_ipv6(ip);
    let inner = text.push('%') + digits;
    let s = (seq!['['] + inner.push(']')).push(':') + number;
    let t = s.drop_first();
    let close = seq![']'];
    let percent = seq!['%'];
    text::lemma_decimal_reads_back(port as nat);
    text::lemma_decimal_reads_back(zone as nat);
    lemma_ipv6_chars(ip);
    law_ipv6_text_round_trip(ip);
    assert(s[0] == '[');
    let n = inner.len() as int;
    let m = text.len() as int;
    assert forall|i: int| 0 <= i < n implies !close.contains(#[trigger] t[i]) by {
        assert(t[i] == inner[i]);
        if i < m {
            assert(inner[i] == text[i]);
        } else if i > m {
            assert(inner[i] == digits[i - m - 1]);
        }
    }
    assert(t[n] == ']' && close[0] == ']');
    text::lemma_first_of(t, close, n);
    assert(t.take(n) =~= inner);
    let rest = t.skip(n + 1);
    assert(rest =~= seq![':'] + number);
    assert(rest.drop_first() =~= number);
    assert forall|i: int| 0 <= i < m implies !percent.contains(#[trigger] inner[i]) by {
        assert(inner[i] == text[i]);
    }
    assert(inner[m] == '%' && percent[0] == '%');
    text::lemma_first_of(inner, percent, m);
    assert(inner.take(m) =~= text);
    assert(inner.skip(m + 1) =~= digits);
}

/// A group is written in small hexadecimal digits without superfluous zeros.
pub proof fn law_groups_are_written_short_and_small(n: u16, i: int)
    requires
        0 <= i < hex(n as nat).len(),
    ensures
        group_text(hex(n as nat)) == Some(n),
        n > 0 ==> hex(n as nat)[0] != '0',
        n == 0 ==> hex(n as nat).len() == 1,
        !('A' <= hex(n as nat)[i] <= 'F'),
{
    lemma_group_reads_back(n);
    lemma_hex_is_short_and_small(n as nat, i);
}

proof fn lemma_hex_is_short_and_small(n: nat, i: int)
    requires
        0 <= i < hex(n).len(),
    ensures
        n > 0 ==> hex(n)[0] != '0',
        !('A' <= hex(n)[i] <= 'F'),
    decreases n,
{
    if n >= 16 {
        let front = hex(n / 16);
        lemma_hex_reads_back(n / 16);
        lemma_hex_is_short_and_small(n / 16, 0);
        assert(hex(n)[0] == front[0]);
        if i < front.len() {
            lemma_hex_is_short_and_small(n / 16, i);
            assert(hex(n)[i] == front[i]);
        }
    }
}

/// An IPv6 address that maps no IPv4 address is written in groups. Its longest run of
/// zero groups, of equally long ones the first, is left out for a `::` where it is
/// two groups or more.
pub proof fn law_ipv6_is_written_in_groups(ip: Ipv6Addr, start: int, len: nat)
    requires
        ip.bits / 0x1_0000_0000 != 0xffff,
        0 <= start,
        0 < len,
        start + len <= 8,
        forall|j: int| start <= j < start + len ==> #[trigger] ip.segments_spec()[j] == 0,
        forall|at: int, n: nat|
            #![trigger is_zero_run(ip.segments_spec(), at, n)]
            is_zero_run(ip.segments_spec(), at, n) ==> n < len || (n == len && start <= at),
    ensures
        len == 1 ==> write_ipv6(ip) == write_groups(ip.segments_spec()),
        len > 1 ==> write_ipv6(ip) == write_groups(ip.segments_spec().take(start)).push(':').push(
            ':',
        ) + write_groups(ip.segments_spec().skip(start + len)),
{
    let g = ip.segments_spec();
    addr::lemma_segments_hold_address(ip);
    law_longest_run_of_zeros_is_left_out(g, start, len);
    let run = longest_zero_run(g, 0);
    assert(is_zero_run(g, run.0, run.1));
}

/// Whether `len` zero groups stand at `at`.
pub open spec fn is_zero_run(g: Seq<u16>, at: int, len: nat) -> bool {
    0 <= at && at + len <= g.len() && forall|j: int| at <= j < at + len ==> #[trigger] g[j] == 0
}

/// An IPv6 address without zero groups is written in full, and one that maps an IPv4
/// address as `::ffff:` and that address.
pub proof fn law_ipv6_is_written_in_full(ip: Ipv6Addr, v4: Ipv4Addr)
    ensures
        ip.bits / 0x1_0000_0000 != 0xffff && (forall|j: int|
            0 <= j < 8 ==> #[trigger] ip.segments_spec()[j] != 0) ==> write_ipv6(ip)
            == write_groups(ip.segments_spec()),
        ip.bits == 0xffff_0000_0000 + v4.bits ==> write_ipv6(ip) == "::ffff:"@ + write_ipv4(v4),
{
    let g = ip.segments_spec();
    addr::lemma_segments_hold_address(ip);
    lemma_longest_zero_run(g, 0);
    let run = longest_zero_run(g, 0);
    if run.1 > 0 {
        assert(g[run.0] == 0);
    }
    reveal_strlit("::ffff:");
    assert("::ffff:"@ =~= seq![':', ':', 'f', 'f', 'f', 'f', ':']);
    if ip.bits == 0xffff_0000_0000 + v4.bits {
        assert(ip.bits / 0x1_0000_0000 == 0xffff);
        assert(ip.bits % 0x1_0000_0000 == v4.bits);
    }
}

} // verus!
