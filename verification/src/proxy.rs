//! Upstream proxy handshakes: HTTP `CONNECT` and SOCKS5.
//!
//! The handshakes are decided here, octet by octet; whoever owns the
//! connection sends what is to be sent and hands back what was received.

use base64::Engine;
use vstd::prelude::*;
use vstd::slice::{slice_subrange, slice_to_vec};

use crate::addr::IpAddr;
use crate::addr_text;
use crate::addr_text::format_ip;
use crate::bytes;
use crate::bytes::octets_of;
use crate::config::{ProxyConfig, ProxyModel};
use crate::error::IoKind;
use crate::text;
use crate::text::{
    chars_of, has_prefix, parse_unsigned, position_of, push_decimal, push_str, push_text, string_of,
    take_word, text_from_utf8,
};

verus! {

/// Time allowed for the full connect and proxy handshake, in seconds.
pub const UPSTREAM_CONNECT_TIMEOUT: u64 = 10;

/// More octets than this in a `CONNECT` response without the end of its
/// headers are too many.
pub const MAX_RESPONSE_HEADERS: usize = 65536;

const SOCKS5_VERSION: u8 = 0x05;

const SOCKS5_CMD_CONNECT: u8 = 0x01;

const SOCKS5_ATYP_IPV4: u8 = 0x01;

const SOCKS5_ATYP_DOMAIN: u8 = 0x03;

const SOCKS5_ATYP_IPV6: u8 = 0x04;

const SOCKS5_AUTH_NONE: u8 = 0x00;

const SOCKS5_AUTH_USERPASS: u8 = 0x02;

/// The destination a proxied connection ultimately targets.
#[derive(Debug)]
pub enum Target {
    /// A resolved address.
    Ip(IpAddr, u16),
    /// A hostname, resolved by the proxy.
    Domain(String, u16),
}

impl Target {
    /// The host part, as text.
    pub open spec fn host_text(self) -> Seq<char> {
        match self {
            Target::Ip(ip, _) => addr_text::write_ip(ip),
            Target::Domain(host, _) => host@,
        }
    }

    /// The port.
    pub open spec fn port_spec(self) -> u16 {
        match self {
            Target::Ip(_, port) => port,
            Target::Domain(_, port) => port,
        }
    }

    /// The port.
    pub fn port(&self) -> (r: u16)
        ensures
            r == self.port_spec(),
    {
        match self {
            Target::Ip(_, port) => *port,
            Target::Domain(_, port) => *port,
        }
    }

    /// The host part, as text.
    pub fn host_string(&self) -> (r: String)
        ensures
            r@ == self.host_text(),
    {
        match self {
            Target::Ip(ip, _) => format_ip(*ip),
            Target::Domain(host, _) => host.clone(),
        }
    }
}

/// Why a handshake failed.
#[derive(Debug, Clone, Copy, PartialEq, Eq, Structural)]
pub enum ProxyError {
    /// The proxy closed the connection during `CONNECT`.
    ClosedDuringConnect,
    /// The `CONNECT` response did not end its headers in time.
    HeadersTooLarge,
    /// The `CONNECT` response has no status line.
    InvalidResponse,
    /// The `CONNECT` response has another status than 200.
    ConnectFailed(u16),
    /// The SOCKS5 reply has another version.
    BadVersion,
    /// The proxy asks for credentials that are not configured.
    AuthNotConfigured,
    /// The proxy rejected the credentials.
    AuthFailed,
    /// The proxy accepts none of the offered auth methods.
    NoAcceptableMethod,
    /// A credential does not fit the SOCKS5 message.
    CredentialTooLong,
    /// A hostname does not fit the SOCKS5 message.
    InvalidDomainLength,
    /// The proxy refused the connection with this reply code.
    Rejected(u8),
    /// The reply holds an address of unknown type.
    UnknownAddressType,
}

impl ProxyError {
    /// The text that describes the error.
    pub open spec fn text(self) -> Seq<char> {
        match self {
            ProxyError::ClosedDuringConnect => "proxy closed during CONNECT"@,
            ProxyError::HeadersTooLarge => "HTTP CONNECT response headers too large"@,
            ProxyError::InvalidResponse => "invalid HTTP CONNECT response"@,
            ProxyError::ConnectFailed(status) => "HTTP CONNECT failed with status "@
                + text::decimal(status as nat),
            ProxyError::BadVersion => "bad SOCKS5 version"@,
            ProxyError::AuthNotConfigured => "proxy requires auth but none configured"@,
            ProxyError::AuthFailed => "SOCKS5 authentication failed"@,
            ProxyError::NoAcceptableMethod => "no acceptable SOCKS5 auth method"@,
            ProxyError::CredentialTooLong => "SOCKS5 credential too long"@,
            ProxyError::InvalidDomainLength => "invalid SOCKS5 domain length"@,
            ProxyError::Rejected(code) => "SOCKS5 CONNECT rejected (reply="@ + text::decimal(
                code as nat,
            ) + ")"@,
            ProxyError::UnknownAddressType => "unknown SOCKS5 ATYP in reply"@,
        }
    }

    /// The kind of failure that the error is.
    pub open spec fn kind_spec(self) -> IoKind {
        match self {
            ProxyError::ClosedDuringConnect => IoKind::UnexpectedEof,
            ProxyError::HeadersTooLarge => IoKind::InvalidData,
            ProxyError::InvalidResponse => IoKind::InvalidData,
            ProxyError::BadVersion => IoKind::InvalidData,
            _ => IoKind::Other,
        }
    }

    /// The kind of failure that the error is.
    pub fn kind(&self) -> (r: IoKind)
        ensures
            r == self.kind_spec(),
    {
        match self {
            ProxyError::ClosedDuringConnect => IoKind::UnexpectedEof,
            ProxyError::HeadersTooLarge => IoKind::InvalidData,
            ProxyError::InvalidResponse => IoKind::InvalidData,
            ProxyError::BadVersion => IoKind::InvalidData,
            _ => IoKind::Other,
        }
    }

    /// The text that describes the error.
    pub fn message(&self) -> (r: String)
        ensures
            r@ == self.text(),
    {
        let mut out: Vec<char> = Vec::new();
        match self {
            ProxyError::ClosedDuringConnect => push_str(&mut out, "proxy closed during CONNECT"),
            ProxyError::HeadersTooLarge => push_str(
                &mut out,
                "HTTP CONNECT response headers too large",
            ),
            ProxyError::InvalidResponse => push_str(&mut out, "invalid HTTP CONNECT response"),
            ProxyError::ConnectFailed(status) => {
                push_str(&mut out, "HTTP CONNECT failed with status ");
                push_decimal(&mut out, *status as u64);
            },
            ProxyError::BadVersion => push_str(&mut out, "bad SOCKS5 version"),
            ProxyError::AuthNotConfigured => push_str(
                &mut out,
                "proxy requires auth but none configured",
            ),
            ProxyError::AuthFailed => push_str(&mut out, "SOCKS5 authentication failed"),
            ProxyError::NoAcceptableMethod => push_str(
                &mut out,
                "no acceptable SOCKS5 auth method",
            ),
            ProxyError::CredentialTooLong => push_str(&mut out, "SOCKS5 credential too long"),
            ProxyError::InvalidDomainLength => push_str(&mut out, "invalid SOCKS5 domain length"),
            ProxyError::Rejected(code) => {
                push_str(&mut out, "SOCKS5 CONNECT rejected (reply=");
                push_decimal(&mut out, *code as u64);
                push_str(&mut out, ")");
            },
            ProxyError::UnknownAddressType => push_str(&mut out, "unknown SOCKS5 ATYP in reply"),
        }
        assert(out@ == self.text());
        string_of(&out)
    }
}

// ── Base64 ──────────────────────────────────────────────────────────────────

/// The character of the standard alphabet for a value below 64.
pub open spec fn base64_char(v: int) -> char {
    if v < 26 {
        (65 + v) as char
    } else if v < 52 {
        (71 + v) as char
    } else if v < 62 {
        (v - 4) as char
    } else if v == 62 {
        '+'
    } else {
        '/'
    }
}

/// `bytes` in standard base64 with padding.
pub open spec fn base64_text(bytes: Seq<u8>) -> Seq<char>
    decreases bytes.len(),
{
    let n = bytes.len();
    let (a, b, c) = (bytes[0] as int, bytes[1] as int, bytes[2] as int);
    if n == 0 {
        Seq::empty()
    } else if n == 1 {
        seq![base64_char(a / 4), base64_char(a % 4 * 16), '=', '=']
    } else if n == 2 {
        seq![base64_char(a / 4), base64_char(a % 4 * 16 + b / 16), base64_char(b % 16 * 4), '=']
    } else {
        seq![
            base64_char(a / 4),
            base64_char(a % 4 * 16 + b / 16),
            base64_char(b % 16 * 4 + c / 64),
            base64_char(c % 64),
        ] + base64_text(bytes.skip(3))
    }
}

/// `STANDARD.encode` of the `base64` crate writes the standard alphabet with
/// padding. The size of its output has to be representable.
#[verifier::external_body]
fn encode_base64(bytes: &[u8]) -> (r: String)
    requires
        bytes@.len() / 3 * 4 + 4 <= isize::MAX,
    ensures
        r@ == base64_text(bytes@),
{
    base64::engine::general_purpose::STANDARD.encode(bytes)
}

// ── HTTP CONNECT ────────────────────────────────────────────────────────────

/// What the credentials of Basic authentication encode.
pub open spec fn credentials(user: Seq<char>, pass: Seq<char>) -> Seq<u8> {
    vstd::utf8::encode_utf8(user.push(':') + pass)
}

/// The text of a `CONNECT` request.
pub open spec fn connect_text(
    host: Seq<char>,
    port: u16,
    auth: Option<(Seq<char>, Seq<char>)>,
) -> Seq<char> {
    let authority = host.push(':') + text::decimal(port as nat);
    let header = match auth {
        Some((user, pass)) => "Proxy-Authorization: Basic "@ + base64_text(credentials(user, pass))
            + "\r\n"@,
        None => Seq::empty(),
    };
    "CONNECT "@ + authority + " HTTP/1.1\r\nHost: "@ + authority + "\r\n"@ + header
        + "Proxy-Connection: keep-alive\r\n\r\n"@
}

/// The credentials behind a pair of string slices.
pub open spec fn auth_text(auth: Option<(&str, &str)>) -> Option<(Seq<char>, Seq<char>)> {
    match auth {
        Some((user, pass)) => Some((user@, pass@)),
        None => None,
    }
}

/// Builds a `CONNECT host:port HTTP/1.1` request, with optional Basic auth.
pub fn build_http_connect_request(host: &str, port: u16, auth: Option<(&str, &str)>) -> (r: Vec<u8>)
    requires
        auth is Some ==> credentials(auth->Some_0.0@, auth->Some_0.1@).len() / 3 * 4 + 4
            <= isize::MAX,
    ensures
        r@ == vstd::utf8::encode_utf8(connect_text(host@, port, auth_text(auth))),
{
    let mut authority: Vec<char> = chars_of(host);
    authority.push(':');
    push_decimal(&mut authority, port as u64);
    let mut out: Vec<char> = Vec::new();
    push_str(&mut out, "CONNECT ");
    push_text(&mut out, &authority);
    push_str(&mut out, " HTTP/1.1\r\nHost: ");
    push_text(&mut out, &authority);
    push_str(&mut out, "\r\n");
    match auth {
        Some((user, pass)) => {
            let mut pair: Vec<char> = chars_of(user);
            pair.push(':');
            push_str(&mut pair, pass);
            let pair_text: String = string_of(&pair);
            let token: String = encode_base64(pair_text.as_str().as_bytes());
            push_str(&mut out, "Proxy-Authorization: Basic ");
            push_str(&mut out, token.as_str());
            push_str(&mut out, "\r\n");
        },
        None => {},
    }
    push_str(&mut out, "Proxy-Connection: keep-alive\r\n\r\n");
    assert(out@ == connect_text(host@, port, auth_text(auth)));
    let text: String = string_of(&out);
    slice_to_vec(text.as_str().as_bytes())
}

/// The status code of an HTTP/1 response: the second word of its first line.
pub open spec fn http_status(response: Seq<u8>) -> Option<nat> {
    let text = vstd::utf8::decode_utf8(response);
    let line = text.take(text::first_of(text, seq!['\n']));
    if !vstd::utf8::valid_utf8(response) || !text::starts_with(
        line,
        seq!['H', 'T', 'T', 'P', '/', '1', '.'],
    ) {
        None
    } else {
        match text::next_word(line) {
            Some((_, rest)) => match text::next_word(rest) {
                Some((word, _)) => text::unsigned_value(word, 65535),
                None => None,
            },
            None => None,
        }
    }
}

/// Parses the numeric status code from an HTTP status line.
pub fn parse_http_status(response: &[u8]) -> (r: Option<u16>)
    ensures
        r is Some <==> http_status(response@) is Some,
        r is Some ==> r->Some_0 == http_status(response@)->Some_0,
{
    let text: Vec<char> = match text_from_utf8(response) {
        Some(s) => chars_of(s),
        None => {
            return None;
        },
    };
    let feed: [char; 1] = ['\n'];
    assert(feed@ == seq!['\n']);
    let end: usize = position_of(&text, &feed);
    let line: &[char] = slice_subrange(text.as_slice(), 0, end);
    assert(line@ == text@.take(end as int));
    let prefix: [char; 7] = ['H', 'T', 'T', 'P', '/', '1', '.'];
    assert(prefix@ == seq!['H', 'T', 'T', 'P', '/', '1', '.']);
    if !has_prefix(line, &prefix) {
        return None;
    }
    match take_word(line) {
        Some((_, rest)) => match take_word(rest) {
            Some((word, _)) => match parse_unsigned(word, 65535) {
                Some(v) => Some(v as u16),
                None => None,
            },
            None => None,
        },
        None => None,
    }
}

/// What to do after a part of the `CONNECT` response arrived.
#[derive(Debug, Clone, Copy, PartialEq, Eq, Structural)]
pub enum ConnectStep {
    /// Read more of the response.
    ReadMore,
    /// The tunnel is open.
    Established,
    /// The handshake failed.
    Failed(ProxyError),
}

/// Whether a blank line, a double CRLF, stands at position `i`.
pub open spec fn blank_line_at(response: Seq<u8>, i: int) -> bool {
    &&& 0 <= i
    &&& i + 4 <= response.len()
    &&& response[i] == 13
    &&& response[i + 1] == 10
    &&& response[i + 2] == 13
    &&& response[i + 3] == 10
}

/// The length of the headers, the first blank line included; `None` where they
/// are not complete.
pub open spec fn headers_len(response: Seq<u8>) -> Option<nat>
    decreases response.len(),
{
    if response.len() < 4 {
        None
    } else if blank_line_at(response, 0) {
        Some(4)
    } else {
        match headers_len(response.drop_first()) {
            Some(n) => Some(n + 1),
            None => None,
        }
    }
}

/// What the octets of the response received so far amount to. What stands behind
/// the headers is no part of the response.
pub open spec fn connect_outcome(response: Seq<u8>) -> ConnectStep {
    match headers_len(response) {
        Some(n) => match http_status(response.take(n as int)) {
            None => ConnectStep::Failed(ProxyError::InvalidResponse),
            Some(status) => if status == 200 {
                ConnectStep::Established
            } else {
                ConnectStep::Failed(ProxyError::ConnectFailed(status as u16))
            },
        },
        None => if response.len() > MAX_RESPONSE_HEADERS {
            ConnectStep::Failed(ProxyError::HeadersTooLarge)
        } else {
            ConnectStep::ReadMore
        },
    }
}

/// What a read amounts to that returned `chunk` behind `received`; an empty read
/// means that the proxy closed the connection.
pub open spec fn read_outcome(received: Seq<u8>, chunk: Seq<u8>) -> ConnectStep {
    if chunk.len() == 0 {
        ConnectStep::Failed(ProxyError::ClosedDuringConnect)
    } else {
        connect_outcome(received + chunk)
    }
}

/// The octets behind the headers: the first that the tunnel carries.
pub open spec fn behind_headers(response: Seq<u8>) -> Seq<u8> {
    match headers_len(response) {
        Some(n) => response.skip(n as int),
        None => Seq::empty(),
    }
}

/// `headers_len` ends the first blank line.
proof fn lemma_headers_len(response: Seq<u8>, i: int)
    requires
        0 <= i,
        forall|j: int| 0 <= j < i ==> !#[trigger] blank_line_at(response, j),
        blank_line_at(response, i) || i + 4 > response.len(),
    ensures
        headers_len(response) == if blank_line_at(response, i) {
            Some((i + 4) as nat)
        } else {
            None
        },
    decreases i,
{
    if i > 0 && response.len() >= 4 {
        let rest = response.drop_first();
        assert(!blank_line_at(response, 0));
        assert forall|j: int| 0 <= j < i - 1 implies !#[trigger] blank_line_at(rest, j) by {
            assert(!blank_line_at(response, j + 1));
        }
        assert(blank_line_at(rest, i - 1) == blank_line_at(response, i));
        lemma_headers_len(rest, i - 1);
    }
}

/// The position behind the first blank line, if there is one.
fn find_headers_end(response: &[u8]) -> (r: Option<usize>)
    ensures
        match r {
            Some(n) => headers_len(response@) == Some(n as nat) && n <= response@.len(),
            None => headers_len(response@) is None,
        },
{
    let mut i: usize = 0;
    while i < response.len() && response.len() - i >= 4
        invariant
            i <= response.len(),
            forall|j: int| 0 <= j < i ==> !#[trigger] blank_line_at(response@, j),
        decreases response.len() - i,
    {
        if response[i] == 13 && response[i + 1] == 10 && response[i + 2] == 13 && response[i + 3]
            == 10 {
            proof {
                lemma_headers_len(response@, i as int);
            }
            return Some(i + 4);
        }
        i = i + 1;
    }
    proof {
        lemma_headers_len(response@, i as int);
    }
    None
}

/// The response to a `CONNECT` request, as far as it was received.
pub struct ConnectResponse {
    received: Vec<u8>,
}

impl View for ConnectResponse {
    type V = Seq<u8>;

    closed spec fn view(&self) -> Seq<u8> {
        self.received@
    }
}

impl ConnectResponse {
    /// Nothing received yet.
    pub fn new() -> (r: ConnectResponse)
        ensures
            r@ == Seq::<u8>::empty(),
    {
        ConnectResponse { received: Vec::new() }
    }

    /// Takes what one read returned; an empty read means that the proxy closed
    /// the connection.
    pub fn receive(&mut self, chunk: &[u8]) -> (r: ConnectStep)
        ensures
            final(self)@ == old(self)@ + chunk@,
            r == read_outcome(old(self)@, chunk@),
    {
        if chunk.len() == 0 {
            assert(old(self)@ + chunk@ == old(self)@);
            return ConnectStep::Failed(ProxyError::ClosedDuringConnect);
        }
        let ghost before = self.received@;
        self.received.extend_from_slice(chunk);
        assert(self.received@ == before + chunk@);
        match find_headers_end(self.received.as_slice()) {
            Some(n) => match parse_http_status(
                slice_subrange(self.received.as_slice(), 0, n),
            ) {
                None => ConnectStep::Failed(ProxyError::InvalidResponse),
                Some(status) => if status == 200 {
                    ConnectStep::Established
                } else {
                    ConnectStep::Failed(ProxyError::ConnectFailed(status))
                },
            },
            None => if self.received.len() > MAX_RESPONSE_HEADERS {
                ConnectStep::Failed(ProxyError::HeadersTooLarge)
            } else {
                ConnectStep::ReadMore
            },
        }
    }

    /// The octets that were received behind the headers. They belong to the
    /// tunnel and are to be relayed first.
    pub fn behind_headers(&self) -> (r: &[u8])
        ensures
            r@ == behind_headers(self@),
    {
        let all: &[u8] = self.received.as_slice();
        match find_headers_end(all) {
            Some(n) => slice_subrange(all, n, all.len()),
            None => slice_subrange(all, 0, 0),
        }
    }
}

/// The credentials of a configuration, where it has both of them.
pub open spec fn configured_auth(cfg: ProxyModel) -> Option<(Seq<char>, Seq<char>)> {
    match (cfg.username, cfg.password) {
        (Some(user), Some(pass)) => Some((user, pass)),
        _ => None,
    }
}

/// The `CONNECT` request that opens a tunnel to `dest` through the proxy `cfg`.
pub fn http_connect_request(cfg: &ProxyConfig, dest: &Target) -> (r: Vec<u8>)
    requires
        configured_auth(cfg@) is Some ==> credentials(
            configured_auth(cfg@)->Some_0.0,
            configured_auth(cfg@)->Some_0.1,
        ).len() / 3 * 4 + 4 <= isize::MAX,
    ensures
        r@ == vstd::utf8::encode_utf8(
            connect_text(dest.host_text(), dest.port_spec(), configured_auth(cfg@)),
        ),
{
    let host: String = dest.host_string();
    match (&cfg.username, &cfg.password) {
        (Some(user), Some(pass)) => build_http_connect_request(
            host.as_str(),
            dest.port(),
            Some((user.as_str(), pass.as_str())),
        ),
        _ => build_http_connect_request(host.as_str(), dest.port(), None),
    }
}

// ── SOCKS5 ──────────────────────────────────────────────────────────────────

/// The greeting: the auth methods on offer.
pub open spec fn greeting(use_auth: bool) -> Seq<u8> {
    if use_auth {
        seq![5u8, 2, 0, 2]
    } else {
        seq![5u8, 1, 0]
    }
}

/// The RFC 1929 message with the credentials.
pub open spec fn userpass(user: Seq<u8>, pass: Seq<u8>) -> Seq<u8> {
    seq![1u8, user.len() as u8] + user + seq![pass.len() as u8] + pass
}

/// The destination in a `CONNECT` request; `None` for a hostname that is empty
/// or longer than 255 octets.
pub open spec fn request_address(dest: Target) -> Option<Seq<u8>> {
    match dest {
        Target::Ip(IpAddr::V4(v4), _) => Some(seq![1u8] + v4.octets_spec()),
        Target::Ip(IpAddr::V6(v6), _) => Some(seq![4u8] + v6.octets_spec()),
        Target::Domain(host, _) => {
            let bytes = vstd::utf8::encode_utf8(host@);
            if 1 <= bytes.len() <= 255 {
                Some(seq![3u8, bytes.len() as u8] + bytes)
            } else {
                None
            }
        },
    }
}

/// The `CONNECT` request for `dest`.
pub open spec fn connect_request(dest: Target) -> Option<Seq<u8>> {
    match request_address(dest) {
        Some(address) => Some(
            seq![5u8, 1, 0] + address + bytes::be_bytes(dest.port_spec() as nat, 2),
        ),
        None => None,
    }
}

/// Builds the greeting.
pub fn build_socks5_greeting(use_auth: bool) -> (r: Vec<u8>)
    ensures
        r@ == greeting(use_auth),
{
    let r: Vec<u8> = if use_auth {
        vec![SOCKS5_VERSION, 0x02, SOCKS5_AUTH_NONE, SOCKS5_AUTH_USERPASS]
    } else {
        vec![SOCKS5_VERSION, 0x01, SOCKS5_AUTH_NONE]
    };
    assert(r@ == greeting(use_auth));
    r
}

/// Builds the message with the credentials.
pub fn build_socks5_userpass(user: &str, pass: &str) -> (r: core::result::Result<
    Vec<u8>,
    ProxyError,
>)
    ensures
        r is Ok <==> vstd::utf8::encode_utf8(user@).len() <= 255 && vstd::utf8::encode_utf8(
            pass@,
        ).len() <= 255,
        r is Ok ==> r->Ok_0@ == userpass(
            vstd::utf8::encode_utf8(user@),
            vstd::utf8::encode_utf8(pass@),
        ),
        r is Err ==> r->Err_0 == ProxyError::CredentialTooLong,
{
    let u: &[u8] = user.as_bytes();
    let p: &[u8] = pass.as_bytes();
    if u.len() > 255 || p.len() > 255 {
        return Err(ProxyError::CredentialTooLong);
    }
    let mut buf: Vec<u8> = Vec::new();
    buf.push(0x01);
    buf.push(u.len() as u8);
    buf.extend_from_slice(u);
    buf.push(p.len() as u8);
    buf.extend_from_slice(p);
    assert(buf@ == userpass(u@, p@));
    Ok(buf)
}

/// Builds the `CONNECT` request for `dest`.
pub fn build_socks5_connect_request(dest: &Target) -> (r: core::result::Result<Vec<u8>, ProxyError>)
    ensures
        r is Ok <==> connect_request(*dest) is Some,
        r is Ok ==> r->Ok_0@ == connect_request(*dest)->Some_0,
        r is Err ==> r->Err_0 == ProxyError::InvalidDomainLength,
{
    let mut buf: Vec<u8> = vec![SOCKS5_VERSION, SOCKS5_CMD_CONNECT, 0x00];
    assert(buf@ == seq![5u8, 1, 0]);
    let ghost start = buf@;
    match dest {
        Target::Ip(IpAddr::V4(v4), _) => {
            buf.push(SOCKS5_ATYP_IPV4);
            let octets: [u8; 4] = v4.octets();
            buf.extend_from_slice(&octets);
            assert(buf@ == start + (seq![1u8] + v4.octets_spec()));
        },
        Target::Ip(IpAddr::V6(v6), _) => {
            buf.push(SOCKS5_ATYP_IPV6);
            let octets: Vec<u8> = v6.octets();
            buf.extend_from_slice(&octets);
            assert(buf@ == start + (seq![4u8] + v6.octets_spec()));
        },
        Target::Domain(host, _) => {
            let bytes: &[u8] = host.as_str().as_bytes();
            if bytes.len() == 0 || bytes.len() > 255 {
                return Err(ProxyError::InvalidDomainLength);
            }
            buf.push(SOCKS5_ATYP_DOMAIN);
            buf.push(bytes.len() as u8);
            buf.extend_from_slice(bytes);
            assert(buf@ == start + (seq![3u8, bytes@.len() as u8] + bytes@));
        },
    }
    let ghost before = buf@;
    let port: Vec<u8> = octets_of(dest.port() as u128, 2);
    buf.extend_from_slice(&port);
    assert(buf@ == before + bytes::be_bytes(dest.port_spec() as nat, 2));
    Ok(buf)
}

/// What the proxy is to send next.
#[derive(Debug, Clone, Copy, PartialEq, Eq, Structural)]
pub enum Socks5Await {
    /// The chosen auth method.
    Method,
    /// The verdict on the credentials.
    AuthStatus,
    /// The start of the reply to the `CONNECT` request.
    ReplyHeader,
    /// The length of the hostname in the reply.
    DomainLength,
    /// The rest of the reply.
    BoundAddress,
}

/// The next step of a handshake.
#[derive(Debug)]
pub enum Socks5Step {
    /// Send `send`, read exactly `read` octets, and go on with them.
    Exchange {
        /// What to send; may be nothing.
        send: Vec<u8>,
        /// How many octets to read.
        read: usize,
        /// What those octets are.
        next: Socks5Await,
    },
    /// The tunnel is open.
    Established,
    /// The handshake failed.
    Failed(ProxyError),
}

/// The next step of a handshake, seen from outside.
#[verifier::ext_equal]
pub enum Socks5Model {
    /// Send and read.
    Exchange(Seq<u8>, nat, Socks5Await),
    /// The tunnel is open.
    Established,
    /// The handshake failed.
    Failed(ProxyError),
}

impl View for Socks5Step {
    type V = Socks5Model;

    open spec fn view(&self) -> Socks5Model {
        match self {
            Socks5Step::Exchange { send, read, next } => Socks5Model::Exchange(
                send@,
                *read as nat,
                *next,
            ),
            Socks5Step::Established => Socks5Model::Established,
            Socks5Step::Failed(e) => Socks5Model::Failed(*e),
        }
    }
}

/// How many octets the proxy sends for each part of the handshake; the last one
/// depends on the reply.
pub open spec fn awaited_len(part: Socks5Await, len: nat) -> bool {
    match part {
        Socks5Await::Method => len == 2,
        Socks5Await::AuthStatus => len == 2,
        Socks5Await::ReplyHeader => len == 4,
        Socks5Await::DomainLength => len == 1,
        Socks5Await::BoundAddress => true,
    }
}

/// Asking the proxy to connect to `dest`.
pub open spec fn ask_connect(dest: Target) -> Socks5Model {
    match connect_request(dest) {
        Some(request) => Socks5Model::Exchange(request, 4, Socks5Await::ReplyHeader),
        None => Socks5Model::Failed(ProxyError::InvalidDomainLength),
    }
}

/// Presenting the credentials.
pub open spec fn present_credentials(cfg: ProxyModel) -> Socks5Model {
    match configured_auth(cfg) {
        Some((user, pass)) => if vstd::utf8::encode_utf8(user).len() <= 255
            && vstd::utf8::encode_utf8(pass).len() <= 255 {
            Socks5Model::Exchange(
                userpass(vstd::utf8::encode_utf8(user), vstd::utf8::encode_utf8(pass)),
                2,
                Socks5Await::AuthStatus,
            )
        } else {
            Socks5Model::Failed(ProxyError::CredentialTooLong)
        },
        None => Socks5Model::Failed(ProxyError::AuthNotConfigured),
    }
}

/// Reading the rest of the reply to the `CONNECT` request.
pub open spec fn drain_reply(len: nat) -> Socks5Model {
    Socks5Model::Exchange(Seq::empty(), len, Socks5Await::BoundAddress)
}

/// The step that follows when the proxy sent `octets`.
pub open spec fn socks5_next(
    cfg: ProxyModel,
    dest: Target,
    part: Socks5Await,
    octets: Seq<u8>,
) -> Socks5Model {
    match part {
        Socks5Await::Method => if octets[0] != 5 {
            Socks5Model::Failed(ProxyError::BadVersion)
        } else if octets[1] == 0 {
            ask_connect(dest)
        } else if octets[1] == 2 {
            present_credentials(cfg)
        } else {
            Socks5Model::Failed(ProxyError::NoAcceptableMethod)
        },
        Socks5Await::AuthStatus => if octets[1] != 0 {
            Socks5Model::Failed(ProxyError::AuthFailed)
        } else {
            ask_connect(dest)
        },
        Socks5Await::ReplyHeader => if octets[0] != 5 || octets[1] != 0 {
            Socks5Model::Failed(ProxyError::Rejected(octets[1]))
        } else if octets[3] == 1 {
            drain_reply(6)
        } else if octets[3] == 4 {
            drain_reply(18)
        } else if octets[3] == 3 {
            Socks5Model::Exchange(Seq::empty(), 1, Socks5Await::DomainLength)
        } else {
            Socks5Model::Failed(ProxyError::UnknownAddressType)
        },
        Socks5Await::DomainLength => drain_reply((octets[0] + 2) as nat),
        Socks5Await::BoundAddress => Socks5Model::Established,
    }
}

/// The first step of a handshake with the proxy `cfg`.
pub fn socks5_start(cfg: &ProxyConfig) -> (r: Socks5Step)
    ensures
        r@ == Socks5Model::Exchange(greeting(cfg@.username is Some), 2, Socks5Await::Method),
        r matches Socks5Step::Exchange { send, .. } && (send@.skip(2).contains(2u8)
            <==> cfg@.username is Some),
{
    proof {
        law_greeting_counts_its_methods(cfg@.username is Some);
    }
    Socks5Step::Exchange {
        send: build_socks5_greeting(cfg.username.is_some()),
        read: 2,
        next: Socks5Await::Method,
    }
}

fn step_connect(dest: &Target) -> (r: Socks5Step)
    ensures
        r@ == ask_connect(*dest),
{
    match build_socks5_connect_request(dest) {
        Ok(send) => Socks5Step::Exchange { send, read: 4, next: Socks5Await::ReplyHeader },
        Err(e) => Socks5Step::Failed(e),
    }
}

fn step_credentials(cfg: &ProxyConfig) -> (r: Socks5Step)
    ensures
        r@ == present_credentials(cfg@),
{
    match (&cfg.username, &cfg.password) {
        (Some(user), Some(pass)) => match build_socks5_userpass(user.as_str(), pass.as_str()) {
            Ok(send) => Socks5Step::Exchange { send, read: 2, next: Socks5Await::AuthStatus },
            Err(e) => Socks5Step::Failed(e),
        },
        _ => Socks5Step::Failed(ProxyError::AuthNotConfigured),
    }
}

fn step_read(read: usize, next: Socks5Await) -> (r: Socks5Step)
    ensures
        r@ == Socks5Model::Exchange(Seq::empty(), read as nat, next),
{
    let r: Socks5Step = Socks5Step::Exchange { send: Vec::new(), read, next };
    assert(r@ == Socks5Model::Exchange(Seq::empty(), read as nat, next));
    r
}

/// The step that follows when the proxy sent `octets`.
pub fn socks5_step(cfg: &ProxyConfig, dest: &Target, part: Socks5Await, octets: &[u8]) -> (r:
    Socks5Step)
    requires
        awaited_len(part, octets@.len()),
    ensures
        r@ == socks5_next(cfg@, *dest, part, octets@),
{
    match part {
        Socks5Await::Method => {
            if octets[0] != SOCKS5_VERSION {
                Socks5Step::Failed(ProxyError::BadVersion)
            } else if octets[1] == SOCKS5_AUTH_NONE {
                step_connect(dest)
            } else if octets[1] == SOCKS5_AUTH_USERPASS {
                step_credentials(cfg)
            } else {
                Socks5Step::Failed(ProxyError::NoAcceptableMethod)
            }
        },
        Socks5Await::AuthStatus => {
            if octets[1] != 0x00 {
                Socks5Step::Failed(ProxyError::AuthFailed)
            } else {
                step_connect(dest)
            }
        },
        Socks5Await::ReplyHeader => {
            if octets[0] != SOCKS5_VERSION || octets[1] != 0x00 {
                Socks5Step::Failed(ProxyError::Rejected(octets[1]))
            } else if octets[3] == SOCKS5_ATYP_IPV4 {
                step_read(4 + 2, Socks5Await::BoundAddress)
            } else if octets[3] == SOCKS5_ATYP_IPV6 {
                step_read(16 + 2, Socks5Await::BoundAddress)
            } else if octets[3] == SOCKS5_ATYP_DOMAIN {
                step_read(1, Socks5Await::DomainLength)
            } else {
                Socks5Step::Failed(ProxyError::UnknownAddressType)
            }
        },
        Socks5Await::DomainLength => step_read(octets[0] as usize + 2, Socks5Await::BoundAddress),
        Socks5Await::BoundAddress => Socks5Step::Established,
    }
}

// ── Laws ────────────────────────────────────────────────────────────────────

/// What a handshake amounts to that has received `received` and goes on with
/// these reads, up to the first that decides.
pub open spec fn connect_handshake(received: Seq<u8>, reads: Seq<Seq<u8>>) -> ConnectStep
    decreases reads.len(),
{
    if reads.len() == 0 {
        ConnectStep::ReadMore
    } else {
        match read_outcome(received, reads[0]) {
            ConnectStep::ReadMore => connect_handshake(
                received + reads[0],
                reads.drop_first(),
            ),
            step => step,
        }
    }
}

/// The headers are complete in every longer response, and what follows them does
/// not change their length.
proof fn lemma_headers_prefix(response: Seq<u8>, k: int)
    requires
        headers_len(response) is Some,
        0 <= k <= response.len(),
    ensures
        4 <= headers_len(response)->Some_0 <= response.len(),
        headers_len(response.take(k)) == if k >= headers_len(response)->Some_0 {
            headers_len(response)
        } else {
            None
        },
    decreases response.len(),
{
    let part = response.take(k);
    if !blank_line_at(response, 0) {
        let rest = response.drop_first();
        if k > 0 {
            lemma_headers_prefix(rest, k - 1);
            assert(part.drop_first() == rest.take(k - 1));
        } else {
            lemma_headers_prefix(rest, 0);
        }
    }
}

/// How the reads break a `CONNECT` response makes no difference: whatever the
/// reads are that a response with complete headers arrives in, and whatever
/// follows the headers, the handshake amounts to what the whole of it does.
pub proof fn law_connect_response_may_be_split(received: Seq<u8>, reads: Seq<Seq<u8>>)
    requires
        headers_len(received) is None,
        forall|i: int| 0 <= i < reads.len() ==> (#[trigger] reads[i]).len() > 0,
        headers_len(received + reads.flatten()) is Some,
        headers_len(received + reads.flatten())->Some_0 <= MAX_RESPONSE_HEADERS,
    ensures
        connect_handshake(received, reads) == connect_outcome(received + reads.flatten()),
    decreases reads.len(),
{
    let whole = received + reads.flatten();
    if reads.len() == 0 {
        assert(reads.flatten() == Seq::<u8>::empty());
        assert(whole == received);
    } else {
        let next = received + reads[0];
        let rest = reads.drop_first();
        assert(reads.flatten() == reads[0] + rest.flatten());
        assert(whole == next + rest.flatten());
        assert(whole.take(next.len() as int) == next);
        lemma_headers_prefix(whole, next.len() as int);
        if headers_len(next) is Some {
            let n = headers_len(whole)->Some_0 as int;
            assert(next.take(n) == whole.take(n));
        } else {
            assert forall|i: int| 0 <= i < rest.len() implies (#[trigger] rest[i]).len() > 0 by {
                assert(rest[i] == reads[i + 1]);
            }
            law_connect_response_may_be_split(next, rest);
        }
    }
}

/// What was received is the headers and what stands behind them: no octet of the
/// tunnel is lost to the handshake.
pub proof fn law_tunnel_keeps_what_follows_the_headers(headers: Seq<u8>, tunnel: Seq<u8>)
    requires
        headers_len(headers) == Some(headers.len()),
    ensures
        behind_headers(headers + tunnel) == tunnel,
        connect_outcome(headers + tunnel) == connect_outcome(headers),
{
    let whole = headers + tunnel;
    lemma_headers_extend(headers, tunnel);
    assert(whole.skip(headers.len() as int) == tunnel);
    assert(whole.take(headers.len() as int) == headers);
    assert(headers.take(headers.len() as int) == headers);
}

proof fn lemma_headers_extend(response: Seq<u8>, more: Seq<u8>)
    requires
        headers_len(response) is Some,
    ensures
        headers_len(response + more) == headers_len(response),
    decreases response.len(),
{
    let whole = response + more;
    if !blank_line_at(response, 0) {
        lemma_headers_extend(response.drop_first(), more);
        assert(whole.drop_first() == response.drop_first() + more);
    }
}

/// The tunnel opens only on complete headers with status 200.
pub proof fn law_tunnel_opens_on_status_200_only(response: Seq<u8>)
    ensures
        connect_outcome(response) == ConnectStep::Established <==> headers_len(response) is Some
            && http_status(response.take(headers_len(response)->Some_0 as int)) == Some(200nat),
{
}

/// Credentials are sent only where the proxy asked for them and they are
/// configured.
pub proof fn law_credentials_need_a_request(
    cfg: ProxyModel,
    dest: Target,
    part: Socks5Await,
    octets: Seq<u8>,
)
    requires
        awaited_len(part, octets.len()),
        socks5_next(cfg, dest, part, octets) matches Socks5Model::Exchange(_, _, next) && next
            == Socks5Await::AuthStatus,
    ensures
        part == Socks5Await::Method,
        octets == seq![5u8, 2],
        configured_auth(cfg) is Some,
{
    assert(octets == seq![octets[0], octets[1]]);
}

/// How far a SOCKS5 handshake has come.
pub open spec fn progress(part: Socks5Await) -> nat {
    match part {
        Socks5Await::Method => 0,
        Socks5Await::AuthStatus => 1,
        Socks5Await::ReplyHeader => 2,
        Socks5Await::DomainLength => 3,
        Socks5Await::BoundAddress => 4,
    }
}

/// Whatever a proxy sends, each exchange brings a SOCKS5 handshake closer to its
/// end: it takes five at most.
pub proof fn law_handshake_ends(cfg: ProxyModel, dest: Target, part: Socks5Await, octets: Seq<u8>)
    ensures
        socks5_next(cfg, dest, part, octets) matches Socks5Model::Exchange(_, _, next)
            ==> progress(part) < progress(next) <= 4,
{
}

/// No reply makes the handshake read more than 257 octets at once.
pub proof fn law_reads_are_bounded(
    cfg: ProxyModel,
    dest: Target,
    part: Socks5Await,
    octets: Seq<u8>,
)
    requires
        awaited_len(part, octets.len()),
    ensures
        socks5_next(cfg, dest, part, octets) matches Socks5Model::Exchange(_, read, next)
            ==> read <= 257 && awaited_len(next, read),
{
}

/// The first line of a text, without the line feed that ends it, and the text
/// behind that line feed.
pub open spec fn first_line(text: Seq<char>) -> (Seq<char>, Seq<char>) {
    let n = text::first_of(text, seq!['\n']);
    (text.take(n), text.skip(n + 1))
}

proof fn lemma_first_line(line: Seq<char>, rest: Seq<char>)
    requires
        forall|i: int| 0 <= i < line.len() ==> #[trigger] line[i] != '\n',
    ensures
        first_line(line.push('\n') + rest) == (line, rest),
{
    let whole = line.push('\n') + rest;
    let n = line.len() as int;
    let feed = seq!['\n'];
    assert forall|i: int| 0 <= i < n implies !feed.contains(#[trigger] whole[i]) by {
        assert(whole[i] == line[i]);
    }
    assert(whole[n] == '\n' && feed[0] == '\n');
    text::lemma_first_of(whole, feed, n);
    assert(whole.take(n) == line);
    assert(whole.skip(n + 1) == rest);
}

/// Whether `s` holds no white space.
pub open spec fn is_one_word(s: Seq<char>) -> bool {
    forall|i: int| 0 <= i < s.len() ==> !text::is_space(#[trigger] s[i])
}

/// A host and a port as one word.
proof fn lemma_authority_is_a_word(host: Seq<char>, port: u16)
    requires
        is_one_word(host),
    ensures
        is_one_word(host.push(':') + text::decimal(port as nat)),
        text::unsigned_value(text::decimal(port as nat), 65535) == Some(port as nat),
{
    let digits = text::decimal(port as nat);
    text::lemma_decimal_reads_back(port as nat);
    assert(text::is_digit(digits[0]));
    let word = host.push(':') + digits;
    assert forall|i: int| 0 <= i < word.len() implies !text::is_space(#[trigger] word[i]) by {
        if i < host.len() {
            assert(word[i] == host[i]);
        } else if i > host.len() {
            assert(word[i] == digits[i - host.len() - 1]);
        }
    }
}

/// The lines of a `CONNECT` request, up to its headers.
proof fn lemma_request_lines(host: Seq<char>, port: u16, auth: Option<(Seq<char>, Seq<char>)>) -> (
    rest: Seq<char>)
    requires
        is_one_word(host),
    ensures
        ({
            let authority = host.push(':') + text::decimal(port as nat);
            let (line, behind) = first_line(connect_text(host, port, auth));
            &&& line == "CONNECT"@ + (seq![' '] + authority + (seq![' '] + "HTTP/1.1"@ + seq![
                '\r',
            ]))
            &&& first_line(behind) == ("Host:"@ + (seq![' '] + authority + seq!['\r']), rest)
        }),
        rest == match auth {
            Some((user, pass)) => "Proxy-Authorization: Basic "@ + base64_text(
                vstd::utf8::encode_utf8(user.push(':') + pass),
            ) + "\r\n"@,
            None => Seq::empty(),
        } + "Proxy-Connection: keep-alive\r\n\r\n"@,
{
    let authority = host.push(':') + text::decimal(port as nat);
    lemma_authority_is_a_word(host, port);
    let header = match auth {
        Some((user, pass)) => "Proxy-Authorization: Basic "@ + base64_text(credentials(user, pass))
            + "\r\n"@,
        None => Seq::empty(),
    };
    let rest = header + "Proxy-Connection: keep-alive\r\n\r\n"@;
    reveal_strlit("CONNECT ");
    reveal_strlit("CONNECT");
    reveal_strlit("HTTP/1.1");
    reveal_strlit(" HTTP/1.1\r\nHost: ");
    reveal_strlit("Host:");
    reveal_strlit("\r\n");
    let line = "CONNECT"@ + (seq![' '] + authority + (seq![' '] + "HTTP/1.1"@ + seq!['\r']));
    let host_line = "Host:"@ + (seq![' '] + authority + seq!['\r']);
    assert("CONNECT "@ =~= "CONNECT"@ + seq![' ']);
    assert(" HTTP/1.1\r\nHost: "@ =~= seq![' '] + "HTTP/1.1"@ + seq!['\r', '\n'] + "Host:"@ + seq![
        ' ',
    ]);
    assert("\r\n"@ =~= seq!['\r', '\n']);
    assert(connect_text(host, port, auth) =~= line.push('\n') + (host_line.push('\n') + rest));
    assert forall|i: int| 0 <= i < line.len() implies #[trigger] line[i] != '\n' by {
        if 8 <= i < 8 + authority.len() {
            assert(line[i] == authority[i - 8]);
        }
    }
    assert forall|i: int| 0 <= i < host_line.len() implies #[trigger] host_line[i] != '\n' by {
        if 6 <= i < 6 + authority.len() {
            assert(host_line[i] == authority[i - 6]);
        }
    }
    lemma_first_line(line, host_line.push('\n') + rest);
    lemma_first_line(host_line, rest);
    rest
}

/// A `CONNECT` request names the host and the port that it is for. Its first line
/// is `CONNECT`, the host, a colon and a number that reads back as the port, and
/// the version; its second line repeats host and port behind `Host:`. There are no
/// other headers than the credentials, if any, and one that keeps the connection.
pub proof fn law_request_names_host_and_port(
    host: Seq<char>,
    port: u16,
    auth: Option<(Seq<char>, Seq<char>)>,
    request: Seq<u8>,
) -> (number: Seq<char>)
    requires
        is_one_word(host),
        request == vstd::utf8::encode_utf8(connect_text(host, port, auth)),
    ensures
        text::unsigned_value(number, 65535) == Some(port as nat),
        ({
            let (line, behind) = first_line(vstd::utf8::decode_utf8(request));
            let (method, target) = text::next_word(line)->Some_0;
            let (authority, version) = text::next_word(target)->Some_0;
            let (name, named) = text::next_word(first_line(behind).0)->Some_0;
            &&& text::next_word(line) is Some && method == "CONNECT"@
            &&& text::next_word(target) is Some && authority == host.push(':') + number
            &&& text::next_word(version) == Some(("HTTP/1.1"@, seq!['\r']))
            &&& text::next_word(first_line(behind).0) is Some && name == "Host:"@
            &&& text::next_word(named) == Some((host.push(':') + number, seq!['\r']))
            &&& first_line(behind).1 == match auth {
                Some((user, pass)) => "Proxy-Authorization: Basic "@ + base64_text(
                    vstd::utf8::encode_utf8(user.push(':') + pass),
                ) + "\r\n"@,
                None => Seq::empty(),
            } + "Proxy-Connection: keep-alive\r\n\r\n"@
        }),
{
    let number = text::decimal(port as nat);
    let authority = host.push(':') + number;
    lemma_authority_is_a_word(host, port);
    vstd::utf8::encode_utf8_decode_utf8(connect_text(host, port, auth));
    let rest = lemma_request_lines(host, port, auth);
    let none = Seq::<char>::empty();
    let gap = seq![' '];
    assert(text::is_blank(gap));
    let version = gap + "HTTP/1.1"@ + seq!['\r'];
    let target = gap + authority + version;
    let named = gap + authority + seq!['\r'];
    reveal_strlit("CONNECT");
    reveal_strlit("HTTP/1.1");
    reveal_strlit("Host:");
    text::law_word_stands_between_blanks(none, "CONNECT"@, target);
    assert(none + "CONNECT"@ + target == "CONNECT"@ + target);
    text::law_word_stands_between_blanks(gap, authority, version);
    text::law_word_stands_between_blanks(gap, "HTTP/1.1"@, seq!['\r']);
    text::law_word_stands_between_blanks(none, "Host:"@, named);
    assert(none + "Host:"@ + named == "Host:"@ + named);
    text::law_word_stands_between_blanks(gap, authority, seq!['\r']);
    number
}

/// A host, a colon and digits can be told apart again.
proof fn lemma_authority_splits(h: Seq<char>, d: Seq<char>, i: Seq<char>, e: Seq<char>)
    requires
        text::all_digits(d),
        text::all_digits(e),
        h.push(':') + d == i.push(':') + e,
    ensures
        h == i,
        d == e,
{
    let x = h.push(':') + d;
    let y = i.push(':') + e;
    assert(x == y);
    assert(x.len() == h.len() + 1 + d.len() && y.len() == i.len() + 1 + e.len());
    if h.len() < i.len() {
        assert(y[i.len() as int] == ':');
        assert(x[i.len() as int] == d[i.len() - h.len() - 1]);
    } else if h.len() > i.len() {
        assert(x[h.len() as int] == ':');
        assert(y[h.len() as int] == e[h.len() - i.len() - 1]);
    }
    assert(x.take(h.len() as int) == h);
    assert(y.take(i.len() as int) == i);
    assert(x.skip(h.len() as int + 1) == d);
    assert(y.skip(i.len() as int + 1) == e);
}

/// Requests for another host or another port differ, whatever their credentials.
pub proof fn law_requests_for_other_targets_differ(
    host: Seq<char>,
    port: u16,
    auth: Option<(Seq<char>, Seq<char>)>,
    other_host: Seq<char>,
    other_port: u16,
    other_auth: Option<(Seq<char>, Seq<char>)>,
)
    requires
        is_one_word(host),
        is_one_word(other_host),
        vstd::utf8::encode_utf8(connect_text(host, port, auth)) == vstd::utf8::encode_utf8(
            connect_text(other_host, other_port, other_auth),
        ),
    ensures
        host == other_host,
        port == other_port,
{
    let request = vstd::utf8::encode_utf8(connect_text(host, port, auth));
    let (n, m) = (text::decimal(port as nat), text::decimal(other_port as nat));
    let x = host.push(':') + n;
    let y = other_host.push(':') + m;
    vstd::utf8::encode_utf8_decode_utf8(connect_text(host, port, auth));
    vstd::utf8::encode_utf8_decode_utf8(connect_text(other_host, other_port, other_auth));
    let r1 = lemma_request_lines(host, port, auth);
    let r2 = lemma_request_lines(other_host, other_port, other_auth);
    let tail = seq![' '] + "HTTP/1.1"@ + seq!['\r'];
    let line1 = "CONNECT"@ + (seq![' '] + x + tail);
    let line2 = "CONNECT"@ + (seq![' '] + y + tail);
    assert(line1 == line2);
    let k = "CONNECT"@.len() as int + 1;
    assert(x.len() == y.len());
    assert(line1.subrange(k, k + x.len()) == x);
    assert(line2.subrange(k, k + y.len()) == y);
    text::lemma_decimal_reads_back(port as nat);
    text::lemma_decimal_reads_back(other_port as nat);
    lemma_authority_splits(host, n, other_host, m);
}

/// Credentials add one header to a request and change nothing else in it: the
/// request without them, cut in two behind the lines that name the target, with
/// the header in between.
pub proof fn law_credentials_are_one_header_more(
    host: Seq<char>,
    port: u16,
    user: Seq<char>,
    pass: Seq<char>,
) -> (parts: (Seq<char>, Seq<char>))
    ensures
        connect_text(host, port, None) == parts.0 + parts.1,
        connect_text(host, port, Some((user, pass))) == parts.0 + ("Proxy-Authorization: Basic "@
            + base64_text(vstd::utf8::encode_utf8(user.push(':') + pass)) + "\r\n"@) + parts.1,
        parts.1 == "Proxy-Connection: keep-alive\r\n\r\n"@,
{
    let authority = host.push(':') + text::decimal(port as nat);
    let front = "CONNECT "@ + authority + " HTTP/1.1\r\nHost: "@ + authority + "\r\n"@;
    let back = "Proxy-Connection: keep-alive\r\n\r\n"@;
    let header = "Proxy-Authorization: Basic "@ + base64_text(credentials(user, pass)) + "\r\n"@;
    assert(connect_text(host, port, None) =~= front + back);
    assert(connect_text(host, port, Some((user, pass))) =~= front + header + back);
    (front, back)
}

/// The user is what stands before the first colon of the credentials, and the
/// password what stands behind it; a proxy has credentials where it has both.
pub proof fn law_credentials_read_back(user: Seq<char>, pass: Seq<char>, cfg: ProxyModel)
    requires
        !user.contains(':'),
    ensures
        text::split_once(vstd::utf8::decode_utf8(credentials(user, pass)), ':') == Some(
            (user, pass),
        ),
        configured_auth(cfg) is Some <==> cfg.username is Some && cfg.password is Some,
        configured_auth(cfg) is Some ==> configured_auth(cfg)->Some_0 == (
            cfg.username->Some_0,
            cfg.password->Some_0,
        ),
{
    let s = user.push(':') + pass;
    vstd::utf8::encode_utf8_decode_utf8(s);
    let colon = seq![':'];
    let n = user.len() as int;
    assert forall|i: int| 0 <= i < n implies !colon.contains(#[trigger] s[i]) by {
        assert(s[i] == user[i]);
        assert(user.contains(user[i]));
    }
    assert(s[n] == ':' && colon[0] == ':');
    text::lemma_first_of(s, colon, n);
    assert(s.take(n) == user);
    assert(s.skip(n + 1) == pass);
}

/// The text of a target's host is its hostname, or reads back as its address.
pub proof fn law_target_text_reads_back(target: Target)
    ensures
        target matches Target::Ip(ip, port) ==> addr_text::ip_text(target.host_text()) == Some(ip)
            && target.port_spec() == port,
        target matches Target::Domain(host, port) ==> target.host_text() == host@
            && target.port_spec() == port,
{
    if let Target::Ip(ip, _) = target {
        addr_text::law_ip_text_round_trip(ip);
    }
}

/// A status line `HTTP/1.x NNN` has the status that its number is, whatever blanks
/// stand before the number and whatever stands behind it.
pub proof fn law_status_is_read(minor: Seq<char>, gap: Seq<char>, status: u16, tail: Seq<char>)
    requires
        is_one_word(minor),
        gap.len() > 0,
        text::is_blank(gap),
        !gap.contains('\n'),
        tail.len() > 0 ==> text::is_space(tail[0]),
    ensures
        http_status(
            vstd::utf8::encode_utf8(
                "HTTP/1."@ + minor + (gap + text::decimal(status as nat) + tail),
            ),
        ) == Some(status as nat),
{
    let digits = text::decimal(status as nat);
    let version = "HTTP/1."@ + minor;
    let all = version + (gap + digits + tail);
    vstd::utf8::encode_utf8_valid_utf8(all);
    vstd::utf8::encode_utf8_decode_utf8(all);
    reveal_strlit("HTTP/1.");
    text::lemma_decimal_reads_back(status as nat);
    let feed = seq!['\n'];
    assert(feed[0] == '\n');
    let k = text::first_of(tail, feed);
    text::lemma_first_of_bounds(tail, feed);
    let n = version.len() + gap.len() + digits.len() + k;
    assert forall|i: int| 0 <= i < n implies !feed.contains(#[trigger] all[i]) by {
        if i < 7 {
        } else if i < version.len() {
            assert(all[i] == minor[i - 7]);
        } else if i < version.len() + gap.len() {
            assert(all[i] == gap[i - version.len()]);
            assert(gap.contains(gap[i - version.len()]));
        } else if i < version.len() + gap.len() + digits.len() {
            assert(all[i] == digits[i - version.len() - gap.len()]);
        } else {
            assert(all[i] == tail[i - version.len() - gap.len() - digits.len()]);
        }
    }
    if n < all.len() {
        assert(all[n] == tail[k]);
    }
    text::lemma_first_of(all, feed, n);
    let line = all.take(n);
    let rest = tail.take(k);
    assert(line =~= version + (gap + digits + rest));
    assert(line.take(7) =~= seq!['H', 'T', 'T', 'P', '/', '1', '.']);
    let none = Seq::<char>::empty();
    assert forall|i: int| 0 <= i < version.len() implies !text::is_space(#[trigger] version[i]) by {
        if i >= 7 {
            assert(version[i] == minor[i - 7]);
        }
    }
    let behind = gap + digits + rest;
    assert(behind[0] == gap[0]);
    text::law_word_stands_between_blanks(none, version, behind);
    assert(none + version + behind == line);
    if rest.len() > 0 {
        assert(rest[0] == tail[0]);
    }
    text::law_word_stands_between_blanks(gap, digits, rest);
    assert(text::is_digit(digits[0]));
}

/// A response has a status only where it begins with `HTTP/1.`.
pub proof fn law_status_needs_http_1(response: Seq<u8>)
    requires
        http_status(response) is Some,
    ensures
        vstd::utf8::decode_utf8(response).len() >= 7,
        vstd::utf8::decode_utf8(response).take(7) == "HTTP/1."@,
        http_status(response)->Some_0 <= 65535,
{
    reveal_strlit("HTTP/1.");
    let text = vstd::utf8::decode_utf8(response);
    text::lemma_first_of_bounds(text, seq!['\n']);
    let line = text.take(text::first_of(text, seq!['\n']));
    assert(line.take(7) == text.take(7));
    assert(text.take(7) =~= "HTTP/1."@);
}

/// The headers of a response end with the first carriage return, line feed,
/// carriage return, line feed; without one they are not complete, which is waited
/// for up to 65536 octets.
pub proof fn law_headers_end_with_the_first_blank_line(response: Seq<u8>)
    ensures
        headers_len(response) matches Some(n) ==> {
            &&& 4 <= n <= response.len()
            &&& response[n - 4] == 13 && response[n - 3] == 10
            &&& response[n - 2] == 13 && response[n - 1] == 10
            &&& forall|i: int|
                0 <= i < n - 4 ==> !(#[trigger] response[i] == 13 && response[i + 1] == 10
                    && response[i + 2] == 13 && response[i + 3] == 10)
        },
        headers_len(response) is None ==> forall|i: int|
            0 <= i <= response.len() - 4 ==> !(#[trigger] response[i] == 13 && response[i + 1] == 10
                && response[i + 2] == 13 && response[i + 3] == 10),
        headers_len(response) is None ==> connect_outcome(response) == if response.len() > 65536 {
            ConnectStep::Failed(ProxyError::HeadersTooLarge)
        } else {
            ConnectStep::ReadMore
        },
    decreases response.len(),
{
    if response.len() >= 4 && !blank_line_at(response, 0) {
        let rest = response.drop_first();
        law_headers_end_with_the_first_blank_line(rest);
        let n = match headers_len(response) {
            Some(n) => n - 4,
            None => response.len() - 3,
        };
        assert forall|i: int| 0 <= i < n implies !(#[trigger] response[i] == 13 && response[i + 1]
            == 10 && response[i + 2] == 13 && response[i + 3] == 10) by {
            if i > 0 {
                assert(rest[i - 1] == response[i]);
            }
        }
    }
}

/// A complete response with status 200 opens the tunnel, one with any other
/// status fails with that status, and one that cannot be read is invalid.
pub proof fn law_response_decides_by_its_status(headers: Seq<u8>, tunnel: Seq<u8>)
    requires
        headers_len(headers) == Some(headers.len()),
    ensures
        http_status(headers) == Some(200nat) <==> connect_outcome(headers + tunnel)
            == ConnectStep::Established,
        http_status(headers) is None ==> connect_outcome(headers + tunnel) == ConnectStep::Failed(
            ProxyError::InvalidResponse,
        ),
        http_status(headers) is Some && http_status(headers) != Some(200nat) ==> connect_outcome(
            headers + tunnel,
        ) == ConnectStep::Failed(
            ProxyError::ConnectFailed(http_status(headers)->Some_0 as u16),
        ),
{
    law_tunnel_keeps_what_follows_the_headers(headers, tunnel);
    assert(headers.take(headers.len() as int) == headers);
}

/// The greeting is version 5, the number of methods, and the methods: always the
/// one without credentials, and the one with user name and password where there
/// are credentials to offer.
pub proof fn law_greeting_counts_its_methods(use_auth: bool)
    ensures
        greeting(use_auth).len() >= 3,
        greeting(use_auth)[0] == 5,
        greeting(use_auth)[1] == greeting(use_auth).len() - 2,
        greeting(use_auth).skip(2).contains(0u8),
        greeting(use_auth).skip(2).contains(2u8) <==> use_auth,
        forall|i: int|
            2 <= i < greeting(use_auth).len() ==> #[trigger] greeting(use_auth)[i] == 0 || greeting(
                use_auth,
            )[i] == 2,
{
    let methods = greeting(use_auth).skip(2);
    assert(methods[0] == 0);
    if use_auth {
        assert(methods[1] == 2);
    }
}

/// The message with the credentials gives each of them back: its length stands
/// before it.
pub proof fn law_userpass_reads_back(user: Seq<u8>, pass: Seq<u8>)
    requires
        user.len() <= 255,
        pass.len() <= 255,
    ensures
        ({
            let m = userpass(user, pass);
            let n = m[1] as int;
            &&& m[0] == 1
            &&& n == user.len()
            &&& m.subrange(2, 2 + n) == user
            &&& m[2 + n] == pass.len()
            &&& m.skip(3 + n) == pass
        }),
{
    let m = userpass(user, pass);
    let n = user.len() as int;
    assert(m[1] == n);
    assert(m.subrange(2, 2 + n) =~= user);
    assert(m[2 + n] == pass.len());
    assert(m.skip(3 + n) =~= pass);
}

/// A `CONNECT` request names its target: version 5, command 1 and a zero, the type
/// and the octets of the address or the length and the octets of the hostname,
/// and the port, high octet first. Only a hostname that is empty or longer than
/// 255 octets cannot be asked for.
pub proof fn law_connect_request_names_its_target(dest: Target)
    ensures
        connect_request(dest) is None <==> dest is Domain && (dest.host_text().len() == 0
            || vstd::utf8::encode_utf8(dest.host_text()).len() > 255),
        connect_request(dest) matches Some(r) ==> {
            let n = r.len() as int;
            &&& r[0] == 5 && r[1] == 1 && r[2] == 0
            &&& dest matches Target::Ip(IpAddr::V4(v4), port) ==> n == 10 && r[3] == 1
                && r.subrange(4, 8) == v4.octets_spec() && r[8] * 256 + r[9] == port
            &&& dest matches Target::Ip(IpAddr::V6(v6), port) ==> n == 22 && r[3] == 4
                && r.subrange(4, 20) == v6.octets_spec() && r[20] * 256 + r[21] == port
            &&& dest matches Target::Domain(host, port) ==> r[3] == 3 && n == 7 + r[4]
                && r.subrange(5, n - 2) == vstd::utf8::encode_utf8(host@) && r[n - 2] * 256 + r[n
                - 1] == port
        },
{
    let port = dest.port_spec();
    reveal_with_fuel(bytes::be_bytes, 3);
    let p = bytes::be_bytes(port as nat, 2);
    assert(p.len() == 2 && p[0] == port / 256 && p[1] == port % 256);
    match dest {
        Target::Ip(IpAddr::V4(v4), _) => {
            bytes::lemma_be_bytes(v4.bits as nat, 4);
            let r = connect_request(dest)->Some_0;
            assert(r.subrange(4, 8) =~= v4.octets_spec());
            assert(r[8] == p[0] && r[9] == p[1]);
        },
        Target::Ip(IpAddr::V6(v6), _) => {
            bytes::lemma_be_bytes(v6.bits as nat, 16);
            let r = connect_request(dest)->Some_0;
            assert(r.subrange(4, 20) =~= v6.octets_spec());
            assert(r[20] == p[0] && r[21] == p[1]);
        },
        Target::Domain(host, _) => {
            let name = vstd::utf8::encode_utf8(host@);
            if host@.len() > 0 {
                vstd::utf8::encode_utf8_first_scalar(host@);
                vstd::utf8::encode_utf8_decode_utf8(host@);
            }
            if let Some(r) = connect_request(dest) {
                let n = r.len() as int;
                assert(n == 7 + name.len());
                assert(r.subrange(5, n - 2) =~= name);
                assert(r[n - 2] == p[0] && r[n - 1] == p[1]);
            }
        },
    }
}

/// What the proxy's choice of method leads to: none but version 5 is spoken, the
/// request follows where no credentials are asked for, the credentials where they
/// are, and every other method ends the handshake.
pub proof fn law_method_decides_what_is_sent(cfg: ProxyModel, dest: Target, octets: Seq<u8>)
    requires
        octets.len() == 2,
    ensures
        octets[0] != 5 ==> socks5_next(cfg, dest, Socks5Await::Method, octets)
            == Socks5Model::Failed(ProxyError::BadVersion),
        octets[0] == 5 && octets[1] != 0 && octets[1] != 2 ==> socks5_next(
            cfg,
            dest,
            Socks5Await::Method,
            octets,
        ) == Socks5Model::Failed(ProxyError::NoAcceptableMethod),
        octets[0] == 5 && octets[1] == 0 && connect_request(dest) is Some ==> socks5_next(
            cfg,
            dest,
            Socks5Await::Method,
            octets,
        ) == Socks5Model::Exchange(connect_request(dest)->Some_0, 4, Socks5Await::ReplyHeader),
        octets[0] == 5 && octets[1] == 0 && connect_request(dest) is None ==> socks5_next(
            cfg,
            dest,
            Socks5Await::Method,
            octets,
        ) == Socks5Model::Failed(ProxyError::InvalidDomainLength),
        octets[0] == 5 && octets[1] == 2 && (cfg.username is None || cfg.password is None)
            ==> socks5_next(cfg, dest, Socks5Await::Method, octets) == Socks5Model::Failed(
            ProxyError::AuthNotConfigured,
        ),
        octets[0] == 5 && octets[1] == 2 && cfg.username is Some && cfg.password is Some ==> ({
            let user = vstd::utf8::encode_utf8(cfg.username->Some_0);
            let pass = vstd::utf8::encode_utf8(cfg.password->Some_0);
            socks5_next(cfg, dest, Socks5Await::Method, octets) == if user.len() > 255 || pass.len()
                > 255 {
                Socks5Model::Failed(ProxyError::CredentialTooLong)
            } else {
                Socks5Model::Exchange(userpass(user, pass), 2, Socks5Await::AuthStatus)
            }
        }),
{
}

/// The request follows the credentials only where the proxy accepted them with a
/// zero, and as it would have without them; any other verdict ends the handshake.
pub proof fn law_verdict_must_be_zero(cfg: ProxyModel, dest: Target, octets: Seq<u8>)
    requires
        octets.len() == 2,
    ensures
        octets[1] != 0 ==> socks5_next(cfg, dest, Socks5Await::AuthStatus, octets)
            == Socks5Model::Failed(ProxyError::AuthFailed),
        octets[1] == 0 ==> socks5_next(cfg, dest, Socks5Await::AuthStatus, octets) == socks5_next(
            cfg,
            dest,
            Socks5Await::Method,
            seq![5u8, 0],
        ),
{
}

/// The handshake goes on after the start of the reply only where that is version 5
/// with reply code 0: whatever else stands there, the step is a rejection with
/// the code that was sent.
pub proof fn law_reply_code_must_be_zero(cfg: ProxyModel, dest: Target, octets: Seq<u8>)
    requires
        octets.len() == 4,
    ensures
        octets[0] != 5 || octets[1] != 0 ==> socks5_next(
            cfg,
            dest,
            Socks5Await::ReplyHeader,
            octets,
        ) == Socks5Model::Failed(ProxyError::Rejected(octets[1])),
        octets[0] == 5 && octets[1] == 0 ==> !(socks5_next(
            cfg,
            dest,
            Socks5Await::ReplyHeader,
            octets,
        ) matches Socks5Model::Failed(ProxyError::Rejected(_))),
{
}

/// What is read behind the start of an accepted reply: the four or sixteen octets
/// of an address, or a hostname with its length before it, and two octets of
/// port; nothing is sent meanwhile. An address of any other type is an error.
pub proof fn law_reply_is_read_to_its_end(
    cfg: ProxyModel,
    dest: Target,
    octets: Seq<u8>,
    len: Seq<u8>,
)
    requires
        octets.len() == 4,
        octets[0] == 5,
        octets[1] == 0,
        len.len() == 1,
    ensures
        octets[3] == 1 ==> socks5_next(cfg, dest, Socks5Await::ReplyHeader, octets)
            == Socks5Model::Exchange(Seq::empty(), 4 + 2, Socks5Await::BoundAddress),
        octets[3] == 4 ==> socks5_next(cfg, dest, Socks5Await::ReplyHeader, octets)
            == Socks5Model::Exchange(Seq::empty(), 16 + 2, Socks5Await::BoundAddress),
        octets[3] == 3 ==> socks5_next(cfg, dest, Socks5Await::ReplyHeader, octets)
            == Socks5Model::Exchange(Seq::empty(), 1, Socks5Await::DomainLength),
        socks5_next(cfg, dest, Socks5Await::DomainLength, len) == Socks5Model::Exchange(
            Seq::empty(),
            (len[0] + 2) as nat,
            Socks5Await::BoundAddress,
        ),
        octets[3] != 1 && octets[3] != 3 && octets[3] != 4 ==> socks5_next(
            cfg,
            dest,
            Socks5Await::ReplyHeader,
            octets,
        ) == Socks5Model::Failed(ProxyError::UnknownAddressType),
{
}

/// A handshake as far as it went: each part that the proxy sent, with its octets.
/// The first is the method, and each next one is what the step before asked for.
pub open spec fn is_handshake(
    cfg: ProxyModel,
    dest: Target,
    parts: Seq<(Socks5Await, Seq<u8>)>,
) -> bool {
    &&& parts.len() > 0
    &&& parts[0].0 == Socks5Await::Method
    &&& forall|i: int|
        0 < i < parts.len() ==> (socks5_next(
            cfg,
            dest,
            (#[trigger] parts[i - 1]).0,
            parts[i - 1].1,
        ) matches Socks5Model::Exchange(_, len, next) && parts[i].0 == next && parts[i].1.len()
            == len)
}

/// The tunnel opens only where the proxy replied with version 5 and code 0 to the
/// request for the target, and, where it asked for credentials, accepted them.
pub proof fn law_tunnel_opens_on_reply_code_zero_only(
    cfg: ProxyModel,
    dest: Target,
    parts: Seq<(Socks5Await, Seq<u8>)>,
)
    requires
        is_handshake(cfg, dest, parts),
        socks5_next(cfg, dest, parts.last().0, parts.last().1) == Socks5Model::Established,
    ensures
        exists|i: int|
            0 <= i < parts.len() && (#[trigger] parts[i]).0 == Socks5Await::ReplyHeader
                && parts[i].1[0] == 5 && parts[i].1[1] == 0,
        forall|i: int|
            0 <= i < parts.len() && (#[trigger] parts[i]).0 == Socks5Await::AuthStatus
                ==> parts[i].1[1] == 0,
        parts[0].1[0] == 5,
{
    let n = parts.len() - 1;
    lemma_reply_came_before(cfg, dest, parts, n);
    assert forall|i: int|
        0 <= i < parts.len() && (#[trigger] parts[i]).0 == Socks5Await::AuthStatus implies
        parts[i].1[1] == 0 by {
        assert(parts[(i + 1) - 1] == parts[i]);
    }
    assert(parts[1 - 1] == parts[0]);
}

proof fn lemma_reply_came_before(
    cfg: ProxyModel,
    dest: Target,
    parts: Seq<(Socks5Await, Seq<u8>)>,
    n: int,
)
    requires
        is_handshake(cfg, dest, parts),
        0 <= n < parts.len(),
        parts[n].0 == Socks5Await::DomainLength || parts[n].0 == Socks5Await::BoundAddress,
    ensures
        exists|i: int|
            0 <= i < parts.len() && (#[trigger] parts[i]).0 == Socks5Await::ReplyHeader
                && parts[i].1[0] == 5 && parts[i].1[1] == 0,
    decreases n,
{
    assert(n > 0);
    let before = parts[n - 1];
    if before.0 == Socks5Await::DomainLength {
        lemma_reply_came_before(cfg, dest, parts, n - 1);
    } else {
        assert(before.0 == Socks5Await::ReplyHeader);
        assert(before.1[0] == 5 && before.1[1] == 0);
    }
}

/// A failure is told with its code: two rejections, or two failed requests, are
/// described alike only where their codes are the same.
pub proof fn law_failures_tell_their_code(a: u8, b: u8, x: u16, y: u16)
    ensures
        ProxyError::Rejected(a).text() == ProxyError::Rejected(b).text() ==> a == b,
        ProxyError::ConnectFailed(x).text() == ProxyError::ConnectFailed(y).text() ==> x == y,
{
    text::lemma_decimal_reads_back(a as nat);
    text::lemma_decimal_reads_back(b as nat);
    text::lemma_decimal_reads_back(x as nat);
    text::lemma_decimal_reads_back(y as nat);
    let (da, db) = (text::decimal(a as nat), text::decimal(b as nat));
    let (dx, dy) = (text::decimal(x as nat), text::decimal(y as nat));
    let rejected = "SOCKS5 CONNECT rejected (reply="@;
    let failed = "HTTP CONNECT failed with status "@;
    let (ta, tb) = (ProxyError::Rejected(a).text(), ProxyError::Rejected(b).text());
    let (tx, ty) = (ProxyError::ConnectFailed(x).text(), ProxyError::ConnectFailed(y).text());
    let k = rejected.len() as int;
    let l = failed.len() as int;
    if ta == tb {
        assert(ta.len() == k + da.len() + ")"@.len() && tb.len() == k + db.len() + ")"@.len());
        assert(ta.subrange(k, k + da.len()) =~= da);
        assert(tb.subrange(k, k + db.len()) =~= db);
    }
    if tx == ty {
        assert(tx.skip(l) =~= dx);
        assert(ty.skip(l) =~= dy);
    }
}

/// A status is what the second word of the first line reads as.
pub proof fn law_status_is_the_second_word(response: Seq<u8>)
    requires
        http_status(response) is Some,
    ensures
        ({
            let line = first_line(vstd::utf8::decode_utf8(response)).0;
            let rest = text::next_word(line)->Some_0.1;
            &&& vstd::utf8::valid_utf8(response)
            &&& text::next_word(line) is Some
            &&& text::next_word(rest) is Some
            &&& text::unsigned_value(text::next_word(rest)->Some_0.0, 65535) == http_status(
                response,
            )
        }),
{
}

/// A read of nothing means that the proxy closed the connection, whatever came
/// before; any other read counts with what came before it.
pub proof fn law_empty_read_means_closed(received: Seq<u8>, chunk: Seq<u8>)
    ensures
        chunk.len() == 0 ==> read_outcome(received, chunk) == ConnectStep::Failed(
            ProxyError::ClosedDuringConnect,
        ),
        chunk.len() > 0 ==> read_outcome(received, chunk) == connect_outcome(received + chunk),
{
}

/// The whole of a request without credentials, whatever its host is: host and port
/// stand in it twice, the port as a number that reads back.
pub proof fn law_request_in_full(host: Seq<char>, port: u16) -> (number: Seq<char>)
    ensures
        text::unsigned_value(number, 65535) == Some(port as nat),
        connect_text(host, port, None) == "CONNECT "@ + host + ":"@ + number
            + " HTTP/1.1\r\nHost: "@ + host + ":"@ + number
            + "\r\nProxy-Connection: keep-alive\r\n\r\n"@,
{
    let number = text::decimal(port as nat);
    text::lemma_decimal_reads_back(port as nat);
    assert(text::is_digit(number[0]));
    reveal_strlit(":");
    reveal_strlit("\r\n");
    reveal_strlit("Proxy-Connection: keep-alive\r\n\r\n");
    reveal_strlit("\r\nProxy-Connection: keep-alive\r\n\r\n");
    let end = "Proxy-Connection: keep-alive\r\n\r\n"@;
    assert("\r\n"@ + end =~= "\r\nProxy-Connection: keep-alive\r\n\r\n"@);
    assert(":"@ =~= seq![':']);
    assert(connect_text(host, port, None) =~= "CONNECT "@ + host + ":"@ + number
        + " HTTP/1.1\r\nHost: "@ + host + ":"@ + number + ("\r\n"@ + end));
    number
}

} // verus!
