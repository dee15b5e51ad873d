//! Handshakes with upstream proxies.

use ace_tun::addr::{IpAddr, Ipv4Addr};
use ace_tun::config::ProxyConfig;
use ace_tun::error::IoKind;
use ace_tun::proxy::{
    build_http_connect_request, build_socks5_connect_request, build_socks5_greeting,
    build_socks5_userpass, http_connect_request, parse_http_status, socks5_start, socks5_step,
    ConnectResponse, ConnectStep, ProxyError, Socks5Step, Target,
};

#[test]
fn http_connect_request_no_auth() {
    let req = build_http_connect_request("example.com", 443, None);
    let text = String::from_utf8(req).unwrap();
    assert!(text.starts_with("CONNECT example.com:443 HTTP/1.1\r\n"));
    assert!(text.contains("Host: example.com:443\r\n"));
    assert!(!text.contains("Proxy-Authorization"));
    assert!(text.ends_with("\r\n\r\n"));
}

#[test]
fn http_connect_request_with_auth() {
    let req = build_http_connect_request("1.2.3.4", 80, Some(("user", "pass")));
    let text = String::from_utf8(req).unwrap();
    // base64("user:pass") == "dXNlcjpwYXNz"
    assert!(text.contains("Proxy-Authorization: Basic dXNlcjpwYXNz\r\n"));
}

#[test]
fn credentials_of_every_length_are_encoded() {
    let encoded = |user: &str, pass: &str| {
        let req = build_http_connect_request("h", 1, Some((user, pass)));
        let text = String::from_utf8(req).unwrap();
        let start = text.find("Basic ").unwrap() + 6;
        text[start..].split('\r').next().unwrap().to_string()
    };
    assert_eq!(encoded("", ""), "Og==");
    assert_eq!(encoded("a", ""), "YTo=");
    assert_eq!(encoded("a", "b"), "YTpi");
    assert_eq!(encoded("\u{fb}\u{ff}", "~"), "w7vDvzp+");
}

#[test]
fn http_status_parsing() {
    assert_eq!(
        parse_http_status(b"HTTP/1.1 200 Connection established\r\n"),
        Some(200)
    );
    assert_eq!(
        parse_http_status(b"HTTP/1.0 407 Proxy Auth Required\r\n"),
        Some(407)
    );
    assert_eq!(parse_http_status(b"garbage"), None);
}

#[test]
fn socks5_greeting_bytes() {
    assert_eq!(build_socks5_greeting(false), vec![0x05, 0x01, 0x00]);
    assert_eq!(build_socks5_greeting(true), vec![0x05, 0x02, 0x00, 0x02]);
}

#[test]
fn socks5_connect_request_ipv4() {
    let dest = Target::Ip(IpAddr::V4(Ipv4Addr::new(93, 184, 216, 34)), 443);
    let req = build_socks5_connect_request(&dest).unwrap();
    assert_eq!(
        req,
        vec![0x05, 0x01, 0x00, 0x01, 93, 184, 216, 34, 0x01, 0xBB]
    );
}

#[test]
fn socks5_connect_request_domain() {
    let dest = Target::Domain("example.com".to_string(), 80);
    let req = build_socks5_connect_request(&dest).unwrap();
    assert_eq!(req[0..4], [0x05, 0x01, 0x00, 0x03]);
    assert_eq!(req[4], 11); // len("example.com")
    assert_eq!(&req[5..16], b"example.com");
    assert_eq!(&req[16..18], &[0x00, 0x50]); // port 80
}

#[test]
fn socks5_userpass_bytes() {
    let buf = build_socks5_userpass("ab", "cde").unwrap();
    assert_eq!(buf, vec![0x01, 0x02, b'a', b'b', 0x03, b'c', b'd', b'e']);
}

#[test]
fn socks5_connect_request_ipv6() {
    let dest = Target::Ip(IpAddr::V6("2001:db8::1".parse().unwrap()), 443);
    let req = build_socks5_connect_request(&dest).unwrap();
    assert_eq!(req[0..4], [0x05, 0x01, 0x00, 0x04]); // ATYP IPv6
    assert_eq!(
        &req[4..20],
        &[0x20, 0x01, 0x0d, 0xb8, 0, 0, 0, 0, 0, 0, 0, 0, 0, 0, 0, 1]
    );
    assert_eq!(&req[20..22], &[0x01, 0xBB]); // port 443
}

// ── HTTP CONNECT handshakes ─────────────────────────────────────────────────

fn v4_target() -> Target {
    Target::Ip(IpAddr::V4(Ipv4Addr::new(1, 2, 3, 4)), 443)
}

/// The request that opens the tunnel, and what the reads of the response amount
/// to.
fn http_handshake(cfg: &ProxyConfig, dest: &Target, reads: &[&[u8]]) -> (String, ConnectStep) {
    let request = String::from_utf8(http_connect_request(cfg, dest)).unwrap();
    let mut response = ConnectResponse::new();
    for read in reads {
        let step = response.receive(read);
        if step != ConnectStep::ReadMore {
            return (request, step);
        }
    }
    (request, ConnectStep::ReadMore)
}

#[test]
fn http_connect_success() {
    let cfg = ProxyConfig::http("127.0.0.1", 8080);
    let (request, step) = http_handshake(
        &cfg,
        &v4_target(),
        &[b"HTTP/1.1 200 Connection established\r\n\r\n"],
    );
    assert!(request.starts_with("CONNECT "));
    assert_eq!(step, ConnectStep::Established);
}

#[test]
fn http_connect_407_rejected() {
    let cfg = ProxyConfig::http("127.0.0.1", 8080);
    let (_, step) = http_handshake(
        &cfg,
        &v4_target(),
        &[b"HTTP/1.1 407 Proxy Authentication Required\r\n\r\n"],
    );
    match step {
        ConnectStep::Failed(e) => assert!(e.message().contains("407")),
        other => panic!("expected a failure, got {other:?}"),
    }
}

#[test]
fn http_connect_malformed_status() {
    let cfg = ProxyConfig::http("127.0.0.1", 8080);
    let (_, step) = http_handshake(&cfg, &v4_target(), &[b"garbage response\r\n\r\n"]);
    match step {
        ConnectStep::Failed(e) => assert!(e.message().contains("invalid")),
        other => panic!("expected a failure, got {other:?}"),
    }
}

#[test]
fn http_connect_sends_basic_auth_header() {
    let cfg = ProxyConfig::http("127.0.0.1", 8080).with_auth("user", "pass");
    let (request, step) = http_handshake(
        &cfg,
        &v4_target(),
        &[b"HTTP/1.1 200 Connection established\r\n\r\n"],
    );
    assert!(request.contains("Proxy-Authorization: Basic dXNlcjpwYXNz"));
    assert_eq!(step, ConnectStep::Established);
}

#[test]
fn http_connect_no_auth_when_creds_unset() {
    let cfg = ProxyConfig::http("127.0.0.1", 8080);
    let (request, step) = http_handshake(
        &cfg,
        &v4_target(),
        &[b"HTTP/1.1 200 Connection established\r\n\r\n"],
    );
    assert!(!request.contains("Proxy-Authorization"));
    assert_eq!(step, ConnectStep::Established);
}

/// A response that arrives one octet at a time opens the tunnel at its last one.
#[test]
fn http_connect_partial_read() {
    let cfg = ProxyConfig::http("127.0.0.1", 8080);
    let octets: &[u8] = b"HTTP/1.1 200 Connection established\r\n\r\n";
    let reads: Vec<&[u8]> = octets.chunks(1).collect();
    let (_, step) = http_handshake(&cfg, &v4_target(), &reads);
    assert_eq!(step, ConnectStep::Established);
    let (_, step) = http_handshake(&cfg, &v4_target(), &reads[..reads.len() - 1]);
    assert_eq!(step, ConnectStep::ReadMore);
}

/// What follows the headers belongs to the tunnel, however the reads fall.
#[test]
fn octets_behind_the_headers_are_kept() {
    let octets: &[u8] = b"HTTP/1.1 200 OK\r\n\r\nhello\xff\r\n\r\n!";
    let headers = 19;
    for size in 1..=octets.len() {
        let mut response = ConnectResponse::new();
        let mut read = 0;
        let mut step = ConnectStep::ReadMore;
        for chunk in octets.chunks(size) {
            step = response.receive(chunk);
            read += chunk.len();
            if step != ConnectStep::ReadMore {
                break;
            }
        }
        assert_eq!(step, ConnectStep::Established, "{size}");
        assert!(read >= headers && read < headers + size);
        assert_eq!(response.behind_headers(), &octets[headers..read]);
    }
    let mut response = ConnectResponse::new();
    assert_eq!(response.receive(&octets[..headers - 1]), ConnectStep::ReadMore);
    assert!(response.behind_headers().is_empty());
}

#[test]
fn a_proxy_that_closes_during_connect_fails() {
    let cfg = ProxyConfig::http("127.0.0.1", 8080);
    let (_, step) = http_handshake(&cfg, &v4_target(), &[b"HTTP/1.1 200", b""]);
    assert_eq!(step, ConnectStep::Failed(ProxyError::ClosedDuringConnect));
}

#[test]
fn headers_without_end_are_too_large() {
    let cfg = ProxyConfig::http("127.0.0.1", 8080);
    let most = vec![b'x'; 65536];
    let (_, step) = http_handshake(&cfg, &v4_target(), &[&most]);
    assert_eq!(step, ConnectStep::ReadMore);
    let (_, step) = http_handshake(&cfg, &v4_target(), &[&most, b"x"]);
    assert_eq!(step, ConnectStep::Failed(ProxyError::HeadersTooLarge));
}

// ── SOCKS5 handshakes ───────────────────────────────────────────────────────

/// Runs a handshake against a proxy that sends `stream`: what was sent to it, and
/// how it ended.
fn socks5_handshake(
    cfg: &ProxyConfig,
    dest: &Target,
    stream: &[u8],
) -> (Vec<Vec<u8>>, Result<(), ProxyError>) {
    let mut sent = Vec::new();
    let mut pos = 0;
    let mut step = socks5_start(cfg);
    loop {
        match step {
            Socks5Step::Established => return (sent, Ok(())),
            Socks5Step::Failed(e) => return (sent, Err(e)),
            Socks5Step::Exchange { send, read, next } => {
                if !send.is_empty() {
                    sent.push(send);
                }
                let octets = &stream[pos..pos + read];
                pos += read;
                step = socks5_step(cfg, dest, next, octets);
            }
        }
    }
}

#[test]
fn socks5_no_auth_ipv4() {
    let cfg = ProxyConfig::socks5("127.0.0.1", 1080);
    let stream = [0x05, 0x00, 0x05, 0x00, 0x00, 0x01, 127, 0, 0, 1, 0x00, 0x00];
    let (sent, end) = socks5_handshake(&cfg, &v4_target(), &stream);
    assert_eq!(end, Ok(()));
    assert_eq!(sent[0], vec![0x05, 0x01, 0x00]);
    assert_eq!(sent[1][0], 0x05);
    assert_eq!(sent[1][1], 0x01); // CMD CONNECT
    assert_eq!(sent[1][3], 0x01); // ATYP IPv4
}

#[test]
fn socks5_no_auth_ipv6_reply() {
    let cfg = ProxyConfig::socks5("127.0.0.1", 1080);
    let dest = Target::Ip(IpAddr::V6("2001:db8::1".parse().unwrap()), 80);
    // An IPv6 reply: sixteen octets of address and two of port.
    let mut stream = vec![0x05, 0x00, 0x05, 0x00, 0x00, 0x04];
    stream.extend_from_slice(&[0u8; 16]);
    stream.extend_from_slice(&[0x00, 0x00]);
    let (_, end) = socks5_handshake(&cfg, &dest, &stream);
    assert_eq!(end, Ok(()));
}

#[test]
fn socks5_no_auth_domain_reply() {
    let cfg = ProxyConfig::socks5("127.0.0.1", 1080);
    // A reply with a hostname of its own length.
    let domain = b"proxy.local";
    let mut stream = vec![0x05, 0x00, 0x05, 0x00, 0x00, 0x03];
    stream.push(domain.len() as u8);
    stream.extend_from_slice(domain);
    stream.extend_from_slice(&[0x00, 0x00]);
    let (_, end) = socks5_handshake(&cfg, &v4_target(), &stream);
    assert_eq!(end, Ok(()));
}

#[test]
fn socks5_userpass_auth_success() {
    let cfg = ProxyConfig::socks5("127.0.0.1", 1080).with_auth("alice", "s3cret");
    let stream = [
        0x05, 0x02, 0x01, 0x00, 0x05, 0x00, 0x00, 0x01, 127, 0, 0, 1, 0x00, 0x00,
    ];
    let (sent, end) = socks5_handshake(&cfg, &v4_target(), &stream);
    assert_eq!(end, Ok(()));
    assert_eq!(sent[0][0], 0x05);
    assert_eq!(sent[0][1], 0x02); // 2 methods
    let auth = &sent[1];
    assert_eq!(auth[0], 0x01); // auth version
    let ulen = auth[1] as usize;
    assert_eq!(&auth[2..2 + ulen], b"alice");
    let plen = auth[2 + ulen] as usize;
    assert_eq!(&auth[3 + ulen..3 + ulen + plen], b"s3cret");
}

#[test]
fn socks5_auth_rejected() {
    let cfg = ProxyConfig::socks5("127.0.0.1", 1080).with_auth("bad", "wrong");
    let (_, end) = socks5_handshake(&cfg, &v4_target(), &[0x05, 0x02, 0x01, 0x01]);
    assert!(end.unwrap_err().message().contains("authentication failed"));
}

#[test]
fn socks5_connect_rejected() {
    let cfg = ProxyConfig::socks5("127.0.0.1", 1080);
    // General SOCKS server failure (REP=0x01).
    let stream = [0x05, 0x00, 0x05, 0x01, 0x00, 0x01, 0, 0, 0, 0, 0x00, 0x00];
    let (_, end) = socks5_handshake(&cfg, &v4_target(), &stream);
    assert!(end.unwrap_err().message().contains("rejected"));
    assert_eq!(end, Err(ProxyError::Rejected(1)));
}

#[test]
fn socks5_bad_version_in_greeting() {
    let cfg = ProxyConfig::socks5("127.0.0.1", 1080);
    let (_, end) = socks5_handshake(&cfg, &v4_target(), &[0x04, 0x00]);
    assert!(end.unwrap_err().message().contains("bad SOCKS5 version"));
}

#[test]
fn socks5_no_acceptable_auth_method() {
    let cfg = ProxyConfig::socks5("127.0.0.1", 1080);
    let (_, end) = socks5_handshake(&cfg, &v4_target(), &[0x05, 0xFF]);
    assert!(end.unwrap_err().message().contains("no acceptable"));
}

#[test]
fn socks5_domain_connect_sends_hostname() {
    let cfg = ProxyConfig::socks5("127.0.0.1", 1080);
    let dest = Target::Domain("example.com".to_string(), 80);
    let stream = [0x05, 0x00, 0x05, 0x00, 0x00, 0x01, 127, 0, 0, 1, 0x00, 0x00];
    let (sent, end) = socks5_handshake(&cfg, &dest, &stream);
    assert_eq!(end, Ok(()));
    let request = &sent[1];
    assert_eq!(request[3], 0x03); // ATYP DOMAIN
    let dlen = request[4] as usize;
    assert_eq!(&request[5..5 + dlen], b"example.com");
    let port = u16::from_be_bytes([request[5 + dlen], request[5 + dlen + 1]]);
    assert_eq!(port, 80);
}

#[test]
fn credentials_that_are_not_configured_cannot_be_sent() {
    let cfg = ProxyConfig::socks5("127.0.0.1", 1080);
    let (_, end) = socks5_handshake(&cfg, &v4_target(), &[0x05, 0x02]);
    assert_eq!(end, Err(ProxyError::AuthNotConfigured));
}

#[test]
fn lengths_that_do_not_fit_are_refused() {
    let long = "x".repeat(256);
    assert_eq!(
        build_socks5_userpass(&long, "p"),
        Err(ProxyError::CredentialTooLong)
    );
    assert_eq!(
        build_socks5_connect_request(&Target::Domain(long, 1)),
        Err(ProxyError::InvalidDomainLength)
    );
    assert_eq!(
        build_socks5_connect_request(&Target::Domain(String::new(), 1)),
        Err(ProxyError::InvalidDomainLength)
    );
}

#[test]
fn a_reply_with_an_unknown_address_fails() {
    let cfg = ProxyConfig::socks5("127.0.0.1", 1080);
    let stream = [0x05, 0x00, 0x05, 0x00, 0x00, 0x09];
    let (_, end) = socks5_handshake(&cfg, &v4_target(), &stream);
    assert_eq!(end, Err(ProxyError::UnknownAddressType));
    assert_eq!(
        end.unwrap_err().message(),
        "unknown SOCKS5 ATYP in reply"
    );
}

#[test]
fn handshake_failures_have_a_kind() {
    assert_eq!(ProxyError::ClosedDuringConnect.kind(), IoKind::UnexpectedEof);
    assert_eq!(ProxyError::HeadersTooLarge.kind(), IoKind::InvalidData);
    assert_eq!(ProxyError::InvalidResponse.kind(), IoKind::InvalidData);
    assert_eq!(ProxyError::BadVersion.kind(), IoKind::InvalidData);
    assert_eq!(ProxyError::ConnectFailed(407).kind(), IoKind::Other);
    assert_eq!(ProxyError::AuthFailed.kind(), IoKind::Other);
}
