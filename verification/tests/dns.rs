//! The hostname cache and the answers it learns from.

use ace_tun::addr::{IpAddr, Ipv4Addr, Ipv6Addr};
use ace_tun::dns::{parse_dns_answers, parse_name, DnsCache, DNS_CACHE_TTL};


/// Build a minimal DNS response for `host` -> one A record `ip`.
fn build_response(host: &str, ip: [u8; 4]) -> Vec<u8> {
    let mut m = Vec::new();
    m.extend_from_slice(&[0x12, 0x34]); // id
    m.extend_from_slice(&[0x81, 0x80]); // flags: response, no error
    m.extend_from_slice(&[0x00, 0x01]); // qdcount
    m.extend_from_slice(&[0x00, 0x01]); // ancount
    m.extend_from_slice(&[0x00, 0x00]); // nscount
    m.extend_from_slice(&[0x00, 0x00]); // arcount
    // Question name.
    let qname_start = m.len();
    for label in host.split('.') {
        m.push(label.len() as u8);
        m.extend_from_slice(label.as_bytes());
    }
    m.push(0);
    m.extend_from_slice(&[0x00, 0x01]); // QTYPE A
    m.extend_from_slice(&[0x00, 0x01]); // QCLASS IN
    // Answer: pointer to question name.
    let ptr = 0xC000u16 | qname_start as u16;
    m.extend_from_slice(&ptr.to_be_bytes());
    m.extend_from_slice(&[0x00, 0x01]); // TYPE A
    m.extend_from_slice(&[0x00, 0x01]); // CLASS IN
    m.extend_from_slice(&[0x00, 0x00, 0x01, 0x2c]); // TTL 300
    m.extend_from_slice(&[0x00, 0x04]); // RDLENGTH
    m.extend_from_slice(&ip); // RDATA
    m
}

#[test]
fn parses_a_record() {
    let msg = build_response("example.com", [93, 184, 216, 34]);
    let answers = parse_dns_answers(&msg);
    assert_eq!(answers.len(), 1);
    assert_eq!(answers[0].0, IpAddr::V4(Ipv4Addr::new(93, 184, 216, 34)));
    assert_eq!(answers[0].1, "example.com");
}

#[test]
fn snoop_populates_cache() {
    let mut cache = DnsCache::default();
    let msg = build_response("cdn.example.net", [1, 2, 3, 4]);
    cache.snoop_response(&msg, 0);
    assert_eq!(
        cache
            .lookup(IpAddr::V4(Ipv4Addr::new(1, 2, 3, 4)), 0)
            .as_deref(),
        Some("cdn.example.net")
    );
    assert!(
        cache
            .lookup(IpAddr::V4(Ipv4Addr::new(9, 9, 9, 9)), 0)
            .is_none()
    );
}

#[test]
fn ignores_queries_and_garbage() {
    // A query (flags high bit clear) yields nothing.
    let mut q = build_response("example.com", [1, 1, 1, 1]);
    q[2] = 0x01; // clear response bit
    q[3] = 0x00;
    assert!(parse_dns_answers(&q).is_empty());
    assert!(parse_dns_answers(&[0u8; 4]).is_empty());
}

#[test]
fn ttl_expiry() {
    let mut cache = DnsCache::new(0);
    cache.store(IpAddr::V4(Ipv4Addr::new(5, 5, 5, 5)), "gone.example", 0);
    // Zero TTL means already expired on lookup.
    assert!(
        cache
            .lookup(IpAddr::V4(Ipv4Addr::new(5, 5, 5, 5)), 1_000_000)
            .is_none()
    );
}

// ── Edge-case tests ──────────────────────────────────────────

/// Build a DNS response with an AAAA (IPv6) record.
fn build_aaaa_response(host: &str, ip: [u8; 16]) -> Vec<u8> {
    let mut m = Vec::new();
    m.extend_from_slice(&[0x12, 0x34]); // id
    m.extend_from_slice(&[0x81, 0x80]); // flags: response, no error
    m.extend_from_slice(&[0x00, 0x01]); // qdcount
    m.extend_from_slice(&[0x00, 0x01]); // ancount
    m.extend_from_slice(&[0x00, 0x00]); // nscount
    m.extend_from_slice(&[0x00, 0x00]); // arcount
    let qname_start = m.len();
    for label in host.split('.') {
        m.push(label.len() as u8);
        m.extend_from_slice(label.as_bytes());
    }
    m.push(0);
    m.extend_from_slice(&[0x00, 0x1c]); // QTYPE AAAA
    m.extend_from_slice(&[0x00, 0x01]); // QCLASS IN
    let ptr = 0xC000u16 | qname_start as u16;
    m.extend_from_slice(&ptr.to_be_bytes()); // NAME: pointer to qname
    m.extend_from_slice(&[0x00, 0x1c]); // TYPE AAAA
    m.extend_from_slice(&[0x00, 0x01]); // CLASS IN
    m.extend_from_slice(&[0x00, 0x00, 0x01, 0x2c]); // TTL 300
    m.extend_from_slice(&[0x00, 0x10]); // RDLENGTH 16
    m.extend_from_slice(&ip); // IPv6 address
    m
}

#[test]
fn parses_aaaa_record() {
    let ipv6: [u8; 16] = [
        0x20, 0x01, 0x0d, 0xb8, 0x00, 0x00, 0x00, 0x00, 0x00, 0x00, 0x00, 0x00, 0x00, 0x00,
        0x00, 0x01,
    ];
    let msg = build_aaaa_response("ipv6.example.com", ipv6);
    let answers = parse_dns_answers(&msg);
    assert_eq!(answers.len(), 1);
    assert_eq!(answers[0].0, IpAddr::V6(Ipv6Addr::from_octets(&ipv6)));
    assert_eq!(answers[0].1, "ipv6.example.com");
}

#[test]
fn multiple_answers_a_plus_cname_plus_a() {
    // Build a response with 3 answers: CNAME → A → A.
    // CNAME is ignored; both A records should map to the qname.
    let host = "example.com";
    let mut m = Vec::new();
    m.extend_from_slice(&[0x12, 0x34]); // id
    m.extend_from_slice(&[0x81, 0x80]); // flags
    m.extend_from_slice(&[0x00, 0x01]); // qdcount
    m.extend_from_slice(&[0x00, 0x03]); // ancount = 3
    m.extend_from_slice(&[0x00, 0x00]); // nscount
    m.extend_from_slice(&[0x00, 0x00]); // arcount

    // Question — "example.com" starts at byte 12.
    let qname_start = m.len(); // = 12
    for label in host.split('.') {
        m.push(label.len() as u8);
        m.extend_from_slice(label.as_bytes());
    }
    m.push(0);
    m.extend_from_slice(&[0x00, 0x01]); // QTYPE A
    m.extend_from_slice(&[0x00, 0x01]); // QCLASS IN

    let ptr_qname = (0xC000u16 | qname_start as u16).to_be_bytes();

    // Answer 1 — CNAME → pointer to qname (rdlen=2).
    m.extend_from_slice(&ptr_qname);
    m.extend_from_slice(&[0x00, 0x05]); // TYPE CNAME
    m.extend_from_slice(&[0x00, 0x01]); // CLASS IN
    m.extend_from_slice(&[0x00, 0x00, 0x01, 0x2c]); // TTL
    m.extend_from_slice(&[0x00, 0x02]); // RDLENGTH = 2
    m.extend_from_slice(&ptr_qname); // RDATA → pointer to qname

    // Answer 2 — A record 1.2.3.4.
    m.extend_from_slice(&ptr_qname);
    m.extend_from_slice(&[0x00, 0x01]); // TYPE A
    m.extend_from_slice(&[0x00, 0x01]); // CLASS IN
    m.extend_from_slice(&[0x00, 0x00, 0x01, 0x2c]);
    m.extend_from_slice(&[0x00, 0x04]);
    m.extend_from_slice(&[1, 2, 3, 4]);

    // Answer 3 — A record 5.6.7.8.
    m.extend_from_slice(&ptr_qname);
    m.extend_from_slice(&[0x00, 0x01]); // TYPE A
    m.extend_from_slice(&[0x00, 0x01]); // CLASS IN
    m.extend_from_slice(&[0x00, 0x00, 0x01, 0x2c]);
    m.extend_from_slice(&[0x00, 0x04]);
    m.extend_from_slice(&[5, 6, 7, 8]);

    let answers = parse_dns_answers(&m);
    assert_eq!(answers.len(), 2, "CNAME ignored, 2 A records expected");
    assert_eq!(answers[0].0, IpAddr::V4(Ipv4Addr::new(1, 2, 3, 4)));
    assert_eq!(answers[0].1, "example.com");
    assert_eq!(answers[1].0, IpAddr::V4(Ipv4Addr::new(5, 6, 7, 8)));
    assert_eq!(answers[1].1, "example.com");
}

#[test]
fn cname_chain_uses_qname_as_key() {
    // Question: "original.example.com"
    // Answer 1: CNAME → "aliased.example.net"
    // Answer 2: A record for the aliased name.
    // The A record must use the *original* qname as its key.
    let orig = "original.example.com";
    let alias = "aliased.example.net";

    let mut m = Vec::new();
    m.extend_from_slice(&[0x12, 0x34]); // id
    m.extend_from_slice(&[0x81, 0x80]); // flags
    m.extend_from_slice(&[0x00, 0x01]); // qdcount
    m.extend_from_slice(&[0x00, 0x02]); // ancount = 2
    m.extend_from_slice(&[0x00, 0x00]);
    m.extend_from_slice(&[0x00, 0x00]);

    let qname_start = m.len(); // = 12
    for label in orig.split('.') {
        m.push(label.len() as u8);
        m.extend_from_slice(label.as_bytes());
    }
    m.push(0);
    m.extend_from_slice(&[0x00, 0x01]); // QTYPE A
    m.extend_from_slice(&[0x00, 0x01]); // QCLASS IN

    // Encode the CNAME target name in wire format.
    let mut alias_wire = Vec::new();
    for label in alias.split('.') {
        alias_wire.push(label.len() as u8);
        alias_wire.extend_from_slice(label.as_bytes());
    }
    alias_wire.push(0);
    let alias_len = alias_wire.len() as u16;

    let ptr_qname = (0xC000u16 | qname_start as u16).to_be_bytes();

    // Answer 1 — CNAME with RDATA = the alias domain.
    m.extend_from_slice(&ptr_qname);
    m.extend_from_slice(&[0x00, 0x05]); // TYPE CNAME
    m.extend_from_slice(&[0x00, 0x01]); // CLASS IN
    m.extend_from_slice(&[0x00, 0x00, 0x01, 0x2c]);
    m.extend_from_slice(&alias_len.to_be_bytes());
    m.extend_from_slice(&alias_wire);

    // Answer 2 — A record 10.0.0.1, NAME points to qname.
    m.extend_from_slice(&ptr_qname);
    m.extend_from_slice(&[0x00, 0x01]); // TYPE A
    m.extend_from_slice(&[0x00, 0x01]); // CLASS IN
    m.extend_from_slice(&[0x00, 0x00, 0x01, 0x2c]);
    m.extend_from_slice(&[0x00, 0x04]);
    m.extend_from_slice(&[10, 0, 0, 1]);

    let answers = parse_dns_answers(&m);
    assert_eq!(answers.len(), 1);
    assert_eq!(answers[0].0, IpAddr::V4(Ipv4Addr::new(10, 0, 0, 1)));
    // The key must be the original question name, not the CNAME target.
    assert_eq!(answers[0].1, "original.example.com");
}

#[test]
fn compression_pointer_loop_does_not_hang() {
    // Craft a response where the answer NAME pointer points to itself.
    // parse_name guards loops at 10 jumps → returns None → answer skipped.
    let mut m = Vec::new();
    m.extend_from_slice(&[0x12, 0x34]); // id
    m.extend_from_slice(&[0x81, 0x80]); // flags
    m.extend_from_slice(&[0x00, 0x01]); // qdcount
    m.extend_from_slice(&[0x00, 0x01]); // ancount = 1
    m.extend_from_slice(&[0x00, 0x00]);
    m.extend_from_slice(&[0x00, 0x00]);

    // Question: "x.com" — 7 bytes of labels + null.
    m.push(1);
    m.push(b'x');
    m.push(3);
    m.push(b'c');
    m.push(b'o');
    m.push(b'm');
    m.push(0);
    m.extend_from_slice(&[0x00, 0x01]); // QTYPE A
    m.extend_from_slice(&[0x00, 0x01]); // QCLASS IN

    // Answer section starts at byte 12 + 7 + 4 = 23.
    // Answer NAME is a pointer to byte 23 → self-loop.
    assert_eq!(m.len(), 23, "answer section must start at offset 23");
    m.extend_from_slice(&[0xC0, 0x17]); // pointer to 23 (self)
    m.extend_from_slice(&[0x00, 0x01]); // TYPE A
    m.extend_from_slice(&[0x00, 0x01]); // CLASS IN
    m.extend_from_slice(&[0x00, 0x00, 0x01, 0x2c]); // TTL
    m.extend_from_slice(&[0x00, 0x04]); // RDLENGTH
    m.extend_from_slice(&[1, 2, 3, 4]);

    let answers = parse_dns_answers(&m);
    // Loop is caught; result is empty (no panic, no hang).
    assert!(answers.is_empty());
}

#[test]
fn truncated_rdlength() {
    // Two answers, but the second one has rdlen extending past EOF.
    // The first answer must still be returned.
    let host = "example.com";
    let mut m = Vec::new();
    m.extend_from_slice(&[0x12, 0x34]);
    m.extend_from_slice(&[0x81, 0x80]);
    m.extend_from_slice(&[0x00, 0x01]); // qdcount
    m.extend_from_slice(&[0x00, 0x02]); // ancount = 2
    m.extend_from_slice(&[0x00, 0x00]);
    m.extend_from_slice(&[0x00, 0x00]);

    let qname_start = m.len(); // = 12
    for label in host.split('.') {
        m.push(label.len() as u8);
        m.extend_from_slice(label.as_bytes());
    }
    m.push(0);
    m.extend_from_slice(&[0x00, 0x01]); // QTYPE
    m.extend_from_slice(&[0x00, 0x01]); // QCLASS

    let ptr_qname = (0xC000u16 | qname_start as u16).to_be_bytes();

    // Answer 1 — valid A record.
    m.extend_from_slice(&ptr_qname);
    m.extend_from_slice(&[0x00, 0x01]); // TYPE A
    m.extend_from_slice(&[0x00, 0x01]); // CLASS IN
    m.extend_from_slice(&[0x00, 0x00, 0x01, 0x2c]);
    m.extend_from_slice(&[0x00, 0x04]);
    m.extend_from_slice(&[1, 2, 3, 4]);

    // Answer 2 — truncated: rdlen = 256 but no RDATA follows.
    // The RR header (NAME + fixed fields) is 12 bytes.
    m.extend_from_slice(&ptr_qname); //  2 bytes
    m.extend_from_slice(&[0x00, 0x01]); //  2
    m.extend_from_slice(&[0x00, 0x01]); //  2
    m.extend_from_slice(&[0x00, 0x00, 0x01, 0x2c]); //  4
    m.extend_from_slice(&[0x01, 0x00]); // RDLENGTH = 256  → total = 12

    let answers = parse_dns_answers(&m);
    // Only the first (valid) answer before the truncated one.
    assert_eq!(answers.len(), 1);
    assert_eq!(answers[0].0, IpAddr::V4(Ipv4Addr::new(1, 2, 3, 4)));
    assert_eq!(answers[0].1, "example.com");
}

#[test]
fn ancount_larger_than_buffer() {
    // Build a normal 1-answer response, then overwrite ancount with 100.
    let mut m = build_response("test.example", [10, 20, 30, 40]);
    m[6] = 0x00; // ancount hi
    m[7] = 0x64; // ancount lo = 100
    let answers = parse_dns_answers(&m);
    // The single answer should still be parsed.
    assert_eq!(answers.len(), 1);
    assert_eq!(answers[0].0, IpAddr::V4(Ipv4Addr::new(10, 20, 30, 40)));
    assert_eq!(answers[0].1, "test.example");
}

#[test]
fn non_in_class_ignored() {
    // Build a response with CLASS = CHAOS (3).  The answer must be skipped.
    let host = "chaos.example.com";
    let mut m = Vec::new();
    m.extend_from_slice(&[0x12, 0x34]);
    m.extend_from_slice(&[0x81, 0x80]);
    m.extend_from_slice(&[0x00, 0x01]); // qdcount
    m.extend_from_slice(&[0x00, 0x01]); // ancount
    m.extend_from_slice(&[0x00, 0x00]);
    m.extend_from_slice(&[0x00, 0x00]);

    let qname_start = m.len(); // = 12
    for label in host.split('.') {
        m.push(label.len() as u8);
        m.extend_from_slice(label.as_bytes());
    }
    m.push(0);
    m.extend_from_slice(&[0x00, 0x01]); // QTYPE A
    m.extend_from_slice(&[0x00, 0x01]); // QCLASS IN

    let ptr = 0xC000u16 | qname_start as u16;
    m.extend_from_slice(&ptr.to_be_bytes());
    m.extend_from_slice(&[0x00, 0x01]); // TYPE A
    m.extend_from_slice(&[0x00, 0x03]); // CLASS CHAOS (not IN)
    m.extend_from_slice(&[0x00, 0x00, 0x01, 0x2c]);
    m.extend_from_slice(&[0x00, 0x04]);
    m.extend_from_slice(&[1, 2, 3, 4]);

    let answers = parse_dns_answers(&m);
    assert!(answers.is_empty(), "non-IN class should be ignored");
}

#[test]
fn ignores_non_noerror_rcode() {
    // NXDOMAIN rcode = 3 → flags 0x8183.
    let mut m = build_response("nx.example.com", [1, 1, 1, 1]);
    m[2] = 0x81; // QR=1, RD=1
    m[3] = 0x83; // RA=1, RCODE=3 (NXDOMAIN)
    let answers = parse_dns_answers(&m);
    assert!(
        answers.is_empty(),
        "NXDOMAIN responses must yield no answers"
    );
}

#[test]
fn multiple_questions_parses_first_qname() {
    // Two questions: "first.example.com" and "second.example.net".
    // The answer should be keyed by the *first* question's name.
    let first = "first.example.com";
    let second = "second.example.net";

    let mut m = Vec::new();
    m.extend_from_slice(&[0x12, 0x34]);
    m.extend_from_slice(&[0x81, 0x80]);
    m.extend_from_slice(&[0x00, 0x02]); // qdcount = 2
    m.extend_from_slice(&[0x00, 0x01]); // ancount = 1
    m.extend_from_slice(&[0x00, 0x00]);
    m.extend_from_slice(&[0x00, 0x00]);

    let qname_start = m.len(); // = 12

    // Question 1.
    for label in first.split('.') {
        m.push(label.len() as u8);
        m.extend_from_slice(label.as_bytes());
    }
    m.push(0);
    m.extend_from_slice(&[0x00, 0x01]); // QTYPE A
    m.extend_from_slice(&[0x00, 0x01]); // QCLASS IN

    // Question 2.
    for label in second.split('.') {
        m.push(label.len() as u8);
        m.extend_from_slice(label.as_bytes());
    }
    m.push(0);
    m.extend_from_slice(&[0x00, 0x01]); // QTYPE A
    m.extend_from_slice(&[0x00, 0x01]); // QCLASS IN

    // Answer — points to qname_start.
    let ptr = (0xC000u16 | qname_start as u16).to_be_bytes();
    m.extend_from_slice(&ptr);
    m.extend_from_slice(&[0x00, 0x01]); // TYPE A
    m.extend_from_slice(&[0x00, 0x01]); // CLASS IN
    m.extend_from_slice(&[0x00, 0x00, 0x01, 0x2c]);
    m.extend_from_slice(&[0x00, 0x04]);
    m.extend_from_slice(&[7, 7, 7, 7]);

    let answers = parse_dns_answers(&m);
    assert_eq!(answers.len(), 1);
    assert_eq!(answers[0].0, IpAddr::V4(Ipv4Addr::new(7, 7, 7, 7)));
    assert_eq!(answers[0].1, "first.example.com");
}

#[test]
fn fuzz_random_bytes_no_panic() {
    // Simple xorshift32 PRNG — no external crate needed.
    let mut state: u32 = 0xDEAD_BEEF;
    let mut next = || {
        state ^= state << 13;
        state ^= state >> 17;
        state ^= state << 5;
        state
    };

    for _ in 0..1000 {
        let len = (next() as usize) % 201; // 0..200
        let mut data = Vec::with_capacity(len);
        for _ in 0..len {
            data.push(next() as u8);
        }
        let answers = parse_dns_answers(&data);
        assert!(answers.len() <= len, "more answers than octets");
    }
}

// ── Names ───────────────────────────────────────────────────────────────────

#[test]
fn plain_names_read_back() {
    let msg = [3, b'w', b'w', b'w', 2, b'a', b'b', 0, 9];
    let mut offset = 0;
    assert_eq!(parse_name(&msg, &mut offset).as_deref(), Some("www.ab"));
    assert_eq!(offset, 8);
}

#[test]
fn a_pointer_ends_the_name_where_it_stands() {
    let msg = [1, b'x', 0, 1, b'y', 0xc0, 0x00, 7];
    let mut offset = 3;
    assert_eq!(parse_name(&msg, &mut offset).as_deref(), Some("y.x"));
    assert_eq!(offset, 7);
}

#[test]
fn truncated_names_are_nothing() {
    let mut offset = 0;
    assert_eq!(parse_name(&[5, b'a'], &mut offset), None);
    let mut offset = 0;
    assert_eq!(parse_name(&[0xc0], &mut offset), None);
    let mut offset = 0;
    assert_eq!(parse_name(&[2, 0xff, 0xfe, 0], &mut offset), None);
}

// ── The cache ───────────────────────────────────────────────────────────────

#[test]
fn a_hostname_is_found_until_it_expires() {
    let ip = IpAddr::V4(Ipv4Addr::new(1, 2, 3, 4));
    let mut cache = DnsCache::new(10);
    cache.store(ip, "a.example", 5);
    assert_eq!(cache.lookup(ip, 14).as_deref(), Some("a.example"));
    assert_eq!(cache.lookup(ip, 15), None);
    assert_eq!(cache.len(14), 1);
    assert_eq!(cache.len(15), 0);
    assert!(cache.is_empty(15));
}

#[test]
fn storing_keeps_other_addresses() {
    let a = IpAddr::V4(Ipv4Addr::new(1, 2, 3, 4));
    let b = IpAddr::V6(Ipv6Addr::from_bits(0x0102_0304));
    let mut cache = DnsCache::default();
    cache.store(a, "a", 0);
    cache.store(b, "b", 0);
    cache.store(a, "c", 1);
    assert_eq!(cache.lookup(a, 1).as_deref(), Some("c"));
    assert_eq!(cache.lookup(b, 1).as_deref(), Some("b"));
    assert_eq!(cache.len(1), 2);
}

#[test]
fn empty_hostnames_are_not_stored() {
    let ip = IpAddr::V4(Ipv4Addr::new(1, 2, 3, 4));
    let mut cache = DnsCache::default();
    cache.store(ip, "", 0);
    assert!(cache.is_empty(0));
}

#[test]
fn purging_drops_what_has_expired() {
    let old = IpAddr::V4(Ipv4Addr::new(1, 1, 1, 1));
    let new = IpAddr::V4(Ipv4Addr::new(2, 2, 2, 2));
    let mut cache = DnsCache::default();
    cache.store(old, "old", 0);
    cache.store(new, "new", 1);
    cache.purge_expired(DNS_CACHE_TTL);
    assert_eq!(cache.lookup(old, DNS_CACHE_TTL), None);
    assert_eq!(cache.lookup(new, DNS_CACHE_TTL).as_deref(), Some("new"));
    assert_eq!(cache.len(0), 1);
}

/// No time is too late to store at.
#[test]
fn entries_may_outlive_the_clock() {
    let ip = IpAddr::V4(Ipv4Addr::new(1, 2, 3, 4));
    let mut cache = DnsCache::new(u64::MAX);
    cache.store(ip, "a.example", u64::MAX);
    assert_eq!(cache.lookup(ip, u64::MAX).as_deref(), Some("a.example"));
    cache.store(ip, "", u64::MAX);
    cache.purge_expired(u64::MAX);
    assert_eq!(cache.lookup(ip, u64::MAX).as_deref(), Some("a.example"));
}
