//! Rules: patterns, globs and which rule decides a connection.

use ace_tun::addr::{IpAddr, Ipv4Addr, Ipv6Addr};
use ace_tun::addr_text::format_ip;
use ace_tun::glob::compile_glob;
use ace_tun::rule::{
    is_match_all, match_ip_list, match_ipv4_pattern, match_ipv6_pattern, match_port_list,
    match_port_pattern, strip_exe_suffix, Rule, RuleAction, RuleProtocol, RuleSet,
};


fn v4(s: &str) -> IpAddr {
    IpAddr::V4(s.parse::<Ipv4Addr>().unwrap())
}
fn v6(s: &str) -> IpAddr {
    IpAddr::V6(s.parse::<Ipv6Addr>().unwrap())
}

#[test]
fn glob_matches_process_names() {
    let m = compile_glob("fire*.exe").unwrap();
    assert!(m.is_match("firefox.exe"));
    assert!(m.is_match("FIREFOX.EXE")); // case-insensitive
    assert!(!m.is_match("chrome.exe"));

    let m = compile_glob("vpn*.exe").unwrap();
    assert!(m.is_match("vpnclient.exe"));
    assert!(!m.is_match("myvpn.exe"));

    let m = compile_glob("*steam*").unwrap();
    assert!(m.is_match("steamwebhelper.exe"));
    assert!(m.is_match("mysteamapp"));

    let q = compile_glob("a?c.exe").unwrap();
    assert!(q.is_match("abc.exe"));
    assert!(!q.is_match("ac.exe"));
}

#[test]
fn ipv4_patterns() {
    assert!(match_ipv4_pattern(
        "192.168.1.1",
        "192.168.1.1".parse().unwrap()
    ));
    assert!(match_ipv4_pattern(
        "192.168.*.*",
        "192.168.5.9".parse().unwrap()
    ));
    assert!(!match_ipv4_pattern(
        "192.168.*.*",
        "10.0.0.1".parse().unwrap()
    ));
    assert!(match_ipv4_pattern(
        "10.0.0.1-10.0.0.10",
        "10.0.0.5".parse().unwrap()
    ));
    assert!(!match_ipv4_pattern(
        "10.0.0.1-10.0.0.10",
        "10.0.0.20".parse().unwrap()
    ));
    // IPv6 pattern never matches IPv4
    assert!(!match_ipv4_pattern("::1", "127.0.0.1".parse().unwrap()));
}

#[test]
fn ipv6_patterns() {
    assert!(match_ipv6_pattern("::1", "::1".parse().unwrap()));
    assert!(match_ipv6_pattern(
        "2001:db8::/32",
        "2001:db8:1234::1".parse().unwrap()
    ));
    assert!(!match_ipv6_pattern(
        "2001:db8::/32",
        "2001:dbff::1".parse().unwrap()
    ));
    assert!(match_ipv6_pattern("*", "fe80::1".parse().unwrap()));
    // IPv4 pattern never matches IPv6
    assert!(!match_ipv6_pattern("127.0.0.1", "::1".parse().unwrap()));
}

#[test]
fn port_patterns() {
    assert!(match_port_pattern("443", 443));
    assert!(!match_port_pattern("443", 80));
    assert!(match_port_pattern("8000-9000", 8443));
    assert!(!match_port_pattern("8000-9000", 9001));
    assert!(match_port_list("80;443;8000-9000", 443));
    assert!(match_port_list("*", 12345));
}

#[test]
fn no_rules_defaults_to_direct() {
    let set = RuleSet::new(&[]);
    let m = set.evaluate("chrome.exe", v4("1.2.3.4"), 443, false, None);
    assert_eq!(m.action, RuleAction::Direct);
}

#[test]
fn specific_process_beats_wildcard_fallback() {
    let rules = [
        Rule::new("chrome.exe")
            .action(RuleAction::Proxy)
            .proxy_config(7),
        Rule::new("*").action(RuleAction::Direct),
    ];
    let set = RuleSet::new(&rules);
    let m = set.evaluate("chrome.exe", v4("1.2.3.4"), 443, false, None);
    assert_eq!(m.action, RuleAction::Proxy);
    assert_eq!(m.proxy_config_id, 7);
    // Other process falls through to the wildcard fallback.
    let m = set.evaluate("notepad.exe", v4("1.2.3.4"), 443, false, None);
    assert_eq!(m.action, RuleAction::Direct);
}

#[test]
fn filtered_wildcard_matches_before_fallback() {
    let rules = [
        Rule::new("*").ports("443").action(RuleAction::Block),
        Rule::new("*").action(RuleAction::Direct),
    ];
    let set = RuleSet::new(&rules);
    assert_eq!(
        set.evaluate("x.exe", v4("1.2.3.4"), 443, false, None)
            .action,
        RuleAction::Block
    );
    assert_eq!(
        set.evaluate("x.exe", v4("1.2.3.4"), 80, false, None).action,
        RuleAction::Direct
    );
}

#[test]
fn except_hosts_skips_rule() {
    let rules = [
        Rule::new("*")
            .except("127.0.0.1;::1")
            .action(RuleAction::Proxy),
        Rule::new("*").action(RuleAction::Direct),
    ];
    let set = RuleSet::new(&rules);
    // Loopback is excepted from the proxy rule -> falls to Direct fallback.
    assert_eq!(
        set.evaluate("x.exe", v4("127.0.0.1"), 443, false, None)
            .action,
        RuleAction::Direct
    );
    // Non-loopback still proxied.
    assert_eq!(
        set.evaluate("x.exe", v4("8.8.8.8"), 443, false, None)
            .action,
        RuleAction::Proxy
    );
}

#[test]
fn protocol_filter() {
    let rules = [Rule::new("*")
        .ports("443")
        .protocol(RuleProtocol::Udp)
        .action(RuleAction::Block)];
    let set = RuleSet::new(&rules);
    // UDP 443 blocked (QUIC), TCP 443 not.
    assert_eq!(
        set.evaluate("x.exe", v4("1.2.3.4"), 443, true, None).action,
        RuleAction::Block
    );
    assert_eq!(
        set.evaluate("x.exe", v4("1.2.3.4"), 443, false, None)
            .action,
        RuleAction::Direct
    );
}

#[test]
fn domain_filter_matches_via_cache() {
    let rules = [
        Rule::new("*")
            .domains("*.evil.com")
            .action(RuleAction::Block),
        Rule::new("*").action(RuleAction::Direct),
    ];
    let set = RuleSet::new(&rules);
    assert!(set.needs_domain_resolution());
    assert_eq!(
        set.evaluate("x.exe", v4("1.2.3.4"), 443, false, Some("relay.evil.com"))
            .action,
        RuleAction::Block
    );
    // No domain resolved -> domain rule can't match -> fallback Direct.
    assert_eq!(
        set.evaluate("x.exe", v4("1.2.3.4"), 443, false, None)
            .action,
        RuleAction::Direct
    );
}

#[test]
fn ipv6_destination_matches() {
    let rules = [Rule::new("*")
        .hosts("2001:db8::/32")
        .action(RuleAction::Block)];
    let set = RuleSet::new(&rules);
    assert_eq!(
        set.evaluate("x.exe", v6("2001:db8::1"), 443, false, None)
            .action,
        RuleAction::Block
    );
    assert_eq!(
        set.evaluate("x.exe", v6("2001:dbff::1"), 443, false, None)
            .action,
        RuleAction::Direct
    );
}

#[test]
fn comma_and_whitespace_separators() {
    // split_list handles both ';' and ',' delimiters with trimming.
    let rule = Rule::new("chrome.exe , firefox.exe").action(RuleAction::Block);
    let set = RuleSet::new(&[rule]);
    // Both process names should match despite the comma + whitespace separator.
    assert_eq!(
        set.evaluate("chrome.exe", v4("1.2.3.4"), 443, false, None)
            .action,
        RuleAction::Block
    );
    assert_eq!(
        set.evaluate("firefox.exe", v4("1.2.3.4"), 443, false, None)
            .action,
        RuleAction::Block
    );
    // Unrelated process does not match.
    assert_eq!(
        set.evaluate("notepad.exe", v4("1.2.3.4"), 443, false, None)
            .action,
        RuleAction::Direct
    );
}

/// Rules keep Windows names (`chrome.exe`); on Linux the
/// same processes resolve as `chrome`. The `.exe` suffix must not break
/// matching in either direction.
#[test]
fn windows_exe_rules_match_unix_process_names() {
    let rules = [Rule::new("chrome.exe;brave.exe").action(RuleAction::Block)];
    let set = RuleSet::new(&rules);
    // Linux process names carry no suffix.
    assert_eq!(
        set.evaluate("chrome", v4("1.2.3.4"), 443, false, None).action,
        RuleAction::Block
    );
    assert_eq!(
        set.evaluate("brave", v4("1.2.3.4"), 443, false, None).action,
        RuleAction::Block
    );
    // Windows names still match (both sides normalized).
    assert_eq!(
        set.evaluate("CHROME.EXE", v4("1.2.3.4"), 443, false, None)
            .action,
        RuleAction::Block
    );
    // Unrelated process does not match.
    assert_eq!(
        set.evaluate("firefox", v4("1.2.3.4"), 443, false, None).action,
        RuleAction::Direct
    );
}

/// Rules authored without a suffix (`firefox`) match Windows names too.
#[test]
fn unix_style_rules_match_windows_process_names() {
    let rules = [Rule::new("firefox").action(RuleAction::Block)];
    let set = RuleSet::new(&rules);
    assert_eq!(
        set.evaluate("firefox.exe", v4("1.2.3.4"), 443, false, None)
            .action,
        RuleAction::Block
    );
}

/// Glob suffixes are preserved: `chrome*` must still match `chrome.exe`,
/// and `*.exe` degenerates to `*` only because every Windows binary has
/// the suffix anyway.
#[test]
fn glob_patterns_survive_exe_normalization() {
    let rules = [Rule::new("chrome*").action(RuleAction::Block)];
    let set = RuleSet::new(&rules);
    assert_eq!(
        set.evaluate("chrome.exe", v4("1.2.3.4"), 443, false, None)
            .action,
        RuleAction::Block
    );
    assert_eq!(
        set.evaluate("chrome-helper", v4("1.2.3.4"), 443, false, None)
            .action,
        RuleAction::Block
    );
    assert_eq!(
        set.evaluate("chromium", v4("1.2.3.4"), 443, false, None).action,
        RuleAction::Direct
    );
}

#[test]
fn strip_exe_suffix_is_case_insensitive_and_globsafe() {
    assert_eq!(strip_exe_suffix("chrome.exe"), "chrome");
    assert_eq!(strip_exe_suffix("CHROME.EXE"), "CHROME");
    assert_eq!(strip_exe_suffix("Brave.Exe"), "Brave");
    assert_eq!(strip_exe_suffix("firefox"), "firefox");
    assert_eq!(strip_exe_suffix("chrome*"), "chrome*");
    assert_eq!(strip_exe_suffix("*.exe"), "*");
    assert_eq!(strip_exe_suffix("a?.exe"), "a?");
    assert_eq!(strip_exe_suffix(""), "");
}

#[test]
fn port_range_at_bounds() {
    // Range 1-65535 covers the entire valid u16 port space except 0.
    assert!(match_port_pattern("1-65535", 1));
    assert!(match_port_pattern("1-65535", 65535));
    assert!(!match_port_pattern("1-65535", 0));
    // Range 0-0 matches only port 0.
    assert!(match_port_pattern("0-0", 0));
    assert!(!match_port_pattern("0-0", 1));
}

#[test]
fn ipv4_range_ordering() {
    // When the start IP is numerically higher than the end IP the
    // range never matches because the code uses start <= ip <= end.
    // This is intentional: callers must supply ranges in ascending
    // order (e.g. "10.0.0.1-10.0.0.10").
    let ip: Ipv4Addr = "10.0.0.5".parse().unwrap();
    assert!(!match_ipv4_pattern("10.0.0.10-10.0.0.1", ip));
    // Confirm the correctly-ordered range does match.
    assert!(match_ipv4_pattern("10.0.0.1-10.0.0.10", ip));
}

#[test]
fn ipv6_cidr_boundary_bits() {
    // /32 means only the top 32 bits are significant.
    // 2001:0db8:ffff:… still shares the 2001:0db8 prefix → matches.
    assert!(match_ipv6_pattern(
        "2001:db8::/32",
        "2001:0db8:ffff:ffff:ffff:ffff:ffff:ffff".parse().unwrap()
    ));
    // 2001:0db9:: differs in the 32nd bit → does not match.
    assert!(!match_ipv6_pattern(
        "2001:db8::/32",
        "2001:0db9::".parse().unwrap()
    ));
}

#[test]
fn any_is_wildcard_synonym() {
    // "ANY" (any casing) is treated identically to "*".
    assert!(is_match_all("ANY"));
    assert!(is_match_all("any"));
    assert!(is_match_all("Any"));

    // A rule created with "ANY" acts as a wildcard process matcher.
    let rules = [Rule::new("ANY").action(RuleAction::Block)];
    let set = RuleSet::new(&rules);
    // ANY matches any process → captured as fallback.
    assert_eq!(
        set.evaluate("chrome.exe", v4("8.8.8.8"), 443, false, None)
            .action,
        RuleAction::Block
    );
    assert_eq!(
        set.evaluate("random.exe", v4("8.8.8.8"), 443, false, None)
            .action,
        RuleAction::Block
    );
}

#[test]
fn multiple_proxy_config_ids() {
    let rules = [
        Rule::new("chrome.exe")
            .action(RuleAction::Proxy)
            .proxy_config(3),
        Rule::new("firefox.exe")
            .action(RuleAction::Proxy)
            .proxy_config(7),
        Rule::new("*").action(RuleAction::Direct),
    ];
    let set = RuleSet::new(&rules);

    let m = set.evaluate("chrome.exe", v4("1.2.3.4"), 443, false, None);
    assert_eq!(m.action, RuleAction::Proxy);
    assert_eq!(m.proxy_config_id, 3);

    let m = set.evaluate("firefox.exe", v4("1.2.3.4"), 443, false, None);
    assert_eq!(m.action, RuleAction::Proxy);
    assert_eq!(m.proxy_config_id, 7);
}

#[test]
fn rule_ordering_first_specific_wins() {
    // A fully-wildcard fallback rule (no filters) is held back, so a
    // specific rule later in the list still wins when it matches.
    let rules = [
        Rule::new("*").action(RuleAction::Proxy),
        Rule::new("chrome.exe")
            .ports("443")
            .action(RuleAction::Block),
    ];
    let set = RuleSet::new(&rules);

    // chrome.exe on port 443 → specific rule wins over wildcard fallback.
    assert_eq!(
        set.evaluate("chrome.exe", v4("1.2.3.4"), 443, false, None)
            .action,
        RuleAction::Block
    );
    // chrome.exe on port 80 → specific rule doesn't match port → fallback.
    assert_eq!(
        set.evaluate("chrome.exe", v4("1.2.3.4"), 80, false, None)
            .action,
        RuleAction::Proxy
    );
    // Other process → no specific rule matches → fallback.
    assert_eq!(
        set.evaluate("firefox.exe", v4("1.2.3.4"), 443, false, None)
            .action,
        RuleAction::Proxy
    );
}

#[test]
fn except_with_multiple_entries() {
    // except() with semicolon-separated entries: each one is checked
    // independently. IPv4 octet wildcards are supported (CIDR is not).
    let rules = [
        Rule::new("*")
            .except("127.0.0.1;::1;10.*.*.*")
            .action(RuleAction::Proxy),
        Rule::new("*").action(RuleAction::Direct),
    ];
    let set = RuleSet::new(&rules);

    // 10.0.0.5 matches 10.*.*.* → excepted from proxy → falls to Direct.
    assert_eq!(
        set.evaluate("x.exe", v4("10.0.0.5"), 443, false, None)
            .action,
        RuleAction::Direct
    );
    // 8.8.8.8 is not in any except entry → proxied.
    assert_eq!(
        set.evaluate("x.exe", v4("8.8.8.8"), 443, false, None)
            .action,
        RuleAction::Proxy
    );
}

#[test]
fn complex_except_falls_through() {
    // "except" means "skip this rule" — it does not directly produce
    // an action. Here the first rule excepts loopback so it is skipped;
    // with no fallback rule the connection gets the default Direct.
    let rules = [Rule::new("*")
        .except("127.0.0.1;::1")
        .action(RuleAction::Proxy)];
    let set = RuleSet::new(&rules);

    // 127.0.0.1 is excepted → rule skipped → no match → Direct.
    assert_eq!(
        set.evaluate("x.exe", v4("127.0.0.1"), 443, false, None)
            .action,
        RuleAction::Direct
    );
    // 8.8.8.8 is not excepted → rule matches → Proxy.
    assert_eq!(
        set.evaluate("x.exe", v4("8.8.8.8"), 443, false, None)
            .action,
        RuleAction::Proxy
    );
}

#[test]
fn rule_with_null_domain_when_domain_required() {
    // When the resolved domain is None, a domain-filtering rule cannot
    // match and the connection falls through to the fallback.
    let rules = [
        Rule::new("*")
            .domains("*.example.com")
            .action(RuleAction::Block),
        Rule::new("*").action(RuleAction::Direct),
    ];
    let set = RuleSet::new(&rules);
    assert!(set.needs_domain_resolution());

    // Domain is None → domain rule skipped → falls to Direct fallback.
    assert_eq!(
        set.evaluate("x.exe", v4("93.184.216.34"), 443, false, None)
            .action,
        RuleAction::Direct
    );
    // Same IP but with a matching domain → blocked.
    assert_eq!(
        set.evaluate(
            "x.exe",
            v4("93.184.216.34"),
            443,
            false,
            Some("www.example.com")
        )
        .action,
        RuleAction::Block
    );
}

// ── Patterns ────────────────────────────────────────────────────────────────

#[test]
fn descending_ranges_match_nothing() {
    assert!(!match_port_pattern("9000-8000", 8500));
    assert!(!match_ipv4_pattern("10.0.0.10-10.0.0.1", Ipv4Addr::new(10, 0, 0, 1)));
}

#[test]
fn ports_out_of_range_match_nothing() {
    assert!(!match_port_pattern("65536", 0));
    assert!(!match_port_pattern("", 0));
    assert!(!match_port_pattern("-1", 1));
    assert!(!match_port_pattern("80-", 80));
}

#[test]
fn address_lists_mix_families() {
    let list = "10.*.*.* ; 2001:db8::/32, 127.0.0.1";
    assert!(match_ip_list(list, v4("10.1.2.3")));
    assert!(match_ip_list(list, v6("2001:db8::5")));
    assert!(match_ip_list(list, v4("127.0.0.1")));
    assert!(!match_ip_list(list, v4("11.1.2.3")));
    assert!(!match_ip_list(list, v6("::1")));
    assert!(match_ip_list("*", v6("::1")));
}

#[test]
fn prefixes_of_every_length() {
    let ip: Ipv6Addr = "2001:db8::1".parse().unwrap();
    assert!(match_ipv6_pattern("::/0", ip));
    assert!(match_ipv6_pattern("2001:db8::1/128", ip));
    assert!(!match_ipv6_pattern("2001:db8::2/128", ip));
    assert!(!match_ipv6_pattern("2001:db8::/129", ip));
}

#[test]
fn a_token_without_an_ascii_suffix_is_kept() {
    assert_eq!(strip_exe_suffix("\u{e9}.exe"), "\u{e9}");
    assert_eq!(strip_exe_suffix("a\u{20ac}xe"), "a\u{20ac}xe");
    assert_eq!(strip_exe_suffix(".exe"), "");
}

// ── Globs ───────────────────────────────────────────────────────────────────

#[test]
fn metacharacters_are_literal() {
    let m = compile_glob("a.b+c").unwrap();
    assert!(m.is_match("a.b+c"));
    assert!(m.is_match("A.B+C"));
    assert!(!m.is_match("axb+c"));
    assert!(!m.is_match("a.bbc"));
    let m = compile_glob("(x)|[y]").unwrap();
    assert!(m.is_match("(x)|[y]"));
    assert!(!m.is_match("x"));
}

#[test]
fn globs_match_the_whole_text() {
    let m = compile_glob("chrome").unwrap();
    assert!(m.is_match("chrome"));
    assert!(!m.is_match("chromes"));
    assert!(!m.is_match("xchrome"));
    assert!(compile_glob("*").unwrap().is_match(""));
}

// ── Which rule decides ──────────────────────────────────────────────────────

#[test]
fn a_rule_set_knows_what_it_holds() {
    let none = RuleSet::new(&[]);
    assert!(none.is_empty());
    assert!(!none.needs_domain_resolution());
    let some = RuleSet::new(&[Rule::new("*")]);
    assert!(!some.is_empty());
    assert!(!some.needs_domain_resolution());
}

#[test]
fn a_new_rule_lets_connections_through() {
    let rule = Rule::new("x");
    assert_eq!(rule.action_kind(), RuleAction::Direct);
    assert_eq!(rule.action(RuleAction::Block).action_kind(), RuleAction::Block);
}

#[test]
fn the_last_fallback_does_not_override_the_first() {
    let rules = [
        Rule::new("*").action(RuleAction::Block),
        Rule::new("*").action(RuleAction::Proxy),
    ];
    let set = RuleSet::new(&rules);
    assert_eq!(
        set.evaluate("x", v4("1.2.3.4"), 1, false, None).action,
        RuleAction::Block
    );
}

#[test]
fn tcp_rules_leave_udp_alone() {
    let rules = [Rule::new("*").ports("53").protocol(RuleProtocol::Tcp).action(RuleAction::Block)];
    let set = RuleSet::new(&rules);
    assert_eq!(set.evaluate("x", v4("1.1.1.1"), 53, false, None).action, RuleAction::Block);
    assert_eq!(set.evaluate("x", v4("1.1.1.1"), 53, true, None).action, RuleAction::Direct);
}

#[test]
fn an_ipv6_address_describes_itself() {
    let ip: Ipv6Addr = "fe80::a:0:1".parse().unwrap();
    let other: Ipv6Addr = "fe80::a:0:2".parse().unwrap();
    let text = format_ip(IpAddr::V6(ip));
    assert!(match_ipv6_pattern(&text, ip));
    assert!(!match_ipv6_pattern(&text, other));
    assert!(!match_ip_list(&text, IpAddr::V4(Ipv4Addr::new(0, 10, 0, 1))));
}

/// One process under all its spellings, with globs beyond ASCII among the rules.
#[test]
fn spellings_of_a_process_are_alike() {
    let rules = [
        Rule::new("\u{212a}ate*").action(RuleAction::Block),
        Rule::new("ch\u{17f}*").action(RuleAction::Proxy),
    ];
    let set = RuleSet::new(&rules);
    for (name, action) in [
        ("kate", RuleAction::Block),
        ("kate.exe", RuleAction::Block),
        ("KATE.EXE", RuleAction::Block),
        ("chs", RuleAction::Proxy),
        ("CHS.exe", RuleAction::Proxy),
        ("chrome", RuleAction::Direct),
        ("CHROME.EXE", RuleAction::Direct),
    ] {
        assert_eq!(set.evaluate(name, v4("1.2.3.4"), 443, false, None).action, action, "{name}");
    }
}

#[test]
fn globs_match_texts_beyond_ascii() {
    let glob = compile_glob("\u{e9}t?-*").unwrap();
    assert!(glob.is_match("\u{e9}t\u{e9}-x\u{4e2d}"));
    assert!(glob.is_match("\u{e9}T\u{1f600}-"));
    assert!(!glob.is_match("\u{e9}t-"));
}
