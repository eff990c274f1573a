use h5i_share::address::{IpAddr, Ipv4Addr, Ipv6Addr, SocketAddr};
use h5i_share::egress::{
    build_nft_ruleset, egress_query, hosts_file, is_pinnable, is_sinkhole, pin_egress,
    resolve_egress, setup_egress, egress_notices, slirp_args, slirp_gateway, EgressDest, ResolvedEgress,
};
use h5i_share::launch::{Action, Event, Handle, Launch, Orders, Stage};
use h5i_share::mac_launch::{self, MacLaunch};
use h5i_share::supervisor::{
    account, cred_scrub_paths, decide_socket, decide_socketpair, find_bin, preflight, probe,
    probe_elsewhere, probe_macos, proxied_env, run, run_interactive, AgentRuntime,
    Decision, EgressSummary, ExecOutcome, HomeBind, Host, MacHost, Usage,
};

fn v4(a: u8, b: u8, c: u8, d: u8) -> IpAddr {
    IpAddr::V4(Ipv4Addr::new(a, b, c, d))
}

fn v6(s: [u16; 8]) -> IpAddr {
    IpAddr::V6(Ipv6Addr::new(s[0], s[1], s[2], s[3], s[4], s[5], s[6], s[7]))
}

fn mapped(a: u8, b: u8, c: u8, d: u8) -> IpAddr {
    v6([0, 0, 0, 0, 0, 0xffff, (a as u16) * 256 + b as u16, (c as u16) * 256 + d as u16])
}

fn example_v6() -> IpAddr {
    v6([0x2606, 0x2800, 0x220, 1, 0x248, 0x1893, 0x25c8, 0x1946])
}

fn host(bits: u32) -> Host {
    Host {
        userns: bits & 1 != 0,
        netns: bits & 2 != 0,
        nft: bits & 4 != 0,
        notify: bits & 8 != 0,
        landlock_abi: if bits & 16 != 0 { Some(3) } else { None },
        seccomp: bits & 32 != 0,
        cgroup: bits & 64 != 0,
        cgroup_detail: None,
    }
}

fn outcome(exit_code: Option<i32>) -> ExecOutcome {
    ExecOutcome {
        stdout: b"out".to_vec(),
        stderr: Vec::new(),
        exit_code,
        timed_out: false,
        wall_ms: 5,
        cpu_ms: 7,
        max_rss_kb: Some(9),
        egress: None,
    }
}

/// What a resolver that knows only these names answers.
fn answers(egress: &[String]) -> Vec<Option<Vec<IpAddr>>> {
    egress
        .iter()
        .map(|raw| {
            let (host, _) = egress_query(raw)?;
            match host.as_str() {
                "localhost" => Some(vec![v4(127, 0, 0, 1), v6([0, 0, 0, 0, 0, 0, 0, 1])]),
                "127.0.0.1" => Some(vec![v4(127, 0, 0, 1)]),
                "0.0.0.0" => Some(vec![v4(0, 0, 0, 0)]),
                "169.254.169.254" => Some(vec![v4(169, 254, 169, 254)]),
                "mixed.test" => Some(vec![v4(0, 0, 0, 0), v4(10, 0, 0, 1), v4(10, 0, 0, 1)]),
                _ => None,
            }
        })
        .collect()
}

fn resolved(egress: &[&str]) -> ResolvedEgress {
    let egress: Vec<String> = egress.iter().map(|s| s.to_string()).collect();
    let answers = answers(&egress);
    resolve_egress(&egress, &answers)
}

#[test]
fn probe_is_fail_closed_and_explained() {
    for bits in 0..128 {
        let caps = probe(&host(bits));
        if caps.usable {
            assert!(caps.components.iter().all(|c| c.ok));
            assert!(caps.missing().is_empty());
        } else {
            assert!(!caps.missing().is_empty(), "refusal must explain what's missing");
        }
        assert_eq!(caps.usable, bits == 127);
    }
    let caps = probe(&host(127 - 64));
    assert_eq!(caps.missing(), vec!["cgroup-v2-delegation: no delegated cgroup".to_string()]);
    let mut h = host(127 - 64);
    h.cgroup_detail = Some("not delegated".to_string());
    assert_eq!(probe(&h).missing(), vec!["cgroup-v2-delegation: not delegated".to_string()]);

    assert!(!probe_elsewhere().usable);
    assert_eq!(
        probe_elsewhere().missing(),
        vec!["platform: isolation=supervised needs Linux or macOS".to_string()]
    );
    let mac = MacHost { seatbelt: true, seatbelt_detail: None, loopback_error: None };
    assert!(probe_macos(&mac).usable);
    assert_eq!(probe_macos(&mac).components.len(), 4);
    let bare = MacHost {
        seatbelt: false,
        seatbelt_detail: None,
        loopback_error: Some("denied".to_string()),
    };
    assert_eq!(
        probe_macos(&bare).missing(),
        vec![
            "seatbelt".to_string(),
            "loopback-egress-proxy: cannot bind 127.0.0.1 for the allowlist proxy: denied".to_string(),
            "seatbelt-network-gate: needs Seatbelt to pin the box to the proxy port".to_string(),
        ]
    );
}

#[test]
fn socket_gate_is_default_deny() {
    const AF_UNIX: i32 = 1;
    const AF_INET: i32 = 2;
    const AF_INET6: i32 = 10;
    const AF_PACKET: i32 = 17;
    const AF_NETLINK: i32 = 16;
    const AF_VSOCK: i32 = 40;
    const SOCK_STREAM: i32 = 1;
    const SOCK_DGRAM: i32 = 2;
    const SOCK_RAW: i32 = 3;
    const SOCK_CLOEXEC: i32 = 0o2000000;
    const IPPROTO_RAW: i32 = 255;

    let allow = |d, t, p| decide_socket(d, t, p, false);

    assert_eq!(allow(AF_INET, SOCK_STREAM, 0), Decision::Continue);
    assert_eq!(allow(AF_INET6, SOCK_DGRAM, 0), Decision::Continue);
    assert_eq!(allow(AF_INET, SOCK_STREAM | SOCK_CLOEXEC, 0), Decision::Continue);

    assert_eq!(allow(AF_INET, SOCK_RAW, 0), Decision::Deny(libc::EPERM));
    assert_eq!(allow(AF_PACKET, SOCK_DGRAM, 0), Decision::Deny(libc::EPERM));
    assert_eq!(allow(AF_INET, SOCK_STREAM, IPPROTO_RAW), Decision::Deny(libc::EPERM));
    assert_eq!(allow(AF_NETLINK, SOCK_DGRAM, 0), Decision::Deny(libc::EPERM));
    assert_eq!(allow(AF_VSOCK, SOCK_STREAM, 0), Decision::Deny(libc::EPERM));
    assert_eq!(allow(999, 999, 0), Decision::Deny(libc::EPERM));

    assert_eq!(allow(AF_INET, SOCK_STREAM, 6), Decision::Continue);
    assert_eq!(allow(AF_INET, SOCK_DGRAM, 17), Decision::Continue);
    for (kind, protocol) in [(SOCK_STREAM, 132), (SOCK_STREAM, 17), (SOCK_DGRAM, 6), (SOCK_DGRAM, 1)] {
        assert_eq!(allow(AF_INET, kind, protocol), Decision::Deny(libc::EPERM));
    }
    assert_eq!(decide_socket(AF_UNIX, SOCK_STREAM, 0, false), Decision::Deny(libc::EPERM));
    assert_eq!(decide_socket(AF_UNIX, SOCK_STREAM, 0, true), Decision::Continue);
}

#[test]
fn socketpair_gate_allows_anonymous_unix_pairs() {
    const AF_UNIX: i32 = 1;
    const AF_INET: i32 = 2;
    const AF_PACKET: i32 = 17;
    const SOCK_STREAM: i32 = 1;
    const SOCK_DGRAM: i32 = 2;
    const SOCK_RAW: i32 = 3;
    const SOCK_CLOEXEC: i32 = 0o2000000;

    assert_eq!(decide_socketpair(AF_UNIX, SOCK_STREAM, 0, false), Decision::Continue);
    assert_eq!(
        decide_socketpair(AF_UNIX, SOCK_STREAM | SOCK_CLOEXEC, 0, false),
        Decision::Continue
    );
    assert_eq!(decide_socketpair(AF_UNIX, SOCK_DGRAM, 0, false), Decision::Continue);

    assert_eq!(decide_socketpair(AF_PACKET, SOCK_DGRAM, 0, false), Decision::Deny(libc::EPERM));
    assert_eq!(decide_socketpair(AF_INET, SOCK_RAW, 0, false), Decision::Deny(libc::EPERM));
    assert_eq!(decide_socketpair(999, 999, 0, false), Decision::Deny(libc::EPERM));
    assert_eq!(decide_socketpair(AF_INET, SOCK_STREAM, 0, false), Decision::Continue);
}

#[test]
fn nft_ruleset_is_default_drop_with_allowlist() {
    let allow = vec![
        EgressDest { ip: v4(93, 184, 216, 34), port: 443 },
        EgressDest { ip: example_v6(), port: 443 },
    ];
    let resolver = Some(v4(10, 0, 2, 3));
    let rs = build_nft_ruleset(&allow, resolver);
    assert!(rs.contains("policy drop;"), "must default-drop:\n{rs}");
    assert!(rs.contains("oif \"lo\" accept"));
    assert!(rs.contains("ct state established,related accept"));
    assert!(rs.contains("ip daddr 10.0.2.3 udp dport 53 accept"));
    assert!(rs.contains("ip daddr 93.184.216.34 tcp dport 443 accept"));
    assert!(rs.contains("ip6 daddr 2606:2800:220:1:248:1893:25c8:1946 tcp dport 443 accept"));
}

#[test]
fn nft_empty_allowlist_drops_everything_but_lo() {
    let rs = build_nft_ruleset(&vec![], None);
    assert!(rs.contains("policy drop;"));
    assert!(rs.contains("oif \"lo\" accept"));
    assert!(!rs.contains("daddr"), "empty allowlist must add no daddr rule:\n{rs}");
    assert_eq!(
        rs,
        "table inet h5i_egress {\n  chain output {\n    type filter hook output priority 0; policy drop;\n    ct state established,related accept\n    oif \"lo\" accept\n  }\n}\n"
    );
}

#[test]
fn nft_rule_pins_the_exact_port() {
    let allow = vec![EgressDest { ip: v4(10, 1, 2, 3), port: 8443 }];
    let rs = build_nft_ruleset(&allow, None);
    assert!(rs.contains("ip daddr 10.1.2.3 tcp dport 8443 accept"), "{rs}");
    assert!(!rs.contains("dport 443"));
}

#[test]
fn pin_egress_parses_host_and_explicit_port() {
    let names: Vec<String> = vec!["localhost".into(), "localhost:8080".into()];
    let pinned = pin_egress(&names, &answers(&names));
    assert!(pinned.iter().any(|d| d.port == 443), "default port should be 443");
    assert!(pinned.iter().any(|d| d.port == 8080), "explicit port should be honored");
    assert!(pinned.iter().all(|d| d.ip.is_loopback()));
    let blank: Vec<String> = vec!["".into(), "   ".into()];
    assert!(pin_egress(&blank, &answers(&blank)).is_empty());

    assert_eq!(egress_query(" a.test:8443 "), Some(("a.test".to_string(), 8443)));
    assert_eq!(egress_query("a.test:70000"), Some(("a.test".to_string(), 443)));
    assert_eq!(egress_query("a.test:http"), Some(("a.test:http".to_string(), 443)));
    assert_eq!(egress_query("a.test:"), Some(("a.test:".to_string(), 443)));
    assert_eq!(egress_query("::1"), Some((":".to_string(), 1)));
}

#[test]
fn an_egress_name_cannot_pin_to_somewhere_no_host_lives() {
    let never = [
        v4(169, 254, 169, 254),
        v4(169, 254, 1, 1),
        v6([0xfe80, 0, 0, 0, 0, 0, 0, 1]),
        mapped(169, 254, 169, 254),
        v4(224, 0, 0, 1),
        v6([0xff02, 0, 0, 0, 0, 0, 0, 1]),
        v4(255, 255, 255, 255),
        v4(0, 0, 0, 0),
        v6([0; 8]),
    ];
    for ip in never {
        assert!(!is_pinnable(&ip), "{} must not be pinnable", ip.to_text());
    }
    let fine = [
        v4(93, 184, 216, 34),
        example_v6(),
        v4(10, 1, 2, 3),
        v4(192, 168, 1, 10),
        v4(172, 16, 0, 1),
        v6([0xfd00, 0, 0, 0, 0, 0, 0, 1]),
        v4(127, 0, 0, 1),
        v6([0, 0, 0, 0, 0, 0, 0, 1]),
    ];
    for ip in fine {
        assert!(is_pinnable(&ip), "{} must stay pinnable", ip.to_text());
    }
}

#[test]
fn a_sinkholed_answer_and_a_metadata_answer_are_not_the_same_refusal() {
    for ip in [v4(0, 0, 0, 0), v6([0; 8]), mapped(0, 0, 0, 0)] {
        assert!(!is_pinnable(&ip), "must still never be pinned");
        assert!(is_sinkhole(&ip), "a resolver saying 'blocked'");
    }
    for ip in [
        v4(169, 254, 169, 254),
        mapped(169, 254, 169, 254),
        v6([0xfe80, 0, 0, 0, 0, 0, 0, 1]),
        v4(224, 0, 0, 1),
    ] {
        assert!(!is_sinkhole(&ip), "must stay a hard refusal, not a sinkhole");
    }

    let r = resolved(&["0.0.0.0", "169.254.169.254", "127.0.0.1"]);
    assert_eq!(r.sinkholed.len(), 1, "{:?}", r.sinkholed);
    assert_eq!(r.sinkholed[0].0, "0.0.0.0");
    assert_eq!(r.refused.len(), 1, "{:?}", r.refused);
    assert_eq!(r.refused[0].0, "169.254.169.254");
    assert_eq!(r.dests, vec![EgressDest { ip: v4(127, 0, 0, 1), port: 443 }]);
    assert!(r.host_pins.is_empty(), "IP literals need no /etc/hosts pin");
}

#[test]
fn resolve_egress_pins_hostnames_not_ip_literals() {
    let r = resolved(&["localhost", "127.0.0.1:8080"]);
    assert!(!r.dests.is_empty());
    assert!(r.host_pins.iter().any(|(h, _)| h == "localhost"), "hostname pinned");
    assert!(
        r.host_pins.iter().all(|(h, _)| h != "127.0.0.1"),
        "IP literal needs no /etc/hosts pin"
    );
    for (_, ip) in &r.host_pins {
        assert!(r.dests.iter().any(|d| &d.ip == ip), "pin IP is in the nft allowlist");
    }

    let r = resolved(&["mixed.test:80", "nowhere.test"]);
    assert_eq!(r.dests, vec![EgressDest { ip: v4(10, 0, 0, 1), port: 80 }]);
    assert_eq!(r.host_pins, vec![("mixed.test".to_string(), v4(10, 0, 0, 1))]);
    assert_eq!(r.sinkholed, vec![("mixed.test:80".to_string(), v4(0, 0, 0, 0))]);
}

#[test]
fn run_egress_fails_closed_when_unsupported() {
    let ready = probe(&host(127));
    let err = run(&ready, true, false, || panic!("must not be executed")).unwrap_err();
    assert!(err.contains("slirp4netns"), "{err}");
    let bare = probe(&host(0));
    let err = run(&bare, true, true, || panic!("must not be executed")).unwrap_err();
    assert!(err.contains("Missing"), "{err}");
    assert!(err.contains("nftables: `nft` binary not found on PATH, seccomp-user-notif"), "{err}");
    assert!(preflight(&ready, true, true).is_ok());
    assert!(preflight(&ready, false, false).is_ok());

    let done = run(&ready, false, false, || Ok(outcome(Some(3)))).expect("admitted");
    assert_eq!(done.exit_code, Some(3));
    assert_eq!(run_interactive(&ready, true, true, || Ok(outcome(Some(3)))), Ok(3));
    assert_eq!(run_interactive(&ready, true, true, || Ok(outcome(None))), Ok(130));
    assert_eq!(
        run_interactive(&ready, true, true, || Err("gone".to_string())),
        Err("gone".to_string())
    );
    assert!(run_interactive(&bare, false, false, || Ok(outcome(None))).is_err());
}

#[test]
fn slirp_args_toggle_host_loopback() {
    let off = slirp_args(4321, false);
    assert!(off.contains(&"--disable-host-loopback".to_string()));
    let on = slirp_args(4321, true);
    assert!(!on.contains(&"--disable-host-loopback".to_string()));
    for a in [&off, &on] {
        assert_eq!(a.first().unwrap(), "--configure");
        assert!(a.contains(&"4321".to_string()), "pid passed through");
        assert!(a.contains(&"tap0".to_string()));
        assert!(a.iter().any(|s| s == "--mtu=65520"));
    }
}

#[test]
fn proxy_only_egress_ruleset_allows_just_the_gateway_port() {
    assert_eq!(slirp_gateway(), v4(10, 0, 2, 2));
    let rs = build_nft_ruleset(&vec![EgressDest { ip: slirp_gateway(), port: 8080 }], None);
    assert!(rs.contains("policy drop;"), "must default-drop:\n{rs}");
    assert!(rs.contains("ip daddr 10.0.2.2 tcp dport 8080 accept"), "{rs}");
    assert!(rs.contains("oif \"lo\" accept"));
    assert!(!rs.contains("dport 53"), "proxy-only egress needs no resolver:\n{rs}");
    assert!(!rs.contains("dport 443"), "direct API egress must NOT be opened:\n{rs}");
}

#[test]
fn cred_scrub_targets_backing_copy_not_real_home() {
    let bind = |backing: &str, target: &str| HomeBind {
        backing: backing.to_string(),
        target: target.to_string(),
    };
    let agent = AgentRuntime::with_credentials_in(".agent");
    let binds = vec![
        bind("/env/home/.agent", "/home/u/.agent"),
        bind("/env/home/.agent.json", "/home/u/.agent.json"),
    ];
    let paths = cred_scrub_paths(&agent, &binds);
    assert_eq!(paths, vec!["/env/home/.agent/.credentials.json".to_string()]);
    assert!(paths.iter().all(|p| p.starts_with("/env/home")));

    let codex = vec![bind("/env/home/.codex", "/home/u/.codex")];
    assert_eq!(
        cred_scrub_paths(&AgentRuntime::codex(), &codex),
        vec!["/env/home/.codex/auth.json".to_string()]
    );
    assert!(cred_scrub_paths(&agent, &codex).is_empty());

    let slashes = vec![bind("/env/home/.agent/", "/home/u//.agent/./")];
    assert_eq!(
        cred_scrub_paths(&agent, &slashes),
        vec!["/env/home/.agent/.credentials.json".to_string()]
    );
}

#[test]
fn an_egress_plan_is_refused_or_exact() {
    let err = setup_egress(None, resolved(&["169.254.169.254"])).expect_err("metadata");
    assert!(err.starts_with("net.egress entry \"169.254.169.254\" resolves to 169.254.169.254, which"));
    let err = setup_egress(None, resolved(&["0.0.0.0"])).expect_err("sinkholed");
    assert!(err.ends_with("so check the resolver rather than the policy)"), "{err}");
    let err = setup_egress(None, resolved(&["nowhere.test"])).expect_err("nothing");
    assert_eq!(err, "net.egress resolved to no reachable address — refusing (fail-closed)");

    let plan = setup_egress(None, resolved(&["mixed.test", "0.0.0.0"])).expect("a plan");
    assert!(!plan.allow_host_loopback);
    assert_eq!(
        plan.hosts,
        "127.0.0.1 localhost\n::1 localhost\n10.0.0.1 mixed.test\n"
    );
    let notices = egress_notices(None, &resolved(&["mixed.test", "0.0.0.0"]));
    assert_eq!(notices.len(), 2);
    assert_eq!(egress_notices(None, &resolved(&["0.0.0.0"])).len(), 1);
    assert!(egress_notices(Some(1), &resolved(&["0.0.0.0"])).is_empty());
    assert!(egress_notices(None, &resolved(&["0.0.0.0", "169.254.169.254"])).is_empty());
    assert!(notices[1].starts_with("h5i: net.egress entry \"0.0.0.0\" resolves to 0.0.0.0 — a"));
    assert!(plan.rules.contains("    ip daddr 10.0.0.1 tcp dport 443 accept\n"));

    let proxied = setup_egress(Some(8080), resolved(&["169.254.169.254"])).expect("the proxy alone");
    assert!(proxied.allow_host_loopback);
    assert_eq!(proxied.dests, vec![EgressDest { ip: slirp_gateway(), port: 8080 }]);
    assert_eq!(proxied.hosts, hosts_file(&vec![]));
}

#[test]
fn addresses_are_written_as_everybody_writes_them() {
    for (ip, text) in [
        (v6([0; 8]), "::"),
        (v6([0, 0, 0, 0, 0, 0, 0, 1]), "::1"),
        (v6([1, 0, 0, 0, 0, 0, 0, 0]), "1::"),
        (v6([0xfe80, 0, 0, 0, 0, 0, 0, 1]), "fe80::1"),
        (v6([1, 0, 2, 3, 4, 5, 6, 7]), "1:0:2:3:4:5:6:7"),
        (v6([1, 0, 0, 2, 0, 0, 0, 3]), "1:0:0:2::3"),
        (v6([1, 0, 0, 2, 3, 0, 0, 4]), "1::2:3:0:0:4"),
        (mapped(10, 1, 2, 3), "::ffff:10.1.2.3"),
        (example_v6(), "2606:2800:220:1:248:1893:25c8:1946"),
        (v4(255, 0, 10, 9), "255.0.10.9"),
    ] {
        assert_eq!(ip.to_text(), text);
    }
    assert_eq!(SocketAddr { ip: v4(127, 0, 0, 1), port: 80 }.to_text(), "127.0.0.1:80");
    let six = SocketAddr { ip: v6([0, 0, 0, 0, 0, 0, 0, 1]), port: 3000 };
    assert_eq!(six.to_text(), "[::1]:3000");
}

#[test]
fn an_address_is_told_from_a_name() {
    let literal = |s: &str| h5i_share::address::is_ip_literal(&s.chars().collect::<Vec<char>>());
    for s in [
        "127.0.0.1", "0.0.0.0", "255.255.255.255", "::", "::1", "1::", "1:2:3:4:5:6:7:8",
        "1:2:3:4:5:6:7::", "::ffff:1.2.3.4", "1:2:3:4:5:6:1.2.3.4", "FE80::abCD",
    ] {
        assert!(literal(s), "{s}");
    }
    for s in [
        "", "localhost", "1.2.3", "1.2.3.4.5", "01.2.3.4", "256.1.1.1", "1.2.3.", ":", "1:2", ":::",
        "1::2::3", "12345::", "g::", "1:2:3:4:5:6:7:8::", "1.2.3.4::", "::1.2.3", "1:2:3:4:5:6:7:8:9",
    ] {
        assert!(!literal(s), "{s}");
    }
}

#[test]
fn tools_are_looked_for_where_they_live() {
    let path = vec!["/opt/bin".to_string(), "/usr//bin/".to_string()];
    assert_eq!(find_bin(path), ["/opt/bin", "/usr//bin/", "/usr/sbin", "/sbin", "/bin"]);
    assert_eq!(find_bin(vec![]), ["/usr/sbin", "/sbin", "/usr/bin", "/bin"]);
}

#[test]
fn a_box_is_pointed_at_its_proxy() {
    let env = proxied_env(vec![("A".to_string(), "1".to_string())], "127.0.0.1", 8080, "OWN");
    assert_eq!(env.len(), 9);
    assert_eq!(env[1], ("HTTP_PROXY".to_string(), "http://127.0.0.1:8080".to_string()));
    assert_eq!(env[6], ("OWN".to_string(), "http://127.0.0.1:8080".to_string()));
    assert_eq!(env[8], ("no_proxy".to_string(), "localhost,127.0.0.1".to_string()));
}

#[test]
fn the_cgroup_knows_better_than_the_wait() {
    let usage = Usage { mem_peak_bytes: Some(4096), cpu_usec: Some(1_999) };
    let done = account(outcome(Some(0)), false, Some(usage), 2, 3);
    assert_eq!((done.cpu_ms, done.max_rss_kb), (1, Some(4)));
    assert_eq!(done.egress, Some(verdicts(2, 3)));
    let done = account(outcome(Some(0)), false, None, 0, 0);
    assert_eq!((done.cpu_ms, done.max_rss_kb), (7, Some(9)));
    assert_eq!(done.stdout, b"out");
    let done = account(outcome(Some(3)), true, None, 0, 0);
    assert!(done.stdout.is_empty() && done.stderr.is_empty());
    assert_eq!((done.exit_code, done.cpu_ms), (Some(3), 7));
}

fn verdicts(allowed: u64, denied: u64) -> EgressSummary {
    EgressSummary { allowed, denied, hosts: Vec::new(), hosts_truncated: false, log: None }
}

fn var(name: &str, value: &str) -> (String, String) {
    (name.to_string(), value.to_string())
}

fn orders(egress: bool, interactive: bool) -> Orders {
    Orders { egress, interactive, unix_sockets: false, wall_seconds: 60 }
}

#[test]
fn a_run_goes_step_by_step() {
    let (mut l, first) = Launch::run_supervised(orders(true, false), vec![var("A", "1")]);
    assert!(matches!(first, Action::ValidateNotify));
    assert!(l.accepts(&Event::Done) && l.accepts(&Event::Failed(String::new())));
    assert!(!l.accepts(&Event::Ended { waited: outcome(None), usage: None, allowed: 0, denied: 0 }));
    assert!(matches!(l.next(Event::Done).action, Action::OpenPair));
    assert!(matches!(l.next(Event::Done).action, Action::EngageAuth));
    let env = vec![var("B", "2")];
    let m = l.next(Event::Engaged { port: 8080, runtime: AgentRuntime::codex(), env });
    assert_eq!(m.scrub.expect("a credential to remove").directory, ".codex");
    assert!(matches!(m.action, Action::SetUpEgress(Some(8080))));
    match l.next(Event::Done).action {
        Action::BuildCommand { env } => assert_eq!(env, vec![var("A", "1"), var("B", "2")]),
        other => panic!("{other:?}"),
    }
    assert!(matches!(l.next(Event::Done).action, Action::Spawn { collect: true }));
    let m = l.next(Event::Done);
    assert_eq!(m.close, vec![Handle::Child]);
    assert!(matches!(m.action, Action::ReceiveListener));
    let m = l.next(Event::Done);
    assert_eq!(m.close, vec![Handle::Parent]);
    assert!(matches!(m.action, Action::OpenPidfd));
    let m = l.next(Event::Done);
    assert!(matches!(m.action, Action::Serve { unix_granted: false, wall_seconds: Some(60) }));
    let m = l.next(Event::Ended { waited: outcome(Some(0)), usage: None, allowed: 1, denied: 2 });
    assert_eq!(m.close, vec![Handle::Listener, Handle::Pidfd]);
    match m.action {
        Action::Finish(Ok(done)) => {
            assert_eq!(done.egress, Some(verdicts(1, 2)));
            assert_eq!(done.stdout, b"out");
        }
        other => panic!("{other:?}"),
    }
    assert_eq!(l.stage, Stage::Over);
}

#[test]
fn a_run_that_fails_lets_go_of_everything() {
    let fail = |steps: usize, egress: bool| {
        let (mut l, _) = Launch::run_supervised(orders(egress, true), Vec::new());
        for _ in 0..steps {
            l.next(Event::Done);
        }
        l.next(Event::Failed("why".to_string()))
    };
    let said = |m: &h5i_share::launch::Move| match &m.action {
        Action::Finish(Err(why)) => why.clone(),
        other => panic!("{other:?}"),
    };
    let m = fail(0, false);
    assert_eq!((m.close.len(), m.kill, said(&m)), (0, false, "why".to_string()));
    let m = fail(3, true);
    assert_eq!(m.close, vec![Handle::Parent, Handle::Child]);
    assert_eq!(said(&m), "why");
    let m = fail(3, false);
    assert_eq!(m.close, vec![Handle::Parent, Handle::Child]);
    assert_eq!(said(&m), "supervised spawn failed: why");
    let m = fail(4, false);
    assert_eq!((m.close.clone(), m.kill), (vec![Handle::Parent], true));
    assert_eq!(said(&m), "supervised: did not receive the seccomp listener from the child: why");
    let m = fail(5, false);
    assert_eq!((m.close.clone(), m.kill), (vec![Handle::Listener], true));
    assert_eq!(said(&m), "supervised: pidfd_open failed: why");
}

#[test]
fn an_interactive_session_hands_on_nothing_it_printed() {
    let (mut l, _) = Launch::run_supervised(orders(false, true), Vec::new());
    for _ in 0..3 {
        l.next(Event::Done);
    }
    assert!(matches!(l.next(Event::Done).action, Action::ReceiveListener));
    l.next(Event::Done);
    let m = l.next(Event::Done);
    assert!(matches!(m.action, Action::Serve { unix_granted: false, wall_seconds: None }));
    let m = l.next(Event::Ended { waited: outcome(Some(0)), usage: None, allowed: 0, denied: 0 });
    match m.action {
        Action::Finish(Ok(done)) => assert!(done.stdout.is_empty() && done.stderr.is_empty()),
        other => panic!("{other:?}"),
    }
}

fn on_a_mac(egress: bool, interactive: bool) -> (MacLaunch, mac_launch::Action) {
    let env = vec![var("A", "1")];
    MacLaunch::run_supervised(egress, interactive, env, "127.0.0.1".into(), "OWN".into())
}

#[test]
fn a_box_on_a_mac_reaches_one_proxy() {
    let (l, first) = on_a_mac(false, false);
    match first {
        mac_launch::Action::Run { env, ports, interactive } => {
            assert_eq!((env, ports, interactive), (vec![var("A", "1")], vec![], false));
        }
        other => panic!("{other:?}"),
    }
    assert!(!l.accepts(&mac_launch::Event::Exited(0, None)));

    let (mut l, first) = on_a_mac(true, false);
    assert!(matches!(first, mac_launch::Action::EngageAuth));
    let env = vec![var("B", "2")];
    let m = l.next(mac_launch::Event::Engaged { port: 9, runtime: AgentRuntime::codex(), env });
    assert_eq!(m.scrub.expect("a credential to remove").credential, "auth.json");
    match m.action {
        mac_launch::Action::Run { env, ports, .. } => {
            assert_eq!((env, ports), (vec![var("A", "1"), var("B", "2")], vec![9]));
        }
        other => panic!("{other:?}"),
    }
    let ran = mac_launch::Event::Ran(outcome(Some(0)), Some(verdicts(1, 1)));
    match l.next(ran).action {
        mac_launch::Action::Finish(Ok(done)) => {
            assert_eq!((done.egress, done.stdout), (None, b"out".to_vec()));
        }
        other => panic!("{other:?}"),
    }
    assert_eq!(l.stage, mac_launch::Stage::Over);
}

#[test]
fn a_session_on_a_mac_is_its_exit_code() {
    let (mut l, _) = on_a_mac(true, true);
    let m = l.next(mac_launch::Event::NoAuth);
    assert!(matches!(m.action, mac_launch::Action::StartProxy) && m.scrub.is_none());
    match l.next(mac_launch::Event::Proxied { port: 7 }).action {
        mac_launch::Action::Run { env, ports, interactive } => {
            assert_eq!((env.len(), ports, interactive), (9, vec![7], true));
            assert_eq!(env[6], var("OWN", "http://127.0.0.1:7"));
        }
        other => panic!("{other:?}"),
    }
    match l.next(mac_launch::Event::Exited(4, Some(verdicts(1, 2)))).action {
        mac_launch::Action::Finish(Ok(done)) => {
            assert!(done.stdout.is_empty() && done.stderr.is_empty());
            assert_eq!((done.exit_code, done.egress), (Some(4), Some(verdicts(1, 2))));
        }
        other => panic!("{other:?}"),
    }
    let (mut l, _) = on_a_mac(true, true);
    match l.next(mac_launch::Event::Failed("no proxy".to_string())).action {
        mac_launch::Action::Finish(Err(why)) => assert_eq!(why, "no proxy"),
        other => panic!("{other:?}"),
    }
}
