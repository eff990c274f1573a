use h5i_share::bridge::{AuthorizedGrant, Bridge, ClaimedRecord};
use h5i_share::clock::{Moment, SeenClock};
use h5i_share::dialer::DialError;
use h5i_share::figures::bytes;
use h5i_share::receipt::{render_receipt, Summary};
use h5i_share::session::{Denied, Grant, ReadState, ShareSession, Transport};
use h5i_share::status::render_status;
use h5i_share::tally::{
    DeniedAttempt, Path, PeerRecord, TurnedAway, TurnedAwayReason, MAX_CONNECTIONS, MAX_FRONT,
    MAX_KNOCKS, MAX_PEER_RECORDS,
};

fn at(s: &str) -> Moment {
    let t = chrono::DateTime::parse_from_rfc3339(s).expect("timestamp");
    Moment { seconds: t.timestamp(), nanos: t.timestamp_subsec_nanos() }
}

/// A moment so many seconds later.
fn later(m: Moment, seconds: i64) -> Moment {
    Moment { seconds: m.seconds + seconds, ..m }
}

fn start() -> Moment {
    at("2026-08-10T10:00:00Z")
}

fn grant(id: &str, label: Option<&str>, expires_at: i64) -> Grant {
    Grant { id: id.to_string(), label: label.map(|l| l.to_string()), expires_at, revoked: false }
}

fn share(port: u16, endpoint: &str, started_at: &str) -> ShareSession {
    ShareSession {
        box_id: "env/a/demo".to_string(),
        port,
        transport: Transport::P2p,
        endpoint: endpoint.to_string(),
        pid: 4242,
        started_at: started_at.to_string(),
        winding_up: false,
        grants: Vec::new(),
    }
}

fn test_bridge(found: &ReadState) -> Bridge {
    Bridge::new(
        "env/test/demo".to_string(),
        "digest".to_string(),
        "demo".to_string(),
        Transport::P2p,
        "local".to_string(),
        1,
        ClaimedRecord::on_disk(found),
        start(),
    )
}

/// The only secret that a share of these tests knows.
fn weigh(s: &ShareSession, secret: &str, now: i64) -> Result<AuthorizedGrant, Denied> {
    match s.grants.first() {
        Some(g) if secret == "good" && g.revoked => Err(Denied::Revoked),
        Some(g) if secret == "good" && g.expires_at <= now => Err(Denied::Expired),
        Some(g) if secret == "good" => Ok(AuthorizedGrant {
            id: g.id.clone(),
            label: g.label.clone(),
            expires_at: g.expires_at,
        }),
        _ => Err(Denied::Unknown),
    }
}

fn peer(name: &str, path: Path) -> PeerRecord {
    PeerRecord {
        peer: name.into(),
        grant: "a1b2c3d4".into(),
        label: Some("alex".into()),
        path: Some(path),
        opened: at("2026-08-10T10:00:00Z"),
        closed: Some(at("2026-08-10T10:05:00Z")),
        last_seen: None,
        connections: 12,
        bytes_to_peer: 5_000,
        bytes_from_peer: 900,
    }
}

fn summary(peers: Vec<PeerRecord>, denied: Vec<DeniedAttempt>) -> Summary {
    Summary {
        transport: Transport::P2p,
        endpoint: "abcdef".into(),
        port: 3000,
        started: at("2026-08-10T10:00:00Z"),
        ended: at("2026-08-10T10:10:00Z"),
        seconds: 600,
        clock_moved: 0,
        peers,
        peers_overflow: 0,
        overflow_connections: 0,
        overflow_bytes_to_peer: 0,
        overflow_bytes_from_peer: 0,
        denied,
        denied_overflow: 0,
        over_capacity: 0,
        front_refused: 0,
        unreachable: 0,
        route_broken: 0,
        settled: true,
        turned_away: Vec::new(),
        turned_away_overflow: 0,
        failed_because: None,
        truncated: 0,
    }
}

#[test]
fn the_receipt_names_the_peer_the_path_and_the_traffic() {
    let body = render_receipt(&summary(vec![peer("kbcd…", Path::Direct)], vec![]));
    assert!(body.contains("share session, 600s (p2p transport)"));
    assert!(body.contains("port 3000 inside the box, never published"));
    assert!(body.contains("kbcd… via direct"));
    assert!(body.contains("grant a1b2c3d4 (alex)"));
    assert!(body.contains("12 connections"));
    assert!(body.contains("900 B in / 4.9 KiB out"), "{body}");
}

#[test]
fn a_byte_count_says_what_it_counts() {
    assert_eq!(bytes(0), "0 B");
    assert_eq!(bytes(96), "96 B");
    assert_eq!(bytes(1023), "1023 B");
    assert_eq!(bytes(1024), "1.0 KiB");
    assert_eq!(bytes(5000), "4.9 KiB");
    assert_eq!(bytes(7_209_077), "6.9 MiB");
    assert_eq!(bytes(4 * 1024 * 1024 * 1024), "4.0 GiB");
    assert_eq!(
        bytes(1_048_575),
        "1.0 MiB",
        "a hair under a mebibyte is not 1024.0 KiB"
    );
    assert_eq!(bytes(1_073_741_823), "1.0 GiB");
    assert_eq!(bytes(1_048_576), "1.0 MiB");
    assert_eq!(bytes(1024u64 * 1024 * 1024 * 1024), "1.0 TiB");
    assert_eq!(bytes(u64::MAX), "16777216.0 TiB");
}

#[test]
fn a_ticket_used_by_two_people_says_so() {
    let mut a = peer("aaaa", Path::Direct);
    a.grant = "g1".into();
    let mut b = peer("bbbb", Path::Direct);
    b.grant = "g1".into();
    let mut c = peer("cccc", Path::Direct);
    c.grant = "g2".into();

    let body = render_receipt(&summary(vec![a, b, c], vec![]));
    assert!(
        body.contains("ticket   grant g1 was used by 2 separate peers"),
        "{body}"
    );
    assert!(body.contains("cuts off all of them"), "{body}");
    assert!(!body.contains("grant g2 was used"), "{body}");

    let quiet = render_receipt(&summary(vec![peer("aaaa", Path::Direct)], vec![]));
    assert!(!quiet.contains("separate peers"), "{quiet}");
}

#[test]
fn a_receipt_measures_the_session_and_says_when_the_clock_moved() {
    let mut s = summary(vec![], vec![]);
    s.started = at("2026-08-11T14:22:14Z");
    s.ended = at("2026-08-11T13:23:51Z");
    s.seconds = 97;
    s.clock_moved = -3503;

    let body = render_receipt(&s);
    assert!(body.contains("share session, 97s"), "{body}");
    assert!(!body.contains("share session, 0s"), "{body}");
    assert!(body.contains("clock jumped back 3503s"), "{body}");
    assert!(
        body.contains("are clock readings and are off by that much"),
        "{body}"
    );

    let mut s = summary(vec![], vec![]);
    s.seconds = 23;
    s.clock_moved = 660;
    let body = render_receipt(&s);
    assert!(body.contains("share session, 23s"), "{body}");
    assert!(body.contains("clock jumped forward 660s"), "{body}");

    let mut s = summary(vec![], vec![]);
    s.started = at("2026-08-10T10:00:00Z");
    s.ended = at("2026-08-10T10:10:00Z");
    s.seconds = 600;
    s.clock_moved = 0;
    assert!(!render_receipt(&s).contains("clock"));

    let mut s = summary(vec![], vec![]);
    s.started = at("2026-08-10T10:00:00Z");
    s.ended = at("2026-08-10T10:09:30Z");
    s.seconds = 600;
    s.clock_moved = 0;
    let body = render_receipt(&s);
    assert!(body.contains("run at different rates"), "{body}");
    assert!(!body.contains("clock jumped"), "{body}");
    assert!(body.contains("Nothing jumped"), "{body}");
}

#[test]
fn a_knock_with_no_invite_is_not_an_unknown_ticket() {
    let mut s = summary(vec![], vec![]);
    s.denied = vec![
        DeniedAttempt {
            at: at("2026-08-10T10:01:00Z"),
            reason: Denied::NoCredential,
        },
        DeniedAttempt {
            at: at("2026-08-10T10:02:00Z"),
            reason: Denied::Unknown,
        },
    ];
    let body = render_receipt(&s);
    assert!(body.contains("1 presented no invite"), "{body}");
    assert!(body.contains("1 an unknown ticket"), "{body}");
}

#[test]
fn a_broken_route_is_not_the_user_s_dev_server_being_down() {
    let mut s = summary(vec![], vec![]);
    s.route_broken = 3;
    s.unreachable = 0;
    let body = render_receipt(&s);
    assert!(body.contains("could not reach the box at all"), "{body}");
    assert!(!body.contains("nothing listening"), "{body}");
}

#[test]
fn a_connection_turned_away_before_any_ticket_leaves_a_trace() {
    let mut s = summary(vec![], vec![]);
    s.turned_away = vec![
        TurnedAway {
            at: at("2026-08-10T10:01:00Z"),
            why: TurnedAwayReason::NoDirectPath,
        },
        TurnedAway {
            at: at("2026-08-10T10:02:00Z"),
            why: TurnedAwayReason::NoDirectPath,
        },
        TurnedAway {
            at: at("2026-08-10T10:03:00Z"),
            why: TurnedAwayReason::Unparseable,
        },
    ];
    let body = render_receipt(&s);
    assert!(body.contains("turned   3 connection(s) away"), "{body}");
    assert!(body.contains("2 no direct path was available"), "{body}");
    assert!(
        body.contains("1 sent something this share would not parse"),
        "{body}"
    );
}

#[test]
fn a_receipt_written_before_the_connections_finished_says_so() {
    let mut s = summary(vec![], vec![]);
    s.settled = false;
    let body = render_receipt(&s);
    assert!(
        body.contains("written before every connection had finished"),
        "{body}"
    );

    s.settled = true;
    assert!(!render_receipt(&s).contains("written before every"));
}

#[test]
fn a_tunnel_peer_is_not_held_to_the_end_of_the_share() {
    let mut p = peer("alex", Path::Tunnel);
    p.opened = at("2026-08-10T10:01:00Z");
    p.closed = None;
    p.last_seen = Some(at("2026-08-10T10:02:00Z"));
    let body = render_receipt(&summary(vec![p], vec![]));
    assert!(body.contains("60s"), "{body}");
    assert!(
        !body.contains("540s"),
        "the peer was held to the end anyway: {body}"
    );
}

#[test]
fn a_receipt_with_everything_in_it_still_reads_as_sentences() {
    let mut s = summary(
        vec![
            peer("kbcd…", Path::Direct),
            peer("a browser", Path::Relayed),
        ],
        vec![
            DeniedAttempt {
                at: at("2026-08-10T10:01:00Z"),
                reason: Denied::Unknown,
            },
            DeniedAttempt {
                at: at("2026-08-10T10:02:00Z"),
                reason: Denied::Revoked,
            },
        ],
    );
    s.transport = Transport::Tunnel;
    s.peers_overflow = 3;
    s.denied_overflow = 12;
    s.over_capacity = 5;
    s.front_refused = 900_000;
    s.unreachable = 2;
    s.truncated = 1;
    let body = render_receipt(&s);

    for line in body.lines() {
        let text = line.get(10..).unwrap_or("");
        assert!(!text.contains("  "), "a run of spaces in: {line:?}");
        assert!(line.len() < 200, "a line nobody will read: {line:?}");
    }
    for expected in [
        "share session, 600s (tunnel transport)",
        "not end-to-end encrypted",
        "peers    2",
        "and 3 more peer(s)",
        "relay    1 peer(s) used a relay",
        "capacity 5 connection(s) refused",
        "flooded  900000 connection(s) refused at the front door",
        "unreached 2 connection(s) were authorized",
        "truncated 1 response(s) the box left unfinished",
        "refused  14 attempt(s)",
        "(12 of them not recorded individually)",
    ] {
        assert!(body.contains(expected), "missing {expected:?} in:\n{body}");
    }
}

#[test]
fn a_peer_who_arrived_and_read_nothing_is_a_peer_with_no_connections() {
    let mut p = peer("a browser", Path::Tunnel);
    p.connections = 0;
    p.bytes_to_peer = 190;
    p.bytes_from_peer = 0;
    let body = render_receipt(&summary(vec![p], vec![]));
    assert!(body.contains("0 connections"), "{body}");
    assert!(!body.contains("nobody connected"), "{body}");
}

#[test]
fn a_share_nobody_used_says_so_rather_than_saying_nothing() {
    let body = render_receipt(&summary(vec![], vec![]));
    assert!(body.contains("nobody connected"));
}

#[test]
fn using_a_relay_is_recorded_as_using_a_relay() {
    let body = render_receipt(&summary(vec![peer("kbcd…", Path::Relayed)], vec![]));
    assert!(body.contains("via relayed"));
    assert!(body.contains("could not read them"));
}

#[test]
fn the_tunnels_weaker_claim_is_in_the_receipt_not_only_the_docs() {
    let mut s = summary(vec![], vec![]);
    s.transport = Transport::Tunnel;
    let body = render_receipt(&s);
    assert!(body.contains("not end-to-end encrypted"));
}

#[test]
fn being_knocked_on_is_evidence_and_is_kept() {
    let denied = vec![
        DeniedAttempt {
            at: at("2026-08-10T10:01:00Z"),
            reason: Denied::Unknown,
        },
        DeniedAttempt {
            at: at("2026-08-10T10:02:00Z"),
            reason: Denied::Unknown,
        },
        DeniedAttempt {
            at: at("2026-08-10T10:03:00Z"),
            reason: Denied::Revoked,
        },
    ];
    let body = render_receipt(&summary(vec![], denied));
    assert!(body.contains("refused  3 attempt(s)"));
    assert!(body.contains("2 an unknown ticket"), "{body}");
    assert!(body.contains("1 revoked"));
}

#[test]
fn more_peers_than_the_receipt_lists_is_said_rather_than_dropped() {
    let mut s = summary(vec![peer("kbcd…", Path::Direct)], vec![]);
    s.peers_overflow = 41;
    s.overflow_connections = 7;
    s.overflow_bytes_from_peer = 900;
    s.overflow_bytes_to_peer = 5000;
    let body = render_receipt(&s);
    assert!(body.contains("and 41 more peer(s)"), "{body}");
    assert!(body.contains("7 connection(s)"), "{body}");
    assert!(body.contains("900 B in"), "{body}");
    assert!(body.contains("4.9 KiB out"), "{body}");
    assert!(!body.contains("not counted above"), "{body}");
}

#[test]
fn a_share_knocked_on_more_than_the_list_holds_says_so() {
    let mut s = summary(
        vec![],
        (0..3)
            .map(|_| DeniedAttempt {
                at: at("2026-08-10T10:01:00Z"),
                reason: Denied::Unknown,
            })
            .collect(),
    );
    s.denied_overflow = 48_976;
    let body = render_receipt(&s);
    assert!(body.contains("refused  48979 attempt(s)"), "{body}");
    assert!(body.contains("48976 of them not recorded"), "{body}");
}

#[test]
fn a_good_ticket_that_found_nothing_listening_is_not_silence() {
    let mut s = summary(vec![], vec![]);
    s.unreachable = 4;
    let body = render_receipt(&s);
    assert!(body.contains("4 connection(s) were authorized"), "{body}");
    assert!(body.contains("nothing listening on port 3000"), "{body}");
}

#[test]
fn the_capacity_line_reads_as_a_sentence() {
    let mut s = summary(vec![], vec![]);
    s.over_capacity = 1;
    let body = render_receipt(&s);
    assert!(!body.contains("  of "), "{body}");
    assert!(body.contains("64 were already reaching the box"), "{body}");
}

#[test]
fn hitting_the_ceiling_is_recorded_as_load_not_as_a_bad_ticket() {
    let mut s = summary(vec![], vec![]);
    s.over_capacity = 7;
    let body = render_receipt(&s);
    assert!(body.contains("capacity 7 connection(s) refused"), "{body}");
    assert!(
        !body.contains("refused  "),
        "load must not read as a credential failure"
    );
}

#[test]
fn a_peer_still_connected_when_the_share_ends_is_counted_to_the_end() {
    let mut p = peer("kbcd…", Path::Direct);
    p.closed = None;
    let body = render_receipt(&summary(vec![p], vec![]));
    assert!(body.contains("600s"), "{body}");
}

#[test]
fn a_path_that_fell_back_to_a_relay_is_not_rounded_up_to_direct() {
    let mut p = peer("kbcd…", Path::Relayed);
    p.path = Some(Path::Relayed);
    let body = render_receipt(&summary(vec![p], vec![]));
    assert!(body.contains("relayed"));
}

#[test]
fn neither_share_renderer_puts_a_control_character_on_the_terminal() {
    const HOSTILE: &str = "x\u{1b}[2J\u{1b}[1;1Hforged\u{202e}\u{7}";
    let clean = |rendered: &str, what: &str| {
        assert!(
            !rendered.chars().any(|c| c.is_control() && c != '\n'),
            "{what} put a control character on the terminal: {rendered:?}"
        );
        assert!(!rendered.contains('\u{202e}'), "{what} kept a bidi override");
    };

    let mut p = peer(HOSTILE, Path::Direct);
    p.grant = HOSTILE.into();
    p.label = Some(HOSTILE.into());
    let mut twin = peer(HOSTILE, Path::Direct);
    twin.grant = HOSTILE.into();
    let mut s = summary(vec![p, twin], vec![]);
    s.endpoint = HOSTILE.into();
    s.failed_because = Some(HOSTILE.into());
    clean(&render_receipt(&s), "render_receipt");

    let mut session = share(3000, HOSTILE, HOSTILE);
    session.box_id = HOSTILE.into();
    session.transport = Transport::Tunnel;
    session.grants.push(grant(HOSTILE, Some(HOSTILE), 4_000_000_000));
    clean(&render_status(&session, 1_000, true, None), "render_status");
    clean(&render_status(&session, 1_000, false, Some(90)), "render_status");
}

#[test]
fn a_bridge_whose_record_was_replaced_is_spent_rather_than_adopted() {
    let now = start();
    let mut a = share(3000, "abc", "2026-08-10T10:00:00+00:00");
    a.grants.push(grant("aaaaaaaa", None, 4_000_000_000));
    let a = ReadState::Present(a);
    let mut bridge = test_bridge(&a);
    assert!(bridge.grant_is_live("aaaaaaaa", a.clone(), now, 0));
    assert!(!bridge.is_spent(a.clone(), now, 0));
    assert!(!bridge.share_is_ending(a.clone()));

    let mut b = share(9999, "def", "2026-08-10T10:00:01+00:00");
    b.grants.push(grant("bbbbbbbb", None, 4_000_000_000));
    let new_share = b.clone();
    let b = ReadState::Present(b);
    assert!(
        bridge.is_spent(b.clone(), now, 0),
        "a replaced record kept the old bridge alive"
    );
    assert!(
        bridge.share_is_ending(b.clone()),
        "the old bridge did not treat a replacement as its own ending"
    );
    assert!(
        !bridge.grant_is_live("bbbbbbbb", b.clone(), now, 0),
        "the old bridge watched the new share's grant"
    );
    assert!(
        !bridge.grant_is_live("aaaaaaaa", b.clone(), now, 0),
        "the old bridge still admitted its own dead grant"
    );
    assert!(
        matches!(bridge.authorize("good", b, now, 0, weigh), Err(Denied::ShareOver)),
        "the old bridge admitted a ticket minted for the new share"
    );
    assert!(
        !bridge.claimed().matches(&new_share),
        "a teardown that asks whose record it is would mark the new share's"
    );
}

#[test]
fn a_stopped_share_is_the_most_ended_a_share_gets() {
    let mut s = share(3000, "abc", "2026-08-10T10:00:00+00:00");
    let b = test_bridge(&ReadState::Present(s.clone()));
    assert!(
        !b.share_is_ending(ReadState::Present(s.clone())),
        "a serving share is not ending"
    );
    s.winding_up = true;
    assert!(b.share_is_ending(ReadState::Present(s)));
    assert!(
        b.share_is_ending(ReadState::Gone),
        "no record at all is not 'still serving'"
    );
    assert!(!b.share_is_ending(ReadState::Unreadable));
}

#[test]
fn a_clock_stepped_backwards_cannot_lengthen_a_ticket() {
    let base = start();
    let mut c = SeenClock::default();

    assert_eq!(c.observe(base, 0), base);
    assert_eq!(c.observe(later(base, 2), 2), later(base, 2));

    let stepped = c.observe(later(base, -3597), 3);
    assert_eq!(stepped, later(base, 3));
    assert_eq!(c.stepped, -3600);
    let after = c.observe(later(base, -3596), 4);
    assert_eq!(after, later(base, 4));

    let mut c = SeenClock::default();
    c.observe(base, 0);
    let jumped = c.observe(later(base, 3601), 1);
    assert_eq!(jumped, later(base, 3601));
    assert_eq!(c.stepped, 3600);
}

#[test]
fn a_clock_put_right_again_does_not_leave_every_ticket_short() {
    let base = start();
    let mut c = SeenClock::default();
    c.observe(base, 0);

    let out = c.observe(later(base, -3599), 1);
    assert_eq!(out, later(base, 1));
    assert_eq!(c.correction, 3600);

    let out = c.observe(later(base, 2), 2);
    assert_eq!(c.correction, 0, "the correction outlived the problem");
    assert_eq!(out, later(base, 2), "a corrected clock was still being corrected");
    assert_eq!(c.stepped, 0);

    let mut c = SeenClock::default();
    c.observe(base, 0);
    let out = c.observe(later(base, 3601), 1);
    assert_eq!(out, later(base, 3601));
    assert_eq!(c.correction, 0);
    let out = c.observe(later(base, -3598), 2);
    assert_eq!(
        out,
        later(base, 3602),
        "a clock that went forward and came back bought itself time"
    );
}

#[test]
fn a_clock_that_merely_runs_slow_is_not_a_clock_that_jumped() {
    let base = start();
    let mut c = SeenClock::default();
    let mut wall = 0i64;
    for minute in 0..60 {
        wall += 57;
        let out = c.observe(later(base, wall), (minute + 1) * 60);
        assert_eq!(
            out,
            later(base, wall),
            "drift was corrected as if it were a step, at minute {minute}"
        );
    }
    assert_eq!(c.stepped, 0, "drift was reported as a jump");

    let out = c.observe(later(base, wall - 600), 3660);
    assert!(c.stepped < 0, "a ten-minute jump went unnoticed on a drifting host");
    assert_eq!(out, later(base, wall + 660 - 600));
}

#[test]
fn a_grant_table_this_share_cannot_read_is_not_the_visitors_fault() {
    let mut b = test_bridge(&ReadState::Gone);
    let err = b
        .authorize(&"ab".repeat(32), ReadState::Unreadable, start(), 0, weigh)
        .expect_err("no table");
    assert_eq!(err, Denied::TableUnreadable);
    assert!(
        err.explain().contains("problem on the sharing machine"),
        "{}",
        err.explain()
    );
    assert!(!err.explain().contains("not one this share knows"));

    let body = render_receipt(&b.snapshot(start(), 0));
    assert!(body.contains("could not read its own grant table"), "{body}");

    let quiet = summary(vec![], vec![]);
    assert!(!render_receipt(&quiet).contains("could not read its own"));
}

#[test]
fn a_share_that_has_been_stopped_is_not_a_broken_machine() {
    let mut b = test_bridge(&ReadState::Gone);
    let err = b
        .authorize(&"ab".repeat(32), ReadState::Gone, start(), 0, weigh)
        .expect_err("no table");
    assert_eq!(err, Denied::ShareOver);
    assert_eq!(err.explain(), "this share has ended");
    assert!(!err.explain().contains("sharing machine"));

    let body = render_receipt(&b.snapshot(start(), 0));
    assert!(body.contains("after the share had been stopped"), "{body}");
    assert!(!body.contains("could not read its own grant table"), "{body}");
}

#[test]
fn a_missing_grant_table_authorizes_nobody_and_ends_the_share() {
    let now = start();
    let mut sess = share(3000, "local", "2026-08-10T10:00:00+00:00");
    sess.grants.push(grant("aaaaaaaa", None, 4_000_000_000));
    let there = ReadState::Present(sess);
    let mut b = test_bridge(&there);
    assert!(b.grant_is_live("aaaaaaaa", there.clone(), now, 0), "a live grant read as dead");
    assert!(!b.is_spent(there, now, 0), "a live share read as spent");

    assert!(
        !b.grant_is_live("aaaaaaaa", ReadState::Gone, now, 0),
        "a deleted grant table still authorized a peer"
    );
    assert!(
        b.is_spent(ReadState::Gone, now, 0),
        "a deleted grant table left the share serving"
    );
    assert!(
        !b.grant_is_live("aaaaaaaa", ReadState::Unreadable, now, 0),
        "a corrupt grant table authorized a peer"
    );
    assert!(
        b.is_spent(ReadState::Unreadable, now, 0),
        "a corrupt grant table left the share serving"
    );
}

#[test]
fn more_peers_than_the_list_holds_are_counted_not_dropped() {
    let mut b = test_bridge(&ReadState::Gone);
    let g = AuthorizedGrant {
        id: "a1b2c3d4".into(),
        label: Some("alex".into()),
        expires_at: 4_000_000_000,
    };
    for _ in 0..(MAX_PEER_RECORDS + 5) {
        b.peer_joined("somebody".into(), &g, Some(Path::Direct), start());
    }
    let s = b.snapshot(start(), 0);
    assert_eq!(s.peers.len(), MAX_PEER_RECORDS);
    assert_eq!(s.peers_overflow, 5);
    let body = render_receipt(&s);
    assert!(body.contains("and 5 more peer(s)"), "{body}");
}

#[test]
fn status_says_seconds_when_seconds_is_what_is_left() {
    let now = 1_000_000;
    let mut s = share(3000, "https://x", "2026-08-10T10:00:00+00:00");
    s.transport = Transport::Tunnel;
    s.grants = vec![grant("a1b2c3d4", None, now + 45)];
    let out = render_status(&s, now, true, None);
    assert!(out.contains("45s left"), "{out}");
    assert!(!out.contains("0m"), "{out}");
}

#[test]
fn winding_up_is_told_to_the_connections_before_anything_waits_on_them() {
    let mut b = test_bridge(&ReadState::Gone);
    let permit = b.enter_front().expect("an open share takes connections");
    assert!(!b.shutting_down());

    b.begin_shutdown();
    assert!(b.shutting_down(), "shutting_down did not fire");
    assert!(b.enter_front().is_none(), "a connection was taken while winding up");

    assert_eq!(b.quiesce(false), None, "a connection is still being handled");
    b.leave_front(permit);
    assert_eq!(b.quiesce(false), Some(true));
    assert!(b.tally.settled);
}

#[test]
fn a_peer_past_the_record_cap_still_lands_in_the_totals() {
    let mut b = test_bridge(&ReadState::Gone);
    let grant = AuthorizedGrant {
        id: "a1b2c3d4".into(),
        label: None,
        expires_at: 4_000_000_000,
    };

    for i in 0..MAX_PEER_RECORDS {
        let id = b.peer_joined(format!("peer{i}"), &grant, None, start());
        b.peer_connection(id);
    }
    let overflow = b.peer_joined("the real one".into(), &grant, None, start());
    b.peer_connection(overflow);
    b.peer_bytes(overflow, 4_000, 1_000);

    let s = b.snapshot(start(), 0);
    assert_eq!(s.peers.len(), MAX_PEER_RECORDS);
    assert_eq!(s.peers_overflow, 1);
    assert_eq!(s.overflow_connections, 1);
    assert_eq!(s.overflow_bytes_to_peer, 4_000);
    assert_eq!(s.overflow_bytes_from_peer, 1_000);
    let last = s.peers.last().expect("a record");
    assert_eq!(last.connections, 1);
    assert_eq!(last.bytes_to_peer, 0);
    assert_eq!(last.bytes_from_peer, 0);
}

#[test]
fn status_flags_a_share_whose_process_is_gone() {
    let s = share(3000, "abc", "2026-08-10T10:00:00+00:00");
    let out = render_status(&s, 0, false, None);
    assert!(out.contains("GONE"));
    assert!(out.contains("share stop demo"), "{out}");
}

#[test]
fn status_tells_the_three_states_of_a_grant_apart() {
    let mut s = share(3000, "abc", "2026-08-10T10:00:00+00:00");
    let live = grant("aaaaaaaa", Some("alex"), 3_600);
    let gone = grant("bbbbbbbb", None, 10);
    let mut cut = grant("cccccccc", None, 3_600);
    cut.revoked = true;
    s.grants = vec![live, gone, cut];
    let out = render_status(&s, 600, true, None);
    assert!(out.contains("aaaaaaaa  50m left"), "{out}");
    assert!(out.contains("bbbbbbbb  expired"), "{out}");
    assert!(out.contains("cccccccc  revoked"), "{out}");
    assert!(out.contains("alex"));
}

#[test]
fn a_peer_past_the_record_cap_changes_nothing_rather_than_the_last_one() {
    let mut b = test_bridge(&ReadState::Gone);
    let g = AuthorizedGrant {
        id: "a1b2c3d4".into(),
        label: None,
        expires_at: 4_000_000_000,
    };
    let mut overflow = None;
    for i in 0..MAX_PEER_RECORDS + 8 {
        overflow = Some(b.peer_joined(format!("peer{i}"), &g, None, start()));
    }
    assert_eq!(b.peer_count(), MAX_PEER_RECORDS);
    let last_before = b.tally.peers[MAX_PEER_RECORDS - 1].clone();

    let id = overflow.expect("a handle");
    b.peer_connection(id);
    b.peer_bytes(id, 1000, 2000);
    b.peer_path(id, Path::Relayed);
    b.peer_left(id, start());

    let after = b.tally.peers[MAX_PEER_RECORDS - 1].clone();
    assert_eq!(after.connections, last_before.connections);
    assert_eq!(after.bytes_to_peer, last_before.bytes_to_peer);
    assert_eq!(after.path, last_before.path);
    assert!(after.closed.is_none());
}

#[test]
fn a_path_nobody_has_seen_yet_is_replaced_by_the_first_one_that_is() {
    let mut b = test_bridge(&ReadState::Gone);
    let g = AuthorizedGrant {
        id: "a1b2c3d4".into(),
        label: None,
        expires_at: 4_000_000_000,
    };
    let id = b.peer_joined("kbcd…".into(), &g, None, start());
    assert_eq!(b.tally.peers[0].path, None);
    b.peer_path(id, Path::Relayed);
    assert_eq!(b.tally.peers[0].path, Some(Path::Relayed));

    b.peer_path(id, Path::Direct);
    assert_eq!(b.tally.peers[0].path, Some(Path::Relayed));
}

#[test]
fn a_label_cannot_rewrite_the_lines_around_it() {
    let nasty = "alex\r\u{1b}[2Kadmin\u{202e}";
    let clean = |s: &str, what: &str| {
        assert!(!s.contains('\r'), "{what}: {s:?}");
        assert!(!s.contains('\u{1b}'), "{what}: {s:?}");
        assert!(!s.contains('\u{202e}'), "{what}: {s:?}");
        assert!(s.contains("alex"), "{what} lost the label: {s:?}");
    };

    let mut s = share(3000, "abc", "2026-08-10T10:00:00+00:00");
    s.grants.push(grant("a1b2c3d4", Some(nasty), 4_000_000_000));
    clean(&render_status(&s, 1, true, None), "share status");

    let mut p = peer("peer", Path::Direct);
    p.label = Some(nasty.into());
    clean(&render_receipt(&summary(vec![p], vec![])), "the receipt");
}

#[test]
fn a_ticket_is_weighed_only_while_the_share_is_up() {
    let now = start();
    let mut s = share(3000, "abc", "2026-08-10T10:00:00+00:00");
    s.grants.push(grant("aaaaaaaa", Some("alex"), now.seconds + 60));
    let there = ReadState::Present(s);
    let mut b = test_bridge(&there);

    let g = b.authorize("good", there.clone(), now, 0, weigh).expect("a good ticket");
    assert_eq!(g.id, "aaaaaaaa");
    assert_eq!(g.label.as_deref(), Some("alex"));
    assert_eq!(b.tally.denied.len(), 0);
    assert_eq!(
        b.authorize("bad", there.clone(), now, 0, weigh).expect_err("unknown"),
        Denied::Unknown
    );
    assert_eq!(
        b.authorize("good", there.clone(), later(now, 60), 60, weigh).expect_err("expired"),
        Denied::Expired
    );
    b.begin_shutdown();
    assert_eq!(
        b.authorize("good", there, now, 60, weigh).expect_err("over"),
        Denied::ShareOver
    );
    let reasons: Vec<Denied> = b.tally.denied.iter().map(|d| d.reason).collect();
    assert_eq!(reasons, vec![Denied::Unknown, Denied::Expired, Denied::ShareOver]);
}

#[test]
fn a_share_carries_its_limit_and_no_more() {
    let mut b = test_bridge(&ReadState::Gone);
    let mut permits = Vec::new();
    for _ in 0..MAX_CONNECTIONS {
        permits.push(b.admit_one().expect("a free slot"));
    }
    assert_eq!(b.free_slots(), 0);
    assert!(b.admit_one().is_none());
    assert_eq!(b.tally.over_capacity, 1);
    b.release(permits.pop().expect("a permit"));
    assert_eq!(b.free_slots(), 1);
    assert!(b.admit_one().is_some());

    assert_eq!(b.quiesce(false), None);
    assert_eq!(b.quiesce(true), Some(false));
    assert!(!b.tally.settled);
}

#[test]
fn the_front_door_is_bounded_too() {
    let mut b = test_bridge(&ReadState::Gone);
    let mut permits = Vec::new();
    for _ in 0..MAX_FRONT {
        permits.push(b.enter_front().expect("room"));
    }
    assert!(b.enter_front().is_none());
    b.record_front_refusal();
    assert_eq!(b.tally.front_refused, 1);
}

#[test]
fn every_knock_past_the_lists_is_counted() {
    let mut b = test_bridge(&ReadState::Gone);
    for _ in 0..MAX_KNOCKS + 3 {
        b.record_refused(start());
        b.record_turned_away(TurnedAwayReason::NeverGreeted, start());
    }
    assert_eq!(b.tally.denied.len(), MAX_KNOCKS);
    assert_eq!(b.tally.denied_overflow, 3);
    assert_eq!(b.tally.turned_away.len(), MAX_KNOCKS);
    assert_eq!(b.tally.turned_away_overflow, 3);
    assert_eq!(b.tally.denied[0].reason, Denied::NoCredential);
}

#[test]
fn what_a_peer_did_is_on_its_record() {
    let mut b = test_bridge(&ReadState::Gone);
    let g = AuthorizedGrant { id: "g1".into(), label: Some("alex".into()), expires_at: 1 };
    let first = b.peer_joined("one".into(), &g, None, start());
    let second = b.peer_joined("two".into(), &g, Some(Path::Direct), start());
    b.peer_connection(second);
    b.peer_bytes(second, 10, 20);
    b.peer_bytes(second, 1, 2);
    b.peer_seen(first, later(start(), 5));
    b.peer_left(second, later(start(), 9));
    assert_eq!(b.open_upstream(Ok(5)), Ok(5));
    let nothing = b.open_upstream::<u8>(Err(DialError::NothingListening("down".into())));
    assert_eq!(nothing, Err("down".to_string()));
    let broken = b.open_upstream::<u8>(Err(DialError::Broken("gone".into())));
    assert_eq!(broken, Err("gone".to_string()));
    b.record_truncated();
    let peers = &b.tally.peers;
    assert_eq!((peers[0].connections, peers[0].bytes_to_peer), (0, 0));
    assert_eq!(peers[0].last_seen, Some(later(start(), 5)));
    assert_eq!(peers[0].closed, None);
    assert_eq!(
        (peers[1].connections, peers[1].bytes_to_peer, peers[1].bytes_from_peer),
        (1, 11, 22)
    );
    assert_eq!(peers[1].closed, Some(later(start(), 9)));
    assert_eq!(peers[1].label.as_deref(), Some("alex"));
    assert_eq!(
        (b.tally.unreachable, b.tally.route_broken, b.tally.truncated),
        (1, 1, 1)
    );
}

#[test]
fn the_record_of_a_share_says_what_it_was() {
    let mut b = test_bridge(&ReadState::Gone);
    let g = AuthorizedGrant { id: "g1".into(), label: None, expires_at: 1 };
    let id = b.peer_joined("one".into(), &g, Some(Path::Direct), start());
    b.peer_bytes(id, 2048, 1);
    let ended = later(start(), 120);
    assert!(b.is_writable(ended, 120));
    let r = b.write_receipt(ended, 120, true).unwrap();
    assert_eq!(r.env_id, "env/test/demo");
    assert_eq!(r.policy_digest, "digest");
    assert_eq!(r.source, "share");
    assert_eq!(r.cmd, "h5i box share demo (port 1, 1 peer(s), 120s)");
    assert_eq!(r.share.transport, "p2p");
    assert_eq!((r.share.port, r.share.peers, r.share.turned_away), (1, 1, 0));
    assert_eq!(r.wall_ms, Some(120_000));
    assert_eq!(r.exit_code, 0);
    assert!(r.body.starts_with("share session, 120s (p2p transport)\n"), "{}", r.body);
    assert!(
        r.body.contains("opened   2026-08-10T10:00:00+00:00\nclosed   2026-08-10T10:02:00+00:00\n"),
        "{}",
        r.body
    );
    assert_eq!(
        b.recorded_line("r1", 120),
        "◈  receipt r1 · 1 peer(s), 120s, 2.0 KiB to visitors · h5i box inspect demo --capture r1"
    );

    let failed = b.write_receipt_failed("the tunnel died", ended, 120, true).unwrap();
    assert_eq!(failed.exit_code, 1);
    assert!(failed.body.contains("ended    badly: the tunnel died\n"), "{}", failed.body);
    assert!(!b.is_writable(ended, i64::MAX));
}

#[test]
fn a_status_says_how_the_share_stands() {
    let mut s = share(3000, "abc", "then");
    assert!(render_status(&s, 0, true, None).contains("nobody can get in"));
    assert!(render_status(&s, 0, true, None).contains("  grants    none\n"));
    s.grants.push(grant("a1b2c3d4", None, 7_200));
    let out = render_status(&s, 0, true, None);
    assert_eq!(
        out,
        "env/a/demo — sharing port 3000 over p2p\n  endpoint  abc\n  started   then\n  process   pid 4242\n  grants\n    a1b2c3d4  2h0m left \n"
    );
    let ahead = render_status(&s, 0, true, Some(3_720));
    assert!(ahead.contains("reports starting 1h2m in the future"), "{ahead}");
    s.winding_up = true;
    let out = render_status(&s, 0, true, None);
    assert!(out.contains("— shutting down, was sharing port 3000"), "{out}");
    assert!(out.contains("pid 4242 — shutting down; it is writing"), "{out}");
}

#[test]
fn tickets_are_listed_in_order() {
    let mut peers = Vec::new();
    for g in ["b", "a", "c", "b", "a", "ab", "ab"] {
        let mut p = peer("somebody", Path::Direct);
        p.grant = g.into();
        peers.push(p);
    }
    let body = render_receipt(&summary(peers, vec![]));
    let listed: Vec<&str> = body
        .lines()
        .filter(|l| l.starts_with("ticket   grant "))
        .map(|l| &l[15..l.find(" was used").expect("a sentence")])
        .collect();
    assert_eq!(listed, vec!["a", "ab", "b"]);
}

#[test]
fn a_byte_count_is_rounded_as_a_reader_expects() {
    assert_eq!(bytes(1_048_524), "1023.9 KiB");
    assert_eq!(bytes(1_048_525), "1.0 MiB");
    assert_eq!(bytes(1_310_720), "1.2 MiB");
    assert_eq!(bytes(1_835_008), "1.8 MiB");
    assert_eq!(bytes(1_152 * 1024 * 1024 * 1024 * 1024 / 1024), "1.1 TiB");
    assert_eq!(bytes((1 << 53) + (1 << 38) + 1), "8192.2 TiB");
}


#[test]
fn a_receipt_does_not_resurrect_a_box_that_was_removed() {
    let mut b = test_bridge(&ReadState::Gone);
    let ended = later(start(), 1);
    assert!(b.is_writable(ended, 1));
    assert!(b.write_receipt(ended, 1, true).is_ok(), "the ordinary case still writes one");
    let said = "share: the box was removed while this share was running, so there is nowhere \
                to write the receipt";
    assert_eq!(b.write_receipt(ended, 1, false).err().as_deref(), Some(said));
    assert_eq!(b.write_receipt_failed("gone", ended, 1, false).err().as_deref(), Some(said));
    assert_eq!(
        Bridge::unrecorded_line("disk full"),
        "share: could not record the session: disk full"
    );
}

#[test]
fn a_revoke_closes_one_ticket_and_leaves_the_others() {
    let mut s = share(3000, "e", "2026-08-10T10:00:00Z");
    s.grants = vec![grant("a", None, 100), grant("b", None, 100)];
    assert!(s.has_live_grant("a", 99) && s.has_live_grant("b", 99));
    s.grants[0].revoked = true;
    assert!(!s.has_live_grant("a", 99) && s.has_live_grant("b", 99));
    assert!(!s.has_live_grant("b", 100) && s.is_spent(100) && !s.is_spent(99));
}
