use h5i_share::address::Ipv4Addr;
use h5i_share::join::{
    check_outcome, check_ticket, closed, ending_line, expired_here, shared_jar_refusal,
    upstream_failure, why_it_ended, Binder, Bound, Closed, Joined, OpenError, ALL_TRIES,
    BIND_FLAG, SHARED_JAR_FLAG,
};
use h5i_share::joining::{JoinAction, JoinEvent, Joining, Terms};
use h5i_share::tally::Path;

/// Try addresses until one is bound, on a machine that can bind these.
fn bind(mut b: Binder, can: impl Fn(Ipv4Addr) -> bool) -> Result<(Ipv4Addr, bool), String> {
    let mut seed: u8 = 7;
    loop {
        seed = seed.wrapping_mul(31).wrapping_add(3);
        let addr = b.bind_loopback(seed, seed.wrapping_add(90), seed.wrapping_mul(5))?;
        let error = if can(addr) { None } else { Some("in use".to_string()) };
        match b.bind_for(addr, error) {
            Bound::Listening(shared) => return Ok((addr, shared)),
            Bound::Again => {}
            Bound::Refused(why) => return Err(why),
        }
    }
}

#[test]
fn each_ending_is_attributed_to_what_actually_happened() {
    let cases = [
        (
            "h5i: this ticket was revoked or has expired",
            "revoked or ran out",
        ),
        ("h5i: this share has ended", "they stopped sharing"),
        (
            "h5i: --direct-only, and the direct path was lost",
            "direct connection was lost",
        ),
        ("h5i: no ticket was presented", "nothing was opened"),
    ];
    for (wire, expected) in cases {
        let said = why_it_ended(wire);
        assert!(said.contains(expected), "{wire} -> {said}");
        assert!(!said.contains("h5i:"), "{wire} -> {said}");
    }

    let said = why_it_ended("closed by peer: 0");
    assert!(
        said.contains("stopped sharing, or the ticket ran out"),
        "{said}"
    );
}

#[test]
fn a_revoke_is_not_announced_as_the_end_of_the_share() {
    let revoked = ending_line("h5i: this ticket was revoked or has expired");
    assert!(
        revoked.starts_with("your access to this share ended"),
        "{revoked}"
    );
    assert!(revoked.contains("revoked or ran out"), "{revoked}");

    let stopped = ending_line("h5i: this share has ended");
    assert!(stopped.starts_with("the share ended"), "{stopped}");
    assert!(stopped.contains("they stopped sharing"), "{stopped}");
}

#[test]
fn a_ticket_this_machine_thinks_is_expired_says_whose_opinion_that_is() {
    let msg = expired_here(1_000, 1_000 + 7_200);
    assert!(msg.contains("2h0m ago"), "{msg}");
    assert!(msg.contains("by this machine's clock"), "{msg}");
    assert!(msg.contains("check the clocks"), "{msg}");

    let msg = expired_here(1_000, 1_060);
    assert!(msg.starts_with("this ticket expired 1m ago"), "{msg}");
}

#[test]
fn only_a_refused_ticket_stops_the_command() {
    assert!(check_outcome(Ok(())).expect("a good ticket").is_none());

    let err = check_outcome(Err(OpenError::Refused)).expect_err("refused is fatal");
    assert!(err.to_string().contains("refused"), "{err}");

    let err = check_outcome(Err(OpenError::Transport("gone".into())))
        .expect_err("an unusable connection is fatal");
    assert!(err.to_string().contains("gone"), "{err}");

    let broken = check_outcome(Err(OpenError::RouteBroken)).expect("not fatal");
    let said = broken.expect("a warning");
    assert!(said.contains("cannot reach inside the box"), "{said}");
    assert!(!said.contains("start their dev server"), "{said}");

    let busy = check_outcome(Err(OpenError::Busy)).expect("busy is not fatal");
    assert!(busy.expect("a warning").contains("as many connections"));

    let down = check_outcome(Err(OpenError::Unreachable)).expect("unreachable is not fatal");
    assert!(down.is_some(), "an unreachable box said nothing at all");

    let over = check_outcome(Err(OpenError::ShareOver)).expect_err("a dead share is fatal");
    
    assert!(over.contains("has ended"), "{over}");
    assert!(!over.contains("refused"), "{over}");
    assert!(!over.contains("expired"), "{over}");

    let fault = check_outcome(Err(OpenError::SharerFault)).expect("not fatal");
    let fault = fault.expect("a warning");
    assert!(fault.contains("could not read its own record"), "{fault}");
    assert!(!fault.contains("ask for a new"), "{fault}");
}

#[test]
fn a_busy_share_and_a_bad_ticket_do_not_look_the_same_to_the_browser() {
    let busy = upstream_failure(&OpenError::Busy);
    assert!(busy.starts_with("HTTP/1.1 503 "), "{busy}");
    assert!(busy.contains("wait a moment"), "{busy}");

    let over = upstream_failure(&OpenError::ShareOver);
    assert!(over.starts_with("HTTP/1.1 410 "), "{over}");
    assert!(over.contains("has ended"), "{over}");
    let fault = upstream_failure(&OpenError::SharerFault);
    assert!(fault.starts_with("HTTP/1.1 503 "), "{fault}");

    let refused = upstream_failure(&OpenError::Refused);
    assert!(refused.starts_with("HTTP/1.1 502 "), "{refused}");
    assert!(refused.contains("ask for"), "{refused}");

    assert!(!busy.contains("401") && !refused.contains("401"));
    for r in [busy, refused] {
        let (head, body) = r.split_once("\r\n\r\n").expect("a head and a body");
        assert!(head.contains(&format!("Content-Length: {}", body.len())));
    }
}

#[test]
fn the_refusal_says_what_to_do_about_it() {
    let said = shared_jar_refusal();
    assert!(said.contains(SHARED_JAR_FLAG), "{said}");
    assert!(said.contains("ifconfig lo0 alias"), "{said}");
    assert!(said.contains("only cookies the box itself set"), "{said}");
    assert!(!said.contains('\r'), "{said}");
    assert!(!said.contains('\u{1b}'), "{said}");
}
#[test]
fn a_join_binds_a_loopback_address_of_its_own() {
    let (a, shared) = bind(Binder::new(None, 0, false), |_| true).expect("bind");
    assert!(!shared);
    assert!(a.is_loopback(), "a join bound something reachable");
    assert_ne!(a.to_text(), "127.0.0.1", "the fallback was taken silently");

    let aliased = Ipv4Addr::new(127, 0, 0, 2);
    let (b, shared) = bind(Binder::new(None, 0, false), |x| x == aliased).expect("bind");
    assert_eq!(b, aliased);
    assert!(!shared);
}

/// What a join did, on a machine that can bind these addresses.
#[derive(Default)]
struct Seen {
    bound: Vec<Ipv4Addr>,
    dialled: bool,
    announced: Option<Joined>,
    cookie: Option<String>,
}

fn terms(expires_at: i64, bind: Option<Ipv4Addr>, allow_shared_jar: bool) -> Terms {
    Terms { box_id: "env/a/demo".into(), expires_at, bind, port: 0, allow_shared_jar }
}

/// Join at second 1000, with a sharer that answers like this.
fn run(
    terms: Terms,
    can: impl Fn(Ipv4Addr) -> bool,
    answer: Result<(), OpenError>,
) -> (Result<String, String>, Seen) {
    let mut seen = Seen::default();
    let (mut j, mut action) = Joining::begin(terms, 1_000);
    let mut answer = Some(answer);
    loop {
        let event = match action {
            JoinAction::Pick => JoinEvent::Picked(7, 8, 9),
            JoinAction::Bind(addr, port) => {
                assert_eq!(port, 0);
                if can(addr) {
                    seen.bound.push(addr);
                    JoinEvent::Bound { port: 4321 }
                } else {
                    JoinEvent::Unbound("in use".into())
                }
            }
            JoinAction::Dial => {
                seen.dialled = true;
                JoinEvent::Dialled(Some(Path::Direct))
            }
            JoinAction::Verify => JoinEvent::Verified(answer.take().expect("asked once")),
            JoinAction::Mint => JoinEvent::Minted("abc".into()),
            JoinAction::Announce(joined) => {
                seen.announced = Some(joined);
                JoinEvent::Announced
            }
            JoinAction::Serve { cookie, .. } => {
                seen.cookie = Some(cookie);
                JoinEvent::Closed(Closed::ByPeer, "h5i: this share has ended".into())
            }
            JoinAction::Stop(with) => return (with, seen),
        };
        assert!(j.accepts(&event), "{event:?}");
        action = j.next(event);
    }
}

#[test]
fn an_expired_ticket_is_refused_before_anything_is_dialled() {
    let (err, seen) = run(terms(1, None, true), |_| true, Ok(()));
    assert!(err.expect_err("expired").contains("expired"));
    assert!(seen.announced.is_none(), "must not get as far as announcing");
    assert!(seen.bound.is_empty() && !seen.dialled);
    assert!(check_ticket(1_001, 1_000).is_ok());
    assert!(check_ticket(1_000, 1_000).is_err());
}

#[test]
fn a_shared_jar_is_refused_before_anything_is_dialled() {
    let (err, seen) = run(terms(4_600, None, false), |a| a.is_localhost(), Ok(()));
    let said = err.expect_err("a shared jar must not be joined unasked");
    assert!(said.contains(SHARED_JAR_FLAG), "{said}");
    assert!(said.contains("127.0.0.1"), "{said}");
    assert!(seen.announced.is_none(), "a shared jar was announced instead of refused");
    assert!(!seen.dialled);

    let (done, seen) = run(terms(4_600, None, true), |a| a.is_localhost(), Ok(()));
    assert_eq!(done.as_deref(), Ok("the share ended — they stopped sharing"));
    assert!(seen.announced.expect("asked for").shared_jar);
    let (none, _) = run(terms(4_600, None, true), |_| false, Ok(()));
    assert_eq!(none.expect_err("nothing binds"), "could not bind a local port: in use");
}

#[test]
fn a_join_goes_in_order() {
    let own = Ipv4Addr::new(127, 7, 8, 9);
    let (done, seen) = run(terms(4_600, None, false), |_| true, Err(OpenError::Busy));
    assert!(done.is_ok());
    assert_eq!(seen.bound, vec![own]);
    let joined = seen.announced.expect("announced");
    assert_eq!(joined.url, "http://127.7.8.9:4321/?h5i=abc");
    assert_eq!((joined.path, joined.box_id.as_str()), (Some(Path::Direct), "env/a/demo"));
    assert_eq!(joined.warning, Some(OpenError::Busy.text()));
    assert!(!joined.shared_jar);
    assert_eq!(seen.cookie.as_deref(), Some("h5i_share_4321"));

    let (done, seen) = run(terms(4_600, None, false), |_| true, Err(OpenError::Refused));
    assert_eq!(done, Err(OpenError::Refused.text()));
    assert!(seen.dialled && seen.announced.is_none());

    let far = Ipv4Addr::new(10, 0, 0, 1);
    let (done, seen) = run(terms(4_600, Some(far), true), |_| true, Ok(()));
    assert!(done.expect_err("not loopback").contains(BIND_FLAG));
    assert!(seen.bound.is_empty() && !seen.dialled);
}

#[test]
fn an_explicit_bind_is_exact_and_names_its_own_consent() {
    let localhost = Ipv4Addr::new(127, 0, 0, 1);
    let (a, shared) = bind(Binder::new(Some(localhost), 0, false), |_| true)
        .expect("127.0.0.1 must bind everywhere");
    assert_eq!(a.to_text(), "127.0.0.1");
    assert!(shared, "an explicit 127.0.0.1 must still engage the shared-jar machinery");

    let own = Ipv4Addr::new(127, 0, 0, 7);
    let (a, shared) = bind(Binder::new(Some(own), 0, false), |_| true).expect("bind");
    assert_eq!(a.to_text(), "127.0.0.7");
    assert!(!shared, "an address of the join's own is not a shared jar");
    let e = bind(Binder::new(Some(own), 0, false), |_| false).expect_err("taken");
    assert!(
        e.contains("127.0.0.7"),
        "a failed explicit bind must name the address it could not bind: {e}"
    );
}

#[test]
fn a_bind_beyond_loopback_is_refused() {
    let said = bind(Binder::new(Some(Ipv4Addr::new(192, 168, 1, 10)), 0, true), |_| true)
        .expect_err("a non-loopback bind must refuse");
    assert!(said.contains(BIND_FLAG), "{said}");
    assert!(said.contains("loopback"), "{said}");
    assert!(said.contains("127.0.0.0/8"), "{said}");
}

#[test]
fn a_join_tries_every_kind_of_address_once() {
    let mut b = Binder::new(None, 0, true);
    let mut tried = Vec::new();
    loop {
        let addr = b.bind_loopback(0, 0, 255).expect("an address");
        tried.push(addr.to_text());
        if !matches!(b.bind_for(addr, Some("taken".to_string())), Bound::Again) {
            break;
        }
    }
    assert_eq!(tried.len(), ALL_TRIES as usize);
    assert_eq!(tried[0], "127.1.0.254");
    assert_eq!(tried[8], "127.0.0.2");
    assert_eq!(tried[15], "127.0.0.9");
    assert_eq!(tried[16], "127.0.0.1");
}

#[test]
fn a_share_ending_and_a_connection_failing_are_told_apart() {
    let ended = closed(Closed::ByPeer, "h5i: this share has ended\r\u{1b}[2J").expect("ordinary");
    assert_eq!(ended, "the share ended — they stopped sharing");
    let here = closed(Closed::Here, "closed").expect("ordinary");
    assert_eq!(here, "the share ended — they stopped sharing, or the ticket ran out");
    let failed = closed(Closed::Failed, "timed\u{7} out").expect_err("a failure");
    assert!(failed.starts_with("the connection to the sharer failed: timed out."), "{failed}");
    assert_eq!(why_it_ended("h5i: busy, h5i: later"), " — busy, later");
}

#[test]
fn a_join_is_announced_with_its_token() {
    let j = Joined::new(
        Ipv4Addr::new(127, 9, 8, 7),
        8899,
        "abc",
        Some(Path::Direct),
        "env/a/demo".to_string(),
        None,
        false,
    );
    assert_eq!(j.url, "http://127.9.8.7:8899/?h5i=abc");
    assert_eq!(j.path, Some(Path::Direct));
    assert!(!j.shared_jar);
}

#[test]
fn a_ticket_from_before_the_clock_is_as_old_as_can_be_told() {
    let said = expired_here(i64::MIN, i64::MAX);
    assert!(said.contains("2562047788015215h30m ago"), "{said}");
}
