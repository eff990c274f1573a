use h5i_share::bridge::ClaimedRecord;
use h5i_share::clock::{Moment, SeenClock, LAST_SECOND};
use h5i_share::dialer::unsupported;
use h5i_share::display::sanitize_display;
use h5i_share::egress::{refused_entry, sinkholed_entry};
use h5i_share::address::{IpAddr, Ipv4Addr, Ipv6Addr};
use h5i_share::exchange::{Event, Exchange};
use h5i_share::figures::{plural, signed_text};
use h5i_share::gate;
use h5i_share::http_front::{
    learn_app_cookies, malformed_head_response, set_cookie_name, set_cookie_pair, Forwarded,
};
use h5i_share::relay::{has_final_head, Watch};
use h5i_share::session::{humanise, ReadState, ShareSession, Transport};
use h5i_share::status::short_name;
use h5i_share::supervisor::{deadline, egress_preflight};

#[test]
fn what_is_shown_has_no_controls_in_it() {
    assert_eq!(sanitize_display("a\u{1b}[31mb\u{202e}c\u{7f}é ok"), "a[31mbcé ok");
    assert_eq!(sanitize_display("plain text"), "plain text");
    assert_eq!(sanitize_display("\r\n\t"), "");
}

#[test]
fn figures_read_as_people_write_them() {
    assert_eq!(humanise(59), "59s");
    assert_eq!(humanise(60), "1m");
    assert_eq!(humanise(7384), "2h3m");
    assert_eq!(plural(1, "connection", "connections"), "1 connection");
    assert_eq!(plural(0, "connection", "connections"), "0 connections");
    assert_eq!(signed_text(-5), "-5");
    assert_eq!(signed_text(i64::MIN), i64::MIN.to_string());
    assert_eq!(signed_text(i64::MAX), i64::MAX.to_string());
    assert_eq!(short_name("env/a/demo"), "demo");
    assert_eq!(short_name("demo"), "demo");
    assert_eq!(short_name("env/"), "");
}

#[test]
fn a_cookie_that_is_not_text_is_still_a_cookie() {
    assert_eq!(set_cookie_name(b"Set-Cookie: caf\xe9=1; Path=/").as_deref(), Some("caf\u{fffd}"));
    assert_eq!(
        set_cookie_pair("set-cookie:  théme = noir ; Secure".as_bytes()),
        Some(("théme".to_string(), "noir".to_string()))
    );
    assert_eq!(set_cookie_pair(b"X-Cookie: a=b"), None);
    let mut app = gate::AppCookies::default();
    learn_app_cookies(b"HTTP/1.1 200 OK\r\nSet-Cookie: a=b\r\nSet-Cookie: h5i_share=x\r\n\r\n", &mut app);
    assert!(app.knows("a", "b"));
    assert!(!app.knows("a", "c") && !app.knows("h5i_share", "x"));
}

#[test]
fn a_box_can_teach_only_so_much() {
    let mut app = gate::AppCookies::default();
    for i in 0..gate::MAX_APP_COOKIES + 5 {
        app.learn("n", &i.to_string());
    }
    assert!(app.knows("n", "0"));
    assert!(app.knows("n", &(gate::MAX_APP_COOKIES - 1).to_string()));
    assert!(!app.knows("n", &gate::MAX_APP_COOKIES.to_string()));
}

#[test]
fn an_answer_that_comes_early_is_seen() {
    let head = "POST / HTTP/1.1\r\nHost: x\r\nContent-Length: 9\r\n\r\n";
    let req = gate::parse(head, gate::COOKIE).expect("parses");
    let mut x = Exchange::new(&Forwarded { head, rest: b"", req: &req });
    x.next(Event::Begin, false);
    x.next(Event::Wrote, false);
    assert_eq!(x.watch(b"HTTP/1.1 100 Continue\r\n\r\nHTTP/1.1 41", false), Watch::Read);
    assert_eq!(x.watch(b"3 Too Large\r\n\r\n", false), Watch::Answered);
    assert_eq!(x.watch(b"", true), Watch::Park);
    assert!(!has_final_head(b"HTTP/1.1 103 Early Hints\r\n\r\n"));
    assert!(has_final_head(b"HTTP/1.1 103 Early Hints\r\n\r\nHTTP/1.1 200 OK\r\n\r\n"));
    let whole = malformed_head_response();
    let (front, body) = whole.split_once("\r\n\r\n").expect("a head");
    assert!(front.contains(&format!("Content-Length: {}", body.len())), "{front}");
}

#[test]
fn a_refused_entry_names_its_address() {
    let ip = IpAddr::V4(Ipv4Addr::new(169, 254, 169, 254));
    assert!(refused_entry("\"x\"", ip).starts_with("net.egress entry \"x\" resolves to 169.254.169.254, "));
    assert!(sinkholed_entry("\"y\"", ip).starts_with("h5i: net.egress entry \"y\" resolves to 169.254.169.254 — "));
    let mapped = Ipv6Addr::new(0, 0, 0, 0, 0, 0xffff, 0x0a01, 0x0203);
    assert_eq!(IpAddr::V6(mapped).unmapped(), IpAddr::V4(Ipv4Addr::new(10, 1, 2, 3)));
    assert_eq!(Ipv6Addr::new(1, 0, 0, 0, 0, 0xffff, 0, 0).to_ipv4_mapped(), None);
}

#[test]
fn a_run_that_may_reach_something_needs_an_uplink() {
    assert!(egress_preflight(true, true).is_ok() && egress_preflight(false, false).is_ok());
    let why = egress_preflight(true, false).expect_err("no uplink");
    assert!(why.contains("`slirp4netns`") && why.ends_with("(fail-closed)."), "{why}");
    assert_eq!(deadline(false, 60), Some(60));
    assert_eq!(deadline(true, 60), None);
    assert!(unsupported().ends_with("is not available on this platform."));
}

#[test]
fn a_reading_past_the_calendar_is_the_clock_s_own() {
    let late = Moment { seconds: LAST_SECOND, nanos: 7 };
    let mut clock = SeenClock::default();
    assert!(late.is_valid() && !Moment { seconds: LAST_SECOND + 1, nanos: 0 }.is_valid());
    assert!(clock.fits(late, 0));
    assert_eq!(clock.observe(late, 0), late);
    let back = Moment { seconds: LAST_SECOND - 100, nanos: 7 };
    assert!(clock.fits(back, 0));
    assert_eq!(clock.observe(back, 0), late);
    let again = Moment { seconds: LAST_SECOND - 50, nanos: 7 };
    assert!(clock.fits(again, 51));
    assert_eq!(clock.observe(again, 51), again);
}

#[test]
fn a_claim_is_a_pid_and_a_start() {
    let mut s = ShareSession {
        box_id: "env/a/demo".to_string(),
        port: 1,
        transport: Transport::Tunnel,
        endpoint: "e".to_string(),
        pid: 7,
        started_at: "then".to_string(),
        winding_up: false,
        grants: Vec::new(),
    };
    let claim = ClaimedRecord::of(&s);
    assert!(claim.matches(&s));
    s.started_at = "later".to_string();
    assert!(!claim.matches(&s));
    s.pid = 0;
    s.started_at = String::new();
    assert!(!ClaimedRecord::on_disk(&ReadState::Gone).matches(&s), "nothing is not a record");
    assert!(!ClaimedRecord::on_disk(&ReadState::Unreadable).matches(&s));
    assert!(ClaimedRecord::on_disk(&ReadState::Present(s.clone())).matches(&s));
}
