use h5i_share::gate::{
    self, cookie_for_port, is_share_cookie_name, parse, refusal_response, rewrite_for_upstream,
    safe_location, set_cookie_redirect, AppCookies, Refusal, Request, COOKIE, MAX_APP_COOKIES,
};

fn chars(s: &str) -> Vec<char> {
    s.chars().collect()
}

fn split_cookie(value: &str, name: &str, app: Option<&AppCookies>) -> (Option<String>, String) {
    let value = chars(value);
    let (ours, kept) = gate::split_cookie(&value, name, app);
    (ours.map(|t| t.iter().collect()), kept.into_iter().collect())
}

fn is_share_param_name(raw: &str) -> bool {
    gate::is_share_param_name(&chars(raw))
}

#[test]
fn a_share_cookie_with_no_value_is_still_not_the_box_s_business() {
    let (ours, kept) = split_cookie("a=1; h5i_share_8899; b=2", "h5i_share_8899", None);
    assert_eq!(ours, None);
    assert_eq!(kept, "a=1; b=2");

    let (_, kept) = split_cookie("999h5i_share=x; y=2", "h5i_share", None);
    assert_eq!(kept, "999h5i_share=x; y=2");
}

#[test]
fn a_cookie_that_only_looks_like_ours_belongs_to_the_app() {
    assert!(is_share_cookie_name("h5i_share"));
    assert!(is_share_cookie_name("h5i_share_8899"));
    assert!(is_share_cookie_name("h5i_share_1"));
    assert!(is_share_cookie_name("h5i_share_65535"));

    assert!(!is_share_cookie_name("h5i_shared_theme"));
    assert!(!is_share_cookie_name("h5i_shareable_session"));
    assert!(!is_share_cookie_name("h5i_share_"));
    assert!(!is_share_cookie_name("h5i_share_0"));
    assert!(!is_share_cookie_name("h5i_share_65536"));
    assert!(!is_share_cookie_name("h5i_share_abc"));
    assert!(!is_share_cookie_name("h5i_sharex"));
    assert!(!is_share_cookie_name("999h5i_share"));

    let (ours, kept) = split_cookie(
        "h5i_shared_theme=dark; h5i_share_8899=tok; h5i_shareable_session=s; h5i_share=t",
        "h5i_share_8899",
        None,
    );
    assert_eq!(ours.as_deref(), Some("tok"));
    assert_eq!(kept, "h5i_shared_theme=dark; h5i_shareable_session=s");
}

#[test]
fn on_a_shared_jar_only_the_boxs_own_cookies_go_upstream() {
    let mut jar = AppCookies::default();
    let sent = "session=joiners-own-secret; theme=dark; sid=9";

    let (_, kept) = split_cookie(sent, "h5i_share_8899", Some(&jar));
    assert_eq!(kept, "", "a credential went upstream before the box spoke");

    jar.learn("sid", "9");
    let (_, kept) = split_cookie(sent, "h5i_share_8899", Some(&jar));
    assert_eq!(kept, "sid=9");

    let (_, kept) = split_cookie(sent, "h5i_share_8899", None);
    assert_eq!(kept, sent);
}

#[test]
fn a_name_the_box_guessed_does_not_carry_the_joiners_cookie() {
    let mut jar = AppCookies::default();
    jar.learn("sid", "box-value");

    let (_, kept) = split_cookie(
        "sid=box-value; sid=joiners-own-secret",
        "h5i_share_8899",
        Some(&jar),
    );
    assert_eq!(kept, "sid=box-value");
    assert!(
        !kept.contains("joiners-own-secret"),
        "a guessed name carried the joiner's cookie upstream: {kept}"
    );

    let (_, kept) = split_cookie(
        "sid=joiners-own-secret; sid=box-value",
        "h5i_share_8899",
        Some(&jar),
    );
    assert_eq!(kept, "sid=box-value");

    let (_, kept) = split_cookie("sid=something-else", "h5i_share_8899", Some(&jar));
    assert_eq!(kept, "");
}

#[test]
fn the_box_cannot_learn_its_way_to_the_share_credential() {
    let mut jar = AppCookies::default();
    jar.learn("h5i_share", "tok");
    jar.learn("h5i_share_8899", "tok");
    assert!(!jar.knows("h5i_share", "tok"));
    assert!(!jar.knows("h5i_share_8899", "tok"));

    let (ours, kept) = split_cookie("h5i_share_8899=tok; a=1", "h5i_share_8899", Some(&jar));
    assert_eq!(ours.as_deref(), Some("tok"), "our own is still read");
    assert_eq!(kept, "");
}

#[test]
fn the_odd_shapes_are_dropped_on_a_shared_jar_too() {
    let mut jar = AppCookies::default();
    jar.learn("sid", "9");

    let (_, kept) = split_cookie("nameless; sid=9", "h5i_share", Some(&jar));
    assert_eq!(kept, "sid=9");

    let (_, kept) = split_cookie("SID=9", "h5i_share", Some(&jar));
    assert_eq!(kept, "");
}

#[test]
fn a_box_cannot_grow_the_list_without_limit() {
    let mut jar = AppCookies::default();
    for i in 0..MAX_APP_COOKIES * 4 {
        jar.learn(&format!("c{i}"), "v");
    }
    assert!(jar.knows("c0", "v"));
    assert!(!jar.knows(&format!("c{}", MAX_APP_COOKIES * 4 - 1), "v"));
    jar.learn("c0", "v");
    assert!(jar.knows("c0", "v"));
}

fn req(extra: &str) -> Option<Request> {
    parse(
        &format!(
            "GET /a HTTP/1.1\r\nHost: 127.0.0.1:8899\r\nCookie: h5i_share=abc\r\n{extra}\r\n"
        ),
        "h5i_share",
    )
}

fn invite(extra: &str) -> Option<Request> {
    parse(
        &format!(
            "GET /?h5i={} HTTP/1.1\r\nHost: 127.0.0.1:8899\r\n{extra}\r\n",
            "a".repeat(64)
        ),
        "h5i_share",
    )
}

#[test]
fn a_page_on_another_loopback_port_is_not_this_share() {
    let other = req("Origin: http://127.0.0.1:8900\r\n").expect("parses");
    assert!(other.cross_origin);

    let mine = req("Origin: http://127.0.0.1:8899\r\n").expect("parses");
    assert!(!mine.cross_origin);

    assert!(!req("").expect("parses").cross_origin);

    assert!(req("Origin: null\r\n").expect("parses").cross_origin);
}

#[test]
fn a_subresource_from_the_share_next_door_is_refused() {
    let img = req(
        "Sec-Fetch-Site: same-site\r\nSec-Fetch-Mode: no-cors\r\nSec-Fetch-Dest: image\r\n",
    )
    .expect("parses");
    assert!(img.cross_origin);

    let far =
        req("Sec-Fetch-Site: cross-site\r\nSec-Fetch-Mode: cors\r\nSec-Fetch-Dest: empty\r\n")
            .expect("parses");
    assert!(far.cross_origin);
    let framed = req(
        "Sec-Fetch-Site: cross-site\r\nSec-Fetch-Mode: navigate\r\nSec-Fetch-Dest: iframe\r\n",
    )
    .expect("parses");
    assert!(framed.cross_origin);

    let neighbour = req(
        "Sec-Fetch-Site: same-site\r\nSec-Fetch-Mode: navigate\r\nSec-Fetch-Dest: document\r\n",
    )
    .expect("parses");
    assert!(
        neighbour.cross_origin,
        "a navigation from the share next door was treated as the invite link"
    );
}

#[test]
fn a_cross_site_navigation_without_the_invite_is_refused() {
    let nav = "Sec-Fetch-Site: cross-site\r\nSec-Fetch-Mode: navigate\r\n\
               Sec-Fetch-Dest: document\r\n";
    let attacker = req(nav).expect("parses");
    assert!(
        attacker.cross_origin,
        "a cookie-only cross-site navigation was treated as the invite link"
    );
    assert!(!invite(nav).expect("parses").cross_origin);

    let both = parse(
        &format!(
            "GET /?h5i={} HTTP/1.1\r\nHost: 127.0.0.1:8899\r\nCookie: h5i_share=abc\r\n{nav}\r\n",
            "a".repeat(64)
        ),
        "h5i_share",
    )
    .expect("parses");
    assert!(!both.cross_origin);
}

#[test]
fn the_invite_link_still_works_from_wherever_it_was_sent() {
    let from_chat = invite(
        "Sec-Fetch-Site: cross-site\r\nSec-Fetch-Mode: navigate\r\nSec-Fetch-Dest: document\r\n",
    )
    .expect("parses");
    assert!(!from_chat.cross_origin);

    let typed =
        req("Sec-Fetch-Site: none\r\nSec-Fetch-Mode: navigate\r\nSec-Fetch-Dest: document\r\n")
            .expect("parses");
    assert!(!typed.cross_origin);

    let own =
        req("Sec-Fetch-Site: same-origin\r\nSec-Fetch-Mode: cors\r\nSec-Fetch-Dest: empty\r\n")
            .expect("parses");
    assert!(!own.cross_origin);

    assert!(!req("").expect("parses").cross_origin);
    assert!(
        req("Origin: http://127.0.0.1:8900\r\n")
            .expect("parses")
            .cross_origin
    );
}

#[test]
fn a_second_answer_about_where_a_request_came_from_is_not_the_generous_one() {
    let two = |a: &str, b: &str| {
        parse(
            &format!(
                "GET /a HTTP/1.1\r\nHost: 127.0.0.1:8899\r\nCookie: h5i_share=abc\r\n\
                 {a}\r\n{b}\r\n\r\n"
            ),
            "h5i_share",
        )
        .expect("parses")
    };
    for (a, b) in [
        ("Sec-Fetch-Site: same-origin", "Sec-Fetch-Site: cross-site"),
        ("Sec-Fetch-Site: cross-site", "Sec-Fetch-Site: same-origin"),
        ("Sec-Fetch-Site: none", "Sec-Fetch-Site: same-site"),
        (
            "Origin: http://127.0.0.1:8899",
            "Origin: http://evil.example",
        ),
        (
            "Origin: http://evil.example",
            "Origin: http://127.0.0.1:8899",
        ),
    ] {
        assert!(
            two(a, b).cross_origin,
            "a head carrying two answers was read as the share's own: {a} / {b}"
        );
    }

    assert!(!two("Sec-Fetch-Site: same-origin", "Sec-Fetch-Site: same-origin").cross_origin);

    let invited = |extra: &str| {
        parse(
            &format!(
                "GET /?h5i={} HTTP/1.1\r\nHost: h\r\nSec-Fetch-Site: cross-site\r\n{extra}\r\n\r\n",
                "a".repeat(64)
            ),
            "h5i_share",
        )
        .expect("parses")
    };
    assert!(
        !invited("Sec-Fetch-Mode: navigate\r\nSec-Fetch-Dest: document").cross_origin,
        "the invite link stopped working"
    );
    assert!(
        invited(
            "Sec-Fetch-Mode: navigate\r\nSec-Fetch-Mode: no-cors\r\nSec-Fetch-Dest: document"
        )
        .cross_origin,
        "two modes opened the carve-out"
    );
    assert!(
        invited(
            "Sec-Fetch-Mode: navigate\r\nSec-Fetch-Dest: document\r\nSec-Fetch-Dest: image"
        )
        .cross_origin,
        "two destinations opened the carve-out"
    );

    let sw = parse(
        "GET /sw.js HTTP/1.1\r\nHost: h\r\nCookie: h5i_share=abc\r\n\
         Service-Worker: no\r\nService-Worker: script\r\n\r\n",
        "h5i_share",
    )
    .expect("parses");
    assert!(sw.service_worker);
}

#[test]
fn an_origin_the_bridge_folded_into_one_line_is_not_this_share() {
    for origin in [
        "http://127.0.0.1:8899, http://evil.example",
        "http://evil.example, http://127.0.0.1:8899",
        "http://127.0.0.1:8899, http://127.0.0.1:8899",
    ] {
        assert!(
            req(&format!("Origin: {origin}\r\n"))
                .expect("parses")
                .cross_origin,
            "a folded origin was read as the share's own: {origin}"
        );
    }

    assert!(
        !req("Origin: http://127.0.0.1:8899\r\n")
            .expect("parses")
            .cross_origin
    );

    assert!(
        req("Sec-Fetch-Site: same-origin, cross-site\r\n")
            .expect("parses")
            .cross_origin
    );
}

#[test]
fn a_request_with_two_hosts_is_refused() {
    assert!(parse(
        "GET / HTTP/1.1\r\nHost: share.test\r\nHost: evil.example\r\nCookie: h5i_share=abc\r\n\r\n",
        COOKIE
    )
    .is_none());
    assert!(parse("GET / HTTP/1.1\r\nHost: share.test\r\n\r\n", COOKIE).is_some());
    assert!(parse("GET / HTTP/1.0\r\n\r\n", COOKIE).is_some());
}

#[test]
fn a_tunnel_share_is_not_foreign_to_itself() {
    let head = "GET /a HTTP/1.1\r\nHost: odd-cat.trycloudflare.com\r\n\
                Cookie: h5i_share=abc\r\nOrigin: https://odd-cat.trycloudflare.com\r\n\r\n";
    assert!(!parse(head, "h5i_share").expect("parses").cross_origin);

    let elsewhere = "GET /a HTTP/1.1\r\nHost: odd-cat.trycloudflare.com\r\n\
                     Cookie: h5i_share=abc\r\nOrigin: https://evil.example\r\n\r\n";
    assert!(parse(elsewhere, "h5i_share").expect("parses").cross_origin);
}

#[test]
fn a_service_worker_registration_is_refused() {
    let head = "GET /sw.js HTTP/1.1\r\nHost: t\r\nCookie: h5i_share=abc\r\n\
                Service-Worker: script\r\n\r\n";
    let req = parse(head, "h5i_share").expect("parses");
    assert!(req.service_worker);

    let plain = "GET /sw.js HTTP/1.1\r\nHost: t\r\nCookie: h5i_share=abc\r\n\r\n";
    assert!(!parse(plain, "h5i_share").expect("parses").service_worker);

    assert_eq!(Refusal::ServiceWorker.status().0, 403);
}

#[test]
fn the_box_is_not_told_who_is_visiting() {
    let head = "GET /app HTTP/1.1\r\n\
                Host: odd-cat.trycloudflare.com\r\n\
                Cf-Connecting-Ip: 203.0.113.7\r\n\
                X-Forwarded-For: 203.0.113.7, 198.51.100.2\r\n\
                True-Client-Ip: 203.0.113.7\r\n\
                X-Real-IP: 203.0.113.7\r\n\
                Forwarded: for=203.0.113.7;proto=https\r\n\
                Cf-Ipcountry: US\r\n\
                Cf-Ray: a29916242859de98-EWR\r\n\
                Cf-Visitor: {\"scheme\":\"https\"}\r\n\
                Cf-Warp-Tag-Id: c5646e5b\r\n\
                Cf-Ew-Via: 15\r\n\
                Cf-Worker: trycloudflare.com\r\n\
                Cdn-Loop: cloudflare; loops=1\r\n\
                X-Forwarded-Proto: https\r\n\
                User-Agent: Mozilla/5.0\r\n\
                Cookie: h5i_share=abc; sid=9\r\n\r\n";
    let req = parse(head, "h5i_share").expect("parses");
    let out = rewrite_for_upstream(head, &req, "h5i_share", None);

    assert!(!out.contains("203.0.113.7"), "{out}");
    assert!(!out.contains("198.51.100.2"), "{out}");
    for gone in [
        "Cf-Connecting-Ip",
        "X-Forwarded-For",
        "True-Client-Ip",
        "X-Real-IP",
        "Forwarded:",
        "Cf-Ipcountry",
        "Cf-Ray",
        "Cf-Visitor",
        "Cf-Warp-Tag-Id",
        "Cf-Ew-Via",
        "Cf-Worker",
        "Cdn-Loop",
    ] {
        assert!(!out.contains(gone), "{gone} still reached the box:\n{out}");
    }

    assert!(out.contains("Host: odd-cat.trycloudflare.com"), "{out}");
    assert!(out.contains("X-Forwarded-Proto: https"), "{out}");
    assert!(out.contains("User-Agent: Mozilla/5.0"), "{out}");
    assert!(out.contains("Cookie: sid=9"), "{out}");
}


fn parse_default(head: &str) -> Option<Request> {
    parse(head, COOKIE)
}

fn head(first: &str, extra: &[&str]) -> String {
    let mut s = format!("{first}\r\nHost: share.test\r\n");
    for e in extra {
        s.push_str(e);
        s.push_str("\r\n");
    }
    s.push_str("\r\n");
    s
}

#[test]
fn the_first_request_carries_the_token_in_the_url() {
    let r = parse_default(&head("GET /?h5i=abc123 HTTP/1.1", &[])).expect("parse");
    assert_eq!(r.token.as_deref(), Some("abc123"));
    assert!(r.from_query);
    assert_eq!(r.clean_target, "/");
}

#[test]
fn later_requests_carry_it_in_the_cookie() {
    let r = parse_default(&head(
        "GET /app.js HTTP/1.1",
        &["Cookie: h5i_share=abc123; theme=dark"],
    ))
    .expect("parse");
    assert_eq!(r.token.as_deref(), Some("abc123"));
    assert!(!r.from_query);
}

#[test]
fn the_apps_own_query_and_cookies_survive_the_trip() {
    let raw = head(
        "GET /search?q=rust&h5i=abc123&page=2 HTTP/1.1",
        &["Cookie: sid=xyz; h5i_share=abc123; theme=dark"],
    );
    let r = parse_default(&raw).expect("parse");
    assert_eq!(r.clean_target, "/search?q=rust&page=2");
    let up = rewrite_for_upstream(&raw, &r, COOKIE, None);
    assert!(up.contains("GET /search?q=rust&page=2 HTTP/1.1"));
    assert!(up.contains("Cookie: sid=xyz; theme=dark"));
}

#[test]
fn the_credential_never_reaches_the_box() {
    let raw = head(
        "GET /?h5i=SECRETTOKEN HTTP/1.1",
        &["Cookie: h5i_share=SECRETTOKEN"],
    );
    let r = parse_default(&raw).expect("parse");
    let up = rewrite_for_upstream(&raw, &r, COOKIE, None);
    assert!(
        !up.contains("SECRETTOKEN"),
        "credential leaked upstream: {up}"
    );
    assert!(!up.contains("h5i_share"));
    assert!(!up.contains("h5i="));
}

#[test]
fn an_upgrade_needs_both_headers_not_just_one() {
    let lone = parse_default(&head(
        "GET / HTTP/1.1",
        &["Upgrade: h2c", "Connection: keep-alive"],
    ))
    .expect("parse");
    assert!(!lone.upgrade);

    let real = parse_default(&head(
        "GET /hmr HTTP/1.1",
        &["Upgrade: websocket", "Connection: keep-alive, Upgrade"],
    ))
    .expect("parse");
    assert!(real.upgrade);
}

#[test]
fn a_bare_newline_inside_the_head_is_refused_rather_than_normalised() {
    let smuggled = "GET / HTTP/1.1\r\nHost: x\r\nX-Pad: a\nConnection: keep-alive\r\n\r\n";
    assert!(parse_default(smuggled).is_none());
    assert!(parse_default("GET / HTTP/1.1\rHost: x\r\n\r\n").is_none());
}

#[test]
fn framing_that_two_parsers_could_read_differently_is_refused() {
    assert!(parse_default(&head(
        "POST / HTTP/1.1",
        &["Content-Length: 5", "Content-Length: 6"]
    ))
    .is_none());
    assert!(parse_default(&head(
        "POST / HTTP/1.1",
        &["Content-Length: 5", "Transfer-Encoding: chunked"]
    ))
    .is_none());
    assert!(parse_default(&head("POST / HTTP/1.1", &["Content-Length: nonsense"])).is_none());

    assert!(parse_default(&head(
        "POST / HTTP/1.1",
        &["Transfer-Encoding: gzip", "Content-Length: 4"]
    ))
    .is_none());
    assert!(parse_default(&head(
        "POST / HTTP/1.1",
        &["Transfer-Encoding: gzip, chunked", "Content-Length: 4"]
    ))
    .is_none());

    assert!(parse_default(&head("POST / HTTP/1.1", &["Transfer-Encoding: gzip"])).is_none());
    assert!(parse_default(&head(
        "POST / HTTP/1.1",
        &["Transfer-Encoding: chunked, gzip"]
    ))
    .is_none());

    let r = parse_default(&head(
        "POST / HTTP/1.1",
        &["Transfer-Encoding: gzip, chunked"],
    ))
    .expect("gzip then chunked is a body this proxy can find the end of");
    assert!(r.chunked);
    let r = parse_default(&head(
        "POST / HTTP/1.1",
        &["Transfer-Encoding: identity", "Content-Length: 4"],
    ))
    .expect("identity is not a coding");
    assert_eq!(r.content_length, Some(4));
    assert!(!r.chunked);
}

#[test]
fn a_body_this_proxy_cannot_measure_is_flagged_rather_than_forwarded() {
    let r = parse_default(&head("POST / HTTP/1.1", &["Transfer-Encoding: chunked"]))
        .expect("parse");
    assert!(r.chunked);
    let plain =
        parse_default(&head("POST / HTTP/1.1", &["Content-Length: 12"])).expect("parse");
    assert_eq!(plain.content_length, Some(12));
    assert!(!plain.chunked);
}

#[test]
fn the_redirect_can_only_point_back_at_this_share() {
    assert_eq!(safe_location("/dash?tab=2"), "/dash?tab=2");
    assert_eq!(safe_location("//evil.test/"), "/");
    assert_eq!(safe_location("/\\evil.test/"), "/");
    assert_eq!(safe_location("https://evil.test/"), "/");
    assert_eq!(safe_location(""), "/");
}

#[test]
fn one_connection_carries_one_request_so_one_check_covers_it() {
    let raw = head(
        "GET / HTTP/1.1",
        &[
            "Cookie: h5i_share=abc123",
            "Connection: keep-alive",
            "Keep-Alive: timeout=60",
        ],
    );
    let r = parse_default(&raw).expect("parse");
    let up = rewrite_for_upstream(&raw, &r, COOKIE, None);
    assert!(up.contains("Connection: close"), "{up}");
    assert!(!up.to_lowercase().contains("keep-alive"), "{up}");
}

#[test]
fn an_upgrade_keeps_its_connection_header_because_that_is_how_it_upgrades() {
    let raw = head(
        "GET /hmr HTTP/1.1",
        &[
            "Cookie: h5i_share=abc123",
            "Connection: Upgrade",
            "Upgrade: websocket",
        ],
    );
    let r = parse_default(&raw).expect("parse");
    let up = rewrite_for_upstream(&raw, &r, COOKIE, None);
    assert!(up.contains("Connection: Upgrade"), "{up}");
    assert!(!up.contains("Connection: close"), "{up}");
}

#[test]
fn a_cookie_header_with_nothing_left_in_it_is_dropped_entirely() {
    let raw = head("GET / HTTP/1.1", &["Cookie: h5i_share=abc123"]);
    let r = parse_default(&raw).expect("parse");
    let up = rewrite_for_upstream(&raw, &r, COOKIE, None);
    assert!(!up.to_lowercase().contains("cookie:"), "{up}");
}

#[test]
fn the_header_name_is_matched_however_the_client_capitalised_it() {
    let raw = head("GET / HTTP/1.1", &["COOKIE: h5i_share=abc123"]);
    let r = parse_default(&raw).expect("parse");
    assert_eq!(r.token.as_deref(), Some("abc123"));
    assert!(!rewrite_for_upstream(&raw, &r, COOKIE, None).contains("abc123"));
}

#[test]
fn an_upgrade_is_recognised_so_hot_reload_can_be_proxied() {
    let r = parse_default(&head(
        "GET /_next/webpack-hmr HTTP/1.1",
        &[
            "Upgrade: websocket",
            "Connection: Upgrade",
            "Cookie: h5i_share=abc",
        ],
    ))
    .expect("parse");
    assert!(r.upgrade);
    assert_eq!(r.token.as_deref(), Some("abc"));
}

#[test]
fn a_token_that_could_not_be_one_is_not_carried_forward() {
    for bad in ["", &"a".repeat(200), "abc/../../etc", "a b"] {
        let r = parse_default(&head(
            "GET / HTTP/1.1",
            &[&format!("Cookie: h5i_share={bad}")],
        ))
        .expect("parse");
        assert_eq!(r.token, None, "accepted a token of {:?}", bad);
    }
}

#[test]
fn the_query_wins_over_a_stale_cookie() {
    let r = parse_default(&head(
        "GET /?h5i=fresh HTTP/1.1",
        &["Cookie: h5i_share=stale"],
    ))
    .expect("parse");
    assert_eq!(r.token.as_deref(), Some("fresh"));
    assert!(r.from_query);
}

#[test]
fn something_that_is_not_http_is_refused_rather_than_guessed_at() {
    assert!(parse_default("").is_none());
    assert!(parse_default("GET\r\n\r\n").is_none());
    assert!(parse_default("GET / HTTP/1.1 extra\r\n\r\n").is_none());
    assert!(parse_default("\x16\x03\x01 this is a TLS hello\r\n\r\n").is_none());
}

#[test]
fn the_redirect_sets_the_cookie_and_drops_the_token_from_the_url() {
    let r = set_cookie_redirect(COOKIE, "abc123", "/dashboard", true);
    assert!(r.starts_with("HTTP/1.1 302 "));
    assert!(r.contains("Location: /dashboard"));
    assert!(r.contains("Set-Cookie: h5i_share=abc123; Path=/; HttpOnly; SameSite=Lax; Secure"));
    assert!(!set_cookie_redirect(COOKIE, "abc123", "/", false).contains("Secure"));
}

#[test]
fn one_shares_credential_is_never_handed_to_another_shares_box() {
    let a = cookie_for_port(43821);
    let b = cookie_for_port(43822);
    let raw = head(
        "GET / HTTP/1.1",
        &[&format!("Cookie: {a}=mine1111; {b}=theirs2222; sid=9")],
    );
    let r = parse(&raw, &a).expect("parse");
    assert_eq!(r.token.as_deref(), Some("mine1111"));
    let up = rewrite_for_upstream(&raw, &r, &a, None);
    assert!(!up.contains("mine1111"), "{up}");
    assert!(
        !up.contains("theirs2222"),
        "another share's credential leaked: {up}"
    );
    assert!(up.contains("sid=9"), "{up}");
}

#[test]
fn a_header_name_with_exotic_whitespace_in_it_is_refused() {
    for pad in [
        "\u{0b}", "\u{0c}", "\u{85}", "\u{a0}", "\u{2000}", "\u{3000}",
    ] {
        let raw = head(
            "POST / HTTP/1.1",
            &[&format!("Content-Length{pad}: 5"), "Cookie: h5i_share=abc"],
        );
        assert!(
            parse_default(&raw).is_none(),
            "accepted a name padded with {pad:?}"
        );
    }
    assert!(parse_default(&head("POST / HTTP/1.1", &["Content-Length: 5"])).is_some());
}

#[test]
fn an_expect_header_is_noticed_and_not_passed_on() {
    let raw = head(
        "POST / HTTP/1.1",
        &[
            "Expect: 100-continue",
            "Content-Length: 5",
            "Cookie: h5i_share=abc",
        ],
    );
    let r = parse_default(&raw).expect("parse");
    assert!(r.expects_continue);
    let up = rewrite_for_upstream(&raw, &r, COOKIE, None);
    assert!(!up.to_lowercase().contains("expect:"), "{up}");
    assert!(up.contains("Content-Length: 5"), "{up}");
}

#[test]
fn a_token_in_a_second_cookie_header_is_still_found() {
    let raw = head(
        "GET / HTTP/1.1",
        &["Cookie: sid=9", "Cookie: h5i_share=abc123"],
    );
    let r = parse_default(&raw).expect("parse");
    assert_eq!(r.token.as_deref(), Some("abc123"));
    assert!(!rewrite_for_upstream(&raw, &r, COOKIE, None).contains("abc123"));
}

#[test]
fn headers_two_parsers_would_fold_differently_are_refused() {
    assert!(
        parse_default("GET / HTTP/1.1\r\nX-Pad: a\r\n Content-Length: 35\r\n\r\n").is_none()
    );
    assert!(
        parse_default("GET / HTTP/1.1\r\nX-Pad: a\r\n\tContent-Length: 35\r\n\r\n").is_none()
    );
    assert!(parse_default(&head("POST / HTTP/1.1", &["Content-Length : 35"])).is_none());
    assert!(parse_default(&head("POST / HTTP/1.1", &["Content-Length: +35"])).is_none());
    assert!(parse_default(&head("POST / HTTP/1.1", &["Content-Length: 35 "])).is_some());
}

#[test]
fn a_chunked_body_is_refused_even_when_the_request_asks_to_upgrade() {
    let r = parse_default(&head(
        "POST / HTTP/1.1",
        &[
            "Transfer-Encoding: chunked",
            "Upgrade: websocket",
            "Connection: Upgrade",
        ],
    ))
    .expect("parse");
    assert!(r.chunked);
    let big = parse_default(&head(
        "POST / HTTP/1.1",
        &["Content-Length: 18446744073709551615"],
    ))
    .expect("parse");
    assert!(!big.chunked);
    assert_eq!(big.content_length, Some(u64::MAX));
}

#[test]
fn an_unusable_query_parameter_does_not_shadow_a_good_cookie() {
    for target in ["/?h5i", "/?h5i=", "/?h5i=not%20a%20token"] {
        let raw = head(
            &format!("GET {target} HTTP/1.1"),
            &["Cookie: h5i_share=goodtoken"],
        );
        let r = parse_default(&raw).expect("parse");
        assert_eq!(r.token.as_deref(), Some("goodtoken"), "target {target}");
        assert!(!r.from_query, "target {target}");
    }
}

#[test]
fn the_parameter_is_stripped_however_it_is_spelled() {
    let real = "a".repeat(64);
    for name in ["h5i", "%68%35%69", "h%35i", "%685i", "h5%69"] {
        let raw = head(&format!("GET /x?{name}={real}&b=1 HTTP/1.1"), &[]);
        let r = parse_default(&raw).expect("parse");
        assert!(
            !r.clean_target.contains(&real),
            "a credential stayed in the target as `{name}`: {}",
            r.clean_target
        );
        let up = rewrite_for_upstream(&raw, &r, COOKIE, None);
        assert!(
            !up.contains(&real),
            "a credential reached the box as `{name}`: {up}"
        );
        assert!(up.contains("b=1"), "{up}");
    }

    for name in ["H5I", "%48%35%49", "h5ix", "xh5i", "%25h5i", "h%255i"] {
        let raw = head(&format!("GET /x?{name}=v HTTP/1.1"), &[]);
        let r = parse_default(&raw).expect("parse");
        assert!(
            r.clean_target.contains(name),
            "the app's own `{name}` was deleted: {}",
            r.clean_target
        );
    }
}

#[test]
fn a_half_written_escape_in_a_parameter_name_is_not_a_crash() {
    for name in [
        "%",
        "%6",
        "%zz",
        "%aé",
        "é%",
        "%68%3",
        "%%%%%%%%%",
        "%68%35%69%",
    ] {
        let raw = head(&format!("GET /x?{name}=v HTTP/1.1"), &[]);
        assert!(parse_default(&raw).is_some(), "name {name:?}");
        assert!(!is_share_param_name(name) || name == "h5i", "name {name:?}");
    }
    assert!(!is_share_param_name(&"%68".repeat(100)));
}

#[test]
fn a_loopback_proxy_names_its_cookie_after_its_port() {
    let a = cookie_for_port(43821);
    let b = cookie_for_port(43822);
    assert_ne!(a, b);
    let raw = head(
        "GET / HTTP/1.1",
        &[&format!("Cookie: {a}=mine; {b}=theirs")],
    );
    assert_eq!(
        parse(&raw, &a).expect("parse").token.as_deref(),
        Some("mine")
    );
    assert_eq!(
        parse(&raw, &b).expect("parse").token.as_deref(),
        Some("theirs")
    );
    let r = parse(&raw, &a).expect("parse");
    let up = rewrite_for_upstream(&raw, &r, &a, None);
    assert!(!up.contains("mine"), "{up}");
    assert!(!up.contains("theirs"), "{up}");
}

#[test]
fn every_refusal_looks_the_same_from_the_outside() {
    let body = refusal_response(Refusal::NotAuthorized);
    assert!(body.contains("401 Unauthorized"));
    assert!(!body.to_lowercase().contains("expired"));
    assert!(!body.to_lowercase().contains("revoked"));
}
