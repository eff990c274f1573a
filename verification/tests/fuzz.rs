use h5i_share::chunked::Scan;
use h5i_share::clock::Moment;
use h5i_share::exchange::{Action, Event, Exchange};
use h5i_share::gate::{
    self, is_share_cookie_name, parse, rewrite_for_upstream, safe_location, AppCookies, Refusal,
    COOKIE,
};
use h5i_share::http_front::{
    close_the_connection, decide, head_is_well_formed, response_framing, strip_lengths, Body,
    Forwarded, Next,
};
use h5i_share::receipt::{render_receipt, Summary};
use h5i_share::session::{Denied, Transport};
use h5i_share::tally::{DeniedAttempt, Path, PeerRecord, TurnedAway, TurnedAwayReason};

fn chars(s: &str) -> Vec<char> {
    s.chars().collect()
}

fn is_share_param_name(raw: &str) -> bool {
    gate::is_share_param_name(&chars(raw))
}

fn plausible(token: &str) -> bool {
    gate::plausible(&chars(token))
}

fn at(s: &str) -> Moment {
    let t = chrono::DateTime::parse_from_rfc3339(s).expect("timestamp");
    Moment { seconds: t.timestamp(), nanos: t.timestamp_subsec_nanos() }
}

struct Rng(u64);

impl Rng {
    fn new(seed: u64) -> Rng {
        Rng(seed | 1)
    }

    fn next(&mut self) -> u64 {
        let mut x = self.0;
        x ^= x >> 12;
        x ^= x << 25;
        x ^= x >> 27;
        self.0 = x;
        x.wrapping_mul(0x2545_F491_4F6C_DD1D)
    }

    fn below(&mut self, n: usize) -> usize {
        if n == 0 {
            return 0;
        }
        (self.next() % n as u64) as usize
    }

    fn pick<T: Copy>(&mut self, xs: &[T]) -> T {
        xs[self.below(xs.len())]
    }

    fn chance(&mut self, one_in: usize) -> bool {
        self.below(one_in) == 0
    }
}

fn rounds() -> usize {
    20_000
}

const NAMES: &[&str] = &[
    "Host",
    "Connection",
    "Content-Length",
    "content-length",
    "CONTENT-LENGTH",
    "Content-Length\u{0c}",
    "Content-Length\t",
    " Content-Length",
    "Transfer-Encoding",
    "transfer-encoding",
    "Transfer-Encoding\u{0b}",
    "Cookie",
    "cookie",
    "Set-Cookie",
    "Upgrade",
    "Expect",
    "Origin",
    "Sec-Fetch-Site",
    "Sec-Fetch-Mode",
    "Sec-Fetch-Dest",
    "Service-Worker",
    "Referer",
    "X-Forwarded-For",
    "Accept",
    "Trailer",
    "TE",
    "",
    "A",
    "X-\u{85}Weird",
    "X-Very-Long-Name-That-Goes-On-And-On-And-On-And-On-And-On-And-On",
];

const VALUES: &[&str] = &[
    "0",
    "10",
    "-1",
    "+5",
    "007",
    "18446744073709551615",
    "18446744073709551616",
    "999999999999999999999999",
    "1 ",
    " 1",
    "1,1",
    "1, 2",
    "0x10",
    "chunked",
    "Chunked",
    "CHUNKED",
    "gzip, chunked",
    "chunked, gzip",
    "identity",
    "close",
    "keep-alive",
    "Keep-Alive, Upgrade",
    "upgrade",
    "Upgrade",
    "websocket",
    "100-continue",
    "100-Continue",
    "",
    " ",
    "\t",
    "h5i_share=deadbeef",
    "h5i_share_8080=deadbeef",
    "sid=9; h5i_share=deadbeef; other=1",
    "h5i_shareX=deadbeef",
    "a=1;;b=2",
    "//evil.example",
    "https://evil.example/",
    "/ok",
    "/ok?h5i=deadbeef",
    "\u{85}",
    "value with spaces",
];

/// Headers that make sense, so that a head has a chance of being accepted.
const PAIRS: &[(&str, &str)] = &[
    ("Host", "127.0.0.1:8899"),
    ("Content-Length", "10"),
    ("Content-Length", "007"),
    ("Transfer-Encoding", "chunked"),
    ("Transfer-Encoding", "gzip, chunked"),
    ("Cookie", "h5i_share=deadbeef"),
    ("Cookie", "sid=9; h5i_share=deadbeef; other=1"),
    ("Cookie", "h5i_share_8080=deadbeef; h5i_shared=1"),
    ("Connection", "keep-alive"),
    ("Upgrade", "websocket"),
    ("Origin", "http://127.0.0.1:8899"),
    ("Origin", "http://evil.example"),
    ("Origin", "null"),
    ("Sec-Fetch-Site", "same-origin"),
    ("Sec-Fetch-Site", "cross-site"),
    ("Sec-Fetch-Site", "same-site"),
    ("Sec-Fetch-Site", "none"),
    ("Sec-Fetch-Mode", "navigate"),
    ("Sec-Fetch-Dest", "document"),
    ("Service-Worker", "script"),
    ("Set-Cookie", "h5i_share=x; Path=/"),
    ("Set-Cookie", "sid=9"),
    ("Accept", "text/html"),
];

fn header(rng: &mut Rng) -> (&'static str, &'static str) {
    if rng.chance(3) {
        (rng.pick(NAMES), rng.pick(VALUES))
    } else {
        rng.pick(PAIRS)
    }
}

fn eol(rng: &mut Rng) -> &'static str {
    if rng.chance(24) {
        rng.pick(EOLS)
    } else {
        "\r\n"
    }
}

const TARGETS: &[&str] = &[
    "/",
    "/index.html",
    "/?h5i=deadbeefdeadbeefdeadbeefdeadbeef",
    "/a?h5i=x&b=2",
    "/a?b=2&h5i=x",
    "/a?h5i=",
    "/a?h5ix=1",
    "//evil.example/",
    "///evil.example/",
    "/\\evil.example/",
    "http://evil.example/",
    "*",
    "",
    "/%2e%2e/",
    "/a?a=1&&b=2",
    "/very/long/path/that/keeps/going/and/going/and/going/and/going",
];

const METHODS: &[&str] = &[
    "GET",
    "POST",
    "HEAD",
    "PUT",
    "DELETE",
    "OPTIONS",
    "CONNECT",
    "TRACE",
    "get",
    "",
    "G E T",
    "GETGETGETGETGETGETGETGETGETGETGET",
];

const EOLS: &[&str] = &["\r\n", "\n", "\r", "\r\r\n", "\n\r"];

const STATUS_LINES: &[&str] = &[
    "HTTP/1.1 200 OK",
    "HTTP/1.1 204 No Content",
    "HTTP/1.1 304 Not Modified",
    "HTTP/1.1 101 Switching Protocols",
    "HTTP/1.1 100 Continue",
    "HTTP/1.1 103 Early Hints",
    "HTTP/1.0 200 OK",
    "HTTP/1.1 200",
    "HTTP/1.1",
    "200 OK",
    "",
    "HTTP/1.1 999 Nonsense",
];

fn request_head(rng: &mut Rng) -> String {
    let mut out = String::new();
    out.push_str(if rng.chance(3) { rng.pick(METHODS) } else { "GET" });
    out.push(' ');
    out.push_str(rng.pick(TARGETS));
    out.push(' ');
    out.push_str(if rng.chance(8) {
        "HTTP/1.0"
    } else {
        "HTTP/1.1"
    });
    out.push_str(eol(rng));
    for _ in 0..rng.below(7) {
        let (name, value) = header(rng);
        out.push_str(name);
        out.push(':');
        if rng.chance(3) {
            out.push(' ');
        }
        out.push_str(value);
        out.push_str(eol(rng));
        if rng.chance(24) {
            out.push_str(if rng.chance(2) { " " } else { "\t" });
            out.push_str(rng.pick(VALUES));
            out.push_str(eol(rng));
        }
    }
    out.push_str("\r\n");
    mutate(rng, out)
}

fn response_head(rng: &mut Rng) -> Vec<u8> {
    let mut out = String::new();
    out.push_str(rng.pick(STATUS_LINES));
    out.push_str(eol(rng));
    for _ in 0..rng.below(7) {
        let (name, value) = header(rng);
        out.push_str(name);
        out.push(':');
        if rng.chance(3) {
            out.push(' ');
        }
        out.push_str(value);
        out.push_str(eol(rng));
        if rng.chance(24) {
            out.push('\t');
            out.push_str(rng.pick(VALUES));
            out.push_str(eol(rng));
        }
    }
    out.push_str("\r\n");
    mutate(rng, out).into_bytes()
}

fn mutate(rng: &mut Rng, mut s: String) -> String {
    for _ in 0..rng.below(3) {
        if s.is_empty() {
            break;
        }
        match rng.below(5) {
            0 => {
                let at = floor_char(&s, rng.below(s.len()));
                s.truncate(at);
            }
            1 => {
                let at = floor_char(&s, rng.below(s.len()));
                let b = rng.pick(&["\r", "\n", "\0", "\u{0b}", "\u{0c}", " ", "\t", ":", ";"]);
                s.insert_str(at, b);
            }
            2 => {
                let lines: Vec<&str> = s.split_inclusive('\n').collect();
                if !lines.is_empty() {
                    let line = lines[rng.below(lines.len())].to_string();
                    s.push_str(&line);
                }
            }
            3 => s.push_str(rng.pick(NAMES)),
            _ => {
                let at = floor_char(&s, rng.below(s.len()));
                s.insert_str(at, rng.pick(VALUES));
            }
        }
    }
    s
}

fn floor_char(s: &str, mut i: usize) -> usize {
    while i > 0 && !s.is_char_boundary(i) {
        i -= 1;
    }
    i
}

/// A second request, behind every body.
const PIPELINED: &str = "GET /SMUGGLED HTTP/1.1\r\nHost: x\r\n\r\n";

const SIZES: &[&str] = &[
    "1", "2", "5", "a", "1f", "0", "05", "5;a=b", "5;q=\"a b\"", " 5", "5 ", "-1", "+5", "zz", "",
    "ffffffffffffffff", "10000000000000000",
];

const TRAILERS: &[&str] = &["X-Sum: abc", "no colon", " folded: x", "X\u{0c}: y"];

/// A chunked body, sometimes a proper one, with a second request behind it.
fn chunked_body(rng: &mut Rng) -> String {
    let mut out = String::new();
    for _ in 0..rng.below(4) {
        if rng.chance(8) {
            out.push_str(rng.pick(SIZES));
            out.push_str("\r\n");
            out.push_str(rng.pick(&["", "A", "hello", "ab\r\n"]));
            out.push_str(eol(rng));
        } else {
            let data = rng.pick(&["A", "hello", "ab\r\ncd", "0\r\n\r\n"]);
            let size = data.len();
            out.push_str(&format!("{size:x}"));
            out.push_str(eol(rng));
            out.push_str(data);
            out.push_str(eol(rng));
        }
    }
    out.push('0');
    out.push_str(eol(rng));
    if rng.chance(4) {
        out.push_str(if rng.chance(2) { rng.pick(TRAILERS) } else { TRAILERS[0] });
        out.push_str(eol(rng));
    }
    out.push_str(eol(rng));
    out.push_str(PIPELINED);
    out
}

/// Forward a whole body: what reached the box, whether it was all of it, and
/// how many bytes of it were counted.
fn forward_chunked(body: &[u8]) -> (Vec<u8>, bool, u64) {
    let head = "POST / HTTP/1.1\r\nHost: x\r\nTransfer-Encoding: chunked\r\n\r\n";
    let req = parse(head, COOKIE).expect("parses");
    let mut x = Exchange::new(&Forwarded { head, rest: b"", req: &req });
    let mut unread = Some(body);
    let mut out: Vec<u8> = Vec::new();
    let mut event = Event::Begin;
    let ended = loop {
        event = match x.next(event, false) {
            Action::ToBox(bytes) => {
                out.extend(bytes);
                Event::Wrote
            }
            Action::FromPeer(_) => Event::PeerSaid(unread.take().unwrap_or_default().to_vec()),
            Action::FromBox => break true,
            _ => break false,
        };
    };
    (out.split_off(head.len()), ended, x.counts.to_box - head.len() as u64)
}

#[test]
fn a_forwarded_head_never_carries_the_credential_or_two_framings() {
        let mut rng = Rng::new(0x5EED);
    let mut parsed = 0usize;
    let mut with_cookie = 0usize;
    let mut with_framing = 0usize;
    let mut both_framings = 0usize;
    let mut both_parsed = 0usize;
    let nothing_learned = AppCookies::default();
    for i in 0..rounds() {
        let seed = rng.next();
        let mut one = Rng::new(seed);
        let head = request_head(&mut one);
        let ctx = || format!("round {i}, seed {seed:#x}, head {head:?}");

        let named = |want: &str| {
            head.split("\r\n").skip(1).any(|l| {
                l.split_once(':')
                    .is_some_and(|(k, _)| k.eq_ignore_ascii_case(want))
            })
        };
        let offers_both = named("content-length")
            && head.split("\r\n").skip(1).any(|l| {
                l.split_once(':').is_some_and(|(k, v)| {
                    k.eq_ignore_ascii_case("transfer-encoding")
                        && v.split(',')
                            .any(|t| t.trim().eq_ignore_ascii_case("chunked"))
                })
            });
        if offers_both {
            both_framings += 1;
        }
        let Some(req) = parse(&head, COOKIE) else {
            continue;
        };
        if offers_both {
            both_parsed += 1;
        }
        parsed += 1;
        if req.chunked || req.content_length.is_some() {
            with_framing += 1;
        }
        if head.to_ascii_lowercase().contains("cookie:") && req.token.is_some() {
            with_cookie += 1;
        }

        let out = rewrite_for_upstream(&head, &req, COOKIE, None);

        for line in header_lines(&out) {
            if header_name_of(line) != "cookie" {
                continue;
            }
            let value = line.split_once(':').map(|(_, v)| v).unwrap_or("");
            for c in value.split(';') {
                let name = c.trim().split_once('=').map(|(k, _)| k).unwrap_or(c).trim();
                assert!(
                    !is_share_cookie_name(name),
                    "a share cookie reached the box: {} -> {line:?}",
                    ctx()
                );
            }
        }

        let narrowed = rewrite_for_upstream(&head, &req, COOKIE, Some(&nothing_learned));
        for line in header_lines(&narrowed) {
            assert!(
                header_name_of(line) != "cookie",
                "a cookie the box never set went upstream on a shared jar: {} -> {line:?}",
                ctx()
            );
        }

        let target = out.split_whitespace().nth(1).unwrap_or("");
        for (k, v) in query_params(target) {
            assert!(
                !is_share_param_name(&k) || v.is_empty(),
                "a share token reached the box in the URL: {} -> {target:?}",
                ctx()
            );
        }

        assert!(
            crlf_is_clean(out.as_bytes()),
            "a bare CR or LF reached the box: {} -> {out:?}",
            ctx()
        );

        let (lengths, chunked) = count_framing(&out);
        assert!(
            lengths <= 1 && !(chunked && lengths > 0),
            "two framings reached the box ({lengths} lengths, chunked={chunked}): {} -> {out:?}",
            ctx()
        );
    }

    let n = rounds();
    let counts =
        format!("parsed {parsed}, framed {with_framing}, cookied {with_cookie}, of {n}");

    assert_eq!(
        both_parsed, 0,
        "a head carrying both framings was accepted: {counts}"
    );

    if n < 1_000 {
        return;
    }
    assert!(
        parsed * 10 > n,
        "the generator has stopped producing heads the parser accepts: {counts}"
    );
    assert!(
        with_framing * 500 > n,
        "almost nothing declared a body length, so nothing exercised the framing \
         arithmetic: {counts}"
    );
    assert!(
        both_framings > 0,
        "no head carried both a length and a chunked encoding, so the one shape \
         two parsers disagree about was never offered: {counts}"
    );
    assert!(
        with_cookie * 500 > n,
        "almost nothing carried a credential, so the property this test is named for \
         was barely checked: {counts}"
    );
}

#[test]
fn nothing_a_foreign_page_sent_is_proxied() {
    let mut rng = Rng::new(0xF0E1);
    let mut foreign = 0usize;
    let mut invited = 0usize;
    for i in 0..rounds() {
        let seed = rng.next();
        let mut one = Rng::new(seed);
        let head = request_head(&mut one);
        let Some(req) = parse(&head, COOKIE) else {
            continue;
        };
        let ctx = || format!("round {i}, seed {seed:#x}, head {head:?}");

        let values = |name: &str| -> Vec<String> {
            head.split("\r\n")
                .skip(1)
                .filter_map(|l| {
                    let (k, v) = l.split_once(':')?;
                    k.trim()
                        .eq_ignore_ascii_case(name)
                        .then(|| v.trim().to_string())
                })
                .collect()
        };

        let sites = values("sec-fetch-site");
        let origins = values("origin");
        let hosts = values("host");
        let target = head.split_whitespace().nth(1).unwrap_or("");
        let brought_the_invite = target
            .split_once('?')
            .map(|(_, q)| {
                q.split('&').any(|p| {
                    let (k, v) = p.split_once('=').unwrap_or((p, ""));
                    is_share_param_name(k) && plausible(v)
                })
            })
            .unwrap_or(false);
        if brought_the_invite {
            invited += 1;
        }

        let a_navigation = values("sec-fetch-mode").iter().any(|m| m == "navigate")
            && values("sec-fetch-dest").iter().any(|d| d == "document");
        let says_foreign = if !sites.is_empty() {
            sites.iter().any(|s| match s.as_str() {
                "same-origin" | "none" => false,
                "cross-site" => !(a_navigation && brought_the_invite),
                _ => true,
            })
        } else {
            origins.iter().any(|o| match o.split_once("://") {
                None => true,
                Some((_, rest)) => {
                    let h = rest.split(['/', '?', '#']).next().unwrap_or(rest);
                    !hosts.iter().any(|want| h.eq_ignore_ascii_case(want.trim()))
                }
            })
        };
        if says_foreign {
            foreign += 1;
            assert!(
                req.cross_origin,
                "a request from somewhere that is not this share was not flagged: {}",
                ctx()
            );
            assert!(
                matches!(
                    decide(&head, COOKIE, |_| true, false, None),
                    Next::Respond(_, Some(Refusal::ForeignOrigin))
                        | Next::Respond(_, Some(Refusal::ServiceWorker))
                ),
                "a foreign-origin request was not refused: {}",
                ctx()
            );
        }

        if values("service-worker")
            .iter()
            .any(|v| v.eq_ignore_ascii_case("script"))
        {
            assert!(req.service_worker, "a registration was not seen: {}", ctx());
        }
    }

    let n = rounds();
    if n < 1_000 {
        return;
    }
    assert!(
        foreign * 100 > n,
        "almost nothing arrived from a foreign origin, so the check this test is named \
         for was barely exercised: {foreign} of {n}"
    );
    assert!(
        invited * 2000 > n,
        "almost nothing carried an invite in its query, so the one carve-out in the \
         rule was never taken: {invited} of {n}"
    );
}

#[test]
fn a_redirect_never_leaves_the_origin() {
    let mut rng = Rng::new(0xB0B);
    for i in 0..rounds() {
        let seed = rng.next();
        let mut one = Rng::new(seed);
        let head = request_head(&mut one);
        let Some(req) = parse(&head, "h5i_share") else {
            continue;
        };
        let loc = safe_location(&req.clean_target);
        let ctx = || format!("round {i}, seed {seed:#x}, target {:?}", req.clean_target);
        assert!(
            loc.starts_with('/'),
            "not origin-relative: {} -> {loc:?}",
            ctx()
        );
        assert!(
            !loc.starts_with("//") && !loc.starts_with("/\\"),
            "protocol-relative, so it leaves this origin: {} -> {loc:?}",
            ctx()
        );
        assert!(
            !loc.contains('\r') && !loc.contains('\n'),
            "a redirect target could split the response head: {} -> {loc:?}",
            ctx()
        );
    }
}

fn header_lines(head: &str) -> impl Iterator<Item = &str> {
    head.split("\r\n").skip(1).filter(|l| !l.is_empty())
}

fn header_name_of(line: &str) -> String {
    line.split_once(':')
        .map(|(n, _)| n.trim().to_ascii_lowercase())
        .unwrap_or_default()
}

fn query_params(target: &str) -> Vec<(String, String)> {
    let Some((_, q)) = target.split_once('?') else {
        return Vec::new();
    };
    q.split('&')
        .filter(|p| !p.is_empty())
        .map(|p| match p.split_once('=') {
            Some((k, v)) => (k.to_string(), v.to_string()),
            None => (p.to_string(), String::new()),
        })
        .collect()
}

fn crlf_is_clean(b: &[u8]) -> bool {
    for (i, &c) in b.iter().enumerate() {
        if c == b'\n' && (i == 0 || b[i - 1] != b'\r') {
            return false;
        }
        if c == b'\r' && b.get(i + 1) != Some(&b'\n') {
            return false;
        }
    }
    true
}

fn count_framing(head: &str) -> (usize, bool) {
    let mut lengths = 0;
    let mut chunked = false;
    for line in head.split("\r\n").skip(1) {
        let Some((name, value)) = line.split_once(':') else {
            continue;
        };
        let name = name.trim().to_ascii_lowercase();
        if name == "content-length" {
            lengths += 1;
        }
        if name == "transfer-encoding"
            && value
                .split(',')
                .any(|t| t.trim().eq_ignore_ascii_case("chunked"))
        {
            chunked = true;
        }
    }
    (lengths, chunked)
}

#[test]
fn a_sanitised_response_head_has_one_framing_one_connection_and_no_cookie() {
    let mut rng = Rng::new(0xC0FFEE);
    for i in 0..rounds() {
        let seed = rng.next();
        let mut one = Rng::new(seed);
        let head = response_head(&mut one);
        let ctx = || {
            format!(
                "round {i}, seed {seed:#x}, head {:?}",
                String::from_utf8_lossy(&head)
            )
        };

        if !head_is_well_formed(&head) {
            continue;
        }

        let framing = response_framing(&head);
        let rewritten = close_the_connection(&head);
        let out = if framing.strip_lengths {
            strip_lengths(&rewritten)
        } else {
            rewritten
        };

        let conns: Vec<String> = header_values(&out, "connection");
        assert_eq!(
            conns.len(),
            1,
            "not exactly one Connection: {} -> {out:?}",
            ctx()
        );
        assert!(
            conns[0].eq_ignore_ascii_case("close"),
            "the connection was not closed: {} -> {conns:?}",
            ctx()
        );

        for v in header_values(&out, "set-cookie") {
            let name = v
                .trim_start()
                .split(';')
                .next()
                .unwrap_or("")
                .split('=')
                .next()
                .unwrap_or("")
                .trim();
            assert!(
                !gate::is_share_cookie_name(name),
                "the box set a share cookie: {} -> {v:?}",
                ctx()
            );
        }

        let lengths = header_values(&out, "content-length").len();
        let encoded = header_values(&out, "transfer-encoding").iter().any(|v| {
            v.split(',').any(|t| {
                let t = t.trim();
                !t.is_empty() && !t.eq_ignore_ascii_case("identity")
            })
        });
        assert!(
            lengths <= 1 && !(encoded && lengths > 0),
            "two framings reached the visitor ({lengths} lengths, encoded={encoded}): {} -> {out:?}",
            ctx()
        );

        match framing.body {
            Body::Length(n) => {
                let declared: Vec<Option<u64>> = header_values(&out, "content-length")
                    .iter()
                    .map(|v| v.parse::<u64>().ok())
                    .collect();
                assert_eq!(
                    declared,
                    vec![Some(n)],
                    "the head disagrees with the length we will read: {}",
                    ctx()
                );
            }
            Body::Chunked | Body::UntilClose => assert!(
                !framing.strip_lengths || lengths == 0,
                "a head we refused to trust kept a length: {} -> {out:?}",
                ctx()
            ),
        }

        assert!(
            head_is_well_formed(&out),
            "the sanitiser emitted a head it would itself refuse: {} -> {out:?}",
            ctx()
        );
    }
}

fn header_values(head: &[u8], name: &str) -> Vec<String> {
    head.split(|&b| b == b'\n')
        .map(|l| l.strip_suffix(b"\r").unwrap_or(l))
        .skip(1)
        .filter_map(|l| {
            let colon = l.iter().position(|&b| b == b':')?;
            let k = String::from_utf8_lossy(&l[..colon])
                .trim()
                .to_ascii_lowercase();
            (k == name).then(|| String::from_utf8_lossy(&l[colon + 1..]).trim().to_string())
        })
        .collect()
}

#[test]
fn a_chunked_body_never_carries_a_second_request_into_the_box() {
    let mut rng = Rng::new(0xC4A4);
    let mut accepted = 0usize;
    let mut refused = 0usize;
    for i in 0..rounds() {
        let seed = rng.next();
        let mut one = Rng::new(seed);
        let body = chunked_body(&mut one);
        let ctx = || format!("round {i}, seed {seed:#x}, body {body:?}");

        let (out, ended, counted) = forward_chunked(body.as_bytes());

        assert!(
            body.as_bytes().starts_with(&out),
            "the box received bytes the client did not send: {} -> {:?}",
            ctx(),
            String::from_utf8_lossy(&out)
        );
        assert_eq!(
            counted as usize,
            out.len(),
            "the byte count and the bytes disagree: {}",
            ctx()
        );
        let end = body_end(body.as_bytes());
        if let Some(end) = end {
            assert!(
                out.len() <= end,
                "the box was given bytes from past the end of the body ({} of {end}): {}",
                out.len(),
                ctx()
            );
        }

        match ended {
            true => {
                accepted += 1;
                let end = end.unwrap_or_else(|| {
                    panic!(
                        "h5i accepted a body this reader cannot find the end of: {}",
                        ctx()
                    )
                });
                assert_eq!(
                    out.len(),
                    end,
                    "h5i stopped somewhere other than the end of the body: {}",
                    ctx()
                );
                assert!(
                    !String::from_utf8_lossy(&out).contains("SMUGGLED"),
                    "a completed body carried the pipelined request: {} -> {:?}",
                    ctx(),
                    String::from_utf8_lossy(&out)
                );
            }
            false => refused += 1,
        }
    }

    let n = rounds();
    if n < 1_000 {
        return;
    }
    assert!(
        accepted * 20 > n,
        "almost nothing was accepted, so the assertion about where an accepted body \
         stops ran on nothing: {accepted} of {n}"
    );
    assert!(
        refused * 20 > n,
        "almost nothing was refused, so the half of this that keeps a malformed body \
         out of the box was barely exercised: {refused} of {n}"
    );
}

fn body_end(b: &[u8]) -> Option<usize> {
    let mut at = 0usize;
    loop {
        let (line, next) = line_at(b, at)?;
        let hex: String = String::from_utf8_lossy(line)
            .split(';')
            .next()
            .unwrap_or("")
            .trim()
            .to_string();
        if hex.is_empty() || !hex.bytes().all(|c| c.is_ascii_hexdigit()) {
            return None;
        }
        let size = u64::from_str_radix(&hex, 16).ok()?;
        at = next;
        if size == 0 {
            loop {
                let (t, next) = line_at(b, at)?;
                at = next;
                if t.is_empty() {
                    return Some(at);
                }
            }
        }
        at = at.checked_add(usize::try_from(size).ok()?)?;
        let (closing, next) = line_at(b, at)?;
        if !closing.is_empty() {
            return None;
        }
        at = next;
    }
}

fn line_at(b: &[u8], at: usize) -> Option<(&[u8], usize)> {
    let rest = b.get(at..)?;
    let nl = rest.iter().position(|&c| c == b'\n')?;
    let line = rest[..nl].strip_suffix(b"\r").unwrap_or(&rest[..nl]);
    Some((line, at + nl + 1))
}

#[test]
fn the_request_and_response_readers_end_a_body_in_the_same_place() {
    let mut rng = Rng::new(0x5CA7);
    let mut agreed = 0usize;
    for i in 0..rounds() {
        let seed = rng.next();
        let mut one = Rng::new(seed);
        let body = chunked_body(&mut one);
        let ctx = || format!("round {i}, seed {seed:#x}, body {body:?}");

        let mut s = Scan::new();
        let consumed = s.feed(body.as_bytes());
        let scan_end = s.is_done().then_some(consumed);

        let (out, ended, _) = forward_chunked(body.as_bytes());
        let forwarded = ended.then_some(out.len());

        assert_eq!(
            scan_end,
            forwarded,
            "the two chunk readers disagree about where this body ends: {}",
            ctx()
        );
        if scan_end.is_some() {
            agreed += 1;
        }
    }
    let n = rounds();
    if n >= 1_000 {
        assert!(
            agreed * 20 > n,
            "almost no body was followed to its end by either reader, so this compared \
             two `None`s: {agreed} of {n}"
        );
    }
}

#[test]
fn the_generator_offers_a_second_request_to_smuggle() {
    let mut rng = Rng::new(1);
    for _ in 0..50 {
        assert!(chunked_body(&mut rng).contains(PIPELINED));
    }
}

fn any_summary(rng: &mut Rng) -> Summary {
    let started = at("2026-08-10T10:00:00Z");
    let peers: Vec<PeerRecord> = (0..rng.below(5))
        .map(|i| {
            let mut p = PeerRecord {
                peer: format!("peer{i}"),
                grant: "a1b2c3d4".into(),
                label: if rng.chance(2) {
                    Some("alex".into())
                } else {
                    None
                },
                path: match rng.below(4) {
                    0 => Some(Path::Direct),
                    1 => Some(Path::Relayed),
                    2 => Some(Path::Tunnel),
                    _ => None,
                },
                opened: started,
                closed: None,
                last_seen: None,
                connections: rng.below(2000) as u64,
                bytes_to_peer: rng.next() % 10_000_000,
                bytes_from_peer: rng.next() % 10_000_000,
            };
            if rng.chance(2) {
                p.closed = Some(at("2026-08-10T10:05:00Z"));
            }
            if rng.chance(3) {
                p.last_seen = Some(at("2026-08-10T10:02:00Z"));
            }
            p
        })
        .collect();
    let denied: Vec<DeniedAttempt> = (0..rng.below(6))
        .map(|_| DeniedAttempt {
            at: started,
            reason: match rng.below(6) {
                0 => Denied::Unknown,
                1 => Denied::Expired,
                2 => Denied::Revoked,
                3 => Denied::NoCredential,
                4 => Denied::TableUnreadable,
                _ => Denied::ShareOver,
            },
        })
        .collect();
    let turned_away: Vec<TurnedAway> = (0..rng.below(4))
        .map(|_| TurnedAway {
            at: started,
            why: match rng.below(3) {
                0 => TurnedAwayReason::NoDirectPath,
                1 => TurnedAwayReason::NeverGreeted,
                _ => TurnedAwayReason::Unparseable,
            },
        })
        .collect();
    Summary {
        transport: if rng.chance(2) {
            Transport::P2p
        } else {
            Transport::Tunnel
        },
        seconds: (rng.next() % 100_000) as i64,
        clock_moved: (rng.next() % 7_200) as i64 - 3_600,
        endpoint: "abcdef".into(),
        port: 3000,
        started,
        ended: at("2026-08-10T10:10:00Z"),
        peers,
        peers_overflow: rng.next() % 500,
        overflow_connections: rng.next() % 5_000,
        overflow_bytes_to_peer: rng.next() % 1_000_000,
        overflow_bytes_from_peer: rng.next() % 1_000_000,
        denied,
        denied_overflow: rng.next() % 100_000,
        over_capacity: rng.next() % 100,
        front_refused: rng.next() % 100,
        unreachable: rng.next() % 100,
        route_broken: rng.next() % 100,
        settled: rng.chance(2),
        turned_away,
        turned_away_overflow: rng.next() % 1000,
        truncated: rng.next() % 10,
        failed_because: if rng.chance(4) {
            Some("the tunnel died".into())
        } else {
            None
        },
    }
}

#[test]
fn no_line_of_a_receipt_claims_more_than_its_counter() {
    let mut rng = Rng::new(0x2ECE197);
    for i in 0..rounds().min(20_000) {
        let seed = rng.next();
        let mut one = Rng::new(seed);
        let s = any_summary(&mut one);
        let body = render_receipt(&s);
        let ctx = || format!("round {i}, seed {seed:#x}");

        assert_eq!(
            body.contains("truncated"),
            s.truncated > 0,
            "truncated said {} for {}: {}",
            body.contains("truncated"),
            s.truncated,
            ctx()
        );
        assert_eq!(body.contains("\npartial "), !s.settled, "{}", ctx());
        assert_eq!(
            body.contains("\ncapacity "),
            s.over_capacity > 0,
            "{}",
            ctx()
        );
        assert_eq!(
            body.contains("\nflooded "),
            s.front_refused > 0,
            "{}",
            ctx()
        );
        assert_eq!(
            body.contains("\nunreached "),
            s.unreachable > 0,
            "{}",
            ctx()
        );
        assert_eq!(body.contains("\nroute "), s.route_broken > 0, "{}", ctx());
        assert_eq!(
            body.contains("\nended    badly"),
            s.failed_because.is_some(),
            "{}",
            ctx()
        );
        assert_eq!(
            body.contains("\nturned "),
            !s.turned_away.is_empty(),
            "{}",
            ctx()
        );
        assert_eq!(
            body.contains("\nrefused "),
            !s.denied.is_empty(),
            "{}",
            ctx()
        );

        if !s.denied.is_empty() {
            let total = s.denied.len() as u64 + s.denied_overflow;
            assert!(
                body.contains(&format!("refused  {total} attempt(s)")),
                "the refusal total is not the total: {}",
                ctx()
            );
        }
        if !s.turned_away.is_empty() {
            let total = s.turned_away.len() as u64 + s.turned_away_overflow;
            assert!(
                body.contains(&format!("turned   {total} connection(s)")),
                "the turned-away total is not the total: {}",
                ctx()
            );
        }

        assert_eq!(
            body.contains("nobody connected"),
            s.peers.is_empty(),
            "{}",
            ctx()
        );

        let whole = s.ended.seconds - s.started.seconds;
        for line in body.lines().filter(|l| l.starts_with("  peer")) {
            let held: i64 = line
                .split(", ")
                .find_map(|f| f.strip_suffix('s').and_then(|n| n.parse().ok()))
                .unwrap_or(0);
            assert!(
                held <= whole,
                "a peer was held {held}s of a {whole}s share: {line} ({})",
                ctx()
            );
        }
    }
}
