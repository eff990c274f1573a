use h5i_share::chunked::{chunk_size, is_trailer, ChunkReader, ChunkStep, Scan};
use h5i_share::delivery::{self, Delivery};
use h5i_share::exchange::{Action, Event, Exchange, Written};
use h5i_share::gate::{self, AppCookies};
use h5i_share::http_front::{
    close_the_connection, decide, has_no_body, head_is_well_formed, is_informational,
    is_switching, learn_app_cookies, response_framing, sets_a_share_cookie, status_code,
    strip_lengths, strip_share_cookies, timed_out_response, unfinished_response,
    unreachable_box_response, Body, Counters, Forwarded, Framing, Next, NoHead,
};
use h5i_share::relay;

#[test]
fn a_reply_with_no_status_line_is_not_a_response() {
    assert!(!head_is_well_formed(b"Connection: close\r\n\r\n"));
    assert!(!head_is_well_formed(b"\r\nConnection: close\r\n\r\n"));
    assert!(!head_is_well_formed(b"\r\n\r\n"));
    assert!(!head_is_well_formed(b""));

    assert!(!head_is_well_formed(
        b"HTTP/1.1\r\nContent-Length: 0\r\n\r\n"
    ));
    assert!(!head_is_well_formed(b"HTTP/\r\n\r\n"));
    assert!(!head_is_well_formed(b"HTTP/1.1: 200 OK\r\nX: y\r\n\r\n"));
    assert!(!head_is_well_formed(b"HTTP/oops\r\nX: y\r\n\r\n"));
    assert!(!head_is_well_formed(b"HTTP/1.1 20 OK\r\n\r\n"));
    assert!(!head_is_well_formed(b"HTTP/1.1 2000 OK\r\n\r\n"));

    assert!(head_is_well_formed(b"HTTP/1.1 200 OK\r\n\r\n"));
    assert!(head_is_well_formed(b"HTTP/1.1 204\r\n\r\n"));
    assert!(head_is_well_formed(b"HTTP/2 200 OK\r\n\r\n"));
    assert!(head_is_well_formed(
        b"HTTP/1.1 500 Error: bad thing\r\n\r\n"
    ));

    assert!(head_is_well_formed(b"\r\nHTTP/1.1 200 OK\r\n\r\n"));
    let out = close_the_connection(b"\r\nHTTP/1.1 200 OK\r\nConnection: keep-alive\r\n\r\n");
    assert_eq!(&out, b"HTTP/1.1 200 OK\r\nConnection: close\r\n\r\n");
}

#[test]
fn a_status_line_after_a_blank_line_is_still_a_status_line() {
    for (head, code) in [
        (&b"\r\nHTTP/1.1 100 Continue\r\n\r\n"[..], 100u16),
        (&b"\r\nHTTP/1.1 101 Switching Protocols\r\n\r\n"[..], 101),
        (&b"\r\nHTTP/1.1 204 No Content\r\n\r\n"[..], 204),
        (&b"\r\nHTTP/1.1 304 Not Modified\r\n\r\n"[..], 304),
        (&b"\r\n\r\nHTTP/1.1 304 Not Modified\r\n\r\n"[..], 304),
    ] {
        assert!(
            head_is_well_formed(head),
            "{:?}",
            String::from_utf8_lossy(head)
        );
        assert_eq!(
            status_code(head),
            Some(code),
            "the status of an accepted head was unreadable: {:?}",
            String::from_utf8_lossy(head)
        );
    }

    assert!(is_informational(b"\r\nHTTP/1.1 100 Continue\r\n\r\n"));
    assert!(is_switching(
        b"\r\nHTTP/1.1 101 Switching Protocols\r\n\r\n"
    ));
    assert!(has_no_body("GET", b"\r\nHTTP/1.1 304 Not Modified\r\n\r\n"));
    assert!(has_no_body("GET", b"\r\nHTTP/1.1 204 No Content\r\n\r\n"));
    assert!(!is_informational(
        b"\r\nHTTP/1.1 101 Switching Protocols\r\n\r\n"
    ));
}

#[test]
fn the_terminating_chunk_is_found_however_the_bytes_arrive() {
    let body = b"2\r\nhi\r\n3\r\n th\r\n0\r\n\r\n";

    let mut s = Scan::new();
    s.feed(body);
    assert!(s.is_done());

    let mut s = Scan::new();
    for b in body {
        assert!(!s.is_done(), "the scanner finished early");
        s.feed(&[*b]);
    }
    assert!(s.is_done());

    let mut s = Scan::new();
    s.feed(b"0\r\nExpires: never\r\n\r\n");
    assert!(s.is_done());

    let mut s = Scan::new();
    s.feed(b"2\r\nhi\r\n");
    assert!(!s.is_done());
    let mut s = Scan::new();
    s.feed(b"0\r\n");
    assert!(!s.is_done(), "the trailer section had not been closed");

    let mut s = Scan::new();
    s.feed(b"not a chunk size\r\n");
    assert_eq!(s, Scan::Lost);
    assert!(!s.is_done());

    let mut s = Scan::new();
    assert_eq!(s.feed(b"0\r\n\r\nHTTP/1.1 200 OK\r\n\r\n"), 5);
    assert!(s.is_done());
    assert_eq!(s.feed(b"more"), 0);
}

#[test]
fn a_chunk_the_box_did_not_close_is_framing_this_will_not_follow() {
    for body in [
        &b"1\r\nAXX0\r\n\r\n"[..],
        &b"2\r\nabXX0\r\n\r\n"[..],
        &b"1\r\nA\n0\r\n\r\n"[..],
        &b"0\n\n"[..],
    ] {
        let mut s = Scan::new();
        s.feed(body);
        assert_eq!(
            s,
            Scan::Lost,
            "followed framing to a made-up end: {:?}",
            String::from_utf8_lossy(body)
        );
        assert!(!s.is_done());
    }

    let mut s = Scan::new();
    assert_eq!(s.feed(b"1\r\nA\r"), 5);
    assert_eq!(s.feed(b"\n0\r\n\r\n"), 6);
    assert!(s.is_done());
}

#[test]
fn a_set_cookie_with_no_value_is_still_not_the_boxs_to_send() {
    for line in [
        &b"Set-Cookie: h5i_share"[..],
        &b"Set-Cookie: h5i_share_8899"[..],
        &b"Set-Cookie:  h5i_share ; Path=/"[..],
        &b"set-cookie: h5i_share"[..],
    ] {
        assert!(
            sets_a_share_cookie(line),
            "not recognised as ours: {:?}",
            String::from_utf8_lossy(line)
        );
    }
    for line in [
        &b"Set-Cookie: sid"[..],
        &b"Set-Cookie: h5i_shared_theme"[..],
        &b"Set-Cookie: h5i_share_0"[..],
    ] {
        assert!(
            !sets_a_share_cookie(line),
            "the app's own was deleted: {:?}",
            String::from_utf8_lossy(line)
        );
    }

    let head = b"HTTP/1.1 200 OK\r\nSet-Cookie: h5i_share\r\nSet-Cookie: sid=9\r\n\r\n";
    let out = strip_share_cookies(head);
    assert!(!String::from_utf8_lossy(&out).contains("h5i_share"));
    assert!(String::from_utf8_lossy(&out).contains("sid=9"));

    let mut jar = AppCookies::default();
    learn_app_cookies(b"HTTP/1.1 200 OK\r\nSet-Cookie: sid\r\n\r\n", &mut jar);
    assert!(!jar.knows("sid", ""));
}

#[test]
fn a_chunk_line_is_held_to_the_rules_a_header_line_is() {
    assert_eq!(chunk_size(b"5\r\n"), Some(5));
    for bad in [
        &b" 5 \r\n"[..],
        &b"\t5\r\n"[..],
        &b"5\x0c\r\n"[..],
        &b"5\r\r\n"[..],
        &b"5;x\nGET / HTTP/1.1\r\n"[..],
        &b"5;x\x00y\r\n"[..],
    ] {
        assert_eq!(chunk_size(bad), None, "accepted {bad:?}");
    }
}

#[test]
fn a_websocket_handshake_survives_the_cookie_filter_byte_for_byte() {
    let head = b"HTTP/1.1 101 Switching Protocols\r\n\
                 Upgrade: websocket\r\n\
                 Connection: Upgrade\r\n\
                 Sec-WebSocket-Accept: s3pPLMBiTxaQ9kYGzzhZRbK+xOo=\r\n\
                 Sec-WebSocket-Protocol: vite-hmr\r\n\
                 Sec-WebSocket-Extensions: permessage-deflate; client_max_window_bits\r\n\r\n";
    assert_eq!(strip_share_cookies(head), head.to_vec());
}

#[test]
fn a_trailer_is_held_to_the_same_rules() {
    assert!(is_trailer(b"\r\n"));
    assert!(is_trailer(b"X-Checksum: abc\r\n"));
    for bad in [
        &b"X: a\nGET / HTTP/1.1\r\n"[..],
        &b"X: a\x00b\r\n"[..],
        &b" X: folded\r\n"[..],
        &b"no colon\r\n"[..],
        &b"X\x0c: a\r\n"[..],
    ] {
        assert!(!is_trailer(bad), "accepted {bad:?}");
    }
}

#[test]
fn a_chunk_size_is_read_the_way_the_spec_writes_one() {
    assert_eq!(chunk_size(b"5\r\n"), Some(5));
    assert_eq!(chunk_size(b"1f\r\n"), Some(31));
    assert_eq!(chunk_size(b"0\r\n"), Some(0));
    assert_eq!(chunk_size(b"a;name=value\r\n"), Some(10));
    assert_eq!(chunk_size(b"\r\n"), None);
    assert_eq!(chunk_size(b"-5\r\n"), None);
    assert_eq!(chunk_size(b"5"), None);
}

#[test]
fn a_bodyless_answer_is_not_waited_on() {
    assert!(has_no_body(
        "GET",
        b"HTTP/1.1 304 Not Modified\r\nContent-Length: 42\r\n\r\n"
    ));
    assert!(has_no_body("GET", b"HTTP/1.1 204 No Content\r\n\r\n"));
    assert!(has_no_body(
        "HEAD",
        b"HTTP/1.1 200 OK\r\nContent-Length: 9000\r\n\r\n"
    ));
    assert!(has_no_body("head", b"HTTP/1.1 200 OK\r\n\r\n"));
    assert!(!has_no_body(
        "GET",
        b"HTTP/1.1 200 OK\r\nContent-Length: 2\r\n\r\n"
    ));
}

#[test]
fn a_stalled_write_names_the_side_that_stalled() {
    let peer = timed_out_response();
    let boxed = unreachable_box_response();
    assert!(peer.starts_with("HTTP/1.1 408 "), "{peer}");
    assert!(boxed.starts_with("HTTP/1.1 502 "), "{boxed}");
    assert!(boxed.contains("stopped reading"), "{boxed}");
}

#[test]
fn every_built_in_answer_declares_the_length_it_has() {
    for r in [
        unfinished_response(),
        timed_out_response(),
        unreachable_box_response(),
    ] {
        let (head, body) = r.split_once("\r\n\r\n").expect("a head and a body");
        assert!(
            head.contains(&format!("Content-Length: {}", body.len())),
            "{r}"
        );
        assert!(head.contains("Connection: close"), "{r}");
    }
    assert!(timed_out_response().starts_with("HTTP/1.1 408 "));
}

#[test]
fn a_response_head_gets_the_line_discipline_the_request_head_gets() {
    assert!(head_is_well_formed(
        b"HTTP/1.1 200 OK\r\nContent-Length: 2\r\nX-A: b\r\n\r\n"
    ));
    for bad in [
        &b"HTTP/1.1 200 OK\r\nX-Pad: a\rConnection: keep-alive\r\n\r\n"[..],
        &b"HTTP/1.1 200 OK\nX-A: b\r\n\r\n"[..],
        &b"HTTP/1.1 200 OK\r\nX-Pad: a\r\n Connection: keep-alive\r\n\r\n"[..],
        &b"HTTP/1.1 200 OK\r\nConnection:\r\n\tkeep-alive\r\n\r\n"[..],
    ] {
        assert!(
            !head_is_well_formed(bad),
            "accepted {:?}",
            String::from_utf8_lossy(bad)
        );
    }
}

#[test]
fn a_head_the_box_never_finished_is_not_relayed_raw() {
    let r = unfinished_response();
    let (head, body) = r.split_once("\r\n\r\n").expect("a head and a body");
    assert!(head.starts_with("HTTP/1.1 502 "), "{r}");
    assert!(
        head.contains(&format!("Content-Length: {}", body.len())),
        "{r}"
    );
    assert!(head.contains("Connection: close"), "{r}");
}

#[test]
fn an_interim_head_cannot_set_a_share_cookie_either() {
    let head = b"HTTP/1.1 103 Early Hints\r\nLink: </a.css>; rel=preload\r\n\
                 Set-Cookie: h5i_share_43821=x; Max-Age=0\r\n\r\n";
    let text = String::from_utf8(strip_share_cookies(head)).expect("utf8");
    assert!(!text.contains("h5i_share"), "{text}");
    assert!(text.contains("Link: </a.css>"), "{text}");
    assert!(!text.contains("Connection: close"), "{text}");
}

fn framed(body: Body, strip_lengths: bool) -> Framing {
    Framing {
        body,
        strip_lengths,
    }
}

#[test]
fn a_bodyless_answer_with_ambiguous_lengths_is_still_sanitised() {
    let head = b"HTTP/1.1 304 Not Modified\r\nContent-Length: 1\r\nContent-Length: 2\r\n\r\n";
    assert_eq!(response_framing(head), framed(Body::UntilClose, true));
    let text = String::from_utf8(strip_lengths(&close_the_connection(head))).expect("utf8");
    assert!(!text.to_lowercase().contains("content-length"), "{text}");
}

#[test]
fn a_header_value_that_merely_contains_the_word_is_not_chunked() {
    assert_eq!(
        response_framing(
            b"HTTP/1.1 200 OK\r\nTransfer-Encoding: x-chunked-foo\r\nContent-Length: 4\r\n\r\n"
        ),
        framed(Body::UntilClose, true)
    );
    assert_eq!(
        response_framing(b"HTTP/1.1 200 OK\r\nTransfer-Encoding: gzip, chunked\r\n\r\n"),
        framed(Body::Chunked, false)
    );
}

#[test]
fn identity_transfer_encoding_is_not_chunked() {
    assert_eq!(
        response_framing(
            b"HTTP/1.1 200 OK\r\nTransfer-Encoding: identity\r\nContent-Length: 4\r\n\r\n"
        ),
        framed(Body::Length(4), false)
    );
}

#[test]
fn an_interim_answer_is_told_apart_from_the_real_one() {
    assert!(is_informational(b"HTTP/1.1 100 Continue\r\n\r\n"));
    assert!(is_informational(
        b"HTTP/1.1 103 Early Hints\r\nLink: </a.css>\r\n\r\n"
    ));
    assert!(!is_informational(
        b"HTTP/1.1 101 Switching Protocols\r\n\r\n"
    ));
    assert!(!is_informational(b"HTTP/1.1 200 OK\r\n\r\n"));
    assert!(!is_informational(b"garbage"));
}

#[test]
fn the_connection_headers_are_replaced_and_nothing_else_is() {
    let head = b"HTTP/1.1 200 OK\r\nContent-Length: 2\r\nConnection: keep-alive\r\n\
                 Keep-Alive: timeout=60\r\nX-Connection-Id: abc\r\n\r\n";
    let out = close_the_connection(head);
    let text = String::from_utf8(out).expect("utf8");
    assert!(text.contains("Connection: close"), "{text}");
    assert!(!text.contains("keep-alive"), "{text}");
    assert!(!text.contains("timeout=60"), "{text}");
    assert!(text.contains("X-Connection-Id: abc"), "{text}");
    assert!(text.contains("Content-Length: 2"), "{text}");
    assert!(text.starts_with("HTTP/1.1 200 OK\r\n"), "{text}");
    assert!(text.ends_with("\r\n\r\n"), "{text}");
}

#[test]
fn a_length_is_read_only_when_it_is_unambiguous() {
    assert_eq!(
        response_framing(b"HTTP/1.1 200 OK\r\nContent-Length: 17\r\n\r\n"),
        framed(Body::Length(17), false)
    );
    assert_eq!(
        response_framing(b"HTTP/1.1 200 OK\r\nTransfer-Encoding: chunked\r\n\r\n"),
        framed(Body::Chunked, false)
    );
    assert_eq!(
        response_framing(b"HTTP/1.1 200 OK\r\n\r\n"),
        framed(Body::UntilClose, false)
    );
    assert_eq!(
        response_framing(
            b"HTTP/1.1 200 OK\r\nContent-Length: 5\r\nTransfer-Encoding: chunked\r\n\r\n"
        ),
        framed(Body::Chunked, true)
    );
    assert_eq!(
        response_framing(b"HTTP/1.1 200 OK\r\nContent-Length: 1\r\nContent-Length: 2\r\n\r\n"),
        framed(Body::UntilClose, true)
    );
    assert_eq!(
        response_framing(b"HTTP/1.1 200 OK\r\nContent-Length: +5\r\n\r\n"),
        framed(Body::UntilClose, true)
    );
    assert_eq!(
        response_framing(
            b"HTTP/1.1 200 OK\r\nTransfer-Encoding: gzip\r\nContent-Length: 4\r\n\r\n"
        ),
        framed(Body::UntilClose, true)
    );
    assert_eq!(
        response_framing(b"HTTP/1.1 200 OK\r\nTransfer-Encoding: chunked, gzip\r\n\r\n"),
        framed(Body::UntilClose, false)
    );
}

#[test]
fn an_ambiguous_length_is_not_passed_on_to_the_visitor() {
    let head = b"HTTP/1.1 200 OK\r\nContent-Length: 1\r\nContent-Length: 2\r\nX-A: b\r\n\r\n";
    let out = strip_lengths(&close_the_connection(head));
    let text = String::from_utf8(out).expect("utf8");
    assert!(!text.to_lowercase().contains("content-length"), "{text}");
    assert!(text.contains("X-A: b"), "{text}");
    assert!(text.contains("Connection: close"), "{text}");
}

#[test]
fn the_box_cannot_clobber_the_visitors_share_cookie() {
    let head = b"HTTP/1.1 200 OK\r\nSet-Cookie: h5i_share_1234=junk; Path=/\r\n\
                 Set-Cookie: sid=9\r\n\r\n";
    let text = String::from_utf8(close_the_connection(head)).expect("utf8");
    assert!(!text.contains("h5i_share"), "{text}");
    assert!(text.contains("Set-Cookie: sid=9"), "{text}");
}

#[test]
fn the_names_the_box_sets_are_learned_off_its_responses() {
    let mut jar = AppCookies::default();
    let head = b"HTTP/1.1 200 OK\r\n\
                 Set-Cookie: sid=9; Path=/; HttpOnly\r\n\
                 Set-Cookie:   spaced =1\r\n\
                 Set-Cookie: h5i_share_1234=junk\r\n\
                 X-Not-A-Cookie: nope=1\r\n\r\n";
    learn_app_cookies(head, &mut jar);

    assert!(jar.knows("sid", "9"));
    assert!(!jar.knows("sid", "joiners-own-secret"));
    assert!(!jar.knows("Path", "/"));
    assert!(!jar.knows("HttpOnly", ""));
    assert!(!jar.knows("nope", "1"));
    assert!(jar.knows("spaced", "1"));
    assert!(!jar.knows("h5i_share_1234", "junk"));

    let padded = b"HTTP/1.1 200 OK\r\nSet-Cookie: s=YWJj==; Path=/\r\n\r\n";
    learn_app_cookies(padded, &mut jar);
    assert!(jar.knows("s", "YWJj=="));
}

/// Forward a whole body: what reached the box, and whether it was all of it.
fn forward_chunked(body: &[u8]) -> Result<Vec<u8>, ChunkStep> {
    let mut reader = ChunkReader::new(&[]);
    let mut unread = Some(body);
    let mut out: Vec<u8> = Vec::new();
    loop {
        match reader.next(false) {
            ChunkStep::Send(bytes) => out.extend(bytes),
            ChunkStep::Fill => match unread.take() {
                Some(bytes) if !bytes.is_empty() => reader.fill(bytes),
                _ => return Err(ChunkStep::Fill),
            },
            ChunkStep::Ended => return Ok(out),
            refused => return Err(refused),
        }
    }
}

/// Deliver a whole response: what reached the visitor, and the counters.
fn relay_all(head: &[u8], rest: &[u8], upstream: &[u8]) -> (Vec<u8>, Counters) {
    let (mut d, mut action) = Delivery::begin(head, rest, true, false, Counters::default());
    let mut unread = Some(upstream.to_vec()).filter(|b| !b.is_empty());
    let mut out: Vec<u8> = Vec::new();
    loop {
        let event = match action {
            delivery::Action::ToPeer(bytes) => {
                out.extend(bytes);
                delivery::Event::Wrote
            }
            delivery::Action::Read { .. } => match unread.take() {
                Some(bytes) => delivery::Event::BoxSaid(bytes),
                None => delivery::Event::BoxClosed,
            },
            delivery::Action::Finish => return (out, d.counts),
            delivery::Action::Drop => panic!("the visitor was dropped"),
        };
        assert!(d.counts_on(&event));
        action = d.next(event, false);
    }
}

/// Read a head that arrives at once, and then nothing more.
fn read_head(raw: &[u8]) -> Result<(String, Vec<u8>), NoHead> {
    let mut buf = Vec::new();
    if !raw.is_empty() {
        if let Some(answer) = relay::read_head(&mut buf, raw) {
            return answer;
        }
    }
    relay::read_head(&mut buf, &[]).expect("an end of stream is an answer")
}

#[test]
fn nothing_the_box_wrote_after_the_terminating_chunk_reaches_the_visitor() {
    let head = b"HTTP/1.1 200 OK\r\nTransfer-Encoding: chunked\r\n\r\n".to_vec();
    let tail = "HTTP/1.1 200 OK\r\nSet-Cookie: h5i_share=x\r\nConnection: keep-alive\r\n\r\nEXTRA";

    for (rest, upstream) in [
        (format!("5\r\nhello\r\n0\r\n\r\n{tail}"), String::new()),
        (String::new(), format!("5\r\nhello\r\n0\r\n\r\n{tail}")),
        ("5\r\nhello\r\n".to_string(), format!("0\r\n\r\n{tail}")),
    ] {
        let (out, counts) = relay_all(&head, rest.as_bytes(), upstream.as_bytes());
        let text = String::from_utf8_lossy(&out).into_owned();
        assert!(text.ends_with("0\r\n\r\n"), "{text:?}");
        assert!(!text.contains("EXTRA"), "a second response reached the visitor: {text:?}");
        assert!(
            !text.contains("h5i_share"),
            "an unsanitised head reached the visitor: {text:?}"
        );
        assert!(text.contains("5\r\nhello\r\n"), "{text:?}");
        assert_eq!(
            counts.to_peer as usize,
            out.len(),
            "the byte count and the bytes disagree"
        );
        assert!(!counts.was_truncated(), "a complete response was recorded as truncated");
    }

    let rest = format!("5\r\nhello\r\n0\r\n\r\n{tail}");
    let (out, counts) = relay_all(&head, rest.as_bytes(), b"");
    assert_eq!(
        out,
        b"HTTP/1.1 200 OK\r\nTransfer-Encoding: chunked\r\nConnection: close\r\n\r\n\
          5\r\nhello\r\n0\r\n\r\n"
    );
    assert_eq!(counts, Counters { to_box: 0, to_peer: 81, truncated: false });

    let (out, _) = relay_all(&head, b"not chunk framing at all", b"");
    assert!(
        String::from_utf8_lossy(&out).contains("not chunk framing at all"),
        "a body this could not follow was thrown away"
    );
}

#[test]
fn a_chunked_body_is_forwarded_and_stops_where_it_ends() {
    let body = b"5\r\nhello\r\n3\r\n123\r\n0\r\n\r\nGET /SMUGGLED HTTP/1.1\r\n\r\n";
    let out = forward_chunked(body).expect("a well-formed chunked body");
    let text = String::from_utf8(out).expect("utf8");
    assert!(text.contains("hello"), "{text}");
    assert!(text.contains("123"), "{text}");
    assert!(text.ends_with("0\r\n\r\n"), "{text}");
    assert!(!text.contains("SMUGGLED"), "a pipelined request was forwarded: {text}");
}

#[test]
fn a_chunk_the_client_did_not_close_is_not_a_finished_request() {
    for body in [
        &b"1\r\nAXX0\r\n\r\n"[..],
        &b"1\r\nAX\r\n0\r\n\r\n"[..],
        &b"2\r\nabXX0\r\n\r\n"[..],
        &b"1\r\nA\n0\r\n\r\n"[..],
    ] {
        assert!(
            forward_chunked(body).is_err(),
            "accepted a chunk that is not closed by CRLF: {:?}",
            String::from_utf8_lossy(body)
        );
    }
    for body in [
        &b"1\r\nA\r\n0\r\n\r\n"[..],
        &b"5;a=b\r\nhello\r\n0\r\n\r\n"[..],
        &b"0\r\n\r\n"[..],
    ] {
        let out = forward_chunked(body).expect("a well-formed body");
        assert_eq!(out, body, "a well-formed body was not forwarded verbatim");
    }
}

#[test]
fn chunk_framing_that_is_not_framing_is_refused() {
    for body in [
        &b"zz\r\nhello\r\n"[..],
        &b"5\r\nhel"[..],
        &b"0\r\n"[..],
    ] {
        assert!(forward_chunked(body).is_err(), "accepted {body:?}");
    }
}

#[test]
fn a_real_trailer_is_forwarded_and_still_ends_the_body() {
    let body = b"5\r\nhello\r\n0\r\nX-Checksum: abc\r\n\r\nGET /SMUGGLED HTTP/1.1\r\n\r\n";
    let out = forward_chunked(body).expect("a chunked body with a real trailer");
    let text = String::from_utf8(out).expect("utf8");
    assert!(text.contains("X-Checksum: abc"), "{text}");
    assert!(!text.contains("SMUGGLED"), "{text}");
}

#[test]
fn a_quoted_chunk_extension_is_not_mistaken_for_junk() {
    let body = b"5;sig=\"a b;c\"\r\nhello\r\n0\r\n\r\n";
    assert_eq!(forward_chunked(body).expect("a quoted chunk extension"), body);
}

#[test]
fn a_chunk_size_at_the_edge_of_the_type_is_refused() {
    assert!(forward_chunked(b"ffffffffffffffff\r\n").is_err());
}

#[test]
fn one_enormous_chunk_cannot_outlive_the_body_deadline() {
    let mut reader = ChunkReader::new(b"ffffffffffffffff\r\n");
    let mut rounds = 0;
    loop {
        match reader.next(rounds > 50) {
            ChunkStep::Send(_) => {}
            ChunkStep::Fill => {
                reader.fill(b"x");
                rounds += 1;
                assert!(rounds < 100, "a body past its lifetime went on");
            }
            step => {
                assert_eq!(step, ChunkStep::TooLate);
                return;
            }
        }
    }
}

#[test]
fn a_box_that_stalled_and_a_box_that_hung_up_are_told_apart() {
    assert!(matches!(Event::of_write(true, Written::Stalled), Event::BoxStalled));
    assert!(matches!(Event::of_write(true, Written::Failed), Event::BoxClosed));
    assert!(matches!(Event::of_write(false, Written::Failed), Event::PeerLost));
    assert!(matches!(Event::of_write(false, Written::Stalled), Event::PeerLost));
    assert!(matches!(Event::of_write(true, Written::Done), Event::Wrote));
}

/// An exchange of a request without a body, whose head the box has been sent.
fn asked(head: &str) -> Exchange {
    let req = gate::parse(head, gate::COOKIE).expect("parses");
    let mut x = Exchange::new(&Forwarded { head, rest: &[], req: &req });
    assert!(matches!(x.next(Event::Begin, false), Action::ToBox(_)));
    assert!(matches!(x.next(Event::Wrote, false), Action::FromBox));
    x
}

#[test]
fn an_interim_head_arriving_with_the_real_one_is_not_read_as_its_body() {
    let raw: Vec<u8> =
        b"HTTP/1.1 100 Continue\r\n\r\nHTTP/1.1 200 OK\r\nContent-Length: 2\r\n\r\nhi".to_vec();
    let mut x = asked("GET / HTTP/1.1\r\nHost: x\r\n\r\n");
    let Action::Interim { head: first, .. } = x.next(Event::BoxSaid(raw), false) else {
        panic!("the interim head goes first");
    };
    assert!(is_informational(&first));
    let Action::Relay { head: second, rest, complete, .. } = x.next(Event::Wrote, false) else {
        panic!("and then the answer");
    };
    assert!(complete);
    assert!(second.starts_with(b"HTTP/1.1 200 OK"));
    assert_eq!(rest, b"hi");
}

#[test]
fn a_response_head_that_is_not_utf8_is_relayed_rather_than_deleted() {
    let raw: Vec<u8> = b"HTTP/1.1 200 OK\r\nContent-Disposition: attachment; filename=\"caf\xe9.txt\"\r\nContent-Length: 2\r\n\r\nhi".to_vec();
    let mut x = asked("GET / HTTP/1.1\r\nHost: x\r\n\r\n");
    let Action::Relay { head, rest, complete, .. } = x.next(Event::BoxSaid(raw), false) else {
        panic!("a response");
    };
    assert!(complete);
    assert_eq!(rest, b"hi");
    assert!(head.windows(3).any(|w| w == b"caf"));
    assert_eq!(response_framing(&head), framed(Body::Length(2), false));
}

#[test]
fn the_head_is_read_and_the_body_after_it_is_kept() {
    let raw = b"POST /submit HTTP/1.1\r\nHost: x\r\nContent-Length: 5\r\n\r\nhello";
    let (head, rest) = read_head(raw).expect("head");
    assert!(head.starts_with("POST /submit"));
    assert_eq!(rest, b"hello");
}

#[test]
fn a_head_that_never_ends_is_refused_rather_than_buffered() {
    let raw = format!("GET / HTTP/1.1\r\nX: {}\r\n", "a".repeat(gate::MAX_HEAD + 10));
    assert_eq!(read_head(raw.as_bytes()), Err(NoHead::Refused));
}

#[test]
fn a_peer_that_said_nothing_is_not_a_peer_that_was_refused() {
    assert_eq!(read_head(b""), Err(NoHead::Silent));
    assert_eq!(read_head(b"GET / HTTP/1.1\r\nHost: x\r\n"), Err(NoHead::Refused));
    assert_eq!(
        read_head(b"\x16\x03\x01\x00\xff\x01\xff\xff\r\n\r\n"),
        Err(NoHead::Refused)
    );
    assert!(read_head(b"GET / HTTP/1.1\r\nHost: x\r\n\r\n").is_ok());
}

const TOKEN: &str = "abc123";

fn yes(t: &str) -> bool {
    t == TOKEN
}

#[test]
fn the_first_visit_is_bounced_so_the_token_leaves_the_url() {
    let head = "GET /dash?h5i=abc123&tab=2 HTTP/1.1\r\nHost: x\r\n\r\n";
    let Next::Respond(r, _) = decide(head, gate::COOKIE, yes, true, None) else {
        panic!("a token in the URL must be redirected, not proxied");
    };
    assert!(r.contains("302"));
    assert!(r.contains("Location: /dash?tab=2"));
    assert!(r.contains("Set-Cookie: h5i_share=abc123"));
}

#[test]
fn a_request_with_the_cookie_is_proxied_without_it() {
    let head = "GET /app.js HTTP/1.1\r\nHost: x\r\nCookie: h5i_share=abc123; sid=9\r\n\r\n";
    let Next::Proxy { head: up, req } = decide(head, gate::COOKIE, yes, true, None) else {
        panic!("an authorized request must be proxied");
    };
    assert!(!up.contains("abc123"), "credential reached the box: {up}");
    assert!(up.contains("Cookie: sid=9"));
    assert!(!req.upgrade);
}

#[test]
fn no_credential_and_a_wrong_credential_get_the_same_answer() {
    let none = "GET / HTTP/1.1\r\nHost: x\r\n\r\n";
    let wrong = "GET / HTTP/1.1\r\nHost: x\r\nCookie: h5i_share=nope\r\n\r\n";
    let (Next::Respond(a, _), Next::Respond(b, _)) = (
        decide(none, gate::COOKIE, yes, true, None),
        decide(wrong, gate::COOKIE, yes, true, None),
    ) else {
        panic!("neither may be proxied");
    };
    assert_eq!(a, b);
    assert!(a.contains("401"));
}

#[test]
fn a_websocket_upgrade_is_proxied_and_flagged() {
    let head = "GET /hmr HTTP/1.1\r\nHost: x\r\nUpgrade: websocket\r\n\
                Connection: Upgrade\r\nCookie: h5i_share=abc123\r\n\r\n";
    let Next::Proxy { req, .. } = decide(head, gate::COOKIE, yes, true, None) else {
        panic!("an upgrade must be proxied");
    };
    assert!(req.upgrade);
}

#[test]
fn something_that_is_not_http_never_reaches_the_authorizer() {
    let mut called = false;
    let out = decide(
        "\u{16}\u{3}\u{1} a TLS ClientHello, not a request",
        gate::COOKIE,
        |_| {
            called = true;
            true
        },
        true,
        None,
    );
    assert!(matches!(out, Next::Respond(..)));
    assert!(!called, "malformed input must not reach the grant table");
}

#[test]
fn loopback_gets_a_cookie_a_loopback_browser_will_actually_store() {
    let head = "GET /?h5i=abc123 HTTP/1.1\r\nHost: 127.0.0.1\r\n\r\n";
    let Next::Respond(r, _) = decide(head, gate::COOKIE, yes, false, None) else {
        panic!("redirect expected");
    };
    assert!(!r.contains("Secure"));
}
