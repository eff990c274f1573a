use h5i_share::chunked::{ChunkReader, ChunkStep, Scan};
use h5i_share::delivery::{self, Delivery};
use h5i_share::exchange::{Action, Event, Exchange, Written};
use h5i_share::gate;
use h5i_share::http_front::{
    close_the_connection, response_framing, set_cookie_name, strip_lengths, Counters, Forwarded,
};
use h5i_share::relay::{self, Ending, Linger, Opening, Relay};

/// Run an exchange whose peer sends nothing more and whose box answers with
/// `answer`: what the box was sent behind the head, and what was asked for last.
fn exchange(head: &str, rest: &[u8], answer: &[u8]) -> (Vec<u8>, Action) {
    let req = gate::parse(head, gate::COOKIE).expect("parses");
    let mut x = Exchange::new(&Forwarded { head, rest, req: &req });
    let mut sent: Vec<u8> = Vec::new();
    let mut answer = Some(answer.to_vec());
    let mut event = Event::Begin;
    loop {
        event = match x.next(event, false) {
            Action::ToBox(bytes) => {
                sent.extend(bytes);
                Event::Wrote
            }
            Action::ToPeer(_) | Action::Interim { .. } | Action::Switch { .. } => Event::Wrote,
            Action::FromPeer(_) => Event::PeerSaid(Vec::new()),
            Action::FromBox => Event::BoxSaid(answer.take().unwrap_or_default()),
            last => return (sent[head.len()..].to_vec(), last),
        };
    }
}

fn read_all(body: &[u8]) -> Vec<u8> {
    let mut reader = ChunkReader::new(body);
    let mut out = Vec::new();
    while let ChunkStep::Send(bytes) = reader.next(false) {
        out.extend(bytes);
    }
    assert_eq!(reader.next(false), ChunkStep::Ended);
    out
}

#[test]
fn both_chunk_readers_end_a_body_in_the_same_place() {
    for (body, tail) in [
        ("0\r\n\r\n", "GET / HTTP/1.1\r\n\r\n"),
        ("5;a=b\r\nhello\r\n0\r\nX: y\r\n\r\n", "0\r\n\r\n"),
        ("a\r\n0123456789\r\n1\r\n\n\r\n000\r\n\r\n", "x"),
    ] {
        let all = format!("{body}{tail}");
        assert_eq!(read_all(all.as_bytes()), body.as_bytes());
        let mut scan = Scan::new();
        assert_eq!(scan.feed(all.as_bytes()), body.len());
        assert!(scan.is_done());
        assert_eq!(scan.feed(tail.as_bytes()), 0);
    }
}

#[test]
fn a_scan_in_pieces_is_a_scan() {
    let body = b"5\r\nhello\r\n0\r\nX: y\r\n\r\nmore";
    for cut in 0..body.len() {
        let mut scan = Scan::new();
        let n = scan.feed(&body[..cut]) + scan.feed(&body[cut..]);
        assert_eq!(n, body.len() - 4, "cut at {cut}");
        assert!(scan.is_done());
    }
}

#[test]
fn a_second_request_behind_a_body_is_not_sent() {
    let head = "POST / HTTP/1.1\r\nHost: x\r\nContent-Length: 3\r\n\r\n";
    let (sent, last) = exchange(head, b"abcGET / HTTP/1.1\r\n\r\n", b"");
    assert_eq!(sent, b"abc");
    assert!(matches!(last, Action::Relay { complete: false, .. }));
}

#[test]
fn only_a_switch_becomes_a_pipe() {
    let head = "GET / HTTP/1.1\r\nHost: x\r\nConnection: upgrade\r\nUpgrade: websocket\r\n\r\n";
    let switched = b"HTTP/1.1 101 Switching Protocols\r\nUpgrade: websocket\r\n\r\nhi";
    let (sent, last) = exchange(head, b"early", switched);
    assert_eq!(sent, b"early");
    assert!(matches!(last, Action::Duplex));
    let (sent, last) = exchange(head, b"early", b"HTTP/1.1 200 OK\r\n\r\n");
    assert_eq!(sent, b"");
    assert!(matches!(last, Action::Relay { complete: true, .. }));
}

#[test]
fn interim_heads_come_to_an_end() {
    let head = "GET / HTTP/1.1\r\nHost: x\r\n\r\n";
    let many = "HTTP/1.1 103 Early Hints\r\n\r\n".repeat(relay::MAX_INTERIM_RESPONSES + 1);
    let (_, last) = exchange(head, b"", many.as_bytes());
    assert!(!matches!(last, Action::Duplex | Action::Relay { complete: true, .. }));
    let few = "HTTP/1.1 103 Early Hints\r\n\r\n".repeat(2) + "HTTP/1.1 200 OK\r\n\r\n";
    let (_, last) = exchange(head, b"", few.as_bytes());
    assert!(matches!(last, Action::Relay { complete: true, .. }));
}

#[test]
fn a_box_that_stopped_reading_is_answered_for() {
    assert!(matches!(Event::of_write(true, Written::Stalled), Event::BoxStalled));
    assert!(matches!(Event::of_write(true, Written::Failed), Event::BoxClosed));
    assert!(matches!(Event::of_write(false, Written::Stalled), Event::PeerLost));
    assert!(matches!(Event::of_write(false, Written::Done), Event::Wrote));
}

fn sized(body_len: u64, sent: u64) -> Relay {
    Relay { body_len: Some(body_len), scan: None, sent, pending: 0, peer_said_all: false }
}

#[test]
fn no_more_than_the_declared_length_is_passed_on() {
    let mut r = sized(5, 3);
    let mut counts = Counters { to_box: 1, to_peer: u64::MAX, truncated: false };
    assert_eq!(r.from_box(b"abcdef"), 2);
    assert!(!r.is_complete());
    r.passed_on(&mut counts);
    assert!(r.is_complete());
    assert_eq!(r.from_box(b"more"), 0);
    r.passed_on(&mut counts);
    assert_eq!((r.sent, r.pending), (5, 0));
    r.finish(Ending::Complete, &mut counts);
    assert_eq!(counts, Counters { to_box: 1, to_peer: 1, truncated: false });
    sized(5, 4).finish(Ending::BoxClosed, &mut counts);
    counts.forwarded(2);
    assert_eq!(counts, Counters { to_box: 3, to_peer: 1, truncated: true });
    assert_eq!(r.lifetime(), relay::FRAMED_LIFETIME);
}

#[test]
fn only_the_box_cuts_a_response_short() {
    let all = [
        Ending::Complete,
        Ending::BoxClosed,
        Ending::BoxFailed,
        Ending::BoxQuiet,
        Ending::Deadline,
        Ending::PeerFailed,
        Ending::PeerStalled,
    ];
    for how in all {
        assert!(!sized(5, 5).was_cut_short(how), "{how:?}");
        let short = matches!(
            how,
            Ending::BoxClosed | Ending::BoxFailed | Ending::BoxQuiet | Ending::Deadline
        );
        assert_eq!(sized(5, 4).was_cut_short(how), short, "{how:?}");
    }
    let mut gone = sized(5, 4);
    gone.peer_closed();
    assert!(!gone.was_cut_short(Ending::BoxQuiet));
    assert!(gone.was_cut_short(Ending::BoxFailed));
    let unframed =
        Relay { body_len: None, scan: None, sent: 4, pending: 0, peer_said_all: false };
    assert!(!unframed.was_cut_short(Ending::BoxClosed));
    assert!(unframed.was_cut_short(Ending::BoxFailed));
    assert_eq!(unframed.lifetime(), relay::UNFRAMED_LIFETIME);
}

#[test]
fn a_head_that_the_box_never_finished_is_not_a_response() {
    for (head, short) in [(&b""[..], false), (&b"HTTP/1.1 200 OK\r\nX"[..], true)] {
        match relay::relay_response(head, b"", false, false) {
            Opening::Refuse { reply, truncated } => {
                assert!(reply.starts_with("HTTP/1.1 502 "), "{reply}");
                assert_eq!(truncated, short);
            }
            other => panic!("{other:?}"),
        }
    }
}

#[test]
fn a_peer_is_let_go_of_politely_but_not_for_ever() {
    let mut l = Linger::new();
    assert_eq!(l.patience(), relay::LINGER_PROBE_MILLIS);
    assert!(!l.clone().finish_with(0));
    assert!(l.finish_with(8));
    assert_eq!(l.patience(), relay::LINGER_DRAIN * 1000);
    assert!(l.finish_with(relay::MAX_LINGER_BYTES as usize - 8));
    assert!(!l.finish_with(1));
}

#[test]
fn closing_a_closed_head_changes_nothing() {
    for head in [
        &b"HTTP/1.1 200 OK\r\nConnection: keep-alive\r\nKeep-Alive: 5\r\nX: y\r\n\r\n"[..],
        &b"HTTP/1.1 200 OK\nX: \r\r\n\r\r\n\xff: \xfe\nconnection : close"[..],
        &b""[..],
    ] {
        let closed = close_the_connection(head);
        assert_eq!(close_the_connection(&closed), closed);
    }
}

#[test]
fn a_head_without_its_lengths_still_ends_the_connection() {
    let head = b"HTTP/1.1 200 OK\r\nContent-Length: 3\r\nTransfer-Encoding: chunked\r\n\
                 Connection: keep-alive\r\nSet-Cookie: h5i_share=x\r\nSet-Cookie: a=b\r\n\r\n";
    assert!(response_framing(head).strip_lengths);
    let out = strip_lengths(&close_the_connection(head));
    assert_eq!(
        out,
        b"HTTP/1.1 200 OK\r\nTransfer-Encoding: chunked\r\nSet-Cookie: a=b\r\n\
          Connection: close\r\n\r\n"
    );
    assert_eq!(set_cookie_name(b"Set-Cookie: a=b").as_deref(), Some("a"));
}

#[test]
fn each_proxy_reads_its_own_cookie() {
    let (a, b) = (gate::cookie_for_port(8080), gate::cookie_for_port(80));
    assert_ne!(a, b);
    let head = format!("GET / HTTP/1.1\r\nHost: x\r\nCookie: {a}=mine; {b}=theirs\r\n\r\n");
    assert_eq!(gate::parse(&head, &a).and_then(|r| r.token).as_deref(), Some("mine"));
    assert_eq!(gate::parse(&head, &b).and_then(|r| r.token).as_deref(), Some("theirs"));
}

#[test]
fn the_rest_of_a_query_is_left_alone() {
    for (target, clean) in [
        ("/x?", "/x?"),
        ("/x", "/x"),
        ("/?h5i=abc", "/"),
        ("/a?b=1&&c=2", "/a?b=1&&c=2"),
        ("/a?&b=1&h5i=abc&", "/a?&b=1&"),
        ("/a?h5i=abc&h5i=def", "/a"),
        ("/a?b=?&%68%35%69=abc&c", "/a?b=?&c"),
    ] {
        let head = format!("GET {target} HTTP/1.1\r\nHost: x\r\n\r\n");
        assert_eq!(gate::parse(&head, gate::COOKIE).expect("parses").clean_target, clean);
    }
}

#[test]
fn a_port_s_cookie_is_written_as_a_port_is() {
    for name in ["h5i_share_+80", "h5i_share_080", "h5i_share_00", "h5i_share_8 "] {
        assert!(!gate::is_share_cookie_name(name), "{name}");
    }
    assert!(gate::is_share_cookie_name("h5i_share_80"));
}

#[test]
fn a_refusal_is_counted_once_it_was_written() {
    let begin = || Delivery::begin(b"", b"", false, false, Counters::default());
    let (mut d, action) = begin();
    let delivery::Action::ToPeer(reply) = action else { panic!("{action:?}") };
    assert!(matches!(d.next(delivery::Event::Wrote, false), delivery::Action::Finish));
    assert_eq!(d.counts.to_peer as usize, reply.len());
    let (mut d, _) = begin();
    assert!(matches!(d.next(delivery::Event::PeerFailed, false), delivery::Action::Finish));
    assert_eq!(d.counts, Counters::default());
    let (d, _) = Delivery::begin(b"HTTP/1.1 2", b"", false, false, Counters::default());
    assert!(d.counts.truncated);
}

#[test]
fn a_delivery_asks_in_order() {
    let head = b"HTTP/1.1 200 OK\r\nContent-Length: 5\r\n\r\n";
    let begin = || {
        let (mut d, _) = Delivery::begin(head, b"ab", true, false, Counters::default());
        assert!(matches!(d.next(delivery::Event::Wrote, false), delivery::Action::ToPeer(b) if b == b"ab"));
        let action = d.next(delivery::Event::Wrote, false);
        assert!(matches!(action, delivery::Action::Read { watch_peer: true }));
        d
    };
    assert_eq!(begin().lifetime(), relay::FRAMED_LIFETIME);
    let mut d = begin();
    let action = d.next(delivery::Event::PeerClosed, false);
    assert!(matches!(action, delivery::Action::Read { watch_peer: false }));
    let action = d.next(delivery::Event::BoxSaid(b"cdEXTRA".to_vec()), true);
    assert!(matches!(action, delivery::Action::ToPeer(b) if b == b"cdE"));
    assert!(matches!(d.next(delivery::Event::Wrote, true), delivery::Action::Finish));
    assert!(!d.counts.truncated, "complete comes before late");
    for (event, late, truncated) in [
        (delivery::Event::PeerSaid, true, true),
        (delivery::Event::BoxClosed, false, true),
        (delivery::Event::BoxFailed, false, true),
        (delivery::Event::BoxQuiet, false, true),
        (delivery::Event::PeerFailed, false, false),
    ] {
        let mut d = begin();
        assert!(matches!(d.next(event, late), delivery::Action::Finish));
        assert_eq!(d.counts.truncated, truncated);
    }
    let mut d = begin();
    d.next(delivery::Event::BoxSaid(b"c".to_vec()), false);
    assert!(matches!(d.next(delivery::Event::PeerStalled, false), delivery::Action::Finish));
    assert!(!d.counts.truncated);
    let (mut d, _) = Delivery::begin(head, b"ab", true, false, Counters::default());
    assert!(matches!(d.next(delivery::Event::PeerStalled, false), delivery::Action::Drop));
}

#[test]
fn an_answer_on_the_box_s_behalf_is_counted() {
    let head = "GET / HTTP/1.1\r\nHost: x\r\n\r\n";
    let req = gate::parse(head, gate::COOKIE).expect("parses");
    let mut x = Exchange::new(&Forwarded { head, rest: b"", req: &req });
    x.next(Event::Begin, false);
    let Action::Refuse(reply) = x.next(Event::BoxStalled, false) else { panic!("a refusal") };
    assert!(matches!(x.next(Event::Wrote, false), Action::Finish));
    assert_eq!(x.counts.to_peer as usize, reply.len());
}
