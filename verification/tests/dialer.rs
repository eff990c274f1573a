use h5i_share::address::{IpAddr, Ipv4Addr, SocketAddr};
use h5i_share::dialer::{
    dial_attributed, helper_main, helper_status, ns_path, recv_status, resolve_once,
    spawn_attributed, Attempts, ConnectFailure, DialError, Dialer, Holder, Message, Namespace,
    Ownership, Pass, REQUEST, STATUS_CONNECT_FAILED, STATUS_CONNECT_STUCK, STATUS_NO_LOOPBACK,
    STATUS_NO_NS, STATUS_OK, STATUS_SETNS,
};

fn here(port: u16) -> SocketAddr {
    SocketAddr { ip: IpAddr::V4(Ipv4Addr::new(127, 0, 0, 1)), port }
}

fn dialer_to(port: u16) -> Dialer {
    Dialer::spawn(77, None, port, Some(STATUS_OK)).expect("a helper that is ready")
}

#[test]
fn the_helper_hands_back_a_working_socket() {
    let mut d = dialer_to(3000);
    assert_eq!(d.connect().expect("in step"), REQUEST);
    let reply = d.request(Some(STATUS_OK), Some(9));
    assert_eq!(reply.result.expect("a connection"), 9);
    assert_eq!(reply.stray, None);
    assert!(d.in_step);
}

#[test]
fn dialer_a_dead_port_is_reported_as_a_dead_port() {
    let mut d = dialer_to(1);
    let reply = d.request(Some(STATUS_CONNECT_FAILED), None::<i32>);
    let err = reply.result.expect_err("nothing is listening");
    assert!(err.nothing_listening());
    assert!(
        err.text().contains("nothing is listening"),
        "unhelpful message: {}",
        err.text()
    );
    let found = resolve_once(1, 5, true, Ownership::Nobody, false, false);
    match found {
        Pass::Settled(Err(e)) => assert!(e.nothing_listening() && !e.fatal()),
        other => panic!("{other:?}"),
    }
}

#[test]
fn dialer_the_destination_cannot_be_redirected_after_spawn() {
    let mut d = dialer_to(4000);
    assert_eq!(d.port(), 4000);
    d.request(Some(STATUS_OK), Some(1));
    d.request(Some(99), None::<i32>);
    d.request(None, None::<i32>);
    assert_eq!(d.port(), 4000);
}

#[test]
fn many_connections_come_from_one_fork() {
    let mut d = dialer_to(3000);
    for i in 0..8 {
        assert_eq!(d.connect().expect("in step"), REQUEST);
        assert_eq!(d.request(Some(STATUS_OK), Some(i)).result.expect("connect"), i);
    }
}

#[test]
fn a_box_that_is_not_running_is_refused_at_spawn() {
    let gone = Dialer::spawn(77, Some(1), 3000, Some(STATUS_NO_NS)).expect_err("gone");
    assert!(gone.starts_with("the box (pid 1) is gone"), "{gone}");
    let locked = Dialer::spawn(77, Some(1), 3000, Some(STATUS_SETNS)).expect_err("not ours");
    assert!(locked.contains("could not enter the box's network namespace (pid 1)"), "{locked}");
    let silent = Dialer::spawn(77, None, 3000, None).expect_err("no report");
    assert_eq!(silent, "could not reach into the box (pid 0) to share port 3000");
}

#[test]
fn a_channel_that_lost_a_reply_is_retired() {
    let mut d = dialer_to(3000);
    let reply = d.request(None, Some(5));
    assert_eq!(reply.stray, Some(5));
    assert_eq!(
        reply.result.expect_err("silence").into_inner(),
        "the box dialer (pid 77) stopped answering; the share cannot reach the box any more"
    );
    let err = d.connect().expect_err("retired");
    assert!(err.text().contains("lost track of a reply"), "{}", err.text());
    let late = d.request(Some(STATUS_OK), Some(6));
    assert_eq!(late.stray, Some(6), "a late reply was handed to another caller");
    assert!(late.result.expect_err("retired").text().contains("lost track of a reply"));

    let mut d = dialer_to(3000);
    assert!(d.unsent().text().contains("(pid 77) is gone"));
    assert!(!d.in_step);
}

#[test]
fn each_answer_of_the_helper_means_one_thing() {
    let mut d = dialer_to(3000);
    let stuck = d.request(Some(STATUS_CONNECT_STUCK), Some(4));
    assert_eq!(stuck.stray, Some(4));
    assert!(matches!(stuck.result, Err(DialError::Broken(_))));
    let deaf = d.request(Some(STATUS_NO_LOOPBACK), None::<i32>).result.expect_err("no loopback");
    assert!(deaf.no_loopback() && deaf.fatal() && !deaf.not_the_box());
    let odd = d.request(Some(200), None::<i32>).result.expect_err("nonsense");
    assert!(odd.text().contains("answered something unexpected"), "{}", odd.text());
    let empty = d.request(Some(STATUS_OK), None::<i32>).result.expect_err("no descriptor");
    assert!(empty.text().contains("answered something unexpected"), "{}", empty.text());
    assert!(d.in_step);

    assert_eq!(helper_status(None), STATUS_OK);
    assert_eq!(helper_status(Some(ConnectFailure::Refused)), STATUS_CONNECT_FAILED);
    assert_eq!(helper_status(Some(ConnectFailure::AddrNotAvailable)), STATUS_CONNECT_FAILED);
    assert_eq!(helper_status(Some(ConnectFailure::NetworkUnreachable)), STATUS_NO_LOOPBACK);
    assert_eq!(helper_status(Some(ConnectFailure::Other)), STATUS_CONNECT_STUCK);
}

#[test]
fn a_partial_message_is_not_a_descriptor() {
    let whole = Message { read: 1, byte: 0, truncated: false, rights: Some(6) };
    assert_eq!(recv_status(whole), (Some(0), Some(6)));
    assert_eq!(recv_status(Message { truncated: true, ..whole }), (Some(0), None));
    assert_eq!(recv_status(Message { rights: Some(-1), ..whole }), (Some(0), None));
    assert_eq!(recv_status(Message { rights: None, ..whole }), (Some(0), None));
    assert_eq!(recv_status(Message { read: 0, ..whole }), (None, None));
    assert_eq!(recv_status(Message { read: -1, ..whole }), (None, None));
}

#[test]
fn only_the_network_namespace_has_to_be_entered() {
    assert_eq!(helper_main(Namespace::User, false, false), Some((STATUS_NO_NS, 2)));
    assert_eq!(helper_main(Namespace::User, true, false), None);
    assert_eq!(helper_main(Namespace::Net, true, false), Some((STATUS_SETNS, 3)));
    assert_eq!(helper_main(Namespace::Net, true, true), None);
}

#[test]
fn a_namespace_has_a_path() {
    for (pid, ns, path) in [
        (1, Namespace::User, "/proc/1/ns/user"),
        (4294967295, Namespace::Net, "/proc/4294967295/ns/net"),
        (0, Namespace::Net, "/proc/0/ns/net"),
        (120, Namespace::Net, "/proc/120/ns/net"),
    ] {
        let mut buf = [0xffu8; 64];
        let n = ns_path(&mut buf, pid, ns);
        assert_eq!(&buf[..n], path.as_bytes());
        assert_eq!(buf[n], 0);
    }
}

#[test]
fn a_port_held_by_a_stranger_is_refused_at_spawn() {
    let stranger = || Ownership::Stranger {
        holder: Holder { pid: 9, name: Some("python3".to_string()) },
        addr: here(3000),
    };
    let Pass::Settled(answer) = resolve_once(3000, 5, true, stranger(), false, true) else {
        panic!("a stranger is an answer");
    };
    let msg = spawn_attributed(5, true, answer).expect_err("must not be shared");
    assert!(msg.contains("not part of this box"), "{msg}");
    assert!(msg.contains("`python3` (pid 9)"), "{msg}");
    assert!(msg.contains("`127.0.0.1:3000` is what a connection to port 3000 reaches"), "{msg}");

    let none = Err(DialError::NothingListening("nothing".to_string()));
    assert!(spawn_attributed(5, true, none).is_ok(), "a port that is not up yet may be shared");
    assert!(spawn_attributed(5, true, Ok(here(3000))).is_ok());
    let gone = spawn_attributed(5, false, Ok(here(3000))).expect_err("no start time");
    assert!(gone.starts_with("the box's session process (pid 5) is gone"), "{gone}");
}

#[test]
fn a_stranger_that_appears_later_is_refused_at_the_next_dial() {
    let held = Ownership::Contested {
        addr: here(3000),
        others: vec![
            Holder { pid: 9, name: None },
            Holder { pid: 10, name: Some("node".to_string()) },
        ],
    };
    let Pass::Settled(Err(err)) = resolve_once(3000, 5, true, held, true, true) else {
        panic!("refused");
    };
    assert!(err.not_the_box() && err.fatal());
    assert!(err.text().contains("by this box *and* by pid 9, `node` (pid 10) at"), "{}", err.text());
}

#[test]
fn the_dialer_reaches_a_listener_in_the_boxs_tree() {
    let ours = || Ownership::Box { addr: here(3000), pid: 8 };
    match resolve_once(3000, 5, true, ours(), true, true) {
        Pass::Settled(Ok(addr)) => assert_eq!(addr, here(3000)),
        other => panic!("{other:?}"),
    }
    assert!(matches!(
        resolve_once(3000, 5, false, ours(), true, true),
        Pass::Settled(Err(DialError::NotTheBox(_)))
    ));
    assert!(matches!(
        resolve_once(3000, 5, true, ours(), false, true),
        Pass::Settled(Err(DialError::NotTheBox(_)))
    ));
    let mut tries = Attempts::new();
    for left in [3, 2, 1] {
        assert!(tries.resolve(resolve_once(3000, 5, true, ours(), false, false)).is_none());
        assert_eq!(tries.left, left);
    }
    let last = tries.resolve(resolve_once(3000, 5, true, ours(), false, false));
    match last {
        Some(Err(e)) => assert!(e.text().contains("exited before h5i could confirm"), "{}", e.text()),
        other => panic!("{other:?}"),
    }
}

#[test]
fn a_listener_that_does_not_accept_is_not_an_absent_one() {
    let gone = dial_attributed(here(80), ConnectFailure::Refused, "refused");
    assert!(gone.nothing_listening());
    assert!(gone.text().starts_with("nothing is listening on 127.0.0.1:80 in the box any more"));
    let stuck = dial_attributed(here(80), ConnectFailure::Other, "timed out");
    assert!(matches!(stuck, DialError::Broken(_)));
    assert!(stuck.text().contains("127.0.0.1:80 in the box: timed out."), "{}", stuck.text());
}
