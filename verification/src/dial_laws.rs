//! What the ways into a box come to: what is dialled, what a failure means, and
//! which clock is believed.
use vstd::prelude::*;
use vstd::string::*;

use crate::address::SocketAddr;
use crate::clock::{Moment, SeenClock};
use crate::dialer::{
    self, Attempts, ConnectFailure, DialError, Dialer, Message, Namespace, Ownership, Pass, Reply,
};

verus! {

/// A refusal, and an address that is not there, are about the box's own server;
/// an unreachable network is a box without loopback; anything else is stuck.
pub proof fn law_only_a_refusal_means_nothing_listens(failure: Option<ConnectFailure>, r: u8)
    requires
        call_ensures(dialer::helper_status, (failure,), r),
    ensures
        failure is None <==> r == 0,
        r == 1 <==> failure == Some(ConnectFailure::Refused) || failure == Some(
            ConnectFailure::AddrNotAvailable,
        ),
        r == 3 <==> failure == Some(ConnectFailure::NetworkUnreachable),
        r == 2 <==> failure == Some(ConnectFailure::Other),
{
}

/// A reply on a channel that is in step hands its connection on if its status is
/// zero, and is otherwise the failure that its status stands for. A channel that
/// is out of step hands nothing on, and one that missed a reply is out of step
/// from then on. A descriptor that is not handed on is given back to be closed.
pub proof fn law_a_reply_is_what_its_status_says<T>(
    d: &mut Dialer,
    status: Option<u8>,
    got: Option<T>,
    r: Reply<T>,
)
    requires
        call_ensures(Dialer::request::<T>, (d, status, got), r),
    ensures
        r.result is Ok <==> old(d).in_step && status == Some(0u8) && got is Some,
        r.result matches Ok(raw) ==> got == Some(raw) && r.stray is None,
        r.result is Err ==> r.stray == got,
        old(d).in_step && status == Some(1u8) ==> (r.result matches Err(e)
            && e is NothingListening),
        old(d).in_step && status == Some(3u8) ==> (r.result matches Err(e) && e is NoLoopback),
        !old(d).in_step || status is None || status == Some(2u8) ==> (r.result matches Err(e)
            && e is Broken),
        status matches Some(s) ==> (s > 3 ==> (r.result matches Err(e) && e is Broken)),
        final(d).in_step <==> old(d).in_step && status is Some,
        final(d).child == old(d).child,
        final(d).port == old(d).port,
{
}

/// Only a channel that is in step is asked, with the one byte that asks.
pub proof fn law_only_a_channel_in_step_is_asked(d: Dialer, r: Result<u8, DialError>)
    requires
        call_ensures(Dialer::connect, (&d,), r),
    ensures
        d.in_step ==> r == Ok::<u8, DialError>(1u8),
        !d.in_step ==> (r matches Err(e) && e is Broken),
{
}

/// A helper is good if it reports that it is in the box, and not otherwise.
pub proof fn law_a_helper_that_is_not_in_the_box_is_refused(
    child: i32,
    box_pid: Option<u32>,
    port: u16,
    status: Option<u8>,
    r: Result<Dialer, String>,
)
    requires
        call_ensures(Dialer::spawn, (child, box_pid, port, status), r),
    ensures
        r is Ok <==> status == Some(0u8),
        r matches Ok(d) ==> d.child == child && d.port == port && d.in_step,
{
}

/// A message is one byte or nothing, and a descriptor comes only with a whole
/// one.
pub proof fn law_a_message_is_whole_or_nothing(m: Message, r: (Option<u8>, Option<i32>))
    requires
        call_ensures(dialer::recv_status, (m,), r),
    ensures
        m.read == 1 ==> r.0 == Some(m.byte),
        m.read != 1 ==> r.0 is None && r.1 is None,
        m.truncated ==> r.1 is None,
        r.1 matches Some(fd) ==> fd >= 0 && m.rights == Some(fd),
        m.read == 1 && !m.truncated ==> (m.rights matches Some(fd) ==> (fd >= 0 ==> r.1 == Some(
            fd,
        ))),
{
}

/// A helper goes on if the box's namespaces are open and the network is entered;
/// the user's need not be.
pub proof fn law_a_helper_enters_the_network_or_stops(
    ns: Namespace,
    opened: bool,
    entered: bool,
    r: Option<(u8, i32)>,
)
    requires
        call_ensures(dialer::helper_main, (ns, opened, entered), r),
    ensures
        opened && entered ==> r is None,
        opened && ns is User ==> r is None,
        !opened ==> r == Some((2u8, 2i32)),
        opened && !entered && ns is Net ==> r == Some((3u8, 3i32)),
{
}

/// A port is dialled at the address where the box alone holds it, as long as the
/// box is what it was. Nobody's port is one where nothing listens; a stranger's
/// and a contested one are not the box's; and a holder that is gone is looked for
/// again.
pub proof fn law_a_port_is_the_boxs_or_refused(
    port: u16,
    root: u32,
    root_unchanged: bool,
    found: Ownership,
    still_box: bool,
    alive: bool,
    r: Pass,
)
    requires
        call_ensures(
            dialer::resolve_once,
            (port, root, root_unchanged, found, still_box, alive),
            r,
        ),
    ensures
        !root_unchanged ==> (r matches Pass::Settled(Err(e)) && e is NotTheBox),
        root_unchanged && still_box ==> (found matches Ownership::Box { addr, pid } ==> r
            == Pass::Settled(Ok::<SocketAddr, DialError>(addr))),
        root_unchanged && found is Box && !still_box && !alive ==> (r matches Pass::Vanished(e)
            && e is NotTheBox),
        root_unchanged && found is Box && !still_box && alive ==> (r matches Pass::Settled(Err(e))
            && e is NotTheBox),
        root_unchanged && found is Nobody ==> (r matches Pass::Settled(Err(e))
            && e is NothingListening),
        root_unchanged && (found is Stranger || found is Contested) ==> (r matches Pass::Settled(
            Err(e),
        ) && e is NotTheBox),
{
    match r {
        Pass::Settled(Ok(addr)) => {},
        Pass::Settled(Err(e)) => {
            assert(r@ == dialer::PassView::Settled(
                Err::<SocketAddr, (dialer::DialKind, Seq<char>)>(e@),
            ));
        },
        Pass::Vanished(e) => {
            assert(r@ == dialer::PassView::Vanished(e@));
        },
    }
}

/// A port is looked at four times at most, and a look that settles it ends it.
pub proof fn law_a_look_that_settles_ends_it(
    a: &mut Attempts,
    pass: Pass,
    r: Option<Result<SocketAddr, DialError>>,
)
    requires
        call_ensures(Attempts::resolve, (a, pass), r),
        old(a).left > 0,
    ensures
        final(a).left == old(a).left - 1,
        pass matches Pass::Settled(answer) ==> r == Some(answer),
        pass is Vanished ==> (r is None <==> old(a).left > 1),
        pass matches Pass::Vanished(e) ==> (r matches Some(answer) ==> answer == Err::<
            SocketAddr,
            DialError,
        >(e)),
{
}

/// Four looks, to begin with.
pub proof fn law_there_are_four_looks(a: Attempts)
    requires
        call_ensures(Attempts::new, (), a),
    ensures
        a.left == 4,
{
}

/// A share may be started on its box's port, and on one where nothing listens
/// yet; not on any other, nor for a box whose start is not known.
pub proof fn law_a_share_starts_on_its_own_port(
    pid: u32,
    started_known: bool,
    resolved: Result<SocketAddr, DialError>,
    r: Result<(), String>,
)
    requires
        call_ensures(dialer::spawn_attributed, (pid, started_known, resolved), r),
    ensures
        !started_known ==> r is Err,
        started_known && resolved is Ok ==> r is Ok,
        started_known ==> (resolved matches Err(e) ==> (r is Ok <==> e is NothingListening)),
{
}

/// A connection that is refused found nothing listening, and one that fails
/// otherwise is a broken way.
pub proof fn law_a_refused_connection_found_nothing(
    addr: SocketAddr,
    failure: ConnectFailure,
    said: &str,
    r: DialError,
)
    requires
        call_ensures(dialer::dial_attributed, (addr, failure, said), r),
    ensures
        failure is Refused || failure is AddrNotAvailable ==> r is NothingListening,
        failure is NetworkUnreachable || failure is Other ==> r is Broken,
{
}

/// A failure is asked for what it is.
pub proof fn law_a_failure_is_what_it_is(
    e: DialError,
    nothing: bool,
    not_box: bool,
    no_loopback: bool,
)
    requires
        call_ensures(DialError::nothing_listening, (&e,), nothing),
        call_ensures(DialError::not_the_box, (&e,), not_box),
        call_ensures(DialError::no_loopback, (&e,), no_loopback),
    ensures
        nothing <==> e is NothingListening,
        not_box <==> e is NotTheBox,
        no_loopback <==> e is NoLoopback,
{
}

/// Where the two clocks agree to two seconds nothing jumped, and nothing is added
/// to what was seen. Where they do not, over a short time, the wall clock jumped
/// by what is between them: back, and the correction grows by that much; forward,
/// and it shrinks by that much, to nothing at most. The share goes by the wall
/// clock and its correction.
pub proof fn law_a_clock_that_agrees_is_believed(
    c: &mut SeenClock,
    wall: Moment,
    elapsed: i64,
    r: Moment,
)
    requires
        call_ensures(SeenClock::observe, (c, wall, elapsed), r),
        old(c).wf(),
        old(c).seen_any,
        old(c).last_mono <= elapsed,
        wall.wf(),
        old(c).can_observe(wall.seconds as int, elapsed),
    ensures
        final(c).last_wall == wall.seconds,
        final(c).last_mono == elapsed,
        final(c).seen_any,
        ({
            let passed = elapsed - old(c).last_mono;
            let moved = wall.seconds - old(c).last_wall - passed;
            &&& -2 <= moved <= 2 ==> final(c).correction == old(c).correction && final(c).stepped
                == old(c).stepped
            &&& passed < 12 && !(-2 <= moved <= 2) && i64::MIN <= old(c).stepped + moved
                <= i64::MAX ==> final(c).stepped == old(c).stepped + moved
            &&& passed < 12 && moved < -2 && old(c).correction - moved <= i64::MAX
                ==> final(c).correction == old(c).correction - moved
            &&& passed < 12 && moved > 2 && old(c).correction >= moved ==> final(c).correction
                == old(c).correction - moved
            &&& passed < 12 && moved > 2 && old(c).correction < moved ==> final(c).correction == 0
        }),
        wall.seconds + final(c).correction <= 8_210_266_876_799 ==> r.seconds == wall.seconds
            + final(c).correction && r.nanos == wall.nanos,
{
}

} // verus!
