//! In what order a run is set up, and what it comes to.
use vstd::prelude::*;
use vstd::string::*;

use crate::launch::{Action, Event, Launch, Move};
use crate::mac_launch::{self, MacLaunch};
use crate::supervisor::{self, ExecOutcome, Usage};

verus! {

/// Step by step, as long as nothing fails: the notifications are checked, the
/// pair is opened, for a run that may reach something the credential proxy is
/// asked for and the network set up, the command is built, started, listened to,
/// held on to and served.
pub proof fn law_a_run_goes_step_by_step(l: &mut Launch, event: Event, r: Move)
    requires
        call_ensures(Launch::next, (l, event), r),
        old(l)@.expects(event),
        !(event is Failed),
    ensures
        ({
            let egress = old(l).orders.egress;
            &&& old(l).stage is Notify ==> r.action is OpenPair && final(l).stage is Pair
            &&& old(l).stage is Pair && egress ==> r.action is EngageAuth && final(l).stage is Auth
            &&& old(l).stage is Pair && !egress ==> r.action is BuildCommand
                && final(l).stage is Command
            &&& old(l).stage is Auth ==> r.action is SetUpEgress && final(l).stage is Network
            &&& old(l).stage is Network ==> r.action is BuildCommand && final(l).stage is Command
            &&& old(l).stage is Command ==> r.action is Spawn && final(l).stage is Spawn
            &&& old(l).stage is Spawn ==> r.action is ReceiveListener && final(l).stage is Listener
            &&& old(l).stage is Listener ==> r.action is OpenPidfd && final(l).stage is Pidfd
            &&& old(l).stage is Pidfd ==> r.action is Serve && final(l).stage is Serving
            &&& old(l).stage is Serving ==> r.action is Finish && final(l).stage is Over
            &&& final(l).orders == old(l).orders
            &&& !r.kill
        }),
{
    assert(r@.kill == r.kill);
    assert(final(l)@.stage == final(l).stage && final(l)@.orders == final(l).orders);
    assert(old(l)@.stage == old(l).stage);
    let a = r@.action;
}

/// What a run is told to do is what it was ordered: its output is collected
/// unless it is interactive, its sockets are those that were granted, and its
/// time is what it was given, unless it is interactive.
pub proof fn law_a_run_does_as_it_was_ordered(l: &mut Launch, event: Event, r: Move)
    requires
        call_ensures(Launch::next, (l, event), r),
        old(l)@.expects(event),
    ensures
        r.action matches Action::Spawn { collect } ==> (collect <==> !old(l).orders.interactive),
        r.action matches Action::Serve { unix_granted, wall_seconds } ==> {
            &&& unix_granted <==> old(l).orders.unix_sockets
            &&& wall_seconds is None <==> old(l).orders.interactive
            &&& wall_seconds matches Some(n) ==> n == old(l).orders.wall_seconds
        },
        r.action matches Action::SetUpEgress(port) ==> match event {
            Event::Engaged { port: engaged, .. } => port == Some(engaged),
            _ => port is None,
        },
        r.action matches Action::BuildCommand { env } ==> supervisor::variables(env@)
            == supervisor::variables(old(l).env@),
        event matches Event::Engaged { env, .. } ==> supervisor::variables(final(l).env@)
            == supervisor::variables(old(l).env@) + supervisor::variables(env@),
        event matches Event::Engaged { runtime, .. } ==> r.scrub == Some(runtime),
        !(event is Engaged) ==> r.scrub is None,
{
    assert(r@.scrub == r.scrub);
    assert(final(l)@.env == supervisor::variables(final(l).env@));
    let a = r@.action;
}

/// A failure ends the run at once, as an error that says why; it is killed if it
/// was started.
pub proof fn law_a_failure_ends_a_run(l: &mut Launch, why: String, r: Move)
    requires
        call_ensures(Launch::next, (l, Event::Failed(why)), r),
        old(l)@.expects(Event::Failed(why)),
    ensures
        final(l).stage is Over,
        r.action matches Action::Finish(Err(said)) && {
            &&& old(l).stage is Spawn ==> said@ == "supervised spawn failed: "@ + why@
            &&& old(l).stage is Listener ==> said@
                == "supervised: did not receive the seccomp listener from the child: "@ + why@
            &&& old(l).stage is Pidfd ==> said@ == "supervised: pidfd_open failed: "@ + why@
            &&& !(old(l).stage is Spawn || old(l).stage is Listener || old(l).stage is Pidfd)
                ==> said@ == why@
        },
        r.kill <==> old(l).stage is Listener || old(l).stage is Pidfd,
{
    assert(r@.kill == r.kill);
    assert(final(l)@.stage == final(l).stage);
    assert(old(l)@.stage == old(l).stage);
    let a = r@.action;
}

/// A run that ended comes to what its child came to: its code, its time, and,
/// unless it was interactive, what it printed.
pub proof fn law_a_run_comes_to_what_its_child_came_to(
    l: &mut Launch,
    waited: ExecOutcome,
    usage: Option<Usage>,
    allowed: u64,
    denied: u64,
    r: Move,
)
    requires
        call_ensures(Launch::next, (l, Event::Ended { waited, usage, allowed, denied }), r),
        old(l).stage is Serving,
    ensures
        r.action matches Action::Finish(Ok(o)) && {
            &&& o.exit_code == waited.exit_code
            &&& o.timed_out == waited.timed_out
            &&& o.wall_ms == waited.wall_ms
            &&& old(l).orders.interactive ==> o.stdout@.len() == 0 && o.stderr@.len() == 0
            &&& !old(l).orders.interactive ==> o.stdout@ == waited.stdout@ && o.stderr@
                == waited.stderr@
            &&& o.egress matches Some(e) && e.allowed == allowed && e.denied == denied
        },
{
    assert(old(l)@.stage == old(l).stage);
    let a = r@.action;
    if let Action::Finish(Ok(o)) = r.action {
        assert(o@.stdout == o.stdout@ && o@.stderr == o.stderr@);
    }
}

/// On macOS a run without a credential to stand in for is given the allowlist
/// proxy; with either proxy it is run, able to reach that proxy's port and no
/// other, with the variables that it had and those that point at the proxy.
pub proof fn law_a_mac_run_reaches_its_proxy_alone(
    m: &mut MacLaunch,
    event: mac_launch::Event,
    r: mac_launch::Move,
)
    requires
        call_ensures(MacLaunch::next, (m, event), r),
        old(m)@.expects(event),
    ensures
        event is NoAuth ==> r.action is StartProxy && final(m).stage is Proxy,
        event matches mac_launch::Event::Engaged { port, env, .. } ==> (r.action matches
            mac_launch::Action::Run { env: given, ports, interactive } && ports@ == seq![port]
            && interactive == old(m).interactive && supervisor::variables(given@)
            == supervisor::variables(old(m).env@) + supervisor::variables(env@)),
        event matches mac_launch::Event::Proxied { port } ==> (r.action matches
            mac_launch::Action::Run { env: given, ports, interactive } && ports@ == seq![port]
            && interactive == old(m).interactive && supervisor::variables(given@)
            == supervisor::variables(old(m).env@) + supervisor::proxy_variables(
            old(m).host@,
            port,
            old(m).own@,
        )),
        event matches mac_launch::Event::Failed(why) ==> (r.action matches
            mac_launch::Action::Finish(Err(said)) && said@ == why@),
        event matches mac_launch::Event::Ran(o, e) ==> (r.action matches
            mac_launch::Action::Finish(Ok(done)) && done.stdout@ == o.stdout@ && done.stderr@
            == o.stderr@ && done.exit_code == o.exit_code && done.timed_out == o.timed_out
            && done.wall_ms == o.wall_ms && done.cpu_ms == o.cpu_ms && done.max_rss_kb
            == o.max_rss_kb && (done.egress is Some ==> old(m).proxied)),
        event matches mac_launch::Event::Exited(code, e) ==> (r.action matches
            mac_launch::Action::Finish(Ok(done)) && done.exit_code == Some(code)
            && done.stdout@.len() == 0 && done.stderr@.len() == 0 && !done.timed_out),
        event is Engaged || event is Proxied ==> final(m).stage is Running,
        event is Failed || event is Ran || event is Exited ==> final(m).stage is Over,
{
    assert(final(m)@.stage == final(m).stage);
    let a = r.action@;
    if let mac_launch::Action::Finish(Ok(done)) = r.action {
        assert(done@.stdout == done.stdout@ && done@.stderr == done.stderr@);
    }
}

} // verus!
