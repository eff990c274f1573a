//! A supervised run, step by step: what is done next, and what is let go of when
//! it fails.
//!
//! The steps themselves are the operating system's. Each is asked for as an
//! action and reported as an event.
use vstd::prelude::*;
use vstd::string::*;

use crate::supervisor::{self, variables, AgentRuntime, ExecOutcome, OutcomeView, Usage};

verus! {

/// What a run is to be.
#[derive(Debug, Clone, Copy, PartialEq, Eq, Structural)]
pub struct Orders {
    /// It may reach something.
    pub egress: bool,
    /// It has a terminal, and no deadline.
    pub interactive: bool,
    /// Unix sockets were granted.
    pub unix_sockets: bool,
    /// The deadline of a run that has one.
    pub wall_seconds: u64,
}

/// What a run is waiting for.
#[derive(Debug, Clone, Copy, PartialEq, Eq, Structural)]
pub enum Stage {
    /// The layout of the kernel's notifications to be checked, before anything
    /// is committed.
    Notify,
    /// The pair of sockets over which the listener is handed out.
    Pair,
    /// The credential proxy, for a run that may reach something.
    Auth,
    /// The network of the box.
    Network,
    /// The confined command to be built.
    Command,
    /// It to be started.
    Spawn,
    /// The listener from the child.
    Listener,
    /// A handle of the child's process.
    Pidfd,
    /// The child to end, its system calls being answered meanwhile.
    Serving,
    /// Nothing: the run is over.
    Over,
}

/// What is held on behalf of a run and has to be let go of.
#[derive(Debug, Clone, Copy, PartialEq, Eq, Structural)]
pub enum Handle {
    /// This side's end of the pair.
    Parent,
    /// The child's end of the pair.
    Child,
    Listener,
    Pidfd,
}

/// What came of the last action.
#[derive(Debug)]
pub enum Event {
    /// It was done.
    Done,
    /// It failed.
    Failed(String),
    /// The credential proxy is engaged, on this port, for this agent, and the
    /// box needs these variables to find it.
    Engaged { port: u16, runtime: AgentRuntime, env: Vec<(String, String)> },
    /// The child ended.
    Ended { waited: ExecOutcome, usage: Option<Usage>, allowed: u64, denied: u64 },
}

/// What is to be done next.
#[derive(Debug)]
pub enum Action {
    ValidateNotify,
    OpenPair,
    EngageAuth,
    /// The network, and the port of the credential proxy if that is all that
    /// the box may reach.
    SetUpEgress(Option<u16>),
    /// The command, to run with these variables.
    BuildCommand { env: Vec<(String, String)> },
    /// Start it, its output to be collected or left on the terminal.
    Spawn { collect: bool },
    ReceiveListener,
    OpenPidfd,
    /// Answer system calls until the child ends or its time is up.
    Serve { unix_granted: bool, wall_seconds: Option<u64> },
    /// The run is over.
    Finish(Result<ExecOutcome, String>),
}

/// A move: what to let go of first, and what to do then.
#[derive(Debug)]
pub struct Move {
    /// The credential of this agent is to be removed from the box's copies.
    pub scrub: Option<AgentRuntime>,
    /// These are to be closed.
    pub close: Vec<Handle>,
    /// The child is to be killed and waited for.
    pub kill: bool,
    pub action: Action,
}

/// An action, as it is spoken of.
pub enum ActionView {
    ValidateNotify,
    OpenPair,
    EngageAuth,
    SetUpEgress(Option<u16>),
    BuildCommand { env: Seq<(Seq<char>, Seq<char>)> },
    Spawn { collect: bool },
    ReceiveListener,
    OpenPidfd,
    Serve { unix_granted: bool, wall_seconds: Option<u64> },
    Finished(OutcomeView),
    Failed(Seq<char>),
}

/// A move, as it is spoken of.
pub struct MoveView {
    pub scrub: Option<AgentRuntime>,
    pub close: Seq<Handle>,
    pub kill: bool,
    pub action: ActionView,
}

impl View for Move {
    type V = MoveView;

    open spec fn view(&self) -> MoveView {
        MoveView {
            scrub: self.scrub,
            close: self.close@,
            kill: self.kill,
            action: match self.action {
                Action::ValidateNotify => ActionView::ValidateNotify,
                Action::OpenPair => ActionView::OpenPair,
                Action::EngageAuth => ActionView::EngageAuth,
                Action::SetUpEgress(port) => ActionView::SetUpEgress(port),
                Action::BuildCommand { env } => ActionView::BuildCommand {
                    env: variables(env@),
                },
                Action::Spawn { collect } => ActionView::Spawn { collect },
                Action::ReceiveListener => ActionView::ReceiveListener,
                Action::OpenPidfd => ActionView::OpenPidfd,
                Action::Serve { unix_granted, wall_seconds } => ActionView::Serve {
                    unix_granted,
                    wall_seconds,
                },
                Action::Finish(Ok(outcome)) => ActionView::Finished(outcome@),
                Action::Finish(Err(why)) => ActionView::Failed(why@),
            },
        }
    }
}

/// A run on its way.
#[derive(Debug)]
pub struct Launch {
    pub orders: Orders,
    pub stage: Stage,
    /// The variables that the box gets, until its command is built.
    pub env: Vec<(String, String)>,
}

/// A run on its way, as it is spoken of.
pub struct LaunchView {
    pub orders: Orders,
    pub stage: Stage,
    pub env: Seq<(Seq<char>, Seq<char>)>,
}

impl View for Launch {
    type V = LaunchView;

    open spec fn view(&self) -> LaunchView {
        LaunchView { orders: self.orders, stage: self.stage, env: variables(self.env@) }
    }
}

/// Just this, with nothing let go of.
pub open spec fn just(action: ActionView) -> MoveView {
    MoveView { scrub: None, close: Seq::empty(), kill: false, action }
}

/// This, after these were closed.
pub open spec fn closing(close: Seq<Handle>, action: ActionView) -> MoveView {
    MoveView { close, ..just(action) }
}

impl LaunchView {
    /// An event that can come now.
    pub open spec fn expects(self, event: Event) -> bool {
        match self.stage {
            Stage::Over => false,
            Stage::Serving => event is Ended,
            Stage::Auth => event is Done || event is Failed || event is Engaged,
            _ => event is Done || event is Failed,
        }
    }

    /// Where the run stands after an event.
    pub open spec fn then_stage(self, event: Event) -> Stage {
        if event is Failed {
            Stage::Over
        } else {
            match self.stage {
                Stage::Notify => Stage::Pair,
                Stage::Pair => if self.orders.egress {
                    Stage::Auth
                } else {
                    Stage::Command
                },
                Stage::Auth => Stage::Network,
                Stage::Network => Stage::Command,
                Stage::Command => Stage::Spawn,
                Stage::Spawn => Stage::Listener,
                Stage::Listener => Stage::Pidfd,
                Stage::Pidfd => Stage::Serving,
                _ => Stage::Over,
            }
        }
    }

    /// The variables that are kept after an event: those of the credential
    /// proxy come behind, and a command that is to be built takes them all.
    pub open spec fn then_env(self, event: Event) -> Seq<(Seq<char>, Seq<char>)> {
        match (self.stage, event) {
            (_, Event::Failed(_)) => self.env,
            (Stage::Auth, Event::Engaged { env, .. }) => self.env + variables(env@),
            (Stage::Pair, _) => if self.orders.egress {
                self.env
            } else {
                Seq::empty()
            },
            (Stage::Network, _) => Seq::empty(),
            _ => self.env,
        }
    }

    /// The run after an event.
    pub open spec fn after(self, event: Event) -> LaunchView {
        LaunchView {
            orders: self.orders,
            stage: self.then_stage(event),
            env: self.then_env(event),
        }
    }

    /// What is let go of, and said, when this stage fails.
    pub open spec fn on_failure(self, why: Seq<char>) -> MoveView {
        match self.stage {
            Stage::Network | Stage::Command => closing(
                seq![Handle::Parent, Handle::Child],
                ActionView::Failed(why),
            ),
            Stage::Spawn => closing(
                seq![Handle::Parent, Handle::Child],
                ActionView::Failed("supervised spawn failed: "@ + why),
            ),
            Stage::Listener => MoveView {
                kill: true,
                ..closing(
                    seq![Handle::Parent],
                    ActionView::Failed(
                        "supervised: did not receive the seccomp listener from the child: "@ + why,
                    ),
                )
            },
            Stage::Pidfd => MoveView {
                kill: true,
                ..closing(
                    seq![Handle::Listener],
                    ActionView::Failed("supervised: pidfd_open failed: "@ + why),
                )
            },
            _ => just(ActionView::Failed(why)),
        }
    }

    /// What is done after an event.
    pub open spec fn answer(self, event: Event) -> MoveView {
        match (self.stage, event) {
            (_, Event::Failed(why)) => self.on_failure(why@),
            (Stage::Notify, _) => just(ActionView::OpenPair),
            (Stage::Pair, _) => just(
                if self.orders.egress {
                    ActionView::EngageAuth
                } else {
                    ActionView::BuildCommand { env: self.env }
                },
            ),
            (Stage::Auth, Event::Engaged { port, runtime, .. }) => MoveView {
                scrub: Some(runtime),
                ..just(ActionView::SetUpEgress(Some(port)))
            },
            (Stage::Auth, _) => just(ActionView::SetUpEgress(None)),
            (Stage::Network, _) => just(ActionView::BuildCommand { env: self.env }),
            (Stage::Command, _) => just(ActionView::Spawn { collect: !self.orders.interactive }),
            (Stage::Spawn, _) => closing(seq![Handle::Child], ActionView::ReceiveListener),
            (Stage::Listener, _) => closing(seq![Handle::Parent], ActionView::OpenPidfd),
            (Stage::Pidfd, _) => just(
                ActionView::Serve {
                    unix_granted: self.orders.unix_sockets,
                    wall_seconds: if self.orders.interactive {
                        None
                    } else {
                        Some(self.orders.wall_seconds)
                    },
                },
            ),
            (_, Event::Ended { waited, usage, allowed, denied }) => closing(
                seq![Handle::Listener, Handle::Pidfd],
                ActionView::Finished(
                    supervisor::accounted(
                        waited@,
                        self.orders.interactive,
                        usage,
                        allowed,
                        denied,
                    ),
                ),
            ),
            _ => just(ActionView::ValidateNotify),
        }
    }
}

impl Launch {
    /// Can this event come now?
    pub fn accepts(&self, event: &Event) -> (r: bool)
        ensures
            r == self@.expects(*event),
    {
        match (self.stage, event) {
            (Stage::Over, _) => false,
            (Stage::Serving, Event::Ended { .. }) => true,
            (Stage::Serving, _) => false,
            (Stage::Auth, Event::Engaged { .. }) => true,
            (_, Event::Done) => true,
            (_, Event::Failed(_)) => true,
            _ => false,
        }
    }

    /// A run that is admitted, with these variables. The layout of the kernel's
    /// notifications is checked before anything else, so that a mismatch is a
    /// refusal and not a hang.
    pub fn run_supervised(orders: Orders, env: Vec<(String, String)>) -> (r: (Launch, Action))
        ensures
            r.0@ == (LaunchView { orders, stage: Stage::Notify, env: variables(env@) }),
            r.1 == Action::ValidateNotify,
    {
        (Launch { orders, stage: Stage::Notify, env }, Action::ValidateNotify)
    }

    /// The variables, for the command that takes them.
    fn take_env(&mut self) -> (r: Vec<(String, String)>)
        ensures
            variables(r@) == old(self)@.env,
            final(self)@ == (LaunchView { env: Seq::empty(), ..old(self)@ }),
    {
        let mut env: Vec<(String, String)> = Vec::new();
        std::mem::swap(&mut self.env, &mut env);
        assert(variables(self.env@) =~= Seq::<(Seq<char>, Seq<char>)>::empty());
        env
    }

    /// What to do after an event.
    pub fn next(&mut self, event: Event) -> (r: Move)
        requires
            old(self)@.expects(event),
        ensures
            r@ == old(self)@.answer(event),
            final(self)@ == old(self)@.after(event),
            old(self)@.orders.interactive ==> (r@.action matches ActionView::Finished(o)
                ==> o.captured_nothing()),
    {
        let stage = self.stage;
        let mut close: Vec<Handle> = Vec::new();
        let mut scrub: Option<AgentRuntime> = None;
        let mut kill: bool = false;
        let action = match event {
            Event::Failed(why) => {
                self.stage = Stage::Over;
                Action::Finish(
                    Err(
                        match stage {
                            Stage::Network | Stage::Command => {
                                close.push(Handle::Parent);
                                close.push(Handle::Child);
                                why
                            },
                            Stage::Spawn => {
                                close.push(Handle::Parent);
                                close.push(Handle::Child);
                                prefixed("supervised spawn failed: ", why)
                            },
                            Stage::Listener => {
                                close.push(Handle::Parent);
                                kill = true;
                                prefixed(
                                    "supervised: did not receive the seccomp listener from the child: ",
                                    why,
                                )
                            },
                            Stage::Pidfd => {
                                close.push(Handle::Listener);
                                kill = true;
                                prefixed("supervised: pidfd_open failed: ", why)
                            },
                            _ => why,
                        },
                    ),
                )
            },
            Event::Engaged { port, runtime, env } => {
                let ghost (before, more) = (self.env@, env@);
                let mut env = env;
                self.env.append(&mut env);
                assert(variables(self.env@) =~= variables(before) + variables(more));
                // The box reaches the proxy alone, and the credential itself is
                // not in it.
                self.stage = Stage::Network;
                scrub = Some(runtime);
                Action::SetUpEgress(Some(port))
            },
            Event::Ended { waited, usage, allowed, denied } => {
                self.stage = Stage::Over;
                close.push(Handle::Listener);
                close.push(Handle::Pidfd);
                let done = supervisor::account(
                    waited,
                    self.orders.interactive,
                    usage,
                    allowed,
                    denied,
                );
                Action::Finish(Ok(done))
            },
            Event::Done => match stage {
                Stage::Notify => {
                    self.stage = Stage::Pair;
                    Action::OpenPair
                },
                Stage::Pair => if self.orders.egress {
                    self.stage = Stage::Auth;
                    Action::EngageAuth
                } else {
                    self.stage = Stage::Command;
                    Action::BuildCommand { env: self.take_env() }
                },
                Stage::Auth => {
                    self.stage = Stage::Network;
                    Action::SetUpEgress(None)
                },
                Stage::Network => {
                    self.stage = Stage::Command;
                    Action::BuildCommand { env: self.take_env() }
                },
                Stage::Command => {
                    self.stage = Stage::Spawn;
                    Action::Spawn { collect: !self.orders.interactive }
                },
                Stage::Spawn => {
                    self.stage = Stage::Listener;
                    close.push(Handle::Child);
                    Action::ReceiveListener
                },
                Stage::Listener => {
                    self.stage = Stage::Pidfd;
                    close.push(Handle::Parent);
                    Action::OpenPidfd
                },
                _ => {
                    self.stage = Stage::Serving;
                    Action::Serve {
                        unix_granted: self.orders.unix_sockets,
                        wall_seconds: supervisor::deadline(
                            self.orders.interactive,
                            self.orders.wall_seconds,
                        ),
                    }
                },
            },
        };
        let r = Move { scrub, close, kill, action };
        assert(r.close@ =~= old(self)@.answer(event).close);
        r
    }
}

fn prefixed(front: &str, why: String) -> (r: String)
    ensures
        r@ == front@ + why@,
{
    let mut out: String = front.to_owned();
    out.append(why.as_str());
    out
}

/// What is held at a stage.
pub open spec fn held(stage: Stage) -> Set<Handle> {
    match stage {
        Stage::Auth | Stage::Network | Stage::Command | Stage::Spawn => set![
            Handle::Parent,
            Handle::Child,
        ],
        Stage::Listener => set![Handle::Parent],
        Stage::Pidfd => set![Handle::Listener],
        Stage::Serving => set![Handle::Listener, Handle::Pidfd],
        _ => Set::empty(),
    }
}

/// What a stage has made when it is done.
pub open spec fn made(stage: Stage) -> Set<Handle> {
    match stage {
        Stage::Pair => set![Handle::Parent, Handle::Child],
        Stage::Listener => set![Handle::Listener],
        Stage::Pidfd => set![Handle::Pidfd],
        _ => Set::empty(),
    }
}

/// What a move lets go of was held, and what is held after it is what was held
/// before, with what was made and without what was let go of: nothing is left
/// behind and nothing is closed twice. When the run is over nothing is held.
/// (A credential proxy that could not be engaged ends the run as it stands.)
pub proof fn law_what_is_held_is_let_go_of(l: LaunchView, event: Event)
    requires
        l.expects(event),
        !(l.stage == Stage::Auth && event is Failed),
    ensures
        ({
            let now_held = if event is Failed {
                held(l.stage)
            } else {
                held(l.stage).union(made(l.stage))
            };
            let closed = l.answer(event).close.to_set();
            &&& closed.subset_of(now_held)
            &&& held(l.then_stage(event)) == now_held.difference(closed)
        }),
        l.answer(event).action is Finished || l.answer(event).action is Failed <==> l.then_stage(
            event,
        ) == Stage::Over,
{
    let now_held = if event is Failed {
        held(l.stage)
    } else {
        held(l.stage).union(made(l.stage))
    };
    let close = l.answer(event).close;
    let closed = close.to_set();
    if close.len() > 0 {
        assert(close.contains(close[0]));
    }
    if close.len() > 1 {
        assert(close.contains(close[1]));
    }
    assert(closed.subset_of(now_held));
    assert(held(l.then_stage(event)) =~= now_held.difference(closed));
}

/// A child that was started does not outlive a run that failed.
pub proof fn law_a_failed_run_leaves_no_child(l: LaunchView, event: Event)
    requires
        l.expects(event),
        event is Failed,
    ensures
        l.stage == Stage::Listener || l.stage == Stage::Pidfd <==> l.answer(event).kill,
{
}

/// An interactive session hands on nothing of what it printed: that went to the
/// terminal.
pub proof fn law_an_interactive_session_captures_nothing(l: LaunchView, event: Event)
    requires
        l.orders.interactive,
    ensures
        l.stage == Stage::Command && event is Done ==> l.answer(event).action
            == (ActionView::Spawn { collect: false }),
        l.answer(event).action matches ActionView::Finished(o) ==> o.captured_nothing(),
{
}

/// A credential is taken out of the box exactly when the proxy that stands in
/// for it is engaged, and then the box reaches that proxy alone.
pub proof fn law_a_credential_leaves_when_the_proxy_is_engaged(l: LaunchView, event: Event)
    requires
        l.expects(event),
    ensures
        l.answer(event).scrub is Some <==> event is Engaged,
        l.answer(event).scrub is Some ==> l.answer(event).action == ActionView::SetUpEgress(
            Some(event->Engaged_port),
        ),
{
}

} // verus!
