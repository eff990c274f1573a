//! A supervised run on macOS, step by step.
//!
//! A box there keeps the host's network stack, and its profile leaves it no way
//! out but a proxy on loopback: the credential proxy when there is one, and
//! otherwise the allowlist proxy.
use vstd::prelude::*;
use vstd::string::*;

use crate::supervisor::{
    self, summary_view, variables, AgentRuntime, EgressSummary, EgressView, ExecOutcome,
    OutcomeView,
};

verus! {

/// What a run is waiting for.
#[derive(Debug, Clone, Copy, PartialEq, Eq, Structural)]
pub enum Stage {
    /// The credential proxy.
    Auth,
    /// The allowlist proxy.
    Proxy,
    /// The command to end.
    Running,
    /// Nothing: the run is over.
    Over,
}

/// What came of the last action.
#[derive(Debug)]
pub enum Event {
    /// There is no credential to stand in for.
    NoAuth,
    /// It failed.
    Failed(String),
    /// The credential proxy is engaged, on this port, for this agent, and the
    /// box needs these variables to find it.
    Engaged { port: u16, runtime: AgentRuntime, env: Vec<(String, String)> },
    /// The allowlist proxy is up.
    Proxied { port: u16 },
    /// A command whose output was collected came to this.
    Ran(ExecOutcome, Option<EgressSummary>),
    /// An interactive session ended with this code.
    Exited(i32, Option<EgressSummary>),
}

/// What is to be done next.
#[derive(Debug)]
pub enum Action {
    /// Engage the credential proxy.
    EngageAuth,
    /// Start the allowlist proxy, its names pinned, with no more to reach than
    /// the entries say.
    StartProxy,
    /// Run the command with these variables, able to reach these ports of the
    /// loopback and nothing else.
    Run { env: Vec<(String, String)>, ports: Vec<u16>, interactive: bool },
    /// The run is over.
    Finish(Result<ExecOutcome, String>),
}

/// A move: the credential to remove from the box's copies first, and what to do
/// then.
#[derive(Debug)]
pub struct Move {
    pub scrub: Option<AgentRuntime>,
    pub action: Action,
}

/// An action, as it is spoken of.
pub enum ActionView {
    EngageAuth,
    StartProxy,
    Run { env: Seq<(Seq<char>, Seq<char>)>, ports: Seq<u16>, interactive: bool },
    Finished(OutcomeView),
    Failed(Seq<char>),
}

impl View for Action {
    type V = ActionView;

    open spec fn view(&self) -> ActionView {
        match *self {
            Action::EngageAuth => ActionView::EngageAuth,
            Action::StartProxy => ActionView::StartProxy,
            Action::Run { env, ports, interactive } => ActionView::Run {
                env: variables(env@),
                ports: ports@,
                interactive,
            },
            Action::Finish(Ok(outcome)) => ActionView::Finished(outcome@),
            Action::Finish(Err(why)) => ActionView::Failed(why@),
        }
    }
}

/// A run on its way.
#[derive(Debug)]
pub struct MacLaunch {
    pub interactive: bool,
    pub stage: Stage,
    /// The variables that the box gets, until its command is started.
    pub env: Vec<(String, String)>,
    /// The name of the loopback, as the box is told it.
    pub host: String,
    /// The variable of this tool's own that names the proxy.
    pub own: String,
    /// The allowlist proxy was started.
    pub proxied: bool,
}

/// A run on its way, as it is spoken of.
pub struct MacView {
    pub interactive: bool,
    pub stage: Stage,
    pub env: Seq<(Seq<char>, Seq<char>)>,
    pub host: Seq<char>,
    pub own: Seq<char>,
    pub proxied: bool,
}

impl View for MacLaunch {
    type V = MacView;

    open spec fn view(&self) -> MacView {
        MacView {
            interactive: self.interactive,
            stage: self.stage,
            env: variables(self.env@),
            host: self.host@,
            own: self.own@,
            proxied: self.proxied,
        }
    }
}

/// What a session that was interactive came to: its code, and nothing of its
/// output.
pub open spec fn session(code: i32, egress: Option<EgressView>) -> OutcomeView {
    OutcomeView {
        stdout: Seq::empty(),
        stderr: Seq::empty(),
        exit_code: Some(code),
        timed_out: false,
        wall_ms: 0,
        cpu_ms: 0,
        max_rss_kb: None,
        egress,
    }
}

impl MacView {
    /// An event that can come now.
    pub open spec fn expects(self, event: Event) -> bool {
        match (self.stage, event) {
            (Stage::Over, _) => false,
            (_, Event::Failed(_)) => true,
            (Stage::Auth, Event::NoAuth) => true,
            (Stage::Auth, Event::Engaged { .. }) => true,
            (Stage::Proxy, Event::Proxied { .. }) => true,
            (Stage::Running, Event::Ran(..)) => !self.interactive,
            (Stage::Running, Event::Exited(..)) => self.interactive,
            _ => false,
        }
    }

    /// The command is started with these variables, and may reach these ports.
    pub open spec fn running(self, env: Seq<(Seq<char>, Seq<char>)>, ports: Seq<u16>) -> (
        MacView,
        ActionView,
    ) {
        (
            MacView { stage: Stage::Running, env: Seq::empty(), ..self },
            ActionView::Run { env, ports, interactive: self.interactive },
        )
    }

    /// The run is over, with this.
    pub open spec fn over(self, last: ActionView) -> (MacView, ActionView) {
        (MacView { stage: Stage::Over, ..self }, last)
    }

    /// The network evidence of a run: the allowlist proxy's, if there was one.
    pub open spec fn evidence(self, summary: Option<EgressSummary>) -> Option<EgressView> {
        if self.proxied {
            summary_view(summary)
        } else {
            None
        }
    }

    /// What is so after an event, and what is done.
    pub open spec fn step(self, event: Event) -> (MacView, ActionView) {
        match event {
            Event::NoAuth => (
                MacView { stage: Stage::Proxy, ..self },
                ActionView::StartProxy,
            ),
            Event::Engaged { port, env, .. } => self.running(
                self.env + variables(env@),
                seq![port],
            ),
            Event::Proxied { port } => MacView { proxied: true, ..self }.running(
                self.env + supervisor::proxy_variables(self.host, port, self.own),
                seq![port],
            ),
            Event::Ran(outcome, summary) => self.over(
                ActionView::Finished(
                    OutcomeView { egress: self.evidence(summary), ..outcome@ },
                ),
            ),
            Event::Exited(code, summary) => self.over(
                ActionView::Finished(session(code, self.evidence(summary))),
            ),
            Event::Failed(why) => self.over(ActionView::Failed(why@)),
        }
    }
}

impl MacLaunch {
    /// A run that is admitted, with these variables. One that may reach
    /// nothing is started at once, with no port to go to.
    pub fn run_supervised(
        egress: bool,
        interactive: bool,
        env: Vec<(String, String)>,
        host: String,
        own: String,
    ) -> (r: (MacLaunch, Action))
        ensures
            ({
                let start = MacView {
                    interactive,
                    stage: Stage::Auth,
                    env: variables(env@),
                    host: host@,
                    own: own@,
                    proxied: false,
                };
                (r.0@, r.1@) == (if egress {
                    (start, ActionView::EngageAuth)
                } else {
                    start.running(variables(env@), Seq::empty())
                })
            }),
    {
        let mut launch = MacLaunch {
            interactive,
            stage: Stage::Auth,
            env,
            host,
            own,
            proxied: false,
        };
        if egress {
            return (launch, Action::EngageAuth);
        }
        let ports: Vec<u16> = Vec::new();
        assert(ports@ == Seq::<u16>::empty());
        let action = launch.start(ports);
        (launch, action)
    }

    /// The command is started with the variables that were gathered.
    fn start(&mut self, ports: Vec<u16>) -> (r: Action)
        ensures
            (final(self)@, r@) == old(self)@.running(old(self)@.env, ports@),
    {
        let mut env: Vec<(String, String)> = Vec::new();
        std::mem::swap(&mut self.env, &mut env);
        assert(variables(self.env@) =~= Seq::<(Seq<char>, Seq<char>)>::empty());
        self.stage = Stage::Running;
        Action::Run { env, ports, interactive: self.interactive }
    }

    /// Can this event come now?
    pub fn accepts(&self, event: &Event) -> (r: bool)
        ensures
            r == self@.expects(*event),
    {
        match (self.stage, event) {
            (Stage::Over, _) => false,
            (_, Event::Failed(_)) => true,
            (Stage::Auth, Event::NoAuth) => true,
            (Stage::Auth, Event::Engaged { .. }) => true,
            (Stage::Proxy, Event::Proxied { .. }) => true,
            (Stage::Running, Event::Ran(..)) => !self.interactive,
            (Stage::Running, Event::Exited(..)) => self.interactive,
            _ => false,
        }
    }

    /// What to do after an event.
    pub fn next(&mut self, event: Event) -> (r: Move)
        requires
            old(self)@.expects(event),
        ensures
            (final(self)@, r.action@) == old(self)@.step(event),
            r.scrub == (match event {
                Event::Engaged { runtime, .. } => Some(runtime),
                _ => None,
            }),
    {
        match event {
            Event::NoAuth => {
                self.stage = Stage::Proxy;
                Move { scrub: None, action: Action::StartProxy }
            },
            Event::Engaged { port, runtime, env } => {
                let ghost (before, more) = (self.env@, env@);
                let mut env = env;
                self.env.append(&mut env);
                assert(variables(self.env@) =~= variables(before) + variables(more));
                let ports: Vec<u16> = vec![port];
                assert(ports@ =~= seq![port]);
                // The box reaches the proxy alone, and the credential itself is
                // not in it.
                Move { scrub: Some(runtime), action: self.start(ports) }
            },
            Event::Proxied { port } => {
                let mut env: Vec<(String, String)> = Vec::new();
                std::mem::swap(&mut self.env, &mut env);
                self.env =
                supervisor::proxied_env(env, self.host.as_str(), port, self.own.as_str());
                self.proxied = true;
                let ports: Vec<u16> = vec![port];
                assert(ports@ =~= seq![port]);
                Move { scrub: None, action: self.start(ports) }
            },
            Event::Ran(outcome, summary) => {
                let egress = self.seen(summary);
                self.stage = Stage::Over;
                let mut outcome = outcome;
                outcome.egress = egress;
                Move { scrub: None, action: Action::Finish(Ok(outcome)) }
            },
            Event::Exited(code, summary) => {
                let egress = self.seen(summary);
                self.stage = Stage::Over;
                let outcome = ExecOutcome {
                    stdout: Vec::new(),
                    stderr: Vec::new(),
                    exit_code: Some(code),
                    timed_out: false,
                    wall_ms: 0,
                    cpu_ms: 0,
                    max_rss_kb: None,
                    egress,
                };
                assert(outcome@.stdout =~= Seq::<u8>::empty());
                assert(outcome@.stderr =~= Seq::<u8>::empty());
                Move { scrub: None, action: Action::Finish(Ok(outcome)) }
            },
            Event::Failed(why) => {
                self.stage = Stage::Over;
                Move { scrub: None, action: Action::Finish(Err(why)) }
            },
        }
    }

    /// The network evidence of a run.
    fn seen(&self, summary: Option<EgressSummary>) -> (r: Option<EgressSummary>)
        ensures
            summary_view(r) == self@.evidence(summary),
    {
        if self.proxied {
            summary
        } else {
            None
        }
    }
}

/// A command may reach one proxy and nothing else, and only of a run that may
/// reach something: it is started with the port that was engaged, or that was
/// opened because none was.
pub proof fn law_a_box_reaches_one_proxy(m: MacView, event: Event)
    requires
        m.expects(event),
    ensures
        m.step(event).1 matches ActionView::Run { ports, .. } ==> match event {
            Event::Engaged { port, .. } => m.stage == Stage::Auth && ports == seq![port],
            Event::Proxied { port } => m.stage == Stage::Proxy && ports == seq![port],
            _ => false,
        },
        m.step(event).0.stage == Stage::Proxy ==> m.stage == Stage::Auth && event is NoAuth,
{
}

/// An interactive session hands on nothing of what it printed.
pub proof fn law_an_interactive_session_captures_nothing(m: MacView, event: Event)
    requires
        m.expects(event),
        m.interactive,
    ensures
        m.step(event).1 matches ActionView::Finished(o) ==> o.captured_nothing(),
{
}

} // verus!
