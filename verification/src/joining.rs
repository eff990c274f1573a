//! A join, step by step: a ticket that holds, an address, a connection, a ticket
//! that is good over there, a token, and only then something to open.
//!
//! The steps themselves are somebody else's. Each is asked for as an action and
//! reported as an event.
use vstd::prelude::*;
use vstd::string::*;

use crate::address::Ipv4Addr;
use crate::join::{self, Binder, Bound, Closed, Joined, OpenError};
use crate::tally::Path;
use crate::{display, gate, text};

verus! {

/// What the joiner brings.
#[derive(Debug)]
pub struct Terms {
    /// The box on the far end, as the ticket names it.
    pub box_id: String,
    /// Until when the ticket holds, in seconds since the Unix epoch.
    pub expires_at: i64,
    /// The address to listen on, if the joiner chose one.
    pub bind: Option<Ipv4Addr>,
    pub port: u16,
    /// The joiner accepts a shared cookie jar.
    pub allow_shared_jar: bool,
}

/// What a join is waiting for.
#[derive(Debug, Clone, Copy, PartialEq, Eq, Structural)]
pub enum Stage {
    /// Random numbers for an address.
    Picking,
    /// This address to be bound.
    Binding { addr: Ipv4Addr },
    /// The sharer to be reached.
    Dialling,
    /// The sharer to weigh the ticket.
    Verifying,
    /// A token of this machine's own.
    Minting,
    /// The joiner to be told where to look.
    Announcing,
    /// The connection to end, browsers being served meanwhile.
    Serving,
    /// Nothing: the join is over.
    Over,
}

/// What came of the last action.
#[derive(Debug)]
pub enum JoinEvent {
    /// Three random numbers.
    Picked(u8, u8, u8),
    /// The address is bound, on this port.
    Bound { port: u16 },
    /// The address could not be bound, for this reason.
    Unbound(String),
    /// The sharer was reached, over this path if there is one yet.
    Dialled(Option<Path>),
    /// The sharer weighed the ticket.
    Verified(Result<(), OpenError>),
    /// This token was minted.
    Minted(String),
    /// It failed.
    Failed(String),
    /// The joiner was told.
    Announced,
    /// The connection ended like this, for this reason.
    Closed(Closed, String),
}

/// What is to be done next.
#[derive(Debug)]
pub enum JoinAction {
    /// Draw three random numbers.
    Pick,
    /// Listen on this address and port.
    Bind(Ipv4Addr, u16),
    /// Reach the sharer.
    Dial,
    /// Ask the sharer about the ticket.
    Verify,
    /// Mint a token for the local listener.
    Mint,
    /// Tell the joiner.
    Announce(Joined),
    /// Serve browsers, with a credential of this name, until the connection
    /// ends. On a shared jar the box's own cookies are told apart.
    Serve { cookie: String, shared_jar: bool },
    /// The join is over, with this.
    Stop(Result<String, String>),
}

/// What a [`Joined`] says.
pub struct JoinedView {
    pub url: Seq<char>,
    pub path: Option<Path>,
    pub box_id: Seq<char>,
    pub warning: Option<Seq<char>>,
    pub shared_jar: bool,
}

impl View for Joined {
    type V = JoinedView;

    open spec fn view(&self) -> JoinedView {
        JoinedView {
            url: self.url@,
            path: self.path,
            box_id: self.box_id@,
            warning: text::maybe(self.warning),
            shared_jar: self.shared_jar,
        }
    }
}

/// An action, as it is spoken of.
pub enum ActionView {
    Pick,
    Bind(Ipv4Addr, u16),
    Dial,
    Verify,
    Mint,
    Announce(JoinedView),
    Serve { cookie: Seq<char>, shared_jar: bool },
    /// The share ended, and this is said of it.
    Ended(Seq<char>),
    /// The join was refused or failed, for this reason.
    Stopped(Seq<char>),
}

impl View for JoinAction {
    type V = ActionView;

    open spec fn view(&self) -> ActionView {
        match *self {
            JoinAction::Pick => ActionView::Pick,
            JoinAction::Bind(addr, port) => ActionView::Bind(addr, port),
            JoinAction::Dial => ActionView::Dial,
            JoinAction::Verify => ActionView::Verify,
            JoinAction::Mint => ActionView::Mint,
            JoinAction::Announce(joined) => ActionView::Announce(joined@),
            JoinAction::Serve { cookie, shared_jar } => ActionView::Serve {
                cookie: cookie@,
                shared_jar,
            },
            JoinAction::Stop(Ok(said)) => ActionView::Ended(said@),
            JoinAction::Stop(Err(why)) => ActionView::Stopped(why@),
        }
    }
}

/// A join on its way.
#[derive(Debug)]
pub struct Joining {
    pub box_id: String,
    pub binder: Binder,
    pub stage: Stage,
    /// Where the local listener is, once it is.
    pub local: Ipv4Addr,
    pub local_port: u16,
    pub shared_jar: bool,
    pub path: Option<Path>,
    /// What the share said that is worth repeating.
    pub warning: Option<String>,
}

/// A join on its way, as it is spoken of.
pub struct JoinView {
    pub box_id: Seq<char>,
    pub binder: Binder,
    pub stage: Stage,
    pub local: Ipv4Addr,
    pub local_port: u16,
    pub shared_jar: bool,
    pub path: Option<Path>,
    pub warning: Option<Seq<char>>,
}

impl View for Joining {
    type V = JoinView;

    open spec fn view(&self) -> JoinView {
        JoinView {
            box_id: self.box_id@,
            binder: self.binder,
            stage: self.stage,
            local: self.local,
            local_port: self.local_port,
            shared_jar: self.shared_jar,
            path: self.path,
            warning: text::maybe(self.warning),
        }
    }
}

/// How long a ticket has been expired, as far as can be told.
pub open spec fn expired_for(expires_at: i64, now: i64) -> int {
    if now - expires_at <= i64::MAX {
        now - expires_at
    } else {
        i64::MAX as int
    }
}

/// A join of which nothing has been done.
pub open spec fn start(terms: Terms) -> JoinView {
    JoinView {
        box_id: terms.box_id@,
        binder: Binder {
            chosen: terms.bind,
            port: terms.port,
            allow_shared_jar: terms.allow_shared_jar,
            tries: 0,
        },
        stage: Stage::Over,
        local: Ipv4Addr { a: 127, b: 0, c: 0, d: 1 },
        local_port: 0,
        shared_jar: false,
        path: None,
        warning: None,
    }
}

/// How a join with these terms begins: not at all with a ticket that has
/// expired, and otherwise with an address.
pub open spec fn begun(terms: Terms, now: i64) -> (JoinView, ActionView) {
    if terms.expires_at <= now {
        start(terms).over(
            ActionView::Stopped(join::expired_text(expired_for(terms.expires_at, now))),
        )
    } else {
        start(terms).seeking()
    }
}

impl JoinView {
    pub open spec fn wf(self) -> bool {
        self.binder.wf()
    }

    /// The join is over, with this.
    pub open spec fn over(self, last: ActionView) -> (JoinView, ActionView) {
        (JoinView { stage: Stage::Over, ..self }, last)
    }

    /// Random numbers are needed for the next address.
    pub open spec fn draws(self) -> bool {
        self.binder.chosen is None && self.binder.tries < join::RANDOM_TRIES
    }

    /// The next address is tried, from these numbers.
    pub open spec fn trying(self, x: u8, y: u8, z: u8) -> (JoinView, ActionView) {
        let addr = self.binder.candidate(x, y, z);
        if addr.loopback() {
            (
                JoinView { stage: Stage::Binding { addr }, ..self },
                ActionView::Bind(addr, self.binder.port),
            )
        } else {
            self.over(ActionView::Stopped(join::beyond_text(addr)))
        }
    }

    /// The next address is looked for.
    pub open spec fn seeking(self) -> (JoinView, ActionView) {
        if self.draws() {
            (JoinView { stage: Stage::Picking, ..self }, ActionView::Pick)
        } else {
            self.trying(0, 0, 0)
        }
    }

    /// The only address left is the one that everybody has.
    pub open spec fn at_last(self) -> bool {
        self.binder.tries >= join::ALL_TRIES - 1
    }

    /// An event that can come now.
    pub open spec fn expects(self, event: JoinEvent) -> bool {
        match (self.stage, event) {
            (Stage::Picking, JoinEvent::Picked(..)) => true,
            (Stage::Picking, JoinEvent::Failed(_)) => true,
            (Stage::Binding { .. }, JoinEvent::Bound { .. }) => true,
            (Stage::Binding { .. }, JoinEvent::Unbound(_)) => true,
            (Stage::Dialling, JoinEvent::Dialled(_)) => true,
            (Stage::Dialling, JoinEvent::Failed(_)) => true,
            (Stage::Verifying, JoinEvent::Verified(_)) => true,
            (Stage::Minting, JoinEvent::Minted(_)) => true,
            (Stage::Minting, JoinEvent::Failed(_)) => true,
            (Stage::Announcing, JoinEvent::Announced) => true,
            (Stage::Serving, JoinEvent::Closed(..)) => true,
            _ => false,
        }
    }

    /// What comes of an address that was bound: the sharer is dialled, unless
    /// the cookie jar is one that the joiner did not agree to share.
    pub open spec fn listening(self, addr: Ipv4Addr, port: u16) -> (JoinView, ActionView) {
        let shared = if self.binder.chosen is Some {
            addr.localhost()
        } else {
            self.at_last()
        };
        if shared && self.binder.chosen is None && !self.binder.allow_shared_jar {
            self.over(ActionView::Stopped(join::refusal_text()))
        } else {
            (
                JoinView {
                    stage: Stage::Dialling,
                    local: addr,
                    local_port: port,
                    shared_jar: shared,
                    ..self
                },
                ActionView::Dial,
            )
        }
    }

    /// What comes of an address that could not be bound: the next one, if there
    /// is one.
    pub open spec fn unbound(self, addr: Ipv4Addr, error: Seq<char>) -> (JoinView, ActionView) {
        if self.binder.chosen is Some {
            self.over(
                ActionView::Stopped(join::unbound_text(addr, self.binder.port, error)),
            )
        } else if self.at_last() {
            self.over(ActionView::Stopped(join::no_port_text(error)))
        } else {
            JoinView {
                binder: Binder { tries: (self.binder.tries + 1) as u8, ..self.binder },
                ..self
            }.seeking()
        }
    }

    /// What the sharer's answer about the ticket comes to.
    pub open spec fn verified(self, answer: Result<(), OpenError>) -> (JoinView, ActionView) {
        match answer {
            Err(e) => if e.is_fatal() {
                self.over(ActionView::Stopped(e.spec_text()))
            } else {
                (
                    JoinView {
                        stage: Stage::Minting,
                        warning: Some(e.spec_text()),
                        ..self
                    },
                    ActionView::Mint,
                )
            },
            Ok(_) => (
                JoinView { stage: Stage::Minting, warning: None, ..self },
                ActionView::Mint,
            ),
        }
    }

    /// What the joiner is told, with this token.
    pub open spec fn joined(self, token: Seq<char>) -> JoinedView {
        JoinedView {
            url: join::url_text(self.local, self.local_port, token),
            path: self.path,
            box_id: self.box_id,
            warning: self.warning,
            shared_jar: self.shared_jar,
        }
    }

    /// What is so after an event, and what is done.
    pub open spec fn step(self, event: JoinEvent) -> (JoinView, ActionView) {
        match (self.stage, event) {
            (Stage::Picking, JoinEvent::Picked(x, y, z)) => self.trying(x, y, z),
            (Stage::Binding { addr }, JoinEvent::Bound { port }) => self.listening(addr, port),
            (Stage::Binding { addr }, JoinEvent::Unbound(error)) => self.unbound(addr, error@),
            (Stage::Dialling, JoinEvent::Dialled(path)) => (
                JoinView { stage: Stage::Verifying, path, ..self },
                ActionView::Verify,
            ),
            (Stage::Verifying, JoinEvent::Verified(answer)) => self.verified(answer),
            (Stage::Minting, JoinEvent::Minted(token)) => (
                JoinView {
                    stage: Stage::Announcing,
                    box_id: Seq::empty(),
                    warning: None,
                    ..self
                },
                ActionView::Announce(self.joined(token@)),
            ),
            (Stage::Announcing, _) => (
                JoinView { stage: Stage::Serving, ..self },
                ActionView::Serve {
                    cookie: gate::port_cookie(self.local_port),
                    shared_jar: self.shared_jar,
                },
            ),
            (Stage::Serving, JoinEvent::Closed(how, reason)) => self.over(
                match how {
                    Closed::Failed => ActionView::Stopped(
                        join::failed_text(display::shown(reason@)),
                    ),
                    _ => ActionView::Ended(join::ending(display::shown(reason@))),
                },
            ),
            (_, JoinEvent::Failed(why)) => self.over(ActionView::Stopped(why@)),
            _ => self.over(ActionView::Stopped(Seq::empty())),
        }
    }
}

impl Joining {
    /// Begin a join. A ticket that has expired is refused before anything is
    /// bound, dialled or announced.
    pub fn begin(terms: Terms, now: i64) -> (r: (Joining, JoinAction))
        ensures
            (r.0@, r.1@) == begun(terms, now),
            r.0@.wf(),
            terms.expires_at <= now ==> r.0@.stage is Over && r.1@ is Stopped,
            terms.expires_at > now ==> r.1@ is Pick || r.1@ is Bind || r.1@ is Stopped,
    {
        let mut joining = Joining {
            box_id: terms.box_id,
            binder: Binder::new(terms.bind, terms.port, terms.allow_shared_jar),
            stage: Stage::Over,
            local: Ipv4Addr::new(127, 0, 0, 1),
            local_port: 0,
            shared_jar: false,
            path: None,
            warning: None,
        };
        match join::check_ticket(terms.expires_at, now) {
            Ok(_) => {
                let action = joining.seek();
                (joining, action)
            },
            Err(why) => (joining, JoinAction::Stop(Err(why))),
        }
    }

    /// Try the next address, from these numbers.
    fn try_next(&mut self, x: u8, y: u8, z: u8) -> (r: JoinAction)
        requires
            old(self)@.wf(),
        ensures
            (final(self)@, r@) == old(self)@.trying(x, y, z),
    {
        match self.binder.bind_loopback(x, y, z) {
            Ok(addr) => {
                self.stage = Stage::Binding { addr };
                JoinAction::Bind(addr, self.binder.port)
            },
            Err(why) => {
                self.stage = Stage::Over;
                JoinAction::Stop(Err(why))
            },
        }
    }

    /// Look for the next address.
    fn seek(&mut self) -> (r: JoinAction)
        requires
            old(self)@.wf(),
        ensures
            (final(self)@, r@) == old(self)@.seeking(),
    {
        if self.binder.chosen.is_none() && self.binder.tries < join::RANDOM_TRIES {
            self.stage = Stage::Picking;
            return JoinAction::Pick;
        }
        self.try_next(0, 0, 0)
    }

    /// What comes of having tried an address.
    fn tried(&mut self, addr: Ipv4Addr, port: u16, error: Option<String>) -> (r: JoinAction)
        requires
            old(self)@.wf(),
        ensures
            (final(self)@, r@) == (match error {
                None => old(self)@.listening(addr, port),
                Some(e) => old(self)@.unbound(addr, e@),
            }),
            final(self)@.wf(),
    {
        match self.binder.bind_for(addr, error) {
            Bound::Listening(shared_jar) => {
                self.local = addr;
                self.local_port = port;
                self.shared_jar = shared_jar;
                self.stage = Stage::Dialling;
                JoinAction::Dial
            },
            Bound::Again => self.seek(),
            Bound::Refused(why) => {
                self.stage = Stage::Over;
                JoinAction::Stop(Err(why))
            },
        }
    }

    /// Can this event come now?
    pub fn accepts(&self, event: &JoinEvent) -> (r: bool)
        ensures
            r == self@.expects(*event),
    {
        match (self.stage, event) {
            (Stage::Picking, JoinEvent::Picked(..)) => true,
            (Stage::Picking, JoinEvent::Failed(_)) => true,
            (Stage::Binding { .. }, JoinEvent::Bound { .. }) => true,
            (Stage::Binding { .. }, JoinEvent::Unbound(_)) => true,
            (Stage::Dialling, JoinEvent::Dialled(_)) => true,
            (Stage::Dialling, JoinEvent::Failed(_)) => true,
            (Stage::Verifying, JoinEvent::Verified(_)) => true,
            (Stage::Minting, JoinEvent::Minted(_)) => true,
            (Stage::Minting, JoinEvent::Failed(_)) => true,
            (Stage::Announcing, JoinEvent::Announced) => true,
            (Stage::Serving, JoinEvent::Closed(..)) => true,
            _ => false,
        }
    }

    /// What to do after an event.
    pub fn next(&mut self, event: JoinEvent) -> (r: JoinAction)
        requires
            old(self)@.wf(),
            old(self)@.expects(event),
        ensures
            (final(self)@, r@) == old(self)@.step(event),
            final(self)@.wf(),
    {
        match (self.stage, event) {
            (Stage::Picking, JoinEvent::Picked(x, y, z)) => self.try_next(x, y, z),
            (Stage::Binding { addr }, JoinEvent::Bound { port }) => self.tried(addr, port, None),
            (Stage::Binding { addr }, JoinEvent::Unbound(error)) => self.tried(
                addr,
                0,
                Some(error),
            ),
            (Stage::Dialling, JoinEvent::Dialled(path)) => {
                self.path = path;
                self.stage = Stage::Verifying;
                JoinAction::Verify
            },
            // Only once the sharer has seen the ticket is anything said to the
            // joiner: a link that cannot work is worse than an error.
            (Stage::Verifying, JoinEvent::Verified(answer)) => match join::check_outcome(answer) {
                Ok(warning) => {
                    self.warning = warning;
                    self.stage = Stage::Minting;
                    JoinAction::Mint
                },
                Err(why) => self.stop(Err(why)),
            },
            (Stage::Minting, JoinEvent::Minted(token)) => {
                let mut box_id: String = String::new();
                std::mem::swap(&mut self.box_id, &mut box_id);
                let mut warning: Option<String> = None;
                std::mem::swap(&mut self.warning, &mut warning);
                self.stage = Stage::Announcing;
                let joined = Joined::new(
                    self.local,
                    self.local_port,
                    token.as_str(),
                    self.path,
                    box_id,
                    warning,
                    self.shared_jar,
                );
                assert(self.box_id@ =~= Seq::<char>::empty());
                JoinAction::Announce(joined)
            },
            (Stage::Announcing, _) => {
                self.stage = Stage::Serving;
                JoinAction::Serve {
                    cookie: gate::cookie_for_port(self.local_port),
                    shared_jar: self.shared_jar,
                }
            },
            (Stage::Serving, JoinEvent::Closed(how, reason)) => {
                let said = join::closed(how, reason.as_str());
                self.stop(said)
            },
            (_, JoinEvent::Failed(why)) => self.stop(Err(why)),
            _ => self.stop(Err(String::new())),
        }
    }

    fn stop(&mut self, with: Result<String, String>) -> (r: JoinAction)
        ensures
            (final(self)@, r@) == old(self)@.over(
                match with {
                    Ok(said) => ActionView::Ended(said@),
                    Err(why) => ActionView::Stopped(why@),
                },
            ),
    {
        self.stage = Stage::Over;
        JoinAction::Stop(with)
    }
}

/// The join after these events, each of which came when it was expected.
pub open spec fn after(terms: Terms, now: i64, events: Seq<JoinEvent>) -> Option<
    (JoinView, ActionView),
>
    decreases events.len(),
{
    if events.len() == 0 {
        Some(begun(terms, now))
    } else {
        match after(terms, now, events.drop_last()) {
            Some((j, _)) => if j.expects(events.last()) {
                Some(j.step(events.last()))
            } else {
                None
            },
            None => None,
        }
    }
}

/// An address was bound.
pub open spec fn has_bound(events: Seq<JoinEvent>) -> bool {
    exists|i: int| 0 <= i < events.len() && (#[trigger] events[i]) is Bound
}

/// The sharer was reached.
pub open spec fn has_dialled(events: Seq<JoinEvent>) -> bool {
    exists|i: int| 0 <= i < events.len() && (#[trigger] events[i]) is Dialled
}

/// The sharer found nothing wrong with the ticket, or nothing that stops a join.
pub open spec fn is_good_answer(event: JoinEvent) -> bool {
    match event {
        JoinEvent::Verified(Ok(_)) => true,
        JoinEvent::Verified(Err(e)) => !e.is_fatal(),
        _ => false,
    }
}

/// The ticket was found good.
pub open spec fn has_passed(events: Seq<JoinEvent>) -> bool {
    exists|i: int| 0 <= i < events.len() && is_good_answer(#[trigger] events[i])
}

/// What has to have happened for a join to stand where it does.
pub open spec fn is_due(stage: Stage, action: ActionView, events: Seq<JoinEvent>) -> bool {
    &&& (stage is Dialling ==> has_bound(events))
    &&& (stage is Verifying ==> has_bound(events) && has_dialled(events))
    &&& (stage is Minting || stage is Announcing || stage is Serving ==> has_bound(events)
        && has_dialled(events) && has_passed(events))
    &&& (action is Dial <==> stage is Dialling)
    &&& (action is Verify <==> stage is Verifying)
    &&& (action is Announce <==> stage is Announcing)
    &&& (action is Serve <==> stage is Serving)
    &&& (action is Ended || action is Stopped <==> stage is Over)
}

/// A ticket that has expired is followed by nothing: no address is bound,
/// nothing is dialled, and nothing is announced, whatever happens.
pub proof fn law_an_expired_ticket_is_refused_before_anything(
    terms: Terms,
    now: i64,
    events: Seq<JoinEvent>,
)
    requires
        terms.expires_at <= now,
    ensures
        begun(terms, now).1 == ActionView::Stopped(
            join::expired_text(expired_for(terms.expires_at, now)),
        ),
        events.len() > 0 ==> after(terms, now, events) is None,
    decreases events.len(),
{
    if events.len() > 1 {
        law_an_expired_ticket_is_refused_before_anything(terms, now, events.drop_last());
    } else if events.len() == 1 {
        assert(after(terms, now, events.drop_last()) == Some(begun(terms, now)));
    }
}

/// Nothing is dialled before an address is bound, the ticket is not weighed
/// before the sharer is reached, and nothing is announced or served before the
/// ticket was found good.
pub proof fn law_a_join_goes_in_order(terms: Terms, now: i64, events: Seq<JoinEvent>)
    ensures
        after(terms, now, events) matches Some((j, action)) ==> is_due(j.stage, action, events),
    decreases events.len(),
{
    if events.len() > 0 {
        let front = events.drop_last();
        law_a_join_goes_in_order(terms, now, front);
        let n = events.len() - 1;
        if has_bound(front) {
            let i = choose|i: int| 0 <= i < front.len() && (#[trigger] front[i]) is Bound;
            assert(events[i] is Bound);
        }
        if has_dialled(front) {
            let i = choose|i: int| 0 <= i < front.len() && (#[trigger] front[i]) is Dialled;
            assert(events[i] is Dialled);
        }
        if has_passed(front) {
            let i = choose|i: int| 0 <= i < front.len() && is_good_answer(#[trigger] front[i]);
            assert(is_good_answer(events[i]));
        }
        assert(events[n] == events.last());
    }
}

/// A jar that the joiner did not agree to share is refused before anything is
/// dialled: falling back to `127.0.0.1` ends the join there.
pub proof fn law_a_shared_jar_is_refused_before_anything_is_dialled(
    j: JoinView,
    addr: Ipv4Addr,
    port: u16,
)
    requires
        j.wf(),
        j.stage == (Stage::Binding { addr }),
        j.binder.chosen is None,
        j.binder.tries == join::ALL_TRIES - 1,
        !j.binder.allow_shared_jar,
    ensures
        j.step(JoinEvent::Bound { port }) == j.over(ActionView::Stopped(join::refusal_text())),
{
}

} // verus!
