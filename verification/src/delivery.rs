//! A response on its way to the visitor, step by step: its head, what came with
//! the head, and then what the box says, for as long as it may take.
//!
//! Nothing here reads or writes. What happened is reported as an event, and what
//! to do about it is the answer. Every byte that was written is counted.
use vstd::prelude::*;
use vstd::slice::slice_subrange;

use crate::http_front;
use crate::http_front::Counters;
use crate::relay::{self, Ending, Opening, OpeningView, Relay, RelayView};
use crate::seqs;

verus! {

/// How far a response has got, and how many bytes are being written.
#[derive(Debug, Clone, Copy, PartialEq, Eq, Structural)]
pub enum Stage {
    /// The visitor is being answered on the box's behalf.
    Refusing { sending: u64 },
    /// The visitor is being sent the head.
    Head { sending: u64 },
    /// The visitor is being sent what came with the head.
    First,
    /// The body is being read off the box.
    Reading,
    /// The visitor is being sent a part of the body.
    Sending,
    /// There is nothing more to do here.
    Over,
}

/// What happened.
#[derive(Debug)]
pub enum Event {
    /// The write went through.
    Wrote,
    /// The visitor stopped reading.
    PeerStalled,
    /// The visitor's connection failed, while it was written to or read.
    PeerFailed,
    /// The visitor said something, which nobody asked for.
    PeerSaid,
    /// The visitor has stopped *sending*.
    PeerClosed,
    /// The box sent these bytes.
    BoxSaid(Vec<u8>),
    /// The box closed its stream.
    BoxClosed,
    /// The box's stream failed.
    BoxFailed,
    /// The box went quiet for too long.
    BoxQuiet,
}

/// An [`Event`] with its bytes as a sequence.
pub enum EventView {
    Wrote,
    PeerStalled,
    PeerFailed,
    PeerSaid,
    PeerClosed,
    BoxSaid(Seq<u8>),
    BoxClosed,
    BoxFailed,
    BoxQuiet,
}

impl View for Event {
    type V = EventView;

    open spec fn view(&self) -> EventView {
        match self {
            Event::Wrote => EventView::Wrote,
            Event::PeerStalled => EventView::PeerStalled,
            Event::PeerFailed => EventView::PeerFailed,
            Event::PeerSaid => EventView::PeerSaid,
            Event::PeerClosed => EventView::PeerClosed,
            Event::BoxSaid(b) => EventView::BoxSaid(b@),
            Event::BoxClosed => EventView::BoxClosed,
            Event::BoxFailed => EventView::BoxFailed,
            Event::BoxQuiet => EventView::BoxQuiet,
        }
    }
}

/// What to do about it.
#[derive(Debug)]
pub enum Action {
    /// Write these bytes to the visitor.
    ToPeer(Vec<u8>),
    /// Read from the box, and with an eye on the visitor while it may still say
    /// something.
    Read { watch_peer: bool },
    /// Finish with the visitor.
    Finish,
    /// Let the connection go.
    Drop,
}

/// An [`Action`] with its bytes as a sequence.
pub enum ActionView {
    ToPeer(Seq<u8>),
    Read { watch_peer: bool },
    Finish,
    Drop,
}

impl View for Action {
    type V = ActionView;

    open spec fn view(&self) -> ActionView {
        match self {
            Action::ToPeer(b) => ActionView::ToPeer(b@),
            Action::Read { watch_peer } => ActionView::Read { watch_peer: *watch_peer },
            Action::Finish => ActionView::Finish,
            Action::Drop => ActionView::Drop,
        }
    }
}

/// A response on its way.
#[derive(Debug)]
pub struct Delivery {
    pub stage: Stage,
    pub relay: Relay,
    /// The part of the body that came with the head.
    pub first: Vec<u8>,
    pub counts: Counters,
}

/// A [`Delivery`] as what it stands for.
pub struct DeliveryView {
    pub stage: Stage,
    pub relay: RelayView,
    pub first: Seq<u8>,
    pub counts: Counters,
}

impl View for Delivery {
    type V = DeliveryView;

    open spec fn view(&self) -> DeliveryView {
        DeliveryView {
            stage: self.stage,
            relay: self.relay@,
            first: self.first@,
            counts: self.counts,
        }
    }
}

/// How a response whose head has been read begins: the visitor is answered on
/// the box's behalf, or gets the head.
pub open spec fn begun(
    head: Seq<u8>,
    rest: Seq<u8>,
    complete: bool,
    bodyless: bool,
    counts: Counters,
) -> (DeliveryView, ActionView) {
    match relay::opening(head, rest, complete, bodyless) {
        OpeningView::Refuse { reply, truncated } => {
            let bytes = vstd::utf8::encode_utf8(reply);
            (
                DeliveryView {
                    stage: Stage::Refusing { sending: bytes.len() as u64 },
                    relay: relay::nothing_to_relay(),
                    first: Seq::empty(),
                    counts: Counters { truncated: counts.truncated || truncated, ..counts },
                },
                ActionView::ToPeer(bytes),
            )
        },
        OpeningView::Relay { out, first, relay } => (
            DeliveryView {
                stage: Stage::Head { sending: out.len() as u64 },
                relay,
                first: rest.take(first as int),
                counts,
            },
            ActionView::ToPeer(out),
        ),
    }
}

impl DeliveryView {
    /// The relay is one that can go on, with what is on its way where something
    /// is and nothing where nothing is.
    pub open spec fn wf(self) -> bool {
        &&& self.relay.wf()
        &&& (self.stage is Reading ==> self.relay.pending == 0)
    }

    /// What happened can be counted: a body without a length is shorter than
    /// there are numbers for.
    pub open spec fn can_count(self, event: EventView) -> bool {
        self.stage is Reading && self.relay.body_len is None ==> (event matches EventView::BoxSaid(
            b,
        ) ==> self.relay.sent + b.len() <= u64::MAX)
    }

    /// Nothing more to do here but this.
    pub open spec fn over(self, last: ActionView) -> (DeliveryView, ActionView) {
        (DeliveryView { stage: Stage::Over, ..self }, last)
    }

    /// The relay has ended like this.
    pub open spec fn ended(self, how: Ending) -> (DeliveryView, ActionView) {
        DeliveryView {
            counts: Counters {
                truncated: self.counts.truncated || self.relay.truncated(how),
                ..self.counts
            },
            ..self
        }.over(ActionView::Finish)
    }

    /// The body is gone on with: unless the visitor has all of it, or its time
    /// is up, the box is read.
    pub open spec fn reading(self, late: bool) -> (DeliveryView, ActionView) {
        if self.relay.complete() {
            self.ended(Ending::Complete)
        } else if late {
            self.ended(Ending::Deadline)
        } else {
            (
                DeliveryView { stage: Stage::Reading, ..self },
                ActionView::Read { watch_peer: !self.relay.peer_said_all },
            )
        }
    }

    /// What was on its way to the visitor is there, and counted.
    pub open spec fn passed(self) -> DeliveryView {
        DeliveryView {
            relay: self.relay.passed(),
            counts: self.counts.after_relaying(self.relay.pending),
            ..self
        }
    }

    /// What to do about what happened, and what is so after that. `late` is
    /// whether the response's time is up.
    pub open spec fn step(self, event: EventView, late: bool) -> (DeliveryView, ActionView) {
        match (self.stage, event) {
            (Stage::Refusing { sending }, EventView::Wrote) => DeliveryView {
                counts: self.counts.after_relaying(sending),
                ..self
            }.over(ActionView::Finish),
            (Stage::Refusing { .. }, _) => self.over(ActionView::Finish),
            (Stage::Head { sending }, EventView::Wrote) => (
                DeliveryView {
                    stage: Stage::First,
                    counts: self.counts.after_relaying(sending),
                    ..self
                },
                ActionView::ToPeer(self.first),
            ),
            (Stage::First, EventView::Wrote) => self.passed().reading(late),
            (Stage::Sending, EventView::Wrote) => self.passed().reading(late),
            (Stage::Sending, EventView::PeerStalled) => self.ended(Ending::PeerStalled),
            (Stage::Sending, EventView::PeerFailed) => self.ended(Ending::PeerFailed),
            (Stage::Reading, EventView::BoxSaid(b)) => {
                let (relay, take) = self.relay.taking(b);
                (
                    DeliveryView { stage: Stage::Sending, relay, ..self },
                    ActionView::ToPeer(b.take(take as int)),
                )
            },
            (Stage::Reading, EventView::BoxClosed) => self.ended(Ending::BoxClosed),
            (Stage::Reading, EventView::BoxFailed) => self.ended(Ending::BoxFailed),
            (Stage::Reading, EventView::BoxQuiet) => self.ended(Ending::BoxQuiet),
            (Stage::Reading, EventView::PeerFailed) => self.ended(Ending::PeerFailed),
            (Stage::Reading, EventView::PeerSaid) => self.reading(late),
            (Stage::Reading, EventView::PeerClosed) => DeliveryView {
                relay: RelayView { peer_said_all: true, ..self.relay },
                ..self
            }.reading(late),
            // A visitor that is gone before the body has begun.
            _ => self.over(ActionView::Drop),
        }
    }
}

impl Delivery {
    /// Begin with a response whose head has been read. `rest` is what came with
    /// the head, and `complete` is whether the head is all there.
    pub fn begin(head: &[u8], rest: &[u8], complete: bool, bodyless: bool, counts: Counters) -> (r: (
        Delivery,
        Action,
    ))
        ensures
            (r.0@, r.1@) == begun(head@, rest@, complete, bodyless, counts),
            in_step(r.0@, r.1@),
    {
        match relay::relay_response(head, rest, complete, bodyless) {
            Opening::Refuse { reply, truncated } => {
                let bytes: Vec<u8> = seqs::copy_of(reply.as_str().as_bytes());
                let mut counts = counts;
                counts.truncated = counts.truncated || truncated;
                let first: Vec<u8> = Vec::new();
                assert(first@ == Seq::<u8>::empty());
                let d = Delivery {
                    stage: Stage::Refusing { sending: bytes.len() as u64 },
                    relay: Relay::nothing(),
                    first,
                    counts,
                };
                (d, Action::ToPeer(bytes))
            },
            Opening::Relay { out, first, relay } => {
                let part = slice_subrange(rest, 0, first);
                assert(part@ == rest@.take(first as int));
                let came: usize = rest.len();
                assert(came == rest@.len());
                proof {
                    let framing = http_front::framing_of_fields(http_front::fields_of(head@));
                    relay::lemma_taking(relay::relay_start(framing.body, bodyless), rest@);
                }
                let d = Delivery {
                    stage: Stage::Head { sending: out.len() as u64 },
                    relay,
                    first: seqs::copy_of(part),
                    counts,
                };
                (d, Action::ToPeer(out))
            },
        }
    }

    /// The relay has ended like this.
    fn end(&mut self, how: Ending) -> (r: Action)
        ensures
            (final(self)@, r@) == old(self)@.ended(how),
    {
        self.relay.finish(how, &mut self.counts);
        self.stage = Stage::Over;
        Action::Finish
    }

    /// Nothing more to do here but this.
    fn over(&mut self, last: Action) -> (r: Action)
        ensures
            (final(self)@, r@) == old(self)@.over(last@),
    {
        self.stage = Stage::Over;
        last
    }

    /// The body is gone on with.
    fn go_on(&mut self, late: bool) -> (r: Action)
        requires
            old(self)@.relay.wf(),
            old(self)@.relay.pending == 0,
        ensures
            (final(self)@, r@) == old(self)@.reading(late),
            final(self)@.wf(),
    {
        if self.relay.is_complete() {
            return self.end(Ending::Complete);
        }
        if late {
            return self.end(Ending::Deadline);
        }
        self.stage = Stage::Reading;
        Action::Read { watch_peer: !self.relay.peer_said_all }
    }

    /// How many seconds this response may take once its body is read.
    pub fn lifetime(&self) -> (r: u64)
        ensures
            r == (if self@.relay.body_len is Some {
                relay::FRAMED_LIFETIME
            } else {
                relay::UNFRAMED_LIFETIME
            }),
    {
        self.relay.lifetime()
    }

    /// Can what happened be counted?
    pub fn counts_on(&self, event: &Event) -> (r: bool)
        ensures
            r == self@.can_count(event@),
    {
        match (self.stage, event) {
            (Stage::Reading, Event::BoxSaid(b)) => self.relay.body_len.is_some() || b.len() as u64
                <= u64::MAX - self.relay.sent,
            _ => true,
        }
    }

    /// What to do about what happened.
    pub fn next(&mut self, event: Event, late: bool) -> (r: Action)
        requires
            old(self)@.wf(),
            old(self)@.can_count(event@),
        ensures
            (final(self)@, r@) == old(self)@.step(event@, late),
            final(self)@.wf(),
    {
        match (self.stage, event) {
            (Stage::Refusing { sending }, Event::Wrote) => {
                self.counts.relayed(sending);
                self.over(Action::Finish)
            },
            (Stage::Refusing { .. }, _) => self.over(Action::Finish),
            (Stage::Head { sending }, Event::Wrote) => {
                self.counts.relayed(sending);
                self.stage = Stage::First;
                Action::ToPeer(seqs::copy_of(self.first.as_slice()))
            },
            (Stage::First, Event::Wrote) => {
                self.relay.passed_on(&mut self.counts);
                self.go_on(late)
            },
            (Stage::Sending, Event::Wrote) => {
                self.relay.passed_on(&mut self.counts);
                self.go_on(late)
            },
            (Stage::Sending, Event::PeerStalled) => self.end(Ending::PeerStalled),
            (Stage::Sending, Event::PeerFailed) => self.end(Ending::PeerFailed),
            (Stage::Reading, Event::BoxSaid(b)) => {
                let take: usize = self.relay.from_box(b.as_slice());
                self.stage = Stage::Sending;
                let part = slice_subrange(b.as_slice(), 0, take);
                assert(part@ == b@.take(take as int));
                Action::ToPeer(seqs::copy_of(part))
            },
            (Stage::Reading, Event::BoxClosed) => self.end(Ending::BoxClosed),
            (Stage::Reading, Event::BoxFailed) => self.end(Ending::BoxFailed),
            (Stage::Reading, Event::BoxQuiet) => self.end(Ending::BoxQuiet),
            (Stage::Reading, Event::PeerFailed) => self.end(Ending::PeerFailed),
            (Stage::Reading, Event::PeerSaid) => self.go_on(late),
            (Stage::Reading, Event::PeerClosed) => {
                self.relay.peer_closed();
                self.go_on(late)
            },
            // A visitor that is gone before the body has begun.
            _ => self.over(Action::Drop),
        }
    }
}

/// A response, after some events: where it stands, what was to be done last, and
/// all that was written to the visitor.
pub struct Course {
    pub at: DeliveryView,
    pub action: ActionView,
    pub delivered: Seq<u8>,
}

/// The course of a response that begins like this, through these events, each
/// with whether the time was up.
pub open spec fn course(start: (DeliveryView, ActionView), events: Seq<(EventView, bool)>) -> Course
    decreases events.len(),
{
    if events.len() == 0 {
        Course { at: start.0, action: start.1, delivered: Seq::empty() }
    } else {
        let before = course(start, events.drop_last());
        let (event, late) = events.last();
        let (at, action) = before.at.step(event, late);
        Course {
            at,
            action,
            delivered: match (event, before.action) {
                (EventView::Wrote, ActionView::ToPeer(b)) => before.delivered + b,
                _ => before.delivered,
            },
        }
    }
}

/// Each event of a course can be counted when it comes.
pub open spec fn countable(start: (DeliveryView, ActionView), events: Seq<(EventView, bool)>) -> bool
    decreases events.len(),
{
    events.len() == 0 || {
        &&& countable(start, events.drop_last())
        &&& course(start, events.drop_last()).at.can_count(events.last().0)
    }
}

/// How many bytes are on their way to the visitor.
pub open spec fn on_its_way(d: DeliveryView) -> u64 {
    match d.stage {
        Stage::Refusing { sending } => sending,
        Stage::Head { sending } => sending,
        Stage::First => d.relay.pending,
        Stage::Sending => d.relay.pending,
        _ => 0,
    }
}

/// What is to be done goes with where a response stands: what is to be written
/// is what is on its way.
pub open spec fn in_step(d: DeliveryView, action: ActionView) -> bool {
    &&& d.wf()
    &&& match d.stage {
        Stage::Over => action is Finish || action is Drop,
        Stage::Reading => action is Read,
        _ => action is ToPeer && action->ToPeer_0.len() == on_its_way(d),
    }
    &&& (d.stage is Head ==> d.first.len() == d.relay.pending && d.relay.sent == 0)
}

/// One event keeps a response in step, and counts what was written.
proof fn lemma_step(d: DeliveryView, action: ActionView, event: EventView, late: bool)
    requires
        in_step(d, action),
        d.can_count(event),
    ensures
        ({
            let (after, next) = d.step(event, late);
            &&& in_step(after, next)
            &&& after.counts.to_box == d.counts.to_box
            &&& after.counts.to_peer == (if event is Wrote && action is ToPeer {
                d.counts.to_peer.wrapping_add(on_its_way(d))
            } else {
                d.counts.to_peer
            })
        }),
{
    if let (Stage::Reading, EventView::BoxSaid(b)) = (d.stage, event) {
        relay::lemma_taking(d.relay, b);
    }
}

/// The bytes counted for a visitor are the bytes that were written to them:
/// those of the head, or of the answer on the box's behalf, and those of the
/// body.
pub proof fn law_every_byte_of_a_response_is_counted(
    start: (DeliveryView, ActionView),
    events: Seq<(EventView, bool)>,
)
    requires
        in_step(start.0, start.1),
        countable(start, events),
        course(start, events).delivered.len() <= u64::MAX,
    ensures
        ({
            let c = course(start, events);
            &&& in_step(c.at, c.action)
            &&& c.at.counts.to_box == start.0.counts.to_box
            &&& c.at.counts.to_peer == start.0.counts.to_peer.wrapping_add(
                c.delivered.len() as u64,
            )
        }),
    decreases events.len(),
{
    if events.len() > 0 {
        let front = events.drop_last();
        let before = course(start, front);
        let (event, late) = events.last();
        assert(before.delivered.len() <= course(start, events).delivered.len());
        law_every_byte_of_a_response_is_counted(start, front);
        lemma_step(before.at, before.action, event, late);
    }
}

/// What the box has said of a body: what came with the head, and then each read.
pub open spec fn heard(rest: Seq<u8>, events: Seq<(EventView, bool)>) -> Seq<u8>
    decreases events.len(),
{
    if events.len() == 0 {
        rest
    } else {
        match events.last().0 {
            EventView::BoxSaid(b) => heard(rest, events.drop_last()) + b,
            _ => heard(rest, events.drop_last()),
        }
    }
}

/// How a course stands to what the box has said: `body` is what was delivered
/// behind the head.
spec fn follows(c: Course, out: Seq<u8>, said: Seq<u8>) -> bool {
    let r = c.at.relay;
    let n = r.sent + r.pending;
    match c.at.stage {
        Stage::Head { .. } => {
            &&& c.delivered.len() == 0
            &&& c.action == ActionView::ToPeer(out)
            &&& r.sent == 0
            &&& n <= said.len()
            &&& c.at.first == said.take(n)
            &&& n < said.len() ==> r.passed().complete()
        },
        Stage::First | Stage::Sending => {
            &&& n <= said.len()
            &&& c.delivered == out + said.take(r.sent as int)
            &&& c.action == ActionView::ToPeer(said.subrange(r.sent as int, n))
            &&& n < said.len() ==> r.passed().complete()
        },
        Stage::Reading => {
            &&& r.pending == 0
            &&& r.sent == said.len()
            &&& c.delivered == out + said
        },
        Stage::Over => c.delivered.is_prefix_of(out + said),
        Stage::Refusing { .. } => false,
    }
}

/// A prefix of a text is a prefix of a longer one.
proof fn lemma_prefix(d: Seq<u8>, out: Seq<u8>, said: Seq<u8>, more: Seq<u8>, n: int)
    requires
        0 <= n <= said.len(),
        d == out + said.take(n),
    ensures
        d.is_prefix_of(out + said),
        d.is_prefix_of(out + (said + more)),
{
    assert(d =~= (out + said).subrange(0, d.len() as int));
    assert(d =~= (out + (said + more)).subrange(0, d.len() as int));
}

/// A response that has been given out goes on following what the box says.
proof fn lemma_follows(
    c: Course,
    out: Seq<u8>,
    said: Seq<u8>,
    event: EventView,
    late: bool,
)
    requires
        in_step(c.at, c.action),
        c.at.can_count(event),
        follows(c, out, said),
    ensures
        ({
            let (at, action) = c.at.step(event, late);
            let next = Course {
                at,
                action,
                delivered: match (event, c.action) {
                    (EventView::Wrote, ActionView::ToPeer(b)) => c.delivered + b,
                    _ => c.delivered,
                },
            };
            let after = match event {
                EventView::BoxSaid(b) => said + b,
                _ => said,
            };
            follows(next, out, after)
        }),
{
    let r = c.at.relay;
    let n = r.sent + r.pending;
    let none = Seq::<u8>::empty();
    let (at, action) = c.at.step(event, late);
    let more = match event {
        EventView::BoxSaid(b) => b,
        _ => none,
    };
    assert(said + none =~= said);
    match c.at.stage {
        Stage::Head { .. } => {
            assert(said.take(0) =~= none);
            assert(out + none =~= out);
            assert(none + out =~= out);
            assert(c.delivered =~= none);
            if event is Wrote {
                assert(said.subrange(0, n) =~= said.take(n));
                assert(c.delivered + out =~= out + said.take(0));
            } else {
                assert(c.delivered =~= (out + (said + more)).subrange(0, 0));
            }
        },
        Stage::First | Stage::Sending => {
            let part = said.subrange(r.sent as int, n);
            assert(c.delivered + part =~= out + said.take(n));
            lemma_prefix(c.delivered, out, said, more, r.sent as int);
            if event is Wrote {
                lemma_prefix(c.delivered + part, out, said, more, n);
                if n == said.len() {
                    assert(said.take(n) =~= said);
                }
            }
        },
        Stage::Reading => {
            assert(said.take(said.len() as int) =~= said);
            lemma_prefix(c.delivered, out, said, more, said.len() as int);
            if let EventView::BoxSaid(b) = event {
                relay::lemma_taking(r, b);
                let take = r.taking(b).1 as int;
                let after = said + b;
                assert(after.take(said.len() as int) =~= said);
                assert(after.subrange(said.len() as int, said.len() + take) =~= b.take(take));
            }
        },
        Stage::Over => {
            let d = c.delivered;
            assert(d =~= (out + (said + more)).subrange(0, d.len() as int)) by {
                assert(d == (out + said).subrange(0, d.len() as int));
                assert((out + (said + more)).subrange(0, d.len() as int) =~= (out
                    + said).subrange(0, d.len() as int));
            }
        },
        _ => {},
    }
}

/// What a visitor gets of a response is its head as it goes out, and then what
/// the box said, as it came: a prefix of it, and no more than belongs. Every byte
/// of that is counted.
pub proof fn law_a_response_goes_as_it_came(
    head: Seq<u8>,
    rest: Seq<u8>,
    bodyless: bool,
    counts: Counters,
    events: Seq<(EventView, bool)>,
)
    requires
        http_front::well_formed(head),
        relay::sanitised(head).len() <= u64::MAX,
        rest.len() <= u64::MAX,
        countable(begun(head, rest, true, bodyless, counts), events),
    ensures
        ({
            let c = course(begun(head, rest, true, bodyless, counts), events);
            &&& c.delivered.is_prefix_of(relay::sanitised(head) + heard(rest, events))
            &&& c.delivered.len() <= u64::MAX ==> c.at.counts.to_peer
                == counts.to_peer.wrapping_add(c.delivered.len() as u64)
        }),
{
    let start = begun(head, rest, true, bodyless, counts);
    let framing = http_front::framing_of_fields(http_front::fields_of(head));
    relay::lemma_taking(relay::relay_start(framing.body, bodyless), rest);
    lemma_course_follows(head, rest, bodyless, counts, events);
    let c = course(start, events);
    let out = relay::sanitised(head);
    let said = heard(rest, events);
    match c.at.stage {
        Stage::Head { .. } => {
            assert(c.delivered =~= (out + said).subrange(0, 0));
        },
        Stage::First | Stage::Sending => {
            lemma_prefix(c.delivered, out, said, Seq::empty(), c.at.relay.sent as int);
        },
        Stage::Reading => {
            assert(said.take(said.len() as int) =~= said);
            lemma_prefix(c.delivered, out, said, Seq::empty(), said.len() as int);
        },
        _ => {},
    }
    if c.delivered.len() <= u64::MAX {
        law_every_byte_of_a_response_is_counted(start, events);
    }
}

/// The course of a response follows what the box says.
proof fn lemma_course_follows(
    head: Seq<u8>,
    rest: Seq<u8>,
    bodyless: bool,
    counts: Counters,
    events: Seq<(EventView, bool)>,
)
    requires
        http_front::well_formed(head),
        relay::sanitised(head).len() <= u64::MAX,
        rest.len() <= u64::MAX,
        countable(begun(head, rest, true, bodyless, counts), events),
    ensures
        ({
            let c = course(begun(head, rest, true, bodyless, counts), events);
            in_step(c.at, c.action) && follows(c, relay::sanitised(head), heard(rest, events))
        }),
    decreases events.len(),
{
    let start = begun(head, rest, true, bodyless, counts);
    let framing = http_front::framing_of_fields(http_front::fields_of(head));
    relay::lemma_taking(relay::relay_start(framing.body, bodyless), rest);
    if events.len() > 0 {
        let front = events.drop_last();
        let before = course(start, front);
        let (event, late) = events.last();
        lemma_course_follows(head, rest, bodyless, counts, front);
        lemma_step(before.at, before.action, event, late);
        lemma_follows(before, relay::sanitised(head), heard(rest, front), event, late);
    }
}

} // verus!
