//! One request into the box and one response back, and then no more.
//!
//! This is where the one-request rule is enforced. Adding `Connection: close`
//! to the request asks the box to hang up, and the box runs agent-written code
//! that may decline; a proxy that then kept copying would hold an ungated pipe
//! on which a second request would reach the box without having been looked at. So
//! the client's side is *forwarded* for exactly the bytes this request declared
//! and not one more.
//!
//! The exception is a real upgrade, checked rather than believed: the box has
//! to answer `101` before the connection becomes a two-way pipe.
use vstd::prelude::*;
use vstd::slice::slice_subrange;

use crate::chunked;
use crate::chunked::{ChunkReader, ChunkStep};
use crate::gate;
use crate::gate::Refusal;
use crate::http_front;
use crate::http_front::{Counters, Forwarded};
use crate::relay;
use crate::relay::Watch;
use crate::seqs;

verus! {

/// The most of a chunked body that is read at a time.
pub const CHUNK_READ: u64 = 8192;

/// What of a request decides how it is forwarded.
#[derive(Debug, Clone, Copy, PartialEq, Eq, Structural)]
pub struct Plan {
    pub upgrade: bool,
    pub expects_continue: bool,
    pub chunked: bool,
    /// How long the body is that a length declares.
    pub want: u64,
}

/// How far an exchange has got, and how many bytes are being written.
#[derive(Debug, Clone, Copy, PartialEq, Eq, Structural)]
pub enum Stage {
    /// Nothing has been done.
    Start,
    /// The peer is being told to continue.
    Continue,
    /// The box is being sent the head.
    Head,
    /// A body of declared length, of which this much is left.
    Length { left: u64, sending: u64 },
    /// A chunked body.
    Chunked { sending: u64 },
    /// The box's answer is being read.
    Answer,
    /// The peer is being sent an interim head.
    Interim { sending: u64 },
    /// The peer is being sent a `101` and what came with it.
    Switching { sending: u64 },
    /// The box is being sent what the peer said behind its handshake.
    Tail { sending: u64 },
    /// The peer is being answered on the box's behalf.
    Refusing { sending: u64 },
    /// There is nothing more to do here.
    Over,
}

/// What happened.
#[derive(Debug)]
pub enum Event {
    /// Nothing yet.
    Begin,
    /// The write went through.
    Wrote,
    /// The write to the peer did not.
    PeerLost,
    /// The write to the box did not: nothing moved for too long.
    BoxStalled,
    /// The write to the box did not: the box closed its read side.
    BoxClosed,
    /// The peer sent these bytes; none is an end of stream.
    PeerSaid(Vec<u8>),
    /// The peer paused for too long.
    PeerIdle,
    /// Reading from the peer failed, because the connection timed out or for
    /// some other reason.
    PeerFailed { timed_out: bool },
    /// The box sent these bytes; none is an end of stream, a failure or a
    /// deadline.
    BoxSaid(Vec<u8>),
    /// The box has answered while the peer was still sending.
    Answered,
}

/// How a write went.
#[derive(Debug, Clone, Copy, PartialEq, Eq, Structural)]
pub enum Written {
    Done,
    /// Nothing moved for too long.
    Stalled,
    /// The other side was gone.
    Failed,
}

impl Event {
    /// What a write amounts to.
    ///
    /// A stalled write is the same whichever direction it went, and the two
    /// directions deserve opposite answers: a peer that stopped reading gets
    /// nothing more, a *box* that stopped reading is a `502`, and a box that
    /// *closed* has its answer waiting in the socket.
    pub fn of_write(to_box: bool, how: Written) -> (r: Event)
        ensures
            r == (match (to_box, how) {
                (_, Written::Done) => Event::Wrote,
                (true, Written::Stalled) => Event::BoxStalled,
                (true, Written::Failed) => Event::BoxClosed,
                (false, _) => Event::PeerLost,
            }),
    {
        match (to_box, how) {
            (_, Written::Done) => Event::Wrote,
            (true, Written::Stalled) => Event::BoxStalled,
            (true, Written::Failed) => Event::BoxClosed,
            (false, _) => Event::PeerLost,
        }
    }
}

/// An [`Event`] with its bytes as a sequence.
pub enum EventView {
    Begin,
    Wrote,
    PeerLost,
    BoxStalled,
    BoxClosed,
    PeerSaid(Seq<u8>),
    PeerIdle,
    PeerFailed { timed_out: bool },
    BoxSaid(Seq<u8>),
    Answered,
}

impl View for Event {
    type V = EventView;

    open spec fn view(&self) -> EventView {
        match self {
            Event::Begin => EventView::Begin,
            Event::Wrote => EventView::Wrote,
            Event::PeerLost => EventView::PeerLost,
            Event::BoxStalled => EventView::BoxStalled,
            Event::BoxClosed => EventView::BoxClosed,
            Event::PeerSaid(b) => EventView::PeerSaid(b@),
            Event::PeerIdle => EventView::PeerIdle,
            Event::PeerFailed { timed_out } => EventView::PeerFailed { timed_out: *timed_out },
            Event::BoxSaid(b) => EventView::BoxSaid(b@),
            Event::Answered => EventView::Answered,
        }
    }
}

/// What to do about it.
#[derive(Debug)]
pub enum Action {
    /// Write these bytes to the peer.
    ToPeer(Vec<u8>),
    /// Write these bytes to the box.
    ToBox(Vec<u8>),
    /// Read at most this much from the peer, with an eye on the box's answer.
    FromPeer(u64),
    /// Read from the box.
    FromBox,
    /// Learn the cookies of this head, and write the bytes behind it to the
    /// peer.
    Interim { head: Vec<u8>, cleaned: Vec<u8> },
    /// Learn the cookies of this head, and write the bytes behind it to the
    /// peer: the connection changes protocols.
    Switch { head: Vec<u8>, out: Vec<u8> },
    /// Answer the peer on the box's behalf.
    Refuse(String),
    /// Learn the cookies of this head, which is no head to change protocols
    /// with, and answer the peer on the box's behalf.
    RefuseSwitch { head: Vec<u8>, reply: String },
    /// Learn the cookies of this head, and relay the response that it begins.
    Relay { head: Vec<u8>, rest: Vec<u8>, complete: bool, bodyless: bool },
    /// Finish with the peer.
    Finish,
    /// Move bytes both ways until an end closes.
    Duplex,
    /// Let the connection go.
    Drop,
}

/// An [`Action`] with its bytes and texts as sequences.
pub enum ActionView {
    ToPeer(Seq<u8>),
    ToBox(Seq<u8>),
    FromPeer(u64),
    FromBox,
    Interim { head: Seq<u8>, cleaned: Seq<u8> },
    Switch { head: Seq<u8>, out: Seq<u8> },
    Refuse(Seq<char>),
    RefuseSwitch { head: Seq<u8>, reply: Seq<char> },
    Relay { head: Seq<u8>, rest: Seq<u8>, complete: bool, bodyless: bool },
    Finish,
    Duplex,
    Drop,
}

impl View for Action {
    type V = ActionView;

    open spec fn view(&self) -> ActionView {
        match self {
            Action::ToPeer(b) => ActionView::ToPeer(b@),
            Action::ToBox(b) => ActionView::ToBox(b@),
            Action::FromPeer(n) => ActionView::FromPeer(*n),
            Action::FromBox => ActionView::FromBox,
            Action::Interim { head, cleaned } => ActionView::Interim {
                head: head@,
                cleaned: cleaned@,
            },
            Action::Switch { head, out } => ActionView::Switch { head: head@, out: out@ },
            Action::Refuse(s) => ActionView::Refuse(s@),
            Action::RefuseSwitch { head, reply } => ActionView::RefuseSwitch {
                head: head@,
                reply: reply@,
            },
            Action::Relay { head, rest, complete, bodyless } => ActionView::Relay {
                head: head@,
                rest: rest@,
                complete: *complete,
                bodyless: *bodyless,
            },
            Action::Finish => ActionView::Finish,
            Action::Duplex => ActionView::Duplex,
            Action::Drop => ActionView::Drop,
        }
    }
}

/// One request on its way into the box, and the head of its answer.
#[derive(Debug)]
pub struct Exchange {
    pub plan: Plan,
    pub method: String,
    /// The head that the box gets.
    pub head: Vec<u8>,
    /// What came with the peer's head: the start of the body.
    pub rest: Vec<u8>,
    pub stage: Stage,
    pub reader: ChunkReader,
    /// What the box has said and nobody has looked at.
    pub early: Vec<u8>,
    /// How many interim heads have gone to the peer.
    pub interim: usize,
    pub counts: Counters,
}

/// An [`Exchange`] with its bytes and texts as sequences.
pub struct ExchangeView {
    pub plan: Plan,
    pub method: Seq<char>,
    pub head: Seq<u8>,
    pub rest: Seq<u8>,
    pub stage: Stage,
    pub reader: chunked::ReaderView,
    pub early: Seq<u8>,
    pub interim: nat,
    pub counts: Counters,
}

impl View for Exchange {
    type V = ExchangeView;

    open spec fn view(&self) -> ExchangeView {
        ExchangeView {
            plan: self.plan,
            method: self.method@,
            head: self.head@,
            rest: self.rest@,
            stage: self.stage,
            reader: self.reader@,
            early: self.early@,
            interim: self.interim as nat,
            counts: self.counts,
        }
    }
}

/// The interim answer that lets a waiting peer send its body.
pub open spec fn continue_line() -> Seq<u8> {
    vstd::utf8::encode_utf8("HTTP/1.1 100 Continue\r\n\r\n"@)
}

impl ExchangeView {
    /// How much of what came with the head belongs to the body.
    pub open spec fn from_rest(self) -> nat {
        if self.plan.chunked || self.rest.len() <= self.plan.want {
            self.rest.len()
        } else {
            self.plan.want as nat
        }
    }

    /// Nothing more to do here but this.
    pub open spec fn over(self, last: ActionView) -> (ExchangeView, ActionView) {
        (ExchangeView { stage: Stage::Over, ..self }, last)
    }

    /// The peer is answered on the box's behalf.
    pub open spec fn refusing(self, reply: Seq<char>) -> (ExchangeView, ActionView) {
        (self.answering_with(reply), ActionView::Refuse(reply))
    }

    /// This answer is on its way to the peer.
    pub open spec fn answering_with(self, reply: Seq<char>) -> ExchangeView {
        ExchangeView {
            stage: Stage::Refusing { sending: vstd::utf8::encode_utf8(reply).len() as u64 },
            ..self
        }
    }

    /// So many more bytes have gone to the box.
    pub open spec fn sent_to_box(self, n: u64) -> ExchangeView {
        ExchangeView {
            counts: self.counts.after_forwarding(n),
            ..self
        }
    }

    /// So many more bytes have gone to the peer.
    pub open spec fn sent_to_peer(self, n: u64) -> ExchangeView {
        ExchangeView {
            counts: self.counts.after_relaying(n),
            ..self
        }
    }

    /// What a head of the box leads to. `self.early` is what came behind it.
    #[verifier::opaque]
    pub open spec fn with_head(self, head: Seq<u8>, complete: bool) -> (ExchangeView, ActionView) {
        let cleaned = http_front::rebuilt(http_front::Sieve::ShareCookies, head, Seq::empty());
        if complete && http_front::informational(head) {
            if !http_front::well_formed(head) {
                self.refusing(relay::malformed_head_text())
            } else {
                (
                    ExchangeView { stage: Stage::Interim { sending: cleaned.len() as u64 }, ..self },
                    ActionView::Interim { head, cleaned },
                )
            }
        } else if self.plan.upgrade && head.len() == 0 && !complete {
            self.refusing(relay::unreachable_box_text())
        } else if self.plan.upgrade && complete && http_front::status_of(head) == Some(101nat) {
            if !http_front::well_formed(head) {
                let reply = relay::malformed_head_text();
                (self.answering_with(reply), ActionView::RefuseSwitch { head, reply })
            } else {
                let out = cleaned + self.early;
                (
                    ExchangeView { stage: Stage::Switching { sending: out.len() as u64 }, ..self },
                    ActionView::Switch { head, out },
                )
            }
        } else {
            self.over(
                ActionView::Relay {
                    head,
                    rest: self.early,
                    complete,
                    bodyless: http_front::bodyless(self.method, head),
                },
            )
        }
    }

    /// What the box has said so far leads to.
    #[verifier::opaque]
    pub open spec fn answering(self) -> (ExchangeView, ActionView) {
        match http_front::head_end(self.early) {
            Some(n) => ExchangeView { early: self.early.skip(n), ..self }.with_head(
                self.early.take(n),
                true,
            ),
            None => if self.early.len() > relay::MAX_RESPONSE_HEAD {
                ExchangeView { early: Seq::empty(), ..self }.with_head(self.early, false)
            } else {
                (ExchangeView { stage: Stage::Answer, ..self }, ActionView::FromBox)
            },
        }
    }

    /// The next part of a body of declared length.
    pub open spec fn length_next(self, left: u64, late: bool) -> (ExchangeView, ActionView) {
        if left == 0 {
            self.answering()
        } else if late {
            self.refusing(relay::timed_out_text())
        } else {
            (
                ExchangeView { stage: Stage::Length { left, sending: 0 }, ..self },
                ActionView::FromPeer(
                    if left < relay::READ_SIZE {
                        left
                    } else {
                        relay::READ_SIZE
                    },
                ),
            )
        }
    }

    /// The next part of a chunked body.
    #[verifier::opaque]
    pub open spec fn chunk_next(self, late: bool) -> (ExchangeView, ActionView) {
        let (reader, step) = chunked::step(self.reader, late);
        let v = ExchangeView { reader, ..self };
        match step {
            chunked::StepView::Send(b) => (
                ExchangeView { stage: Stage::Chunked { sending: b.len() as u64 }, ..v },
                ActionView::ToBox(b),
            ),
            chunked::StepView::Fill => (
                ExchangeView { stage: Stage::Chunked { sending: 0 }, ..v },
                ActionView::FromPeer(CHUNK_READ),
            ),
            chunked::StepView::Ended => v.answering(),
            chunked::StepView::TooLate => v.refusing(relay::timed_out_text()),
            chunked::StepView::Refused => v.refusing(gate::refusal_text(Refusal::Malformed)),
        }
    }

    /// The start of the body.
    pub open spec fn begin_body(self, late: bool) -> (ExchangeView, ActionView) {
        if self.plan.chunked {
            self.chunk_next(late)
        } else if self.from_rest() > 0 {
            let n = self.from_rest() as u64;
            (
                ExchangeView {
                    stage: Stage::Length { left: self.plan.want, sending: n },
                    ..self
                },
                ActionView::ToBox(self.rest.take(n as int)),
            )
        } else {
            self.length_next(self.plan.want, late)
        }
    }

    /// What to do about what happened, and what is so after that. `late` is
    /// whether the body's time is up.
    pub open spec fn step(self, event: EventView, late: bool) -> (ExchangeView, ActionView) {
        let to_head = (
            ExchangeView { stage: Stage::Head, ..self },
            ActionView::ToBox(self.head),
        );
        match (self.stage, event) {
            (Stage::Start, EventView::Begin) => if self.plan.expects_continue {
                (
                    ExchangeView { stage: Stage::Continue, ..self },
                    ActionView::ToPeer(continue_line()),
                )
            } else {
                to_head
            },
            (Stage::Continue, EventView::Wrote) => {
                let v = self.sent_to_peer(continue_line().len() as u64);
                (ExchangeView { stage: Stage::Head, ..v }, ActionView::ToBox(v.head))
            },
            (Stage::Head, EventView::Wrote) => self.sent_to_box(
                self.head.len() as u64,
            ).begin_body(late),
            (Stage::Head, EventView::BoxStalled) => self.refusing(relay::unreachable_box_text()),
            (Stage::Head, EventView::BoxClosed) => self.refusing(relay::unreachable_box_text()),
            (Stage::Length { left, sending }, EventView::Wrote) => self.sent_to_box(
                sending,
            ).length_next((left - sending) as u64, late),
            (Stage::Length { .. }, EventView::BoxStalled) => self.refusing(relay::unreachable_box_text()),
            (Stage::Length { .. }, EventView::BoxClosed) => self.answering(),
            (Stage::Length { left, sending }, EventView::PeerSaid(b)) => if b.len() == 0 || sending
                != 0 {
                self.over(ActionView::Drop)
            } else {
                let n = if b.len() < left {
                    b.len() as u64
                } else {
                    left
                };
                (
                    ExchangeView { stage: Stage::Length { left, sending: n }, ..self },
                    ActionView::ToBox(b.take(n as int)),
                )
            },
            (Stage::Length { .. }, EventView::PeerIdle) => self.refusing(relay::timed_out_text()),
            (Stage::Length { .. }, EventView::Answered) => self.answering(),
            (Stage::Chunked { sending }, EventView::Wrote) => self.sent_to_box(
                sending,
            ).chunk_next(late),
            (Stage::Chunked { .. }, EventView::BoxStalled) => self.refusing(relay::unreachable_box_text()),
            (Stage::Chunked { .. }, EventView::BoxClosed) => self.answering(),
            (Stage::Chunked { .. }, EventView::PeerSaid(b)) => if b.len() == 0 {
                self.refusing(gate::refusal_text(Refusal::Malformed))
            } else {
                ExchangeView {
                    reader: chunked::ReaderView { buf: self.reader.buf + b, ..self.reader },
                    ..self
                }.chunk_next(late)
            },
            (Stage::Chunked { .. }, EventView::PeerIdle) => self.refusing(relay::timed_out_text()),
            (Stage::Chunked { .. }, EventView::PeerFailed { timed_out }) => self.refusing(
                if timed_out {
                    relay::timed_out_text()
                } else {
                    gate::refusal_text(Refusal::Malformed)
                },
            ),
            (Stage::Chunked { .. }, EventView::Answered) => self.answering(),
            (Stage::Answer, EventView::BoxSaid(b)) => if b.len() == 0 {
                ExchangeView { early: Seq::empty(), ..self }.with_head(self.early, false)
            } else {
                ExchangeView { early: self.early + b, ..self }.answering()
            },
            (Stage::Interim { sending }, EventView::Wrote) => {
                let v = ExchangeView {
                    interim: self.interim + 1,
                    ..self.sent_to_peer(sending)
                };
                if v.interim >= relay::MAX_INTERIM_RESPONSES {
                    v.over(ActionView::Finish)
                } else {
                    v.answering()
                }
            },
            (Stage::Switching { sending }, EventView::Wrote) => {
                let v = self.sent_to_peer(sending);
                let tail = self.rest.skip(self.from_rest() as int);
                if tail.len() > 0 {
                    (
                        ExchangeView { stage: Stage::Tail { sending: tail.len() as u64 }, ..v },
                        ActionView::ToBox(tail),
                    )
                } else {
                    v.over(ActionView::Duplex)
                }
            },
            (Stage::Tail { sending }, EventView::Wrote) => self.sent_to_box(sending).over(
                ActionView::Duplex,
            ),
            // Answered or not, there is nothing more to say.
            (Stage::Refusing { sending }, EventView::Wrote) => self.sent_to_peer(sending).over(
                ActionView::Finish,
            ),
            (Stage::Refusing { .. }, _) => self.over(ActionView::Finish),
            // A peer that is gone, or a connection that failed.
            _ => self.over(ActionView::Drop),
        }
    }

    /// What is being sent is part of what is left, only a chunked body is read
    /// as one, the reader has data left where it is passing data, and there is
    /// room for one more interim head.
    pub open spec fn wf(self) -> bool {
        &&& (self.stage matches Stage::Length { left, sending } ==> sending <= left)
        &&& (self.stage is Chunked ==> self.plan.chunked)
        &&& (self.reader.phase matches chunked::Phase::Data(n) ==> n > 0)
        &&& (!(self.stage is Over) ==> self.interim < relay::MAX_INTERIM_RESPONSES)
    }
}

impl Exchange {
    /// An exchange of which nothing has been done. The box gets the rewritten
    /// head of the request, and then its body.
    pub fn new(request: &Forwarded) -> (r: Exchange)
        ensures
            r@ == (ExchangeView {
                plan: Plan {
                    upgrade: request.req.upgrade,
                    expects_continue: request.req.expects_continue,
                    chunked: request.req.chunked,
                    want: match request.req.content_length {
                        Some(n) => n,
                        None => 0,
                    },
                },
                method: request.req.method@,
                head: vstd::utf8::encode_utf8(request.head@),
                rest: request.rest@,
                stage: Stage::Start,
                reader: chunked::ReaderView {
                    buf: request.rest@,
                    phase: chunked::Phase::Size,
                    trailer_bytes: 0,
                    checked: false,
                },
                early: Seq::empty(),
                interim: 0,
                counts: Counters { to_box: 0, to_peer: 0, truncated: false },
            }),
            r@.wf(),
    {
        let want: u64 = match request.req.content_length {
            Some(n) => n,
            None => 0,
        };
        let r = Exchange {
            plan: Plan {
                upgrade: request.req.upgrade,
                expects_continue: request.req.expects_continue,
                chunked: request.req.chunked,
                want,
            },
            method: request.req.method.clone(),
            head: seqs::copy_of(request.head.as_bytes()),
            rest: seqs::copy_of(request.rest),
            stage: Stage::Start,
            reader: ChunkReader::new(request.rest),
            early: Vec::new(),
            interim: 0,
            counts: Counters { to_box: 0, to_peer: 0, truncated: false },
        };
        assert(r.early@ == Seq::<u8>::empty());
        r
    }

    /// Bytes that the box said while the peer was still sending, or its end.
    pub fn watch(&mut self, heard: &[u8], closed: bool) -> (r: Watch)
        ensures
            final(self)@ == (ExchangeView { early: old(self)@.early + heard@, ..old(self)@ }),
            r == if closed || (old(self)@.early + heard@).len() > relay::MAX_RESPONSE_HEAD {
                Watch::Park
            } else if relay::holds_final_head(old(self)@.early + heard@) {
                Watch::Answered
            } else {
                Watch::Read
            },
    {
        relay::watch_for_final_response(&mut self.early, heard, closed)
    }

    /// Nothing more to do here but this.
    fn over(&mut self, last: Action) -> (r: Action)
        ensures
            (final(self)@, r@) == old(self)@.over(last@),
    {
        self.stage = Stage::Over;
        last
    }

    /// The peer is answered on the box's behalf.
    fn refusing(&mut self, reply: String) -> (r: Action)
        ensures
            (final(self)@, r@) == old(self)@.refusing(reply@),
    {
        self.answering_with(&reply);
        Action::Refuse(reply)
    }

    /// This answer is on its way to the peer.
    fn answering_with(&mut self, reply: &String)
        ensures
            final(self)@ == old(self)@.answering_with(reply@),
    {
        let bytes: &[u8] = reply.as_str().as_bytes();
        self.stage = Stage::Refusing { sending: bytes.len() as u64 };
    }

    fn sent_to_box(&mut self, n: u64)
        ensures
            final(self)@ == old(self)@.sent_to_box(n),
    {
        self.counts.forwarded(n);
    }

    fn sent_to_peer(&mut self, n: u64)
        ensures
            final(self)@ == old(self)@.sent_to_peer(n),
    {
        self.counts.relayed(n);
    }

    /// What a head of the box leads to.
    fn with_head(&mut self, head: Vec<u8>, complete: bool) -> (r: Action)
        requires
            old(self)@.wf(),
            !(old(self)@.stage is Over),
        ensures
            (final(self)@, r@) == old(self)@.with_head(head@, complete),
            final(self)@.wf(),
    {
        reveal(ExchangeView::with_head);
        if complete && http_front::is_informational(head.as_slice()) {
            // Held to the same line discipline as the final head.
            if !http_front::head_is_well_formed(head.as_slice()) {
                return self.refusing(http_front::malformed_head_response());
            }
            // Relayed as it came *except* for the share-cookie filter: an interim
            // head must keep its `Connection`, since the answer has not started.
            let cleaned: Vec<u8> = http_front::strip_share_cookies(head.as_slice());
            self.stage = Stage::Interim { sending: cleaned.len() as u64 };
            return Action::Interim { head, cleaned };
        }
        if self.plan.upgrade && head.len() == 0 && !complete {
            // The box hung up on a handshake without answering it. The same
            // `502` every other silent box gets is at least readable.
            return self.refusing(http_front::unreachable_box_response());
        }
        // Believe the box, not the client. Only a `101` earns a two-way pipe.
        if self.plan.upgrade && complete && http_front::is_switching(head.as_slice()) {
            if !http_front::head_is_well_formed(head.as_slice()) {
                let reply = http_front::malformed_head_response();
                self.answering_with(&reply);
                return Action::RefuseSwitch { head, reply };
            }
            let mut out: Vec<u8> = http_front::strip_share_cookies(head.as_slice());
            seqs::push_all(&mut out, self.early.as_slice());
            self.stage = Stage::Switching { sending: out.len() as u64 };
            return Action::Switch { head, out };
        }
        let bodyless: bool = http_front::has_no_body(self.method.as_str(), head.as_slice());
        let rest: Vec<u8> = seqs::copy_of(self.early.as_slice());
        self.over(Action::Relay { head, rest, complete, bodyless })
    }

    /// What the box has said so far leads to.
    ///
    /// An informational response is a head that is not *the* response: each is
    /// relayed as it came, and the real head is read behind it.
    fn answering(&mut self) -> (r: Action)
        requires
            old(self)@.wf(),
            !(old(self)@.stage is Over),
        ensures
            (final(self)@, r@) == old(self)@.answering(),
            final(self)@.wf(),
    {
        reveal(ExchangeView::answering);
        let ghost before = self.early@;
        match http_front::find_head_end(self.early.as_slice()) {
            Some(n) => {
                let mut head = self.early.split_off(n);
                std::mem::swap(&mut self.early, &mut head);
                proof {
                    assert(head@ == before.take(n as int));
                    assert(self.early@ == before.skip(n as int));
                }
                self.with_head(head, true)
            },
            None => {
                if self.early.len() > relay::MAX_RESPONSE_HEAD {
                    self.unfinished()
                } else {
                    self.stage = Stage::Answer;
                    Action::FromBox
                }
            },
        }
    }

    /// What a head that the box does not finish leads to.
    fn unfinished(&mut self) -> (r: Action)
        requires
            old(self)@.wf(),
            !(old(self)@.stage is Over),
        ensures
            (final(self)@, r@) == (ExchangeView {
                early: Seq::empty(),
                ..old(self)@
            }).with_head(old(self)@.early, false),
            final(self)@.wf(),
    {
        let mut head: Vec<u8> = Vec::new();
        std::mem::swap(&mut self.early, &mut head);
        assert(self.early@ == Seq::<u8>::empty());
        self.with_head(head, false)
    }

    /// The next part of a body of declared length.
    fn length_next(&mut self, left: u64, late: bool) -> (r: Action)
        requires
            old(self)@.wf(),
            !(old(self)@.stage is Over),
        ensures
            (final(self)@, r@) == old(self)@.length_next(left, late),
            final(self)@.wf(),
    {
        if left == 0 {
            return self.answering();
        }
        if late {
            return self.refusing(http_front::timed_out_response());
        }
        self.stage = Stage::Length { left, sending: 0 };
        Action::FromPeer(
            if left < relay::READ_SIZE {
                left
            } else {
                relay::READ_SIZE
            },
        )
    }

    /// The next part of a chunked body.
    ///
    /// "Your request is malformed" and "your upload was too slow" are different
    /// sentences, and the slow one is the common case on a tunnel share.
    fn chunk_next(&mut self, late: bool) -> (r: Action)
        requires
            old(self)@.wf(),
            old(self)@.plan.chunked,
            !(old(self)@.stage is Over),
        ensures
            (final(self)@, r@) == old(self)@.chunk_next(late),
            final(self)@.wf(),
    {
        reveal(ExchangeView::chunk_next);
        proof {
            chunked::law_reader_sends_what_it_read(self.reader@, late);
        }
        match self.reader.next(late) {
            ChunkStep::Send(b) => {
                self.stage = Stage::Chunked { sending: b.len() as u64 };
                Action::ToBox(b)
            },
            ChunkStep::Fill => {
                self.stage = Stage::Chunked { sending: 0 };
                Action::FromPeer(CHUNK_READ)
            },
            ChunkStep::Ended => self.answering(),
            ChunkStep::TooLate => self.refusing(http_front::timed_out_response()),
            ChunkStep::Refused => self.refusing(gate::refusal_response(Refusal::Malformed)),
        }
    }

    /// How much of what came with the head belongs to the body.
    fn from_rest(&self) -> (r: usize)
        ensures
            r == self@.from_rest(),
            r <= self.rest@.len(),
    {
        if self.plan.chunked || self.rest.len() as u64 <= self.plan.want {
            self.rest.len()
        } else {
            self.plan.want as usize
        }
    }

    /// The start of the body: the declared body, and only the declared body.
    fn begin_body(&mut self, late: bool) -> (r: Action)
        requires
            old(self)@.wf(),
            !(old(self)@.stage is Over),
        ensures
            (final(self)@, r@) == old(self)@.begin_body(late),
            final(self)@.wf(),
    {
        if self.plan.chunked {
            return self.chunk_next(late);
        }
        let n: usize = self.from_rest();
        if n > 0 {
            self.stage = Stage::Length { left: self.plan.want, sending: n as u64 };
            let first = slice_subrange(self.rest.as_slice(), 0, n);
            assert(first@ == self.rest@.take(n as int));
            return Action::ToBox(seqs::copy_of(first));
        }
        self.length_next(self.plan.want, late)
    }

    /// What to do about what happened.
    pub fn next(&mut self, event: Event, late: bool) -> (r: Action)
        requires
            old(self)@.wf(),
        ensures
            (final(self)@, r@) == old(self)@.step(event@, late),
            final(self)@.wf(),
    {
        match (self.stage, event) {
            (Stage::Start, Event::Begin) => {
                // A client that said `Expect: 100-continue` is waiting for
                // permission it will never get otherwise: the whole body is
                // forwarded before anything is read from the box. So the proxy
                // answers, and the header is not passed on.
                if self.plan.expects_continue {
                    self.stage = Stage::Continue;
                    return Action::ToPeer(
                        seqs::copy_of("HTTP/1.1 100 Continue\r\n\r\n".as_bytes()),
                    );
                }
                self.stage = Stage::Head;
                Action::ToBox(seqs::copy_of(self.head.as_slice()))
            },
            (Stage::Continue, Event::Wrote) => {
                let line = "HTTP/1.1 100 Continue\r\n\r\n".as_bytes();
                self.sent_to_peer(line.len() as u64);
                self.stage = Stage::Head;
                Action::ToBox(seqs::copy_of(self.head.as_slice()))
            },
            (Stage::Head, Event::Wrote) => {
                let n: u64 = self.head.len() as u64;
                self.sent_to_box(n);
                self.begin_body(late)
            },
            // The box refusing the head at all: wedged, or gone. There is no
            // answer to go and read.
            (Stage::Head, Event::BoxStalled) => self.refusing(http_front::unreachable_box_response()),
            (Stage::Head, Event::BoxClosed) => self.refusing(http_front::unreachable_box_response()),
            (Stage::Length { left, sending }, Event::Wrote) => {
                self.sent_to_box(sending);
                self.length_next(left - sending, late)
            },
            (Stage::Length { .. }, Event::BoxStalled) => self.refusing(http_front::unreachable_box_response()),
            // Not a stall: the box closed its read side, which is what a dev
            // server does when it answers before reading the body. Its answer is
            // already in the socket.
            (Stage::Length { .. }, Event::BoxClosed) => self.answering(),
            (Stage::Length { left, sending }, Event::PeerSaid(b)) => {
                if b.len() == 0 || sending != 0 {
                    // The client promised a body and then hung up.
                    return self.over(Action::Drop);
                }
                let n: u64 = if (b.len() as u64) < left {
                    b.len() as u64
                } else {
                    left
                };
                self.stage = Stage::Length { left, sending: n };
                let first = slice_subrange(b.as_slice(), 0, n as usize);
                assert(first@ == b@.take(n as int));
                Action::ToBox(seqs::copy_of(first))
            },
            (Stage::Length { .. }, Event::PeerIdle) => self.refusing(http_front::timed_out_response()),
            (Stage::Length { .. }, Event::Answered) => self.answering(),
            (Stage::Chunked { sending }, Event::Wrote) => {
                self.sent_to_box(sending);
                self.chunk_next(late)
            },
            (Stage::Chunked { .. }, Event::BoxStalled) => self.refusing(http_front::unreachable_box_response()),
            (Stage::Chunked { .. }, Event::BoxClosed) => self.answering(),
            (Stage::Chunked { .. }, Event::PeerSaid(b)) => {
                if b.len() == 0 {
                    return self.refusing(gate::refusal_response(Refusal::Malformed));
                }
                self.reader.fill(b.as_slice());
                self.chunk_next(late)
            },
            (Stage::Chunked { .. }, Event::PeerIdle) => self.refusing(http_front::timed_out_response()),
            (Stage::Chunked { .. }, Event::PeerFailed { timed_out }) => self.refusing(
                if timed_out {
                    http_front::timed_out_response()
                } else {
                    gate::refusal_response(Refusal::Malformed)
                },
            ),
            (Stage::Chunked { .. }, Event::Answered) => self.answering(),
            (Stage::Answer, Event::BoxSaid(b)) => {
                if b.len() == 0 {
                    return self.unfinished();
                }
                seqs::push_all(&mut self.early, b.as_slice());
                self.answering()
            },
            (Stage::Interim { sending }, Event::Wrote) => {
                self.sent_to_peer(sending);
                // Bounded. A box streaming interim heads forever is not a thing a
                // real server does.
                self.interim = self.interim + 1;
                if self.interim >= relay::MAX_INTERIM_RESPONSES {
                    return self.over(Action::Finish);
                }
                self.answering()
            },
            (Stage::Switching { sending }, Event::Wrote) => {
                self.sent_to_peer(sending);
                // Whatever the client sent in the same read as its handshake: a
                // client that speaks first would otherwise have its opening
                // frames silently dropped.
                let n: usize = self.from_rest();
                if n < self.rest.len() {
                    let tail = slice_subrange(self.rest.as_slice(), n, self.rest.len());
                    assert(tail@ == self.rest@.skip(n as int));
                    self.stage = Stage::Tail { sending: tail.len() as u64 };
                    return Action::ToBox(seqs::copy_of(tail));
                }
                self.over(Action::Duplex)
            },
            (Stage::Tail { sending }, Event::Wrote) => {
                self.sent_to_box(sending);
                self.over(Action::Duplex)
            },
            // Answered or not, there is nothing more to say.
            (Stage::Refusing { sending }, Event::Wrote) => {
                self.sent_to_peer(sending);
                self.over(Action::Finish)
            },
            (Stage::Refusing { .. }, _) => self.over(Action::Finish),
            // A peer that is gone, or a connection that failed.
            _ => self.over(Action::Drop),
        }
    }
}

impl ExchangeView {
    /// How many more bytes of a body of declared length may be handed to the
    /// box.
    pub open spec fn owed(self) -> nat {
        match self.stage {
            Stage::Start => self.plan.want as nat,
            Stage::Continue => self.plan.want as nat,
            Stage::Head => self.plan.want as nat,
            Stage::Length { left, sending } => (left - sending) as nat,
            _ => 0,
        }
    }

    /// How many bytes are on their way to the box.
    pub open spec fn way_to_box(self) -> u64 {
        match self.stage {
            Stage::Head => self.head.len() as u64,
            Stage::Length { sending, .. } => sending,
            Stage::Chunked { sending } => sending,
            Stage::Tail { sending } => sending,
            _ => 0,
        }
    }

    /// How many bytes are on their way to the peer.
    pub open spec fn way_to_peer(self) -> u64 {
        match self.stage {
            Stage::Continue => continue_line().len() as u64,
            Stage::Interim { sending } => sending,
            Stage::Switching { sending } => sending,
            Stage::Refusing { sending } => sending,
            _ => 0,
        }
    }

    /// Is the box's answer being read, or has it been?
    pub open spec fn is_answered(self) -> bool {
        self.stage is Answer || self.stage is Interim || self.stage is Refusing || self.stage is Over
    }
}

/// What looking at what the box has said may lead to: more of it, an interim
/// head, a switch that the box agreed to, or the end. Nothing goes to the box.
pub open spec fn reads_on(v: ExchangeView, after: ExchangeView, action: ActionView) -> bool {
    &&& after.plan == v.plan
    &&& after.head == v.head
    &&& after.rest == v.rest
    &&& after.interim == v.interim
    &&& after.reader == v.reader
    &&& after.counts == v.counts
    &&& match action {
        ActionView::FromBox => after.stage is Answer,
        ActionView::Interim { cleaned, .. } => after.stage == (Stage::Interim {
            sending: cleaned.len() as u64,
        }),
        ActionView::Switch { head, out } => {
            &&& after.stage == (Stage::Switching { sending: out.len() as u64 })
            &&& v.plan.upgrade
            &&& http_front::status_of(head) == Some(101nat)
            &&& http_front::well_formed(head)
            &&& http_front::rebuilt(
                http_front::Sieve::ShareCookies,
                head,
                Seq::empty(),
            ).is_prefix_of(out)
        },
        ActionView::Refuse(reply) => after.stage == (Stage::Refusing {
            sending: vstd::utf8::encode_utf8(reply).len() as u64,
        }),
        ActionView::RefuseSwitch { reply, .. } => after.stage == (Stage::Refusing {
            sending: vstd::utf8::encode_utf8(reply).len() as u64,
        }),
        ActionView::Relay { .. } => after.stage is Over,
        _ => false,
    }
}

/// A head of the box leads on from reading.
proof fn lemma_with_head(v: ExchangeView, head: Seq<u8>, complete: bool)
    ensures
        reads_on(v, v.with_head(head, complete).0, v.with_head(head, complete).1),
{
    reveal(ExchangeView::with_head);
    let cleaned = http_front::rebuilt(http_front::Sieve::ShareCookies, head, Seq::empty());
    assert((cleaned + v.early).subrange(0, cleaned.len() as int) == cleaned);
}

/// What the box has said leads on from reading.
pub proof fn lemma_answering(v: ExchangeView)
    ensures
        reads_on(v, v.answering().0, v.answering().1),
{
    reveal(ExchangeView::answering);
    match http_front::head_end(v.early) {
        Some(n) => {
            lemma_with_head(
                ExchangeView { early: v.early.skip(n), ..v },
                v.early.take(n),
                true,
            );
        },
        None => {
            lemma_with_head(ExchangeView { early: Seq::empty(), ..v }, v.early, false);
        },
    }
}

/// The next part of a chunked body is sent or read, or the body is over and
/// what the box has said is looked at.
pub proof fn lemma_chunk_next(v: ExchangeView, late: bool)
    requires
        v.wf(),
        v.plan.chunked,
        !(v.stage is Over),
    ensures
        ({
            let (after, action) = v.chunk_next(late);
            &&& after.wf()
            &&& after.plan == v.plan
            &&& after.head == v.head
            &&& after.rest == v.rest
            &&& after.interim == v.interim
            &&& after.counts == v.counts
            &&& match action {
                ActionView::ToBox(b) => {
                    &&& chunked::belonging(chunked::place(v.reader.phase), b) == b.len()
                    &&& after.stage == (Stage::Chunked { sending: b.len() as u64 })
                    &&& b + after.reader.buf == v.reader.buf
                    &&& chunked::run(chunked::place(v.reader.phase), b) == chunked::place(
                        after.reader.phase,
                    )
                },
                ActionView::FromPeer(_) => {
                    &&& after.stage is Chunked
                    &&& after.reader.buf == v.reader.buf
                    &&& after.reader.phase == v.reader.phase
                },
                _ => reads_on(ExchangeView { reader: after.reader, ..v }, after, action),
            }
        }),
{
    reveal(ExchangeView::chunk_next);
    chunked::law_reader_sends_what_it_read(v.reader, late);
    let (reader, _) = chunked::step(v.reader, late);
    lemma_answering(ExchangeView { reader, ..v });
}

/// [`lemma_chunk_next`] for each chunked body that a step may come upon.
proof fn lemma_chunk_steps(late: bool)
    ensures
        forall|w: ExchangeView|
            (w.wf() && w.plan.chunked && !(w.stage is Over)) ==> {
                let (after, action) = #[trigger] w.chunk_next(late);
                &&& after.wf()
                &&& after.plan == w.plan
                &&& after.interim == w.interim
                &&& after.counts == w.counts
                &&& (action matches ActionView::ToBox(b) ==> after.stage == (Stage::Chunked {
                    sending: b.len() as u64,
                }))
                &&& (action is ToBox || action is FromPeer ==> after.stage is Chunked)
                &&& (!(action is ToBox || action is FromPeer) ==> reads_on(
                    ExchangeView { reader: after.reader, ..w },
                    after,
                    action,
                ))
            },
{
    assert forall|w: ExchangeView| w.wf() && w.plan.chunked && !(w.stage is Over) implies {
        let (after, action) = #[trigger] w.chunk_next(late);
        &&& after.wf()
        &&& after.plan == w.plan
        &&& after.interim == w.interim
                &&& after.counts == w.counts
                &&& (action matches ActionView::ToBox(b) ==> after.stage == (Stage::Chunked {
                    sending: b.len() as u64,
                }))
        &&& (action is ToBox || action is FromPeer ==> after.stage is Chunked)
        &&& (!(action is ToBox || action is FromPeer) ==> reads_on(
            ExchangeView { reader: after.reader, ..w },
            after,
            action,
        ))
    } by {
        lemma_chunk_next(w, late);
    }
}

/// The lemmas above, for every exchange that a step may come upon.
pub proof fn lemma_steps()
    ensures
        forall|v: ExchangeView, head: Seq<u8>, complete: bool|
            reads_on(v, (#[trigger] v.with_head(head, complete)).0, v.with_head(head, complete).1),
        forall|v: ExchangeView| reads_on(v, (#[trigger] v.answering()).0, v.answering().1),
{
    assert forall|v: ExchangeView, head: Seq<u8>, complete: bool|
        reads_on(
            v,
            (#[trigger] v.with_head(head, complete)).0,
            v.with_head(head, complete).1,
        ) by {
        lemma_with_head(v, head, complete);
    }
    assert forall|v: ExchangeView| reads_on(v, (#[trigger] v.answering()).0, v.answering().1) by {
        lemma_answering(v);
    }
}

/// The box gets the head, and then no more than the body that the request
/// declared: what is handed to it and what is still owed never add up to more
/// than was owed before.
pub proof fn law_no_more_than_the_declared_body(v: ExchangeView, event: EventView, late: bool)
    requires
        v.wf(),
        !v.plan.chunked,
        !(v.stage is Switching),
    ensures
        match v.step(event, late) {
            (after, ActionView::ToBox(b)) => if v.stage is Start || v.stage is Continue {
                b == v.head && after.owed() == v.owed()
            } else {
                b.len() + after.owed() == v.owed()
            },
            (after, _) => after.owed() <= v.owed(),
        },
{
    lemma_steps();
}

/// What the box gets of a body of declared length is the front of what the peer
/// sent: first of what came with the head, then of each read.
pub proof fn law_the_body_goes_as_it_came(v: ExchangeView, event: EventView, late: bool)
    requires
        v.wf(),
        !v.plan.chunked,
        v.stage is Head || v.stage is Length,
    ensures
        match v.step(event, late).1 {
            ActionView::ToBox(b) => match event {
                EventView::PeerSaid(said) => b.is_prefix_of(said),
                _ => b.is_prefix_of(v.rest),
            },
            _ => true,
        },
{
    lemma_steps();
}

/// What the box gets of a chunked body is the front of what the peer sent, and
/// goes no further than the body does: it moves the framing on from where it was
/// to where the reader is.
pub proof fn law_the_chunked_body_goes_as_it_came(v: ExchangeView, event: EventView, late: bool)
    requires
        v.wf(),
        v.plan.chunked,
        v.stage is Head || v.stage is Chunked,
    ensures
        match v.step(event, late) {
            (after, ActionView::ToBox(b)) => {
                &&& after.stage is Chunked
                &&& b + after.reader.buf == match event {
                    EventView::PeerSaid(said) => v.reader.buf + said,
                    _ => v.reader.buf,
                }
                &&& chunked::run(chunked::place(v.reader.phase), b) == chunked::place(
                    after.reader.phase,
                )
            },
            _ => true,
        },
{
    lemma_steps();
    match event {
        EventView::PeerSaid(b) => {
            lemma_chunk_next(
                ExchangeView {
                    reader: chunked::ReaderView { buf: v.reader.buf + b, ..v.reader },
                    ..v
                },
                late,
            );
        },
        _ => {
            match v.stage {
                Stage::Chunked { sending } => {
                    lemma_chunk_next(v.sent_to_box(sending), late);
                },
                _ => {
                    lemma_chunk_next(v.sent_to_box(v.head.len() as u64), late);
                },
            }
        },
    }
}

/// Once the answer is being read, the box gets nothing more of what the peer
/// sends, unless it has agreed to change protocols.
pub proof fn law_no_second_request(v: ExchangeView, event: EventView, late: bool)
    requires
        v.is_answered(),
    ensures
        !(v.step(event, late).1 is ToBox),
        !(v.step(event, late).1 is FromPeer),
        v.step(event, late).0.is_answered() || v.step(event, late).0.stage is Switching,
{
    lemma_steps();
}

/// Only a well-formed `101` to a request that asked for an upgrade earns a
/// two-way pipe.
pub proof fn law_only_a_switch_earns_a_pipe(v: ExchangeView, event: EventView, late: bool)
    requires
        v.wf(),
    ensures
        v.step(event, late).1 is Duplex ==> v.stage is Switching || v.stage is Tail,
        v.step(event, late).0.stage is Tail ==> v.stage is Switching,
        v.step(event, late).0.stage is Switching ==> match v.step(event, late).1 {
            ActionView::Switch { head, out } => {
                &&& v.plan.upgrade
                &&& http_front::status_of(head) == Some(101nat)
                &&& http_front::well_formed(head)
                &&& http_front::rebuilt(
                    http_front::Sieve::ShareCookies,
                    head,
                    Seq::empty(),
                ).is_prefix_of(out)
            },
            _ => false,
        },
{
    lemma_steps();
    lemma_chunk_steps(late);
}

/// The bytes counted are the bytes that were written: what is handed over to be
/// written is what is on its way, and it is counted when the write went through,
/// and not before.
pub proof fn law_the_bytes_counted_are_the_bytes_written(
    v: ExchangeView,
    event: EventView,
    late: bool,
)
    requires
        v.wf(),
    ensures
        v.step(event, late).0.counts == (if event is Wrote && !(v.stage is Over) {
            v.counts.after_forwarding(v.way_to_box()).after_relaying(v.way_to_peer())
        } else {
            v.counts
        }),
        v.step(event, late).1 matches ActionView::ToBox(b) ==> v.step(event, late).0.way_to_box()
            == b.len() as u64,
        v.step(event, late).1 matches ActionView::ToPeer(b) ==> v.step(
            event,
            late,
        ).0.way_to_peer() == b.len() as u64,
        v.step(event, late).1 matches ActionView::Interim { cleaned, .. } ==> v.step(
            event,
            late,
        ).0.way_to_peer() == cleaned.len() as u64,
        v.step(event, late).1 matches ActionView::Switch { out, .. } ==> v.step(
            event,
            late,
        ).0.way_to_peer() == out.len() as u64,
        v.step(event, late).1 matches ActionView::Refuse(reply) ==> v.step(
            event,
            late,
        ).0.way_to_peer() == vstd::utf8::encode_utf8(reply).len() as u64,
        v.step(event, late).1 matches ActionView::RefuseSwitch { reply, .. } ==> v.step(
            event,
            late,
        ).0.way_to_peer() == vstd::utf8::encode_utf8(reply).len() as u64,
{
    lemma_steps();
    lemma_chunk_steps(late);
}

/// A box can send only so many interim heads: each that is passed on uses up
/// one, and at the limit the exchange is over.
pub proof fn law_interim_heads_are_bounded(v: ExchangeView, event: EventView, late: bool)
    requires
        v.wf(),
    ensures
        v.step(event, late).0.wf(),
        v.step(event, late).0.interim >= v.interim,
        v.stage is Interim && event is Wrote ==> v.step(event, late).0.interim == v.interim + 1,
{
    lemma_steps();
    lemma_chunk_steps(late);
}

} // verus!
