//! What to do as bytes come and go between a visitor and the box.
//!
//! Nothing here reads or writes: each machine is told what happened and answers
//! what to do about it. The one who moves the bytes does that and comes back
//! with how it went.
use vstd::prelude::*;
use vstd::slice::slice_subrange;

use crate::chunked;
use crate::chunked::Scan;
use crate::gate;
use crate::http_front;
use crate::http_front::{Body, Counters, NoHead};
use crate::seqs;
use crate::text;

verus! {

/// How many seconds a connection may take to send its head. A browser's
/// speculative preconnect opens a socket and sends nothing; without this it
/// would hold a task until it gave up on its own.
pub const HEAD_TIMEOUT: u64 = 15;

/// How many seconds the *box* may take to finish its response head. Longer than
/// the client's: a dev server cold-optimising its dependencies on the first
/// request is slow for a reason.
pub const RESPONSE_HEAD_TIMEOUT: u64 = 120;

/// A response head past this is not read any further. Its only job is to stop
/// an unbounded buffer.
pub const MAX_RESPONSE_HEAD: usize = 256 * 1024;

/// How many seconds a response with no declared length may go silent before the
/// connection is closed.
pub const RESPONSE_IDLE: u64 = 300;

/// How many seconds a peer may pause part-way through a body it declared.
pub const BODY_IDLE: u64 = 30;

/// How many seconds a single write may make no progress before the connection
/// is abandoned. Generous, because a slow link is not a hostile one.
pub const WRITE_STALL: u64 = 120;

/// The longest an unframed response may stay open, in seconds, whatever either
/// end does.
pub const UNFRAMED_LIFETIME: u64 = 3600;

/// The longest a response with a declared length may take, in seconds. Longer
/// than the unframed cap because a framed one is bounded in *bytes* already.
pub const FRAMED_LIFETIME: u64 = 6 * 3600;

/// The longest a request body may take to arrive, in seconds, whatever the peer
/// does.
pub const BODY_LIFETIME: u64 = 3600;

/// How many `1xx` heads may precede the real response. A server sends at most
/// one or two; this is a backstop, not a budget.
pub const MAX_INTERIM_RESPONSES: usize = 8;

/// How many milliseconds to wait to find out whether there is anything to
/// swallow at all before a close.
pub const LINGER_PROBE_MILLIS: u64 = 40;

/// How many seconds to spend swallowing what the peer is still sending, so the
/// socket can close without a reset.
pub const LINGER_DRAIN: u64 = 2;

/// And how much to swallow once there is something.
pub const MAX_LINGER_BYTES: u64 = 4 * 1024 * 1024;

/// The most that is read off a peer at a time.
pub const READ_SIZE: u64 = 32 * 1024;

/// What became of reading a request head, given what has been read so far and
/// what was read just now (nothing, when the peer went away or ran out of
/// time). `None` is to read on.
pub open spec fn head_outcome(buf: Seq<u8>, heard: Seq<u8>) -> Option<
    Result<(Seq<char>, Seq<u8>), NoHead>,
> {
    let all = buf + heard;
    if heard.len() == 0 {
        Some(
            Err(
                if buf.len() == 0 {
                    NoHead::Silent
                } else {
                    NoHead::Refused
                },
            ),
        )
    } else {
        match http_front::head_end(all) {
            Some(end) => if vstd::utf8::valid_utf8(all.take(end)) {
                Some(Ok((vstd::utf8::decode_utf8(all.take(end)), all.skip(end))))
            } else {
                Some(Err(NoHead::Refused))
            },
            None => if all.len() > gate::MAX_HEAD {
                Some(Err(NoHead::Refused))
            } else {
                None
            },
        }
    }
}

/// Read up to the end of the headers.
///
/// `buf` holds what has been read before, and `heard` is what was read just now:
/// nothing, when the peer went away, failed or ran out of time. Gives the head
/// and whatever arrived after it: a request body usually follows in the same
/// packet. `None` is to read on. Bounded before it is parsed: a peer that sends
/// headers forever must not be able to make this allocate forever.
pub fn read_head(buf: &mut Vec<u8>, heard: &[u8]) -> (r: Option<
    Result<(String, Vec<u8>), NoHead>,
>)
    ensures
        match r {
            None => head_outcome(old(buf)@, heard@) is None,
            Some(Err(e)) => head_outcome(old(buf)@, heard@) == Some(
                Err::<(Seq<char>, Seq<u8>), NoHead>(e),
            ),
            Some(Ok((head, rest))) => head_outcome(old(buf)@, heard@) == Some(
                Ok::<(Seq<char>, Seq<u8>), NoHead>((head@, rest@)),
            ),
        },
        final(buf)@ == old(buf)@ + heard@,
{
    if heard.len() == 0 {
        assert(buf@ + heard@ == buf@);
        return Some(
            Err(
                if buf.len() == 0 {
                    NoHead::Silent
                } else {
                    NoHead::Refused
                },
            ),
        );
    }
    seqs::push_all(buf, heard);
    match http_front::find_head_end(buf.as_slice()) {
        Some(end) => {
            let head: Vec<u8> = seqs::copy_of(slice_subrange(buf.as_slice(), 0, end));
            let rest: Vec<u8> = seqs::copy_of(slice_subrange(buf.as_slice(), end, buf.len()));
            proof {
                assert(head@ == buf@.take(end as int));
                assert(rest@ == buf@.skip(end as int));
            }
            match text::from_utf8(head) {
                Some(s) => Some(Ok((s, rest))),
                None => Some(Err(NoHead::Refused)),
            }
        },
        None => if buf.len() > gate::MAX_HEAD {
            Some(Err(NoHead::Refused))
        } else {
            None
        },
    }
}

/// Do these bytes of the box hold a *final* response head: one that is not a
/// `1xx`, behind whatever interim heads come first?
pub open spec fn holds_final_head(buf: Seq<u8>) -> bool
    decreases buf.len(),
{
    match http_front::head_end(buf) {
        Some(end) => if 0 < end <= buf.len() {
            let status = http_front::status_of(buf.take(end));
            (status is Some && status->0 >= 200) || holds_final_head(buf.skip(end))
        } else {
            false
        },
        None => false,
    }
}

/// Do these bytes of the box hold a final response head?
pub fn has_final_head(buf: &[u8]) -> (r: bool)
    ensures
        r == holds_final_head(buf@),
{
    let mut rest: &[u8] = buf;
    while rest.len() > 0
        invariant
            holds_final_head(rest@) == holds_final_head(buf@),
        decreases rest@.len(),
    {
        match http_front::find_head_end(rest) {
            None => {
                return false;
            },
            Some(end) => {
                let head = slice_subrange(rest, 0, end);
                let tail = slice_subrange(rest, end, rest.len());
                proof {
                    assert(head@ == rest@.take(end as int));
                    assert(tail@ == rest@.skip(end as int));
                }
                match http_front::status_code(head) {
                    Some(c) => if c >= 200 {
                        return true;
                    },
                    None => {},
                }
                rest = tail;
            },
        }
    }
    proof {
        seqs::lemma_find_seq(rest@, http_front::blank_line(), 0);
    }
    false
}

/// What the watch for an early answer does.
#[derive(Debug, Clone, Copy, PartialEq, Eq, Structural)]
pub enum Watch {
    /// The box has answered: stop sending, and read what it said.
    Answered,
    /// Read more off the box.
    Read,
    /// There is nothing more to watch for.
    Park,
}

/// Has the box answered before the upload finished?
///
/// `buf` holds what it has said, and `heard` is what it said just now; `closed`
/// is whether it went away instead. Interim heads do not count: `100 Continue`
/// is permission to keep sending, `103 Early Hints` is not an answer, and a
/// `101` belongs to the upgrade path. A box that closed or failed is not an
/// answer either.
pub fn watch_for_final_response(buf: &mut Vec<u8>, heard: &[u8], closed: bool) -> (r: Watch)
    ensures
        final(buf)@ == old(buf)@ + heard@,
        r == if closed || (old(buf)@ + heard@).len() > MAX_RESPONSE_HEAD {
            Watch::Park
        } else if holds_final_head(old(buf)@ + heard@) {
            Watch::Answered
        } else {
            Watch::Read
        },
{
    seqs::push_all(buf, heard);
    if closed || buf.len() > MAX_RESPONSE_HEAD {
        return Watch::Park;
    }
    if has_final_head(buf.as_slice()) {
        Watch::Answered
    } else {
        Watch::Read
    }
}

/// How a relay came to stop.
#[derive(Debug, Clone, Copy, PartialEq, Eq, Structural)]
pub enum Ending {
    /// The visitor has a complete response.
    Complete,
    /// The box closed its stream.
    BoxClosed,
    /// The box's stream failed: an interruption, not an ending.
    BoxFailed,
    /// The box went quiet without ever finishing.
    BoxQuiet,
    /// The response took longer than any may.
    Deadline,
    /// The visitor's connection failed.
    PeerFailed,
    /// The visitor stopped reading.
    PeerStalled,
}

/// A response body on its way to the visitor.
#[derive(Debug)]
pub struct Relay {
    /// How long the body is, when that is declared.
    pub body_len: Option<u64>,
    /// Where a chunked body has got to.
    pub scan: Option<Scan>,
    /// How much of the body has been passed on.
    pub sent: u64,
    /// How much of it is on its way to the visitor and not known to be there.
    pub pending: u64,
    /// The peer has stopped *sending*. Not the same as the peer going away, and
    /// the difference is a truncated download.
    pub peer_said_all: bool,
}

/// A [`Relay`] with its scanner as what it stands for.
pub struct RelayView {
    pub body_len: Option<u64>,
    pub scan: Option<chunked::ScanView>,
    pub sent: u64,
    pub pending: u64,
    pub peer_said_all: bool,
}

impl View for Relay {
    type V = RelayView;

    open spec fn view(&self) -> RelayView {
        RelayView {
            body_len: self.body_len,
            scan: match self.scan {
                Some(s) => Some(s@),
                None => None,
            },
            sent: self.sent,
            pending: self.pending,
            peer_said_all: self.peer_said_all,
        }
    }
}

impl RelayView {
    /// No more of the body is sent than there is, a scanner is one that can be
    /// fed, and a body has one framing.
    pub open spec fn wf(self) -> bool {
        &&& self.sent + self.pending <= u64::MAX
        &&& self.body_len is Some ==> self.sent + self.pending <= self.body_len->0
        &&& self.scan is Some ==> self.scan->0.wf()
        &&& !(self.body_len is Some && self.scan is Some)
    }

    /// The declared length was reached, or the terminating chunk went by.
    pub open spec fn complete(self) -> bool {
        self.body_len == Some(self.sent) || (self.scan is Some && self.scan->0 is Done)
    }

    /// What these bytes of the box leave, and how many of them are passed on:
    /// none past a declared length, and none past the terminating chunk.
    pub open spec fn taking(self, bytes: Seq<u8>) -> (RelayView, nat) {
        let room = match self.body_len {
            Some(n) => if n - self.sent < bytes.len() {
                (n - self.sent) as nat
            } else {
                bytes.len()
            },
            None => bytes.len(),
        };
        let take = match self.scan {
            Some(s) => chunked::belonging(s, bytes.take(room as int)),
            None => room,
        };
        (
            RelayView {
                body_len: self.body_len,
                scan: match self.scan {
                    Some(s) => Some(
                        chunked::clipped(chunked::run(s, bytes.take(room as int))),
                    ),
                    None => None,
                },
                sent: self.sent,
                pending: take as u64,
                peer_said_all: self.peer_said_all,
            },
            take,
        )
    }

    /// What was on its way is there.
    pub open spec fn passed(self) -> RelayView {
        RelayView { sent: (self.sent + self.pending) as u64, pending: 0, ..self }
    }

    /// Is a relay that stopped like this one the box left short?
    ///
    /// Three questions. *Did the box end it*, because a visitor closing a tab
    /// mid-download is nobody's fault but theirs. *Was what arrived short*: for
    /// a declared length that is arithmetic, for a chunked body it is whether
    /// the terminating chunk went by, and for an unframed one it is whether the
    /// box stopped without closing its stream. And *can it be told*: once the
    /// peer has stopped sending, a timer is as consistent with a client that
    /// died as with a box that went quiet.
    pub open spec fn truncated(self, how: Ending) -> bool {
        let box_ended = how is BoxClosed || how is BoxFailed || how is BoxQuiet || how is Deadline;
        let cut_short = how is BoxFailed || how is BoxQuiet || how is Deadline;
        let by_a_timer = how is BoxQuiet || how is Deadline;
        let short = match self.body_len {
            Some(n) => self.sent < n,
            None => match self.scan {
                None => cut_short,
                Some(chunked::ScanView::Lost) => cut_short,
                Some(chunked::ScanView::Done) => false,
                Some(_) => true,
            },
        };
        box_ended && short && !(self.peer_said_all && by_a_timer)
    }
}

/// What to do with a response whose head has been read.
#[derive(Debug)]
pub enum Opening {
    /// Answer the visitor on the box's behalf, and close. `truncated` is whether
    /// the box left its answer short.
    Refuse { reply: String, truncated: bool },
    /// Send these bytes, then relay the rest of the body, of which `first` bytes
    /// of what came with the head are sent along.
    Relay { out: Vec<u8>, first: usize, relay: Relay },
}

/// An [`Opening`] as what it stands for.
pub enum OpeningView {
    Refuse { reply: Seq<char>, truncated: bool },
    Relay { out: Seq<u8>, first: nat, relay: RelayView },
}

impl View for Opening {
    type V = OpeningView;

    open spec fn view(&self) -> OpeningView {
        match self {
            Opening::Refuse { reply, truncated } => OpeningView::Refuse {
                reply: reply@,
                truncated: *truncated,
            },
            Opening::Relay { out, first, relay } => OpeningView::Relay {
                out: out@,
                first: *first as nat,
                relay: relay@,
            },
        }
    }
}

/// What the visitor is told of a head that this proxy will not pass on.
pub open spec fn malformed_head_text() -> Seq<char> {
    gate::plain_answer(
        "502 Bad Gateway"@,
        "The app in this box sent a reply h5i will not forward: its headers are not well formed. Whoever shared it needs to look."@,
    )
}

/// What the visitor is told of a box that stopped reading or said nothing.
pub open spec fn unreachable_box_text() -> Seq<char> {
    gate::plain_answer(
        "502 Bad Gateway"@,
        "The app in this box stopped reading. Whoever shared it needs to look."@,
    )
}

/// What the visitor is told of a head that the box never finished.
pub open spec fn unfinished_text() -> Seq<char> {
    gate::plain_answer(
        "502 Bad Gateway"@,
        "The app in this box began a reply and did not finish it. Whoever shared it needs to look."@,
    )
}

/// What the visitor is told of a body that took too long.
pub open spec fn timed_out_text() -> Seq<char> {
    gate::plain_answer(
        "408 Request Timeout"@,
        "That request took too long to arrive. Try it again."@,
    )
}

/// A response head as it goes to the visitor: the connection ends with it, none
/// of the share's own cookies are set, and it has one framing.
pub open spec fn sanitised(head: Seq<u8>) -> Seq<u8> {
    let closed = http_front::rebuilt(
        http_front::Sieve::Connection,
        head,
        http_front::close_line(),
    );
    if http_front::framing_of_fields(http_front::fields_of(head)).strip_lengths {
        http_front::rebuilt(http_front::Sieve::Lengths, closed, Seq::empty())
    } else {
        closed
    }
}

/// How a relay of a body with this framing starts.
pub open spec fn relay_start(body: Body, bodyless: bool) -> RelayView {
    RelayView {
        body_len: if bodyless {
            Some(0u64)
        } else {
            match body {
                Body::Length(n) => Some(n),
                _ => None,
            }
        },
        scan: if body is Chunked && !bodyless {
            Some(chunked::at_line(false))
        } else {
            None
        },
        sent: 0,
        pending: 0,
        peer_said_all: false,
    }
}

/// A relay of no body at all.
pub open spec fn nothing_to_relay() -> RelayView {
    RelayView { body_len: Some(0u64), scan: None, sent: 0, pending: 0, peer_said_all: false }
}

/// What to do with a response whose head has been read.
pub open spec fn opening(head: Seq<u8>, rest: Seq<u8>, complete: bool, bodyless: bool) -> OpeningView {
    if complete && !http_front::well_formed(head) {
        OpeningView::Refuse { reply: malformed_head_text(), truncated: false }
    } else if !complete && head.len() == 0 {
        OpeningView::Refuse { reply: unreachable_box_text(), truncated: false }
    } else if !complete {
        OpeningView::Refuse { reply: unfinished_text(), truncated: true }
    } else {
        let framing = http_front::framing_of_fields(http_front::fields_of(head));
        let (relay, first) = relay_start(framing.body, bodyless).taking(rest);
        OpeningView::Relay { out: sanitised(head), first, relay }
    }
}

/// What to do with a response whose head has been read.
///
/// `rest` is what came with the head, and `complete` is whether the head is all
/// there. The head is rewritten to say `Connection: close`, because the proxy
/// stops reading the client after one request. A head that has two readings is
/// refused; a head the box never finished is not a response, and passing its
/// bytes on would put the whole sanitiser behind a door the box holds.
pub fn relay_response(head: &[u8], rest: &[u8], complete: bool, bodyless: bool) -> (r: Opening)
    ensures
        r@ == opening(head@, rest@, complete, bodyless),
        r@ matches OpeningView::Relay { first, relay, .. } ==> relay.wf() && first <= rest@.len(),
{
    if complete && !http_front::head_is_well_formed(head) {
        // Its own answer. The box *did* finish this head: it is malformed, not
        // truncated.
        return Opening::Refuse {
            reply: http_front::malformed_head_response(),
            truncated: false,
        };
    }
    if !complete && head.len() == 0 {
        // The box closed without saying anything at all. That is a different
        // fact from starting a reply and not finishing it.
        return Opening::Refuse {
            reply: http_front::unreachable_box_response(),
            truncated: false,
        };
    }
    if !complete {
        return Opening::Refuse { reply: http_front::unfinished_response(), truncated: true };
    }
    let framing = http_front::response_framing(head);
    let rewritten: Vec<u8> = http_front::close_the_connection(head);
    // Stripped even when the answer carries no body: what the visitor is left
    // with is one framing rather than two.
    let out: Vec<u8> = if framing.strip_lengths {
        http_front::strip_lengths(rewritten.as_slice())
    } else {
        rewritten
    };
    // A `HEAD`, a `204` or a `304` declares a length and sends nothing.
    let body_len: Option<u64> = if bodyless {
        Some(0)
    } else {
        match framing.body {
            Body::Length(n) => Some(n),
            _ => None,
        }
    };
    // Only for a body whose framing says where it stops.
    let scan: Option<Scan> = match framing.body {
        Body::Chunked => if bodyless {
            None
        } else {
            Some(Scan::new())
        },
        _ => None,
    };
    let mut relay = Relay { body_len, scan, sent: 0, pending: 0, peer_said_all: false };
    let came: usize = rest.len();
    assert(came == rest@.len());
    let first: usize = relay.from_box(rest);
    Opening::Relay { out, first, relay }
}

impl Relay {
    /// A relay of no body at all.
    pub fn nothing() -> (r: Relay)
        ensures
            r@ == nothing_to_relay(),
            r@.wf(),
    {
        Relay { body_len: Some(0), scan: None, sent: 0, pending: 0, peer_said_all: false }
    }

    /// Bytes of the box: how many of them to pass on. Once they are,
    /// [`Relay::passed_on`] is told.
    ///
    /// A declared length clamps by arithmetic; the scanner is the same clamp for
    /// the framing that has no arithmetic.
    pub fn from_box(&mut self, bytes: &[u8]) -> (take: usize)
        requires
            old(self)@.wf(),
            old(self)@.pending == 0,
            old(self)@.body_len is None ==> old(self)@.sent + bytes@.len() <= u64::MAX,
        ensures
            final(self)@.wf(),
            (final(self)@, take as nat) == old(self)@.taking(bytes@),
            take <= bytes@.len(),
    {
        let n: usize = bytes.len();
        let room: usize = match self.body_len {
            Some(total) => if total - self.sent < n as u64 {
                (total - self.sent) as usize
            } else {
                n
            },
            None => n,
        };
        let part = slice_subrange(bytes, 0, room);
        assert(part@ == bytes@.take(room as int));
        let mut scan: Option<Scan> = None;
        std::mem::swap(&mut self.scan, &mut scan);
        let take: usize = match scan {
            Some(s) => {
                let mut s = s;
                let k: usize = s.feed(part);
                proof {
                    lemma_belonging_bound(old(self).scan->0@, part@);
                }
                self.scan = Some(s);
                k
            },
            None => room,
        };
        self.pending = take as u64;
        take
    }

    /// What was on its way has been written: it is part of what was sent, and it
    /// is counted.
    pub fn passed_on(&mut self, counts: &mut Counters)
        requires
            old(self)@.wf(),
        ensures
            final(self)@ == old(self)@.passed(),
            final(self)@.wf(),
            *final(counts) == old(counts).after_relaying(old(self)@.pending),
    {
        counts.relayed(self.pending);
        self.sent = self.sent + self.pending;
        self.pending = 0;
    }

    /// The relay stopped like this: whether the box left it short is kept.
    pub fn finish(&self, how: Ending, counts: &mut Counters)
        ensures
            *final(counts) == (Counters {
                truncated: old(counts).truncated || self@.truncated(how),
                ..*old(counts)
            }),
    {
        if self.was_cut_short(how) {
            counts.truncated = true;
        }
    }

    /// Has the visitor a complete response?
    pub fn is_complete(&self) -> (r: bool)
        ensures
            r == self@.complete(),
    {
        let by_length: bool = match self.body_len {
            Some(n) => n == self.sent,
            None => false,
        };
        let by_scan: bool = match &self.scan {
            Some(s) => s.is_done(),
            None => false,
        };
        by_length || by_scan
    }

    /// The peer has stopped sending: stop watching it, and keep sending. A
    /// client that sends its request and then shuts down its write side is doing
    /// something HTTP/1.1 explicitly allows.
    pub fn peer_closed(&mut self)
        ensures
            final(self)@ == (RelayView { peer_said_all: true, ..old(self)@ }),
    {
        self.peer_said_all = true;
    }

    /// How many seconds this response may take.
    pub fn lifetime(&self) -> (r: u64)
        ensures
            r == if self@.body_len is Some {
                FRAMED_LIFETIME
            } else {
                UNFRAMED_LIFETIME
            },
    {
        match self.body_len {
            Some(_) => FRAMED_LIFETIME,
            None => UNFRAMED_LIFETIME,
        }
    }

    /// Is a relay that stopped like this one the box left short?
    pub fn was_cut_short(&self, how: Ending) -> (r: bool)
        ensures
            r == self@.truncated(how),
    {
        let by_a_timer: bool = match how {
            Ending::BoxQuiet => true,
            Ending::Deadline => true,
            _ => false,
        };
        let cut_short: bool = match how {
            Ending::BoxFailed => true,
            _ => by_a_timer,
        };
        let box_ended: bool = match how {
            Ending::BoxClosed => true,
            _ => cut_short,
        };
        let short: bool = match self.body_len {
            Some(n) => self.sent < n,
            None => match &self.scan {
                None => cut_short,
                Some(Scan::Lost) => cut_short,
                Some(Scan::Done) => false,
                Some(_) => true,
            },
        };
        box_ended && short && !(self.peer_said_all && by_a_timer)
    }
}

/// No more bytes belong to a body than there are.
pub proof fn lemma_belonging_bound(s: chunked::ScanView, bytes: Seq<u8>)
    ensures
        chunked::belonging(s, bytes) <= bytes.len(),
    decreases bytes.len(),
{
    if bytes.len() > 0 && !(s is Done) {
        lemma_belonging_bound(chunked::advance(s, bytes[0]), bytes.skip(1));
    }
}

/// What is passed on of a body is never more than it has: not past a declared
/// length, not past the terminating chunk, and nothing once it is complete.
pub proof fn law_no_more_than_the_body_is_passed_on(r: RelayView, bytes: Seq<u8>)
    requires
        r.wf(),
        r.pending == 0,
    ensures
        ({
            let take = r.taking(bytes).1;
            &&& take <= bytes.len()
            &&& (r.body_len matches Some(n) ==> r.sent + take <= n)
            &&& (r.scan matches Some(s) ==> take == chunked::belonging(s, bytes))
            &&& (r.complete() ==> take == 0)
        }),
{
    assert(bytes.take(bytes.len() as int) == bytes);
    if let Some(s) = r.scan {
        lemma_belonging_bound(s, bytes);
        if s is Done {
            chunked::lemma_run_done(bytes);
        }
    }
}

/// Where not every byte belongs to a body, the body has ended.
proof fn lemma_all_belong_until_the_end(s: chunked::ScanView, bytes: Seq<u8>)
    ensures
        chunked::belonging(s, bytes) < bytes.len() ==> chunked::run(s, bytes) is Done,
    decreases bytes.len(),
{
    if bytes.len() > 0 {
        if s is Done {
            chunked::lemma_run_done(bytes);
        } else {
            lemma_all_belong_until_the_end(chunked::advance(s, bytes[0]), bytes.skip(1));
        }
    }
}

/// What taking bytes off the box leaves: a relay that can go on, with what was
/// taken on its way, and the whole body if anything was left behind.
pub proof fn lemma_taking(r: RelayView, bytes: Seq<u8>)
    requires
        r.wf(),
        r.pending == 0,
        r.body_len is None ==> r.sent + bytes.len() <= u64::MAX,
    ensures
        ({
            let (after, take) = r.taking(bytes);
            &&& after.wf()
            &&& after.sent == r.sent
            &&& after.pending == take
            &&& take <= bytes.len()
            &&& take < bytes.len() ==> after.passed().complete()
        }),
{
    assert(bytes.take(bytes.len() as int) == bytes);
    if let Some(scan) = r.scan {
        lemma_belonging_bound(scan, bytes);
        lemma_run_is_sound(scan, bytes);
        lemma_all_belong_until_the_end(scan, bytes);
    }
}

/// What a visitor gets of these reads of the box, each passed on before the next
/// comes, with what is so of the relay and the counters after that.
pub open spec fn relayed_all(r: RelayView, c: Counters, reads: Seq<Seq<u8>>) -> (
    RelayView,
    Counters,
    Seq<u8>,
)
    decreases reads.len(),
{
    if reads.len() == 0 {
        (r, c, Seq::empty())
    } else {
        let (before, counted, out) = relayed_all(r, c, reads.drop_last());
        let (taken, n) = before.taking(reads.last());
        (
            taken.passed(),
            counted.after_relaying(taken.pending),
            out + reads.last().take(n as int),
        )
    }
}

/// Where bytes lead is somewhere that a scanner can go on from, long lines aside.
proof fn lemma_run_is_sound(s: chunked::ScanView, bytes: Seq<u8>)
    requires
        s matches chunked::ScanView::Data(n) ==> n > 0,
        s matches chunked::ScanView::Closing(k) ==> k <= 1,
    ensures
        chunked::clipped(chunked::run(s, bytes)).wf(),
    decreases bytes.len(),
{
    if bytes.len() > 0 {
        lemma_run_is_sound(chunked::advance(s, bytes[0]), bytes.skip(1));
    }
}

/// The bytes counted for a visitor are the bytes relayed to them, and so are the
/// bytes of the body that a relay takes for sent.
pub proof fn law_the_bytes_counted_are_the_bytes_relayed(
    r: RelayView,
    c: Counters,
    reads: Seq<Seq<u8>>,
)
    requires
        r.wf(),
        r.pending == 0,
        r.sent + seqs::concat(reads).len() <= u64::MAX,
    ensures
        ({
            let (after, counted, out) = relayed_all(r, c, reads);
            &&& after.wf()
            &&& after.pending == 0
            &&& after.sent == r.sent + out.len()
            &&& out.len() <= seqs::concat(reads).len()
            &&& counted == c.after_relaying(out.len() as u64)
        }),
    decreases reads.len(),
{
    if reads.len() > 0 {
        let front = reads.drop_last();
        let last = reads.last();
        assert(seqs::concat(reads).len() == seqs::concat(front).len() + last.len());
        law_the_bytes_counted_are_the_bytes_relayed(r, c, front);
        let (before, counted, out) = relayed_all(r, c, front);
        law_no_more_than_the_body_is_passed_on(before, last);
        let (taken, n) = before.taking(last);
        assert(last.take(last.len() as int) == last);
        if let Some(scan) = before.scan {
            lemma_run_is_sound(scan, last);
        }
        assert(taken.wf());
        assert(relayed_all(r, c, reads).2.len() == out.len() + n);
    }
}

/// A response that is complete was not cut short, however the relay ended, and
/// a visitor who went away is not the box's doing.
pub proof fn law_only_the_box_cuts_a_response_short(r: RelayView, how: Ending)
    requires
        r.wf(),
    ensures
        r.complete() ==> !r.truncated(how),
        how is PeerFailed || how is PeerStalled || how is Complete ==> !r.truncated(how),
{
}

/// Finishing with a peer: once nothing more is written, whatever it is still
/// sending is swallowed, so that the close is a close and not a reset.
#[derive(Debug, Clone, Copy, PartialEq, Eq, Structural)]
pub struct Linger {
    /// How much has been swallowed.
    pub swallowed: u64,
}

impl Linger {
    /// Nothing swallowed yet.
    pub fn new() -> (r: Linger)
        ensures
            r.swallowed == 0,
    {
        Linger { swallowed: 0 }
    }

    /// How long to wait, in milliseconds: a moment to see whether anything is
    /// queued at all, and then for all of the rest.
    pub fn patience(&self) -> (r: u64)
        ensures
            r == (if self.swallowed == 0 {
                LINGER_PROBE_MILLIS as int
            } else {
                LINGER_DRAIN * 1000
            }),
    {
        if self.swallowed == 0 {
            LINGER_PROBE_MILLIS
        } else {
            LINGER_DRAIN * 1000
        }
    }

    /// So much was read, zero being an end, a failure or the time being up.
    /// Tells whether to read on.
    ///
    /// Bounded in bytes as well as time: past the bound the reset is the lesser
    /// cost.
    pub fn finish_with(&mut self, read: usize) -> (r: bool)
        ensures
            r == (read > 0 && (old(self).swallowed == 0 || old(self).swallowed + read
                <= MAX_LINGER_BYTES)),
            final(self).swallowed == (if old(self).swallowed + read <= u64::MAX {
                old(self).swallowed + read
            } else {
                u64::MAX as int
            }),
    {
        let first: bool = self.swallowed == 0;
        self.swallowed = self.swallowed.saturating_add(read as u64);
        read > 0 && (first || self.swallowed <= MAX_LINGER_BYTES)
    }
}

} // verus!
