//! What holds of an exchange over its whole course, whatever happens in it.
use vstd::prelude::*;

use crate::chunked;
use crate::exchange::{self, ActionView, EventView, ExchangeView, Stage};

verus! {

/// What may come to an exchange: an event, with whether the body's time is up,
/// or something that the box says while the peer is still sending.
pub enum Turn {
    Event(EventView, bool),
    Heard(Seq<u8>),
}

/// An exchange after some turns: where it stands, all that was handed over for
/// the box as the one request, and all that the peer sent behind its head.
///
/// What goes to the box once it has agreed to change protocols is no longer part
/// of a request, and is not in it.
pub struct Course {
    pub at: ExchangeView,
    pub sent: Seq<u8>,
    pub input: Seq<u8>,
}

/// An exchange of which nothing has been done.
pub open spec fn is_fresh(v: ExchangeView) -> bool {
    &&& v.wf()
    &&& v.stage is Start
    &&& v.reader.buf == v.rest
    &&& v.reader.phase is Size
}

/// The course of an exchange after one turn more.
pub open spec fn turned(c: Course, turn: Turn) -> Course {
    match turn {
        Turn::Heard(bytes) => Course {
            at: ExchangeView { early: c.at.early + bytes, ..c.at },
            ..c
        },
        Turn::Event(event, late) => {
            let (at, action) = c.at.step(event, late);
            Course {
                at,
                sent: match action {
                    ActionView::ToBox(b) => if at.stage is Tail {
                        c.sent
                    } else {
                        c.sent + b
                    },
                    _ => c.sent,
                },
                input: match event {
                    EventView::PeerSaid(b) => c.input + b,
                    _ => c.input,
                },
            }
        },
    }
}

/// The course of an exchange through these turns.
pub open spec fn course(v: ExchangeView, turns: Seq<Turn>) -> Course
    decreases turns.len(),
{
    if turns.len() == 0 {
        Course { at: v, sent: Seq::empty(), input: v.rest }
    } else {
        turned(course(v, turns.drop_last()), turns.last())
    }
}

/// What has gone to the box is no more than one request: the head, and then the
/// front of what the peer sent, no further than the body goes.
pub open spec fn is_one_request(c: Course) -> bool {
    let n = c.at.head.len();
    let body = c.sent.skip(n as int);
    &&& c.sent.is_prefix_of(c.at.head + c.input)
    &&& !c.at.plan.chunked ==> c.sent.len() <= n + c.at.plan.want
    &&& c.at.plan.chunked && c.sent.len() > n ==> chunked::belonging(
        chunked::at_line(false),
        body,
    ) == body.len()
}

/// How what was sent stands to what was said, stage by stage.
spec fn keeps(c: Course, body: Seq<u8>) -> bool {
    let v = c.at;
    &&& v.wf()
    &&& match v.stage {
        Stage::Start | Stage::Continue => {
            &&& c.sent.len() == 0
            &&& c.input == v.rest
            &&& v.reader.buf == v.rest
            &&& v.reader.phase is Size
        },
        Stage::Head => {
            &&& c.sent == v.head
            &&& c.input == v.rest
            &&& v.reader.buf == v.rest
            &&& v.reader.phase is Size
        },
        Stage::Length { left, sending } => {
            &&& !v.plan.chunked
            &&& c.sent == v.head + body
            &&& body.len() <= c.input.len()
            &&& body == c.input.take(body.len() as int)
            &&& body.len() + (left - sending) == v.plan.want
            &&& left - sending > 0 ==> body.len() == c.input.len()
        },
        Stage::Chunked { .. } => {
            &&& c.sent == v.head + body
            &&& body + v.reader.buf == c.input
            &&& chunked::run(chunked::at_line(false), body) == chunked::place(v.reader.phase)
            &&& chunked::belonging(chunked::at_line(false), body) == body.len()
        },
        _ => is_one_request(c),
    }
}

/// What was sent behind the head.
spec fn body_of(c: Course) -> Seq<u8> {
    c.sent.skip(c.at.head.len() as int)
}

/// Where the sending has stopped, what was sent stays one request.
proof fn lemma_stays(c: Course, body: Seq<u8>, more: Seq<u8>)
    requires
        keeps(c, body),
    ensures
        is_one_request(c),
        is_one_request(Course { input: c.input + more, ..c }),
{
    let v = c.at;
    let n = v.head.len() as int;
    let longer = Course { input: c.input + more, ..c };
    let all = v.head + c.input;
    match v.stage {
        Stage::Start | Stage::Continue => {
            assert(c.sent =~= all.subrange(0, 0));
        },
        Stage::Head => {
            assert(c.sent =~= all.subrange(0, n));
        },
        Stage::Length { .. } => {
            assert(c.sent =~= all.subrange(0, c.sent.len() as int));
        },
        Stage::Chunked { .. } => {
            assert(c.sent =~= all.subrange(0, c.sent.len() as int));
            assert(c.sent.skip(n) =~= body);
        },
        _ => {},
    }
    assert(c.sent.is_prefix_of(all));
    let beyond = longer.at.head + longer.input;
    assert(c.sent =~= beyond.subrange(0, c.sent.len() as int)) by {
        assert(c.sent == all.subrange(0, c.sent.len() as int));
        assert(beyond.subrange(0, c.sent.len() as int) =~= all.subrange(0, c.sent.len() as int));
    }
}

/// The next part of a chunked body keeps to what was said.
proof fn lemma_chunked_turn(c: Course, v: ExchangeView, body: Seq<u8>, late: bool)
    requires
        v.wf(),
        v.plan.chunked,
        !(v.stage is Over),
        v.head == c.at.head,
        c.sent == v.head + body,
        body + v.reader.buf == c.input,
        chunked::run(chunked::at_line(false), body) == chunked::place(v.reader.phase),
        chunked::belonging(chunked::at_line(false), body) == body.len(),
    ensures
        ({
            let (at, action) = v.chunk_next(late);
            let after = Course {
                at,
                sent: match action {
                    ActionView::ToBox(b) => c.sent + b,
                    _ => c.sent,
                },
                input: c.input,
            };
            &&& keeps(after, body_of(after))
            &&& action is ToBox ==> !(at.stage is Tail)
            &&& at.head == v.head
            &&& at.plan == v.plan
            &&& at.rest == v.rest
        }),
{
    exchange::lemma_chunk_next(v, late);
    let (at, action) = v.chunk_next(late);
    let n = v.head.len() as int;
    let start = chunked::at_line(false);
    match action {
        ActionView::ToBox(b) => {
            chunked::lemma_run_concat(start, body, b);
            let more = body + b;
            assert((c.sent + b).skip(n) =~= more);
            assert(c.sent + b =~= v.head + more);
            assert(more + at.reader.buf =~= c.input);
        },
        _ => {
            assert(c.sent.skip(n) =~= body);
            let all = v.head + c.input;
            assert(c.sent =~= all.subrange(0, c.sent.len() as int));
        },
    }
}

/// One turn keeps what goes to the box within one request.
proof fn lemma_turn(c: Course, turn: Turn)
    requires
        keeps(c, body_of(c)),
    ensures
        keeps(turned(c, turn), body_of(turned(c, turn))),
        turned(c, turn).at.head == c.at.head,
        turned(c, turn).at.plan == c.at.plan,
        turned(c, turn).at.rest == c.at.rest,
{
    let body = body_of(c);
    let v = c.at;
    let n = v.head.len() as int;
    match turn {
        Turn::Heard(_) => {
            lemma_stays(c, body, Seq::empty());
        },
        Turn::Event(event, late) => {
            exchange::lemma_steps();
            let more = match event {
                EventView::PeerSaid(b) => b,
                _ => Seq::empty(),
            };
            lemma_stays(c, body, more);
            assert(c.input + Seq::<u8>::empty() =~= c.input);
            match v.stage {
                Stage::Start | Stage::Continue => {
                    assert(c.sent + v.head =~= v.head);
                },
                Stage::Head => {
                    if event is Wrote {
                        lemma_body_begins(c, late);
                    }
                },
                Stage::Length { .. } => {
                    lemma_length_turn(c, event, late);
                },
                Stage::Chunked { sending } => {
                    match event {
                        EventView::Wrote => {
                            lemma_chunked_turn(c, v.sent_to_box(sending), body, late);
                        },
                        EventView::PeerSaid(b) => {
                            if b.len() > 0 {
                                let filled = ExchangeView {
                                    reader: chunked::ReaderView {
                                        buf: v.reader.buf + b,
                                        ..v.reader
                                    },
                                    ..v
                                };
                                let fed = Course { input: c.input + b, ..c };
                                assert(body + (v.reader.buf + b) =~= c.input + b);
                                lemma_chunked_turn(fed, filled, body, late);
                            }
                        },
                        _ => {},
                    }
                },
                _ => {},
            }
        },
    }
}

/// The body begins with what came with the head.
proof fn lemma_body_begins(c: Course, late: bool)
    requires
        keeps(c, body_of(c)),
        c.at.stage is Head,
    ensures
        ({
            let after = turned(c, Turn::Event(EventView::Wrote, late));
            keeps(after, body_of(after)) && after.at.head == c.at.head && after.at.plan
                == c.at.plan && after.at.rest == c.at.rest
        }),
{
    let v = c.at;
    let n = v.head.len() as int;
    let none = Seq::<u8>::empty();
    let sent = v.sent_to_box(v.head.len() as u64);
    exchange::lemma_steps();
    lemma_stays(c, body_of(c), none);
    assert(v.head + none =~= v.head);
    assert(none + v.rest =~= v.rest);
    assert(c.sent.skip(n) =~= none);
    if v.plan.chunked {
        exchange::lemma_chunk_next(sent, late);
        lemma_chunked_turn(c, sent, none, late);
    } else {
        let k = v.from_rest() as int;
        let first = v.rest.take(k);
        assert((c.sent + first).skip(n) =~= first);
        assert(c.input.take(0) =~= none);
        assert(c.input.take(k) =~= first);
    }
}

/// The next part of a body of declared length keeps to what was said.
proof fn lemma_length_turn(c: Course, event: EventView, late: bool)
    requires
        keeps(c, body_of(c)),
        c.at.stage is Length,
    ensures
        ({
            let after = turned(c, Turn::Event(event, late));
            keeps(after, body_of(after)) && after.at.head == c.at.head && after.at.plan
                == c.at.plan && after.at.rest == c.at.rest
        }),
{
    let v = c.at;
    let n = v.head.len() as int;
    let body = body_of(c);
    let none = Seq::<u8>::empty();
    exchange::lemma_steps();
    assert(c.input + none =~= c.input);
    if let (Stage::Length { left, sending }, EventView::PeerSaid(b)) = (v.stage, event) {
        lemma_stays(c, body, b);
        let k = if b.len() < left {
            b.len() as int
        } else {
            left as int
        };
        let part = b.take(k);
        let longer = c.input + b;
        if b.len() > 0 && sending == 0 {
            if left > 0 {
                assert(body =~= c.input);
                assert(longer.take(body.len() + k) =~= body + part);
            } else {
                assert(part =~= none);
                assert(body + part =~= body);
                assert(longer.take(body.len() as int) =~= c.input.take(body.len() as int));
            }
            assert((c.sent + part).skip(n) =~= body + part);
            assert(c.sent + part =~= v.head + (body + part));
        }
    } else {
        lemma_stays(c, body, none);
    }
}

/// Over the whole course of an exchange, whatever happens in it, the box gets
/// one request: the head, and then the front of what the peer sent, no longer
/// than the length that was declared, and no further than a chunked body goes.
pub proof fn law_the_box_gets_one_request(v: ExchangeView, turns: Seq<Turn>)
    requires
        is_fresh(v),
    ensures
        course(v, turns).at.head == v.head,
        course(v, turns).at.plan == v.plan,
        is_one_request(course(v, turns)),
{
    lemma_course_keeps(v, turns);
    let c = course(v, turns);
    lemma_stays(c, body_of(c), Seq::empty());
}

/// Every course keeps what goes to the box within one request.
proof fn lemma_course_keeps(v: ExchangeView, turns: Seq<Turn>)
    requires
        is_fresh(v),
    ensures
        keeps(course(v, turns), body_of(course(v, turns))),
        course(v, turns).at.head == v.head,
        course(v, turns).at.plan == v.plan,
    decreases turns.len(),
{
    if turns.len() > 0 {
        lemma_course_keeps(v, turns.drop_last());
        lemma_turn(course(v, turns.drop_last()), turns.last());
    }
}

} // verus!
