//! How one request goes into the box, step by step, and what its answer leads to.
use vstd::prelude::*;
use vstd::string::*;

use crate::exchange::{Action, ActionView, Event, Exchange, ExchangeView, Stage};
use crate::gate;
use crate::http_front;
use crate::reply_laws::{self, sets_an_own_cookie};

verus! {

/// What is said of a box that does not read.
pub open spec fn stopped_reading() -> Seq<char> {
    gate::plain_answer(
        "502 Bad Gateway"@,
        "The app in this box stopped reading. Whoever shared it needs to look."@,
    )
}

/// What is said of a head that is not passed on.
pub open spec fn not_well_formed() -> Seq<char> {
    gate::plain_answer(
        "502 Bad Gateway"@,
        "The app in this box sent a reply h5i will not forward: its headers are not well formed. Whoever shared it needs to look."@,
    )
}

/// What is said of a body that takes too long.
pub open spec fn took_too_long() -> Seq<char> {
    gate::plain_answer(
        "408 Request Timeout"@,
        "That request took too long to arrive. Try it again."@,
    )
}

/// A peer that waits is told to go on, and then the head goes to the box; one
/// that does not wait has its head go at once. What went is counted.
pub proof fn law_the_head_goes_first(e: &mut Exchange, event: Event, late: bool, r: Action)
    requires
        call_ensures(Exchange::next, (e, event, late), r),
        old(e)@.wf(),
    ensures
        old(e).stage is Start && event is Begin ==> if old(e).plan.expects_continue {
            r matches Action::ToPeer(b) && b@ == vstd::utf8::encode_utf8(
                "HTTP/1.1 100 Continue\r\n\r\n"@,
            ) && final(e).stage is Continue
        } else {
            r matches Action::ToBox(b) && b@ == old(e).head@ && final(e).stage is Head
        },
        old(e).stage is Continue && event is Wrote ==> (r matches Action::ToBox(b) && b@ == old(e).head@ && final(e).stage is Head),
        old(e).stage is Head && (event is BoxStalled || event is BoxClosed) ==> (r matches
            Action::Refuse(said) && said@ == stopped_reading()),
        old(e).stage is Refusing ==> r is Finish && final(e).stage is Over,
        old(e).stage is Over ==> r is Drop,
{
    let a = r@;
    assert(old(e)@.stage == old(e).stage && final(e)@.stage == final(e).stage);
}

/// A body of a known length: behind the head goes what came with it, as far as it
/// is the body's; then what the peer sends, as far as there is any left; and once
/// none is left the box is listened to. Nothing is read past its end.
pub proof fn law_the_body_follows_the_head(e: &mut Exchange, event: Event, late: bool, r: Action)
    requires
        call_ensures(Exchange::next, (e, event, late), r),
        old(e)@.wf(),
        !old(e).plan.chunked,
    ensures
        ({
            let want = old(e).plan.want;
            let came = old(e).rest@;
            &&& old(e).stage is Head && event is Wrote && want > 0 && came.len() > 0 ==> (
            r matches Action::ToBox(b) && b@ == (if came.len() <= want {
                came
            } else {
                came.take(want as int)
            }))
            &&& old(e).stage is Head && event is Wrote && want > 0 && came.len() == 0 && !late ==> (
            r matches Action::FromPeer(n) && n > 0 && n <= want && (n == want || n == 32768))
            &&& old(e).stage is Head && event is Wrote && want > 0 && came.len() == 0 && late ==> (
            r matches Action::Refuse(said) && said@ == took_too_long())
            &&& old(e).stage is Head && event is Wrote && want == 0 ==> (final(e)@, r@) == old(e)@.sent_to_box(old(e).head@.len() as u64).answering()
            &&& old(e).stage matches Stage::Length { left, sending } ==> {
                &&& event is Wrote && left == sending ==> (final(e)@, r@) == old(e)@.sent_to_box(
                    sending,
                ).answering()
                &&& event is Wrote && left > sending && !late ==> (r matches Action::FromPeer(n)
                    && 0 < n && n <= left - sending && (n == left - sending || n == 32768))
                &&& event is Wrote && left > sending && late ==> (r matches Action::Refuse(said)
                    && said@ == took_too_long())
                &&& event matches Event::PeerSaid(b) ==> (b@.len() == 0 ==> r is Drop)
                &&& event matches Event::PeerSaid(b) ==> (b@.len() > 0 && sending == 0 ==> (
                r matches Action::ToBox(c) && c@ == (if b@.len() <= left {
                    b@
                } else {
                    b@.take(left as int)
                })))
                &&& event is PeerIdle ==> (r matches Action::Refuse(said) && said@
                    == took_too_long())
                &&& event is BoxStalled ==> (r matches Action::Refuse(said) && said@
                    == stopped_reading())
                &&& event is Answered || event is BoxClosed ==> (final(e)@, r@) == old(e)@.answering()
            }
        }),
{
    let a = r@;
    let v = old(e)@;
    assert(v.stage == old(e).stage && final(e)@.stage == final(e).stage);
    assert(v.rest.take(v.rest.len() as int) =~= v.rest);
    if let Event::PeerSaid(b) = event {
        assert(b@.take(b@.len() as int) =~= b@);
    }
}

/// What a head of the box leads to. An interim one goes to the peer without the
/// share's own cookies. One that changes protocols, to a peer that asked for it,
/// goes the same way with what came behind it. Any other is relayed, with what
/// came behind it, and as one without a body where it has none. One of the first
/// two that is malformed is refused.
pub proof fn law_what_a_head_of_the_box_leads_to(v: ExchangeView, head: Seq<u8>, complete: bool)
    ensures
        ({
            let status = http_front::status_of(head);
            let interim = complete && (status == Some(100nat) || (status matches Some(c) && 102 <= c
                <= 199));
            let switches = complete && v.plan.upgrade && status == Some(101nat);
            let (after, action) = v.with_head(head, complete);
            &&& interim && http_front::well_formed(head) ==> (action matches ActionView::Interim {
                head: learned,
                cleaned,
            } && learned == head && http_front::full_lines(cleaned) == http_front::full_lines(
                head,
            ).filter(|l: Seq<u8>| !sets_an_own_cookie(l)) && after.stage is Interim)
            &&& interim && !http_front::well_formed(head) ==> action == ActionView::Refuse(
                not_well_formed(),
            )
            &&& switches && http_front::well_formed(head) ==> (action matches ActionView::Switch {
                head: learned,
                out,
            } && learned == head && out == http_front::rebuilt(
                http_front::Sieve::ShareCookies,
                head,
                Seq::empty(),
            ) + v.early && after.stage is Switching)
            &&& switches && !http_front::well_formed(head) ==> action
                == (ActionView::RefuseSwitch { head, reply: not_well_formed() })
            &&& v.plan.upgrade && !complete && head.len() == 0 ==> action == ActionView::Refuse(
                stopped_reading(),
            )
            &&& !interim && !switches && !(v.plan.upgrade && !complete && head.len() == 0)
                ==> action == (ActionView::Relay {
                head,
                rest: v.early,
                complete,
                bodyless: http_front::bodyless(v.method, head),
            }) && after.stage is Over
            &&& after.counts == v.counts
            &&& after.plan == v.plan
        }),
{
    reveal(ExchangeView::with_head);
    reply_laws::law_stripping_cookies_keeps_everything_else(head);
}

/// The head of the box is what it said up to the first blank line, and what it
/// said behind that stays. Without a blank line more is read, up to 256 kibibytes.
pub proof fn law_the_head_of_the_box_ends_at_its_blank_line(v: ExchangeView)
    ensures
        http_front::head_end(v.early) matches Some(n) ==> v.answering() == (ExchangeView {
            early: v.early.skip(n),
            ..v
        }).with_head(v.early.take(n), true),
        http_front::head_end(v.early) is None && v.early.len() <= 262144 ==> v.answering().1
            == ActionView::FromBox && v.answering().0 == (ExchangeView { stage: Stage::Answer, ..v }),
        http_front::head_end(v.early) is None && v.early.len() > 262144 ==> v.answering() == (
        ExchangeView { early: Seq::empty(), ..v }).with_head(v.early, false),
{
    reveal(ExchangeView::answering);
}

/// The answer of a box is gathered until its head is whole, or until it ends;
/// eight interim heads are the most that go to a peer.
pub proof fn law_the_answer_is_gathered(e: &mut Exchange, event: Event, late: bool, r: Action)
    requires
        call_ensures(Exchange::next, (e, event, late), r),
        old(e)@.wf(),
    ensures
        old(e).stage is Answer ==> (event matches Event::BoxSaid(b) ==> if b@.len() == 0 {
            (final(e)@, r@) == (ExchangeView { early: Seq::empty(), ..old(e)@ }).with_head(
                old(e).early@,
                false,
            )
        } else {
            (final(e)@, r@) == (ExchangeView { early: old(e).early@ + b@, ..old(e)@ }).answering()
        }),
        old(e).stage is Interim && event is Wrote ==> (old(e).interim + 1 >= 8 <==> r is Finish),
        old(e).stage is Tail && event is Wrote ==> r is Duplex,
        old(e).stage is Switching && event is Wrote && (old(e).plan.chunked || old(e).rest@.len()
            <= old(e).plan.want) ==> r is Duplex,
        old(e).stage is Switching && event is Wrote && !old(e).plan.chunked && old(e).rest@.len()
            > old(e).plan.want ==> (r matches Action::ToBox(b) && b@ == old(e).rest@.skip(
            old(e).plan.want as int,
        )),
{
    let a = r@;
    let v = old(e)@;
    assert(v.stage == old(e).stage && final(e)@.stage == final(e).stage);
    if v.stage is Interim && event is Wrote && v.interim + 1 < 8 {
        reveal(ExchangeView::answering);
        reveal(ExchangeView::with_head);
    }
    if v.plan.chunked || v.rest.len() <= v.plan.want {
        assert(v.rest.skip(v.rest.len() as int) =~= Seq::empty());
    }
}

} // verus!
