//! What is passed on of a response, how much of it, and when it was cut short.
use vstd::prelude::*;
use vstd::string::*;

use crate::forwarding_laws::same_name;
use crate::framing_laws::{self, has_one_length, told};
use crate::gate;
use crate::http_front::{self, Counters, NoHead};
use crate::relay::{self, Ending, Linger, Opening, Relay, Watch};
use crate::request_laws::{is_no_coding, last_word};

verus! {

/// A request head is read up to its blank line, and what came behind it is kept;
/// nothing at all is silence, and an end before the blank line, more than is read
/// of a head, or a head that is no text, is refused. Otherwise it is read on.
pub proof fn law_a_head_is_read_to_its_blank_line(
    buf: &mut Vec<u8>,
    heard: &[u8],
    r: Option<Result<(String, Vec<u8>), NoHead>>,
)
    requires
        call_ensures(relay::read_head, (buf, heard), r),
    ensures
        ({
            let all = old(buf)@ + heard@;
            let end = http_front::head_end(all);
            &&& final(buf)@ == all
            &&& heard@.len() == 0 && old(buf)@.len() == 0 ==> r == Some(
                Err::<(String, Vec<u8>), NoHead>(NoHead::Silent),
            )
            &&& heard@.len() == 0 && old(buf)@.len() > 0 ==> r == Some(
                Err::<(String, Vec<u8>), NoHead>(NoHead::Refused),
            )
            &&& heard@.len() > 0 && end is None ==> (r is None <==> all.len() <= 32768)
            &&& heard@.len() > 0 && end is None && all.len() > 32768 ==> r == Some(
                Err::<(String, Vec<u8>), NoHead>(NoHead::Refused),
            )
            &&& heard@.len() > 0 && end is Some && vstd::utf8::valid_utf8(all.take(end->0)) ==> (
            r matches Some(Ok((head, rest))) && head@ == vstd::utf8::decode_utf8(all.take(end->0))
                && rest@ == all.skip(end->0))
            &&& heard@.len() > 0 && end is Some && !vstd::utf8::valid_utf8(all.take(end->0)) ==> r
                == Some(Err::<(String, Vec<u8>), NoHead>(NoHead::Refused))
        }),
{
    assert(old(buf)@ + heard@ =~= final(buf)@);
    if heard@.len() == 0 {
        assert(old(buf)@ + heard@ =~= old(buf)@);
    }
}

/// The watch on a box ends when it closes or has said too much, and finds an
/// answer in a final head; otherwise it goes on.
pub proof fn law_the_watch_finds_a_final_head(
    buf: &mut Vec<u8>,
    heard: &[u8],
    closed: bool,
    r: Watch,
)
    requires
        call_ensures(relay::watch_for_final_response, (buf, heard, closed), r),
    ensures
        final(buf)@ == old(buf)@ + heard@,
        closed ==> r is Park,
        (old(buf)@ + heard@).len() > 262144 ==> r is Park,
        !closed && (old(buf)@ + heard@).len() <= 262144 ==> (r is Answered
            <==> relay::holds_final_head(old(buf)@ + heard@)),
        !closed && (old(buf)@ + heard@).len() <= 262144 ==> !(r is Park),
{
}

/// A head that is whole answers if its status is 200 or more, and is passed over
/// for the next if it is less; a head that is not whole does not answer.
pub proof fn law_an_interim_head_is_no_answer(head: Seq<u8>, rest: Seq<u8>)
    requires
        http_front::head_end(head + rest) == Some(head.len() as int),
        head.len() > 0,
    ensures
        http_front::status_of(head) matches Some(c) ==> (c >= 200 ==> relay::holds_final_head(
            head + rest,
        )),
        http_front::status_of(head) matches Some(c) ==> (c < 200 ==> relay::holds_final_head(
            head + rest,
        ) == relay::holds_final_head(rest)),
        http_front::status_of(head) is None ==> relay::holds_final_head(head + rest)
            == relay::holds_final_head(rest),
        http_front::head_end(rest) is None ==> !relay::holds_final_head(rest),
{
    let s = head + rest;
    assert(s.take(head.len() as int) =~= head);
    assert(s.skip(head.len() as int) =~= rest);
}

/// A body of a known length is passed on to its end and not beyond; one without
/// any framing is passed on as it comes.
pub proof fn law_a_body_is_passed_on_to_its_end(r: &mut Relay, bytes: &[u8], take: usize)
    requires
        call_ensures(Relay::from_box, (r, bytes), take),
        old(r)@.wf(),
        old(r)@.scan is None,
    ensures
        old(r).body_len matches Some(n) ==> (if n - old(r).sent <= bytes@.len() {
            take == n - old(r).sent
        } else {
            take == bytes@.len()
        }),
        old(r).body_len is None ==> take == bytes@.len(),
        final(r).sent == old(r).sent,
        final(r).body_len == old(r).body_len,
        final(r).pending == take,
        final(r).peer_said_all == old(r).peer_said_all,
{
    assert(final(r)@.sent == final(r).sent && final(r)@.body_len == final(r).body_len
        && final(r)@.pending == final(r).pending && final(r)@.peer_said_all
        == final(r).peer_said_all);
}

/// What was passed on is added to what was sent, and counted for the visitor.
pub proof fn law_what_is_passed_on_is_counted(r: &mut Relay, counts: &mut Counters)
    requires
        call_ensures(Relay::passed_on, (r, counts), ()),
        old(r)@.wf(),
        old(counts).to_peer + old(r).pending <= u64::MAX,
    ensures
        final(r).sent == old(r).sent + old(r).pending,
        final(r).pending == 0,
        final(r).body_len == old(r).body_len,
        final(counts).to_peer == old(counts).to_peer + old(r).pending,
        final(counts).to_box == old(counts).to_box,
        final(counts).truncated == old(counts).truncated,
{
    assert(final(r)@.sent == final(r).sent && final(r)@.pending == final(r).pending
        && final(r)@.body_len == final(r).body_len);
}

/// Bytes are counted for the side that they went to.
pub proof fn law_bytes_are_counted_for_their_side(a: &mut Counters, b: &mut Counters, n: u64)
    requires
        call_ensures(Counters::relayed, (a, n), ()),
        call_ensures(Counters::forwarded, (b, n), ()),
        old(a).to_peer + n <= u64::MAX,
        old(b).to_box + n <= u64::MAX,
    ensures
        final(a).to_peer == old(a).to_peer + n,
        final(a).to_box == old(a).to_box,
        final(a).truncated == old(a).truncated,
        final(b).to_box == old(b).to_box + n,
        final(b).to_peer == old(b).to_peer,
        final(b).truncated == old(b).truncated,
{
}

/// A response is complete once as much was sent as it was said to be, or once its
/// last chunk went by.
pub proof fn law_a_response_is_complete_at_its_end(r: Relay, done: bool)
    requires
        call_ensures(Relay::is_complete, (&r,), done),
    ensures
        r.body_len matches Some(n) ==> (r.scan is None ==> (done <==> r.sent == n)),
        r.body_len is None && r.scan is None ==> !done,
        r@.scan matches Some(s) ==> (r.body_len is None ==> (done <==> s is Done)),
{
}

/// A response was cut short if the box ended it before its end: before a length
/// that it gave was sent, or before its last chunk. One that had neither was cut
/// short if the box failed or fell silent, and not if it closed. A visitor who
/// went away cut nothing short, and one who had said everything is not told from
/// one who died by a timer.
pub proof fn law_only_a_box_cuts_a_response_short(r: Relay, how: Ending, short: bool)
    requires
        call_ensures(Relay::was_cut_short, (&r, how), short),
    ensures
        how is Complete || how is PeerFailed || how is PeerStalled ==> !short,
        how is BoxClosed || how is BoxFailed ==> (r.body_len matches Some(n) ==> (short <==> r.sent
            < n)),
        how is BoxQuiet || how is Deadline ==> (r.body_len matches Some(n) ==> (short <==> r.sent
            < n && !r.peer_said_all)),
        r.body_len is None && r.scan is None ==> (how is BoxClosed ==> !short),
        r.body_len is None && r.scan is None ==> (how is BoxFailed ==> short),
        r.body_len is None && r.scan is None ==> (how is BoxQuiet || how is Deadline ==> (short
            <==> !r.peer_said_all)),
        r.body_len is None ==> (r@.scan matches Some(s) ==> (s is Done ==> !short)),
        r.body_len is None ==> (r@.scan matches Some(s) ==> (!(s is Done) && !(s is Lost) && (
        how is BoxClosed || how is BoxFailed) ==> short)),
{
}

/// A response of a known length may take six hours, and any other one.
pub proof fn law_a_response_may_take_so_long(r: Relay, n: u64)
    requires
        call_ensures(Relay::lifetime, (&r,), n),
    ensures
        r.body_len is Some ==> n == 21600,
        r.body_len is None ==> n == 3600,
{
}

/// How a body is relayed follows from its head: not at all where there is none,
/// to its length where it gives one, by its chunks where it is sent in chunks,
/// and to the close otherwise.
pub proof fn law_a_body_is_relayed_as_its_head_says(
    head: &[u8],
    rest: &[u8],
    complete: bool,
    bodyless: bool,
    r: Opening,
)
    requires
        call_ensures(relay::relay_response, (head, rest, complete, bodyless), r),
    ensures
        r matches Opening::Relay { relay, first, .. } ==> {
            let codings = told(head@, "transfer-encoding"@);
            &&& bodyless ==> relay.body_len == Some(0u64) && relay.scan is None && first == 0
            &&& forall|n: u64| #[trigger]
                has_one_length(head@, n) && !bodyless ==> relay.body_len == Some(n)
                    && relay.scan is None && first == (if n < rest@.len() {
                    n as int
                } else {
                    rest@.len() as int
                })
            &&& !bodyless && codings.len() > 0 && same_name(last_word(codings), "chunked"@)
                && !is_no_coding(last_word(codings)) ==> relay.body_len is None
                && relay.scan is Some
            &&& !bodyless && (forall|n: u64| !#[trigger] has_one_length(head@, n))
                ==> relay.body_len is None
            &&& relay.sent == 0
            &&& relay.pending == first
            &&& !relay.peer_said_all
        },
{
    framing_laws::lemma_ends(head@);
    assert(r@ == relay::opening(head@, rest@, complete, bodyless));
    if let Opening::Relay { relay, first, .. } = r {
        assert(relay@.sent == relay.sent && relay@.pending == relay.pending && relay@.body_len
            == relay.body_len && relay@.peer_said_all == relay.peer_said_all);
        assert(relay@.scan is Some <==> relay.scan is Some);
    }
}

/// A response that is not relayed is answered for the box: one that is malformed
/// and one that never began with no mark on the box's account, one that was begun
/// and not finished with one.
pub proof fn law_a_response_that_is_not_relayed_is_answered_for(
    head: &[u8],
    rest: &[u8],
    complete: bool,
    bodyless: bool,
    r: Opening,
)
    requires
        call_ensures(relay::relay_response, (head, rest, complete, bodyless), r),
    ensures
        r matches Opening::Refuse { reply, truncated } ==> {
            &&& truncated <==> !complete && head@.len() > 0
            &&& complete ==> reply@ == gate::plain_answer(
                "502 Bad Gateway"@,
                "The app in this box sent a reply h5i will not forward: its headers are not well formed. Whoever shared it needs to look."@,
            )
            &&& !complete && head@.len() == 0 ==> reply@ == gate::plain_answer(
                "502 Bad Gateway"@,
                "The app in this box stopped reading. Whoever shared it needs to look."@,
            )
            &&& !complete && head@.len() > 0 ==> reply@ == gate::plain_answer(
                "502 Bad Gateway"@,
                "The app in this box began a reply and did not finish it. Whoever shared it needs to look."@,
            )
        },
{
    assert(r@ == relay::opening(head@, rest@, complete, bodyless));
}

/// A peer that is done with is listened to for a moment, and then, if it says
/// anything, for two seconds and four mebibytes more.
pub proof fn law_a_peer_is_not_listened_to_for_ever(l: &mut Linger, read: usize, r: bool, wait: u64)
    requires
        call_ensures(Linger::finish_with, (l, read), r),
        call_ensures(Linger::patience, (&*final(l),), wait),
        old(l).swallowed + read <= u64::MAX,
    ensures
        read == 0 ==> !r,
        final(l).swallowed == old(l).swallowed + read,
        read > 0 && old(l).swallowed == 0 ==> r,
        read > 0 && old(l).swallowed > 0 ==> (r <==> final(l).swallowed <= 4194304),
        final(l).swallowed == 0 ==> wait == 40,
        final(l).swallowed > 0 ==> wait == 2000,
{
}

} // verus!
