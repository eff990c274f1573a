//! How a body goes by: chunk by chunk, and part by part.
use vstd::prelude::*;
use vstd::string::*;

use crate::address;
use crate::chunked::{self, ScanView};
use crate::delivery::{Action, Delivery, Event};
use crate::head_laws;
use crate::http_front;
use crate::seqs;

verus! {

/// The end of a line.
pub open spec fn eol() -> Seq<u8> {
    seq![13u8, 10]
}

/// A chunk: its size in hexadecimal, and then its data, each with the end of a
/// line behind it.
pub open spec fn chunk(digits: Seq<u8>, data: Seq<u8>) -> Seq<u8> {
    digits + eol() + data + eol()
}

/// A line goes by as a whole.
proof fn lemma_line_goes_by(after_zero: bool, line: Seq<u8>, rest: Seq<u8>)
    requires
        seqs::lacks(line, 10u8),
    ensures
        ({
            let start = chunked::at_line(after_zero);
            let after = chunked::past_line(line + eol(), after_zero);
            let bytes = line + eol() + rest;
            &&& chunked::run(start, bytes) == chunked::run(after, rest)
            &&& chunked::belonging(start, bytes) == line.len() + 2 + chunked::belonging(after, rest)
        }),
{
    let bytes = line + eol() + rest;
    let k = (line.len() + 1) as nat;
    let none = Seq::<u8>::empty();
    assert forall|j: int| 0 <= j < k implies bytes[j] != 10 by {
        if j < line.len() {
            assert(bytes[j] == line[j]);
        }
    }
    chunked::lemma_run_line(after_zero, none, bytes, k);
    let so_far = none + bytes.take(k as int);
    assert(so_far =~= line + seq![13u8]);
    let tail = bytes.skip(k as int);
    assert(tail[0] == 10 && tail.skip(1) =~= rest);
    assert(so_far.push(10u8) =~= line + eol());
}

/// A chunk goes by to its end, whatever its data is, and the next is looked for:
/// all of it belongs to the body.
pub proof fn law_a_chunk_goes_by(digits: Seq<u8>, data: Seq<u8>, rest: Seq<u8>)
    requires
        0 < data.len() <= u64::MAX,
        http_front::chars_of_bytes(digits) == address::hexadecimal(data.len()),
    ensures
        chunked::run(chunked::at_line(false), chunk(digits, data) + rest) == chunked::run(
            chunked::at_line(false),
            rest,
        ),
        chunked::belonging(chunked::at_line(false), chunk(digits, data) + rest) == chunk(
            digits,
            data,
        ).len() + chunked::belonging(chunked::at_line(false), rest),
{
    let n = data.len() as u64;
    let behind = data + eol() + rest;
    head_laws::lemma_size_line(digits, n);
    lemma_line_goes_by(false, digits, behind);
    assert(chunk(digits, data) + rest =~= digits + eol() + behind);
    chunked::lemma_run_data(n, behind, data.len());
    let tail = behind.skip(data.len() as int);
    assert(tail =~= eol() + rest);
    let last = tail.skip(1);
    assert(tail[0] == 13 && last[0] == 10);
    assert(last.skip(1) =~= rest);
    let start = ScanView::Closing(0);
    let half = ScanView::Closing(1);
    assert(chunked::advance(start, 13u8) == half);
    assert(chunked::advance(half, 10u8) == chunked::at_line(false));
    assert(chunked::run(start, tail) == chunked::run(half, last));
    assert(chunked::run(half, last) == chunked::run(chunked::at_line(false), rest));
    assert(chunked::belonging(start, tail) == 1 + chunked::belonging(half, last));
    assert(chunked::belonging(half, last) == 1 + chunked::belonging(
        chunked::at_line(false),
        rest,
    ));
}

/// A chunk of nothing and an empty line end a body, and what is behind them does
/// not belong to it.
pub proof fn law_a_chunk_of_nothing_ends_a_body(rest: Seq<u8>)
    ensures
        chunked::run(chunked::at_line(false), seq![48u8] + eol() + eol() + rest)
            == ScanView::Done,
        chunked::belonging(chunked::at_line(false), seq![48u8] + eol() + eol() + rest) == 5,
{
    let zero = seq![48u8];
    let none = Seq::<u8>::empty();
    assert(http_front::chars_of_bytes(zero) =~= address::hexadecimal(0)) by {
        assert(address::hexadecimal(0) =~= seq!['0']);
    }
    head_laws::lemma_size_line(zero, 0);
    let behind = eol() + rest;
    lemma_line_goes_by(false, zero, behind);
    assert(zero + eol() + eol() + rest =~= zero + eol() + behind);
    lemma_line_goes_by(true, none, rest);
    assert(none + eol() + rest =~= behind);
    assert(none + eol() =~= http_front::line_end());
    chunked::lemma_run_done(rest);
}

/// A trailer goes by as a whole, and the end is still looked for.
pub proof fn law_a_trailer_goes_by(line: Seq<u8>, rest: Seq<u8>)
    requires
        line.len() > 0,
        seqs::lacks(line, 10u8),
        chunked::trailer(line + eol()),
    ensures
        chunked::run(chunked::at_line(true), line + eol() + rest) == chunked::run(
            chunked::at_line(true),
            rest,
        ),
{
    lemma_line_goes_by(true, line, rest);
    assert((line + eol()).len() > http_front::line_end().len());
}

/// A response goes to the visitor part by part: behind its head what came with
/// it, and then what the box sends. It is over when it is complete, when its time
/// is up, when the box or the visitor ends it; a visitor who says something, or
/// has said everything, does not end it.
pub proof fn law_a_response_goes_part_by_part(
    d: &mut Delivery,
    event: Event,
    late: bool,
    r: Action,
)
    requires
        call_ensures(Delivery::next, (d, event, late), r),
        old(d)@.wf(),
        old(d)@.can_count(event@),
    ensures
        old(d).stage is Head && event is Wrote ==> (r matches Action::ToPeer(b) && b@ == old(d).first@ && final(d).stage is First),
        old(d).stage is Head && (event is PeerStalled || event is PeerFailed) ==> r is Drop,
        old(d).stage is Reading ==> (event matches Event::BoxSaid(b) ==> (old(d).relay.body_len is None && old(d)@.relay.scan is None ==> (r matches Action::ToPeer(c)
            && c@ == b@))),
        old(d).stage is Reading ==> (event matches Event::BoxSaid(b) ==> (old(d).relay.body_len matches Some(n) ==> (old(d)@.relay.scan is None ==> (r matches
            Action::ToPeer(c) && c@ == (if b@.len() <= n - old(d).relay.sent {
            b@
        } else {
            b@.take(n - old(d).relay.sent)
        }))))),
        old(d).stage is Reading && (event is BoxClosed || event is BoxFailed || event is BoxQuiet
            || event is PeerFailed) ==> r is Finish && final(d).stage is Over,
        old(d).stage is Reading && event is PeerSaid && !late && !old(d)@.relay.complete() ==> (
        r matches Action::Read { watch_peer } && watch_peer == !old(d).relay.peer_said_all),
        old(d).stage is Reading && event is PeerClosed && !late && !old(d)@.relay.complete() ==> (
        r matches Action::Read { watch_peer } && !watch_peer && final(d).relay.peer_said_all),
        old(d).stage is Sending && event is Wrote ==> final(d).relay.sent == old(d).relay.sent
            + old(d).relay.pending,
        old(d).stage is Sending && event is Wrote && !late && !final(d)@.relay.complete()
            ==> r is Read,
        old(d).stage is Sending && event is Wrote && final(d)@.relay.complete() ==> r is Finish,
        old(d).stage is Sending && event is Wrote && late ==> r is Finish,
        old(d).stage is Sending && (event is PeerStalled || event is PeerFailed) ==> r is Finish,
        old(d).stage is Refusing ==> r is Finish,
        old(d).stage is Over ==> r is Drop,
{
    let a = r@;
    let v = old(d)@;
    assert(v.stage == old(d).stage && final(d)@.stage == final(d).stage);
    assert(final(d)@.relay.sent == final(d).relay.sent && final(d)@.relay.peer_said_all
        == final(d).relay.peer_said_all);
    assert(v.relay.sent == old(d).relay.sent && v.relay.body_len == old(d).relay.body_len
        && v.relay.pending == old(d).relay.pending && v.relay.peer_said_all
        == old(d).relay.peer_said_all);
    if let Event::BoxSaid(b) = event {
        assert(b@.take(b@.len() as int) =~= b@);
    }
}

} // verus!
