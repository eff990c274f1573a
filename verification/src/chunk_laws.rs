//! What holds of the two readers of chunk framing together.
use vstd::prelude::*;

use crate::chunked::{self, at_line, belonging, place, run, Phase, ReaderView, ScanView, StepView};
use crate::http_front::{self, CR, LF};
use crate::seqs;

verus! {

/// How much a reader sends of a body that is all there, until that body ends;
/// `None` when it does not end, or is not one.
pub open spec fn forwarded(v: ReaderView) -> Option<nat>
    decreases v.buf.len(),
{
    match chunked::step(v, false) {
        (_, StepView::Ended) => Some(0),
        (after, StepView::Send(sent)) => if after.buf.len() < v.buf.len() {
            match forwarded(after) {
                Some(n) => Some(sent.len() + n),
                None => None,
            }
        } else {
            None
        },
        _ => None,
    }
}

/// How long the trailers are, the blank line behind them included.
pub open spec fn trailers_in(s: ScanView, bytes: Seq<u8>) -> nat
    decreases bytes.len(),
{
    if bytes.len() == 0 || s is Done {
        0
    } else {
        (if s matches ScanView::Line { after_zero: true, .. } {
            1nat
        } else {
            0nat
        }) + trailers_in(chunked::advance(s, bytes[0]), bytes.skip(1))
    }
}

proof fn lemma_trailers_concat(s: ScanView, a: Seq<u8>, b: Seq<u8>)
    ensures
        trailers_in(s, a + b) == trailers_in(s, a) + trailers_in(run(s, a), b),
    decreases a.len(),
{
    if a.len() == 0 {
        assert(a + b == b);
    } else if s is Done {
        chunked::lemma_run_done(a);
    } else {
        assert((a + b).skip(1) == a.skip(1) + b);
        lemma_trailers_concat(chunked::advance(s, a[0]), a.skip(1), b);
    }
}

/// Every byte of a trailer line is one of the trailers.
proof fn lemma_trailer_line(line: Seq<u8>, bytes: Seq<u8>)
    requires
        bytes.len() > 0,
        bytes.last() == LF,
        forall|j: int| 0 <= j < bytes.len() - 1 ==> bytes[j] != LF,
    ensures
        trailers_in(ScanView::Line { after_zero: true, line }, bytes) == bytes.len(),
    decreases bytes.len(),
{
    let rest = bytes.skip(1);
    if bytes.len() > 1 {
        assert(bytes[0] != LF);
        assert forall|j: int| 0 <= j < rest.len() - 1 implies rest[j] != LF by {
            assert(rest[j] == bytes[j + 1]);
        }
        lemma_trailer_line(line.push(bytes[0]), rest);
    } else {
        reveal_with_fuel(trailers_in, 2);
        assert(rest.len() == 0);
    }
}

/// How long the line is that the first line feed ends.
spec fn first_line(buf: Seq<u8>) -> int {
    seqs::find(buf, LF) as int + 1
}

/// A body whose framing is followed to its end begins, where a line stands,
/// with a line that the scanner accepts: the first line feed ends it.
proof fn lemma_first_line(after_zero: bool, buf: Seq<u8>)
    requires
        run(at_line(after_zero), buf) is Done,
    ensures
        ({
            let n = first_line(buf);
            &&& n <= buf.len()
            &&& !(chunked::past_line(buf.take(n), after_zero) is Lost)
            &&& run(at_line(after_zero), buf) == run(
                chunked::past_line(buf.take(n), after_zero),
                buf.skip(n),
            )
        }),
{
    let k = seqs::find(buf, LF) as int;
    seqs::lemma_find(buf, LF);
    chunked::lemma_run_line(after_zero, Seq::empty(), buf, k as nat);
    let line = Seq::<u8>::empty() + buf.take(k);
    assert(line == buf.take(k));
    let rest = buf.skip(k);
    if k == buf.len() {
        assert(rest.len() == 0);
    } else {
        assert(rest[0] == LF);
        assert(line.push(LF) == buf.take(k + 1));
        assert(rest.skip(1) == buf.skip(k + 1));
        let after = chunked::past_line(buf.take(k + 1), after_zero);
        assert(run(at_line(after_zero), buf) == run(after, buf.skip(k + 1)));
        if after is Lost {
            chunked::lemma_run_lost(buf.skip(k + 1));
        }
    }
}

/// The first line of a buffer, where the first line feed has a carriage return
/// in front of it.
proof fn lemma_line_len(buf: Seq<u8>)
    requires
        first_line(buf) <= buf.len(),
        chunked::unended(buf.take(first_line(buf))) is Some,
    ensures
        chunked::line_len(buf) == Some(first_line(buf)),
{
    let k = seqs::find(buf, LF) as int;
    seqs::lemma_find(buf, LF);
    let end = http_front::line_end();
    let line = buf.take(k + 1);
    assert(line[k - 1] == CR && line[k] == LF);
    assert(buf.subrange(k - 1, k + 1) =~= end);
    assert(seqs::occurs_at(buf, end, k - 1));
    assert forall|j: int| 0 <= j < k - 1 implies !seqs::occurs_at(buf, end, j) by {
        if seqs::occurs_at(buf, end, j) {
            assert(buf.subrange(j, j + 2)[1] == end[1]);
            assert(buf[j + 1] == LF);
        }
    }
    seqs::lemma_find_seq_is(buf, end, 0, Some(k - 1));
}

/// The reader of requests and the scanner of responses end a body in the same
/// place: whatever the bytes are, the one is done exactly when the other is, and
/// has sent exactly what belongs to the body. Trailers are all that can come
/// between them, where they are longer than a request may have.
pub proof fn law_both_readers_end_a_body_in_the_same_place(v: ReaderView)
    requires
        v.phase matches Phase::Data(n) ==> n > 0,
        v.trailer_bytes + trailers_in(place(v.phase), v.buf) <= chunked::MAX_TRAILERS + 2,
    ensures
        forwarded(v) == (if run(place(v.phase), v.buf) is Done {
            Some(belonging(place(v.phase), v.buf))
        } else {
            None
        }),
    decreases v.buf.len(),
{
    let here = place(v.phase);
    let (after, s) = chunked::step(v, false);
    chunked::law_reader_sends_what_it_read(v, false);
    match s {
        StepView::Send(sent) => {
            chunked::lemma_run_concat(here, sent, after.buf);
            lemma_trailers_concat(here, sent, after.buf);
            if v.phase == Phase::Trailer {
                lemma_sent_trailer(v);
            }
            law_both_readers_end_a_body_in_the_same_place(after);
        },
        StepView::Ended => {
            chunked::lemma_run_done(v.buf);
        },
        _ => {
            if run(here, v.buf) is Done {
                lemma_a_body_that_ends_is_sent(v);
            }
        },
    }
}

/// A trailer line that is sent counts in full.
proof fn lemma_sent_trailer(v: ReaderView)
    requires
        v.phase == Phase::Trailer,
        chunked::step(v, false).1 is Send,
    ensures
        ({
            let sent = chunked::step(v, false).1->Send_0;
            &&& trailers_in(at_line(true), sent) == sent.len()
            &&& chunked::step(v, false).0.trailer_bytes <= v.trailer_bytes + sent.len()
        }),
{
    let n = chunked::line_len(v.buf)->0;
    let sent = v.buf.take(n);
    seqs::lemma_find_seq(v.buf, http_front::line_end(), 0);
    let l = chunked::unended(sent)->0;
    assert forall|j: int| 0 <= j < sent.len() - 1 implies sent[j] != LF by {
        if j < l.len() {
            assert(chunked::clean_byte(l[j]));
            assert(l[j] == sent[j]);
        }
    }
    lemma_trailer_line(Seq::empty(), sent);
}

/// A reader that has all of a body that the scanner follows to its end goes on.
proof fn lemma_a_body_that_ends_is_sent(v: ReaderView)
    requires
        v.phase matches Phase::Data(n) ==> n > 0,
        v.trailer_bytes + trailers_in(place(v.phase), v.buf) <= chunked::MAX_TRAILERS + 2,
        run(place(v.phase), v.buf) is Done,
    ensures
        chunked::step(v, false).1 is Send || chunked::step(v, false).1 is Ended,
{
    let buf = v.buf;
    match v.phase {
        Phase::Ended => {},
        Phase::Data(_) => {},
        Phase::Closing => {
            reveal_with_fuel(run, 3);
            if buf.len() >= 1 && buf[0] != CR {
                chunked::lemma_run_lost(buf.skip(1));
            }
            if buf.len() >= 2 {
                assert(buf.skip(1)[0] == buf[1]);
                assert(buf.skip(1).skip(1) == buf.skip(2));
                if buf[0] == CR && buf[1] != LF {
                    chunked::lemma_run_lost(buf.skip(2));
                }
                assert(buf.take(2) =~= seq![buf[0], buf[1]]);
                assert(http_front::line_end() =~= seq![CR, LF]);
            }
        },
        Phase::Size => {
            lemma_first_line(false, buf);
            lemma_line_len(buf);
        },
        Phase::Trailer => {
            lemma_first_line(true, buf);
            let line = buf.take(first_line(buf));
            if line == http_front::line_end() {
                assert(line[0] == CR && line[1] == LF);
            }
            lemma_line_len(buf);
            lemma_at_least_the_blank_line(buf);
        },
    }
}

/// Trailers that end have their blank line.
proof fn lemma_at_least_the_blank_line(buf: Seq<u8>)
    requires
        run(at_line(true), buf) is Done,
    ensures
        trailers_in(at_line(true), buf) >= 2,
{
    lemma_first_line(true, buf);
    let k = seqs::find(buf, LF) as int;
    seqs::lemma_find(buf, LF);
    let line = buf.take(k + 1);
    assert(line + buf.skip(k + 1) =~= buf);
    lemma_trailers_concat(at_line(true), line, buf.skip(k + 1));
    lemma_trailer_line(Seq::empty(), line);
    if line == http_front::line_end() {
        assert(line.len() == 2);
    }
}

} // verus!
