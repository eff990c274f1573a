//! Where a chunked body ends.
//!
//! Two things follow chunk framing here. A request body is read on its way to
//! the box by a [`ChunkReader`], which stops where the request does, so that
//! what follows on the connection is the pipelined request this proxy exists to
//! drop. A response body is watched on its way to the visitor by a [`Scan`],
//! which answers how many of the bytes belong to it.
//!
//! Both are stated over one automaton, [`advance`], which takes a body one byte
//! at a time.
use vstd::prelude::*;
use vstd::slice::slice_subrange;

use crate::gate;
use crate::http_front;
use crate::http_front::{CR, HTAB, LF};
use crate::seqs;
use crate::text;

verus! {

/// The longest a chunk-size line or a single trailer may be.
pub const MAX_CHUNK_LINE: usize = 1024;

/// The longest a whole trailer section may be.
pub const MAX_TRAILERS: usize = 8 * 1024;

/// Longest chunk-size or trailer line the response scanner will buffer.
pub const MAX_SCAN_LINE: usize = 16 * 1024;

/// A byte that no parser reads as the end of a line or as a control.
pub open spec fn clean_byte(b: u8) -> bool {
    (b >= 0x20 && b != 0x7f) || b == HTAB
}

/// No control characters, and nothing that another parser would read as the
/// end of a line.
pub open spec fn clean_line(line: Seq<u8>) -> bool {
    forall|i: int| 0 <= i < line.len() ==> clean_byte(#[trigger] line[i])
}

/// A line without the CRLF behind it; `None` when it does not end in one.
pub open spec fn unended(line: Seq<u8>) -> Option<Seq<u8>> {
    if line.len() >= 2 && line[line.len() - 2] == CR && line[line.len() - 1] == LF {
        Some(line.take(line.len() - 2))
    } else {
        None
    }
}

/// Hexadecimal digits and nothing else, and at least one.
pub open spec fn is_hex(s: Seq<char>) -> bool {
    s.len() > 0 && forall|i: int| 0 <= i < s.len() ==> text::hex_value(#[trigger] s[i]) is Some
}

/// What a row of hexadecimal digits stands for.
pub open spec fn hex_number(s: Seq<char>) -> nat
    decreases s.len(),
{
    if s.len() == 0 {
        0
    } else {
        hex_number(s.drop_last()) * 16 + (text::hex_value(s.last())->0) as nat
    }
}

/// The size that a chunk header line gives, whatever extension stands behind a
/// `;`.
pub open spec fn size_of(line: Seq<u8>) -> Option<u64> {
    match unended(line) {
        Some(l) => {
            let hex = http_front::chars_of_bytes(seqs::split(l, 59u8)[0]);
            if clean_line(l) && is_hex(hex) && hex_number(hex) <= u64::MAX {
                Some(hex_number(hex) as u64)
            } else {
                None
            }
        },
        None => None,
    }
}

/// A trailer line, or the blank line that ends the trailers.
pub open spec fn trailer(line: Seq<u8>) -> bool {
    match unended(line) {
        Some(l) => l.len() == 0 || (clean_line(l) && {
            let n = seqs::find(l, 58u8);
            0 < n < l.len() && forall|i: int| 0 <= i < n ==> gate::tchar(#[trigger] l[i] as char)
        }),
        None => false,
    }
}

/// No control characters, and nothing that another parser would read as the
/// end of a line.
pub fn is_clean_line(line: &[u8]) -> (r: bool)
    ensures
        r == clean_line(line@),
{
    let mut i: usize = 0;
    while i < line.len()
        invariant
            0 <= i <= line@.len(),
            forall|j: int| 0 <= j < i ==> clean_byte(#[trigger] line@[j]),
        decreases line@.len() - i,
    {
        let b: u8 = line[i];
        if !((b >= 0x20 && b != 0x7f) || b == HTAB) {
            assert(!clean_byte(line@[i as int]));
            return false;
        }
        i = i + 1;
    }
    true
}

/// A line without the CRLF behind it.
fn strip_end<'a>(line: &'a [u8]) -> (r: Option<&'a [u8]>)
    ensures
        match r {
            Some(l) => unended(line@) == Some(l@),
            None => unended(line@) is None,
        },
{
    let n: usize = line.len();
    if n >= 2 && line[n - 2] == CR && line[n - 1] == LF {
        let l = slice_subrange(line, 0, n - 2);
        assert(l@ == line@.take(n - 2));
        Some(l)
    } else {
        None
    }
}

/// A row of hexadecimal digits only grows as digits are added to it.
proof fn lemma_hex_grows(s: Seq<char>, n: int)
    requires
        0 <= n <= s.len(),
        forall|i: int| 0 <= i < s.len() ==> text::hex_value(#[trigger] s[i]) is Some,
    ensures
        hex_number(s.take(n)) <= hex_number(s),
    decreases s.len() - n,
{
    if n < s.len() {
        lemma_hex_grows(s, n + 1);
        assert(s.take(n + 1).drop_last() == s.take(n));
    } else {
        assert(s.take(n) == s);
    }
}

/// Read a row of hexadecimal digits.
fn parse_hex(s: &[u8]) -> (r: Option<u64>)
    ensures
        r == ({
            let hex = http_front::chars_of_bytes(s@);
            if is_hex(hex) && hex_number(hex) <= u64::MAX {
                Some(hex_number(hex) as u64)
            } else {
                None
            }
        }),
{
    let ghost hex = http_front::chars_of_bytes(s@);
    if s.len() == 0 {
        return None;
    }
    let mut i: usize = 0;
    while i < s.len()
        invariant
            0 <= i <= s@.len(),
            hex == http_front::chars_of_bytes(s@),
            forall|j: int| 0 <= j < i ==> text::hex_value(#[trigger] hex[j]) is Some,
        decreases s@.len() - i,
    {
        assert(hex[i as int] == s@[i as int] as char);
        if text::hex_of(s[i] as char).is_none() {
            return None;
        }
        i = i + 1;
    }
    let mut n: u64 = 0;
    i = 0;
    while i < s.len()
        invariant
            0 <= i <= s@.len(),
            hex == http_front::chars_of_bytes(s@),
            forall|j: int| 0 <= j < hex.len() ==> text::hex_value(#[trigger] hex[j]) is Some,
            n == hex_number(hex.take(i as int)),
        decreases s@.len() - i,
    {
        proof {
            assert(hex[i as int] == s@[i as int] as char);
            assert(hex.take(i + 1).drop_last() == hex.take(i as int));
            lemma_hex_grows(hex, i + 1);
        }
        let d: u64 = match text::hex_of(s[i] as char) {
            Some(d) => d as u64,
            None => 0,
        };
        if n > (u64::MAX - d) / 16 {
            return None;
        }
        n = n * 16 + d;
        i = i + 1;
    }
    assert(hex.take(hex.len() as int) == hex);
    Some(n)
}

/// The size from a chunk header line, ignoring any extension after `;`.
///
/// Held to the same discipline as a header line: a chunk-size line is the
/// *only* thing telling this proxy where the request ends, so it is the last
/// place to be relaxed about it. No embedded CR or LF, no controls, no
/// surrounding white space, and hex that is hex.
pub fn chunk_size(line: &[u8]) -> (r: Option<u64>)
    ensures
        r == size_of(line@),
{
    match strip_end(line) {
        None => None,
        Some(l) => {
            if !is_clean_line(l) {
                return None;
            }
            let parts: Vec<&[u8]> = seqs::split_at_each(l, 59u8);
            proof {
                seqs::lemma_split_len(l@, 59u8);
                assert(seqs::views(parts@).len() == parts@.len());
                assert(seqs::views(parts@)[0] == parts@[0]@);
            }
            parse_hex(parts[0])
        },
    }
}

/// A trailer line: a header, held to the header rules.
pub fn is_trailer(line: &[u8]) -> (r: bool)
    ensures
        r == trailer(line@),
{
    match strip_end(line) {
        None => false,
        Some(l) => {
            if l.len() == 0 {
                return true;
            }
            if !is_clean_line(l) {
                return false;
            }
            let n: usize = seqs::position(l, 58u8);
            proof {
                seqs::lemma_find(l@, 58u8);
            }
            if n == 0 || n == l.len() {
                return false;
            }
            let mut i: usize = 0;
            while i < n
                invariant
                    0 <= i <= n < l@.len(),
                    n == seqs::find(l@, 58u8),
                    unended(line@) == Some(l@),
                    l@.len() > 0,
                    forall|j: int| 0 <= j < i ==> gate::tchar(#[trigger] l@[j] as char),
                decreases n - i,
            {
                if !gate::is_tchar(l[i]) {
                    assert(!gate::tchar(l@[i as int] as char));
                    return false;
                }
                i = i + 1;
            }
            true
        },
    }
}

/// Where a chunked body has got to.
///
/// Fed the same bytes that go to the visitor, in the same order, and asked
/// after each write whether the message has ended. It reads only the framing
/// (the size lines, the trailers and the blank line that closes them) and skips
/// the data, so a body is never buffered and never inspected.
///
/// A body it cannot follow ends up [`Scan::Lost`], which is not an error: the
/// relay falls back to waiting for the close.
#[derive(Debug, Clone, PartialEq, Eq)]
pub enum Scan {
    /// Reading a size line, or a trailer line once the zero chunk has been seen.
    Line { after_zero: bool, line: Vec<u8> },
    /// Passing the declared chunk data.
    Data(u64),
    /// The CRLF that closes a chunk's data, as much of it as has gone by.
    ///
    /// *Checked*, not counted: a stream with anything else there is
    /// [`Scan::Lost`] and the visitor gets every byte the box sent.
    Closing(u8),
    /// The terminating chunk and its trailers have gone by.
    Done,
    /// The framing did not parse. Nothing is refused on this basis; the
    /// response simply goes back to being framed by the connection closing.
    Lost,
}

/// A [`Scan`] with its line as a sequence of bytes.
pub enum ScanView {
    Line { after_zero: bool, line: Seq<u8> },
    Data(u64),
    Closing(u8),
    Done,
    Lost,
}

impl View for Scan {
    type V = ScanView;

    open spec fn view(&self) -> ScanView {
        match self {
            Scan::Line { after_zero, line } => ScanView::Line {
                after_zero: *after_zero,
                line: line@,
            },
            Scan::Data(n) => ScanView::Data(*n),
            Scan::Closing(k) => ScanView::Closing(*k),
            Scan::Done => ScanView::Done,
            Scan::Lost => ScanView::Lost,
        }
    }
}

impl ScanView {
    /// Data is left to pass, at most one byte of a closing CRLF has gone by, and
    /// no line is longer than is buffered.
    pub open spec fn wf(self) -> bool {
        match self {
            ScanView::Line { line, .. } => line.len() <= MAX_SCAN_LINE,
            ScanView::Data(n) => n > 0,
            ScanView::Closing(k) => k <= 1,
            _ => true,
        }
    }
}

/// The start of a size line, or of a trailer line.
pub open spec fn at_line(after_zero: bool) -> ScanView {
    ScanView::Line { after_zero, line: Seq::empty() }
}

/// What a complete line, line ending included, leads to.
pub open spec fn past_line(line: Seq<u8>, after_zero: bool) -> ScanView {
    if after_zero {
        if line == http_front::line_end() {
            ScanView::Done
        } else if trailer(line) {
            at_line(true)
        } else {
            ScanView::Lost
        }
    } else {
        match size_of(line) {
            Some(n) => if n == 0 {
                at_line(true)
            } else {
                ScanView::Data(n)
            },
            None => ScanView::Lost,
        }
    }
}

/// Where one more byte leads.
pub open spec fn advance(s: ScanView, b: u8) -> ScanView {
    match s {
        ScanView::Done => ScanView::Done,
        ScanView::Lost => ScanView::Lost,
        ScanView::Data(n) => if n > 1 {
            ScanView::Data((n - 1) as u64)
        } else {
            ScanView::Closing(0)
        },
        ScanView::Closing(k) => if b == (if k == 0 {
            CR
        } else {
            LF
        }) {
            if k == 0 {
                ScanView::Closing(1)
            } else {
                at_line(false)
            }
        } else {
            ScanView::Lost
        },
        ScanView::Line { after_zero, line } => if b == LF {
            past_line(line.push(b), after_zero)
        } else {
            ScanView::Line { after_zero, line: line.push(b) }
        },
    }
}

/// Where these bytes lead.
pub open spec fn run(s: ScanView, bytes: Seq<u8>) -> ScanView
    decreases bytes.len(),
{
    if bytes.len() == 0 {
        s
    } else {
        run(advance(s, bytes[0]), bytes.skip(1))
    }
}

/// How many of these bytes belong to the body: all that come before its end.
pub open spec fn belonging(s: ScanView, bytes: Seq<u8>) -> nat
    decreases bytes.len(),
{
    if bytes.len() == 0 || s is Done {
        0
    } else {
        1 + belonging(advance(s, bytes[0]), bytes.skip(1))
    }
}

/// A line that has grown past what is buffered is one this cannot follow.
pub open spec fn clipped(s: ScanView) -> ScanView {
    match s {
        ScanView::Line { line, .. } => if line.len() > MAX_SCAN_LINE {
            ScanView::Lost
        } else {
            s
        },
        _ => s,
    }
}

/// The end of a body stays the end, and none of what follows belongs to it.
pub proof fn lemma_run_done(bytes: Seq<u8>)
    ensures
        run(ScanView::Done, bytes) == ScanView::Done,
        belonging(ScanView::Done, bytes) == 0,
    decreases bytes.len(),
{
    if bytes.len() > 0 {
        lemma_run_done(bytes.skip(1));
    }
}

/// A body that is not followed stays so, and all of it belongs.
pub proof fn lemma_run_lost(bytes: Seq<u8>)
    ensures
        run(ScanView::Lost, bytes) == ScanView::Lost,
        belonging(ScanView::Lost, bytes) == bytes.len(),
    decreases bytes.len(),
{
    if bytes.len() > 0 {
        lemma_run_lost(bytes.skip(1));
    }
}

/// Chunk data passes as it is.
pub proof fn lemma_run_data(n: u64, bytes: Seq<u8>, k: nat)
    requires
        k <= n,
        k <= bytes.len(),
        n > 0,
    ensures
        ({
            let after = if k < n {
                ScanView::Data((n - k) as u64)
            } else {
                ScanView::Closing(0)
            };
            &&& run(ScanView::Data(n), bytes) == run(after, bytes.skip(k as int))
            &&& belonging(ScanView::Data(n), bytes) == k + belonging(after, bytes.skip(k as int))
        }),
    decreases k,
{
    if k == 0 {
        assert(bytes.skip(0) == bytes);
    } else {
        let rest = bytes.skip(1);
        assert(rest.skip(k - 1) == bytes.skip(k as int));
        if n > 1 {
            lemma_run_data((n - 1) as u64, rest, (k - 1) as nat);
        } else {
            assert(k == 1);
        }
    }
}

/// A line takes in every byte up to its line feed.
pub proof fn lemma_run_line(after_zero: bool, line: Seq<u8>, bytes: Seq<u8>, k: nat)
    requires
        k <= bytes.len(),
        forall|j: int| 0 <= j < k ==> bytes[j] != LF,
    ensures
        ({
            let s = ScanView::Line { after_zero, line };
            let after = ScanView::Line { after_zero, line: line + bytes.take(k as int) };
            &&& run(s, bytes) == run(after, bytes.skip(k as int))
            &&& belonging(s, bytes) == k + belonging(after, bytes.skip(k as int))
        }),
    decreases k,
{
    if k == 0 {
        assert(bytes.skip(0) == bytes);
        assert(line + bytes.take(0) == line);
    } else {
        let rest = bytes.skip(1);
        assert(rest.skip(k - 1) == bytes.skip(k as int));
        assert forall|j: int| 0 <= j < k - 1 implies rest[j] != LF by {
            assert(rest[j] == bytes[j + 1]);
        }
        lemma_run_line(after_zero, line.push(bytes[0]), rest, (k - 1) as nat);
        assert(line.push(bytes[0]) + rest.take(k - 1) == line + bytes.take(k as int));
    }
}

/// Two runs one after the other are one run.
pub proof fn lemma_run_concat(s: ScanView, a: Seq<u8>, b: Seq<u8>)
    ensures
        run(s, a + b) == run(run(s, a), b),
        belonging(s, a + b) == belonging(s, a) + belonging(run(s, a), b),
    decreases a.len(),
{
    if a.len() == 0 {
        assert(a + b == b);
        if s is Done {
            lemma_run_done(b);
        }
    } else if s is Done {
        lemma_run_done(a);
        lemma_run_done(b);
        lemma_run_done(a + b);
    } else {
        assert((a + b).skip(1) == a.skip(1) + b);
        lemma_run_concat(advance(s, a[0]), a.skip(1), b);
    }
}

impl Scan {
    /// At the start of a body.
    pub fn new() -> (r: Scan)
        ensures
            r@ == at_line(false),
            r@.wf(),
    {
        let r = Scan::Line { after_zero: false, line: Vec::new() };
        assert(r@->line == Seq::<u8>::empty());
        r
    }

    pub fn is_done(&self) -> (r: bool)
        ensures
            r == (self@ is Done),
    {
        match self {
            Scan::Done => true,
            _ => false,
        }
    }

    /// What a complete line leads to.
    ///
    /// A bare LF does not end the trailers: the line above it would have been
    /// refused with one, and one stream must not have two readings in the one
    /// place that decides where a message stops.
    fn after_line(line: &[u8], after_zero: bool) -> (r: Scan)
        ensures
            r@ == past_line(line@, after_zero),
            r@.wf(),
    {
        let end: [u8; 2] = [CR, LF];
        assert(end@ == http_front::line_end());
        if after_zero {
            if seqs::same(line, &end) {
                Scan::Done
            } else if is_trailer(line) {
                let r = Scan::Line { after_zero: true, line: Vec::new() };
                assert(r@->line == Seq::<u8>::empty());
                r
            } else {
                Scan::Lost
            }
        } else {
            match chunk_size(line) {
                Some(n) => if n == 0 {
                    let r = Scan::Line { after_zero: true, line: Vec::new() };
                    assert(r@->line == Seq::<u8>::empty());
                    r
                } else {
                    Scan::Data(n)
                },
                None => Scan::Lost,
            }
        }
    }

    /// Advance over bytes about to be relayed, and answer how many of them
    /// belong to this response.
    ///
    /// The count is what makes the chunked path enforce the same rule a declared
    /// length gets from arithmetic: nothing past the terminating chunk is this
    /// response's. [`Scan::Lost`] answers "all of them": a body whose framing
    /// this could not follow falls back to being framed by the connection
    /// closing.
    pub fn feed(&mut self, bytes: &[u8]) -> (r: usize)
        requires
            old(self)@.wf(),
        ensures
            final(self)@.wf(),
            final(self)@ == clipped(run(old(self)@, bytes@)),
            r == belonging(old(self)@, bytes@),
    {
        let ghost start = self@;
        let n: usize = bytes.len();
        let mut i: usize = 0;
        let mut state = Scan::Lost;
        std::mem::swap(self, &mut state);
        assert(bytes@.skip(0) == bytes@);
        while i < n
            invariant_except_break
                run(start, bytes@) == run(state@, bytes@.skip(i as int)),
                belonging(start, bytes@) == i + belonging(state@, bytes@.skip(i as int)),
            invariant
                0 <= i <= n,
                n == bytes@.len(),
                state@.wf(),
            ensures
                state@ == clipped(run(start, bytes@)),
                i == belonging(start, bytes@),
            decreases n - i,
        {
            let ghost rest = bytes@.skip(i as int);
            match state {
                // Nothing after the terminating chunk is part of this message.
                Scan::Done => {
                    proof {
                        lemma_run_done(rest);
                    }
                    state = Scan::Done;
                    break;
                },
                // The framing is not something to clamp on.
                Scan::Lost => {
                    proof {
                        lemma_run_lost(rest);
                        lemma_run_lost(Seq::empty());
                        assert(bytes@.skip(n as int) == Seq::<u8>::empty());
                    }
                    state = Scan::Lost;
                    i = n;
                },
                Scan::Data(left) => {
                    let take: usize = if left < (n - i) as u64 {
                        left as usize
                    } else {
                        n - i
                    };
                    proof {
                        lemma_run_data(left, rest, take as nat);
                        assert(rest.skip(take as int) == bytes@.skip(i + take));
                    }
                    i = i + take;
                    state = if left == take as u64 {
                        Scan::Closing(0)
                    } else {
                        Scan::Data(left - take as u64)
                    };
                },
                // The two bytes after the data, one at a time because they can
                // arrive in separate reads.
                Scan::Closing(seen) => {
                    let want: u8 = if seen == 0 {
                        CR
                    } else {
                        LF
                    };
                    proof {
                        assert(rest[0] == bytes@[i as int]);
                        assert(rest.skip(1) == bytes@.skip(i + 1));
                    }
                    if bytes[i] != want {
                        state = Scan::Lost;
                    } else if seen == 0 {
                        state = Scan::Closing(1);
                    } else {
                        state = Scan::Line { after_zero: false, line: Vec::new() };
                        assert(state@->line == Seq::<u8>::empty());
                    }
                    i = i + 1;
                },
                Scan::Line { after_zero, line } => {
                    let mut line = line;
                    let tail = slice_subrange(bytes, i, n);
                    assert(tail@ == rest);
                    let k: usize = seqs::position(tail, LF);
                    proof {
                        seqs::lemma_find(rest, LF);
                        lemma_run_line(after_zero, line@, rest, k as nat);
                        assert(rest.skip(k as int) == bytes@.skip(i + k));
                    }
                    let ghost before = line@;
                    seqs::push_all(&mut line, slice_subrange(tail, 0, k));
                    assert(tail@.subrange(0, k as int) == rest.take(k as int));
                    i = i + k;
                    if i < n {
                        proof {
                            let r = bytes@.skip(i as int);
                            assert(r[0] == LF);
                            assert(r.skip(1) == bytes@.skip(i + 1));
                        }
                        line.push(LF);
                        i = i + 1;
                        state = Scan::after_line(line.as_slice(), after_zero);
                    } else {
                        let long: bool = line.len() > MAX_SCAN_LINE;
                        state = Scan::Line { after_zero, line };
                        proof {
                            assert(bytes@.skip(n as int).len() == 0);
                        }
                        if long {
                            state = Scan::Lost;
                        }
                        break;
                    }
                },
            }
        }
        *self = state;
        i
    }
}

/// What a [`ChunkReader`] reads next.
#[derive(Debug, Clone, Copy, PartialEq, Eq, Structural)]
pub enum Phase {
    /// A chunk header line.
    Size,
    /// Chunk data, of which this much is left.
    Data(u64),
    /// The CRLF that closes a chunk's data.
    Closing,
    /// A trailer line, or the blank line that ends the trailers.
    Trailer,
    /// Nothing: the body has ended.
    Ended,
}

/// What the one who moves the bytes does next.
#[derive(Debug, Clone, PartialEq, Eq)]
pub enum ChunkStep {
    /// Send these bytes to the box, and ask again.
    Send(Vec<u8>),
    /// Read more from the peer, hand it over with [`ChunkReader::fill`], and ask
    /// again.
    Fill,
    /// The body has ended, and all of it has been sent.
    Ended,
    /// The body took too long.
    TooLate,
    /// This is not a chunked body.
    Refused,
}

/// A [`ChunkStep`] with its bytes as a sequence.
pub enum StepView {
    Send(Seq<u8>),
    Fill,
    Ended,
    TooLate,
    Refused,
}

impl View for ChunkStep {
    type V = StepView;

    open spec fn view(&self) -> StepView {
        match self {
            ChunkStep::Send(b) => StepView::Send(b@),
            ChunkStep::Fill => StepView::Fill,
            ChunkStep::Ended => StepView::Ended,
            ChunkStep::TooLate => StepView::TooLate,
            ChunkStep::Refused => StepView::Refused,
        }
    }
}

/// Forwards a chunked request body, verbatim, and stops at its end.
///
/// The point is not to understand the body, which is passed through byte for
/// byte, but to know where it stops. Everything is bounded before it is
/// believed: the size line, the trailer section, and the whole body's wall
/// clock. A chunk *size* is not bounded, because a legitimate upload is as big
/// as it is.
#[derive(Debug)]
pub struct ChunkReader {
    /// What has been read and not yet sent.
    pub buf: Vec<u8>,
    pub phase: Phase,
    /// How long the trailers sent so far are.
    pub trailer_bytes: usize,
    /// The clock has been looked at for what is being read.
    pub checked: bool,
}

/// A [`ChunkReader`] with its buffer as a sequence.
pub struct ReaderView {
    pub buf: Seq<u8>,
    pub phase: Phase,
    pub trailer_bytes: nat,
    pub checked: bool,
}

impl View for ChunkReader {
    type V = ReaderView;

    open spec fn view(&self) -> ReaderView {
        ReaderView {
            buf: self.buf@,
            phase: self.phase,
            trailer_bytes: self.trailer_bytes as nat,
            checked: self.checked,
        }
    }
}

/// The place in the body that a reader has sent everything up to.
pub open spec fn place(phase: Phase) -> ScanView {
    match phase {
        Phase::Size => at_line(false),
        Phase::Data(n) => ScanView::Data(n),
        Phase::Closing => ScanView::Closing(0),
        Phase::Trailer => at_line(true),
        Phase::Ended => ScanView::Done,
    }
}

/// The length of the line that a buffer begins with, its line ending included.
pub open spec fn line_len(buf: Seq<u8>) -> Option<int> {
    match seqs::find_seq(buf, http_front::line_end(), 0) {
        Some(i) => Some(i + 2),
        None => None,
    }
}

/// What a reader that waits for a line does without one: gives up on a line
/// that is too long, else waits for more.
pub open spec fn no_line(v: ReaderView) -> (ReaderView, StepView) {
    if v.buf.len() > MAX_CHUNK_LINE {
        (v, StepView::Refused)
    } else {
        (v, StepView::Fill)
    }
}

/// A reader that sends the first `n` bytes of its buffer and then reads `phase`.
pub open spec fn sending(v: ReaderView, n: int, phase: Phase, trailer_bytes: nat) -> (
    ReaderView,
    StepView,
) {
    (
        ReaderView { buf: v.buf.skip(n), phase, trailer_bytes, checked: false },
        StepView::Send(v.buf.take(n)),
    )
}

/// What a reader does next, and what it is after that. `late` is whether the
/// body's time is up.
pub open spec fn step(v: ReaderView, late: bool) -> (ReaderView, StepView) {
    match v.phase {
        Phase::Ended => (v, StepView::Ended),
        Phase::Size => if late && !v.checked {
            (v, StepView::TooLate)
        } else {
            match line_len(v.buf) {
                None => no_line(ReaderView { checked: true, ..v }),
                Some(n) => match size_of(v.buf.take(n)) {
                    None => (ReaderView { checked: true, ..v }, StepView::Refused),
                    Some(size) => sending(
                        v,
                        n,
                        if size == 0 {
                            Phase::Trailer
                        } else {
                            Phase::Data(size)
                        },
                        v.trailer_bytes,
                    ),
                },
            }
        },
        Phase::Data(left) => if late && !v.checked {
            (v, StepView::TooLate)
        } else if v.buf.len() == 0 {
            (ReaderView { checked: true, ..v }, StepView::Fill)
        } else if left <= v.buf.len() {
            sending(v, left as int, Phase::Closing, v.trailer_bytes)
        } else {
            sending(
                v,
                v.buf.len() as int,
                Phase::Data((left - v.buf.len()) as u64),
                v.trailer_bytes,
            )
        },
        Phase::Closing => if v.buf.len() < 2 {
            (v, StepView::Fill)
        } else if v.buf.take(2) == http_front::line_end() {
            sending(v, 2, Phase::Size, v.trailer_bytes)
        } else {
            (v, StepView::Refused)
        },
        Phase::Trailer => if v.trailer_bytes > MAX_TRAILERS {
            (v, StepView::Refused)
        } else {
            match line_len(v.buf) {
                None => no_line(v),
                Some(n) => if !trailer(v.buf.take(n)) {
                    (v, StepView::Refused)
                } else if n == 2 {
                    sending(v, n, Phase::Ended, v.trailer_bytes)
                } else {
                    sending(
                        v,
                        n,
                        Phase::Trailer,
                        if v.trailer_bytes + n > usize::MAX {
                            usize::MAX as nat
                        } else {
                            (v.trailer_bytes + n) as nat
                        },
                    )
                },
            }
        },
    }
}

impl ChunkReader {
    /// A reader that has these bytes of the body already.
    pub fn new(initial: &[u8]) -> (r: ChunkReader)
        ensures
            r@ == (ReaderView {
                buf: initial@,
                phase: Phase::Size,
                trailer_bytes: 0,
                checked: false,
            }),
    {
        ChunkReader {
            buf: seqs::copy_of(initial),
            phase: Phase::Size,
            trailer_bytes: 0,
            checked: false,
        }
    }

    /// More bytes from the peer.
    pub fn fill(&mut self, bytes: &[u8])
        ensures
            final(self)@ == (ReaderView { buf: old(self)@.buf + bytes@, ..old(self)@ }),
    {
        seqs::push_all(&mut self.buf, bytes);
    }

    /// Take the first `n` bytes out of the buffer, to be sent.
    fn send(&mut self, n: usize, phase: Phase) -> (r: ChunkStep)
        requires
            n <= old(self).buf@.len(),
        ensures
            (final(self)@, r@) == sending(old(self)@, n as int, phase, old(self)@.trailer_bytes),
    {
        let ghost before = self.buf@;
        let mut front = self.buf.split_off(n);
        std::mem::swap(&mut self.buf, &mut front);
        self.phase = phase;
        self.checked = false;
        proof {
            assert(front@ == before.take(n as int));
            assert(self.buf@ == before.skip(n as int));
        }
        ChunkStep::Send(front)
    }

    /// What to do without a whole line in the buffer.
    fn without_line(&self) -> (r: ChunkStep)
        ensures
            (self@, r@) == no_line(self@),
    {
        if self.buf.len() > MAX_CHUNK_LINE {
            ChunkStep::Refused
        } else {
            ChunkStep::Fill
        }
    }

    /// What to do next.
    pub fn next(&mut self, late: bool) -> (r: ChunkStep)
        ensures
            (final(self)@, r@) == step(old(self)@, late),
    {
        let end: [u8; 2] = [CR, LF];
        assert(end@ == http_front::line_end());
        match self.phase {
            Phase::Ended => ChunkStep::Ended,
            Phase::Size => {
                if late && !self.checked {
                    return ChunkStep::TooLate;
                }
                self.checked = true;
                let have: usize = self.buf.len();
                match seqs::position_of(self.buf.as_slice(), &end) {
                    None => self.without_line(),
                    Some(i) => {
                        let line = slice_subrange(self.buf.as_slice(), 0, i + 2);
                        assert(line@ == self.buf@.take(i + 2));
                        match chunk_size(line) {
                            None => ChunkStep::Refused,
                            Some(size) => self.send(
                                i + 2,
                                if size == 0 {
                                    Phase::Trailer
                                } else {
                                    Phase::Data(size)
                                },
                            ),
                        }
                    },
                }
            },
            Phase::Data(left) => {
                if late && !self.checked {
                    return ChunkStep::TooLate;
                }
                let have: usize = self.buf.len();
                if have == 0 {
                    self.checked = true;
                    return ChunkStep::Fill;
                }
                if left <= have as u64 {
                    self.send(left as usize, Phase::Closing)
                } else {
                    self.send(have, Phase::Data(left - have as u64))
                }
            },
            Phase::Closing => {
                if self.buf.len() < 2 {
                    return ChunkStep::Fill;
                }
                let first = slice_subrange(self.buf.as_slice(), 0, 2);
                assert(first@ == self.buf@.take(2));
                if seqs::same(first, &end) {
                    self.send(2, Phase::Size)
                } else {
                    ChunkStep::Refused
                }
            },
            Phase::Trailer => {
                if self.trailer_bytes > MAX_TRAILERS {
                    return ChunkStep::Refused;
                }
                let have: usize = self.buf.len();
                match seqs::position_of(self.buf.as_slice(), &end) {
                    None => self.without_line(),
                    Some(i) => {
                        let line = slice_subrange(self.buf.as_slice(), 0, i + 2);
                        assert(line@ == self.buf@.take(i + 2));
                        if !is_trailer(line) {
                            return ChunkStep::Refused;
                        }
                        if i == 0 {
                            return self.send(2, Phase::Ended);
                        }
                        let r: ChunkStep = self.send(i + 2, Phase::Trailer);
                        self.trailer_bytes = self.trailer_bytes.saturating_add(i + 2);
                        r
                    },
                }
            },
        }
    }
}

/// A line that is clean up to its CRLF has only one line feed, at its end.
proof fn lemma_one_line(line: Seq<u8>, after_zero: bool)
    requires
        unended(line) is Some,
        clean_line(unended(line)->0),
    ensures
        run(at_line(after_zero), line) == past_line(line, after_zero),
        belonging(at_line(after_zero), line) == line.len(),
{
    let n = (line.len() - 1) as nat;
    let l = unended(line)->0;
    assert forall|j: int| 0 <= j < n implies line[j] != LF by {
        if j < l.len() {
            assert(clean_byte(l[j]));
            assert(l[j] == line[j]);
        }
    }
    lemma_run_line(after_zero, Seq::empty(), line, n);
    assert(Seq::<u8>::empty() + line.take(n as int) == line.take(n as int));
    let last = line.skip(n as int);
    assert(last.len() == 1 && last[0] == LF);
    assert(line.take(n as int).push(LF) == line);
    assert(last.skip(1).len() == 0);
    reveal_with_fuel(run, 2);
    reveal_with_fuel(belonging, 2);
}

/// What a reader sends is exactly what it takes off the front of what it has
/// read, and it moves on in the body exactly as those bytes lead: the reader of
/// requests and the scanner of responses read chunk framing alike.
pub proof fn law_reader_sends_what_it_read(v: ReaderView, late: bool)
    requires
        v.phase matches Phase::Data(n) ==> n > 0,
    ensures
        match step(v, late) {
            (after, StepView::Send(sent)) => {
                &&& sent + after.buf == v.buf
                &&& sent.len() > 0
                &&& run(place(v.phase), sent) == place(after.phase)
                &&& belonging(place(v.phase), sent) == sent.len()
                &&& (after.phase matches Phase::Data(n) ==> n > 0)
            },
            (after, _) => after.buf == v.buf && after.phase == v.phase,
        },
{
    seqs::lemma_find_seq(v.buf, http_front::line_end(), 0);
    let (after, s) = step(v, late);
    match s {
        StepView::Send(sent) => {
            assert(sent + after.buf =~= v.buf);
            match v.phase {
                Phase::Data(left) => {
                    lemma_run_data(left, sent, sent.len());
                    assert(sent.skip(sent.len() as int).len() == 0);
                },
                Phase::Closing => {
                    reveal_with_fuel(run, 3);
                    reveal_with_fuel(belonging, 3);
                    assert(sent == http_front::line_end());
                    assert(sent.skip(1)[0] == LF);
                },
                Phase::Size => {
                    lemma_one_line(sent, false);
                },
                Phase::Trailer => {
                    if sent.len() == 2 {
                        lemma_sent_line(v);
                        assert(sent == http_front::line_end());
                        assert(unended(sent)->0.len() == 0);
                    }
                    lemma_one_line(sent, true);
                },
                Phase::Ended => {},
            }
        },
        _ => {},
    }
}

/// The line that a buffer begins with ends in a CRLF.
proof fn lemma_sent_line(v: ReaderView)
    requires
        line_len(v.buf) is Some,
    ensures
        ({
            let n = line_len(v.buf)->0;
            2 <= n <= v.buf.len() && v.buf[n - 2] == CR && v.buf[n - 1] == LF
        }),
{
    seqs::lemma_find_seq(v.buf, http_front::line_end(), 0);
    let i = line_len(v.buf)->0 - 2;
    assert(v.buf.subrange(i, i + 2)[0] == CR);
    assert(v.buf.subrange(i, i + 2)[1] == LF);
}

/// A body in two pieces is the body in one, as long as the line that the cut
/// goes through is no longer than is buffered.
pub proof fn law_scan_in_pieces(s: ScanView, a: Seq<u8>, b: Seq<u8>)
    requires
        clipped(run(s, a)) == run(s, a),
    ensures
        clipped(run(clipped(run(s, a)), b)) == clipped(run(s, a + b)),
        belonging(s, a) + belonging(clipped(run(s, a)), b) == belonging(s, a + b),
{
    lemma_run_concat(s, a, b);
}

/// Nothing behind the end of a body belongs to it: a scanner that has reached
/// the end counts the same bytes whatever follows.
pub proof fn law_nothing_past_the_end_belongs(s: ScanView, body: Seq<u8>, more: Seq<u8>)
    requires
        run(s, body) is Done,
    ensures
        run(s, body + more) is Done,
        belonging(s, body + more) == belonging(s, body),
{
    lemma_run_concat(s, body, more);
    lemma_run_done(more);
}

} // verus!
