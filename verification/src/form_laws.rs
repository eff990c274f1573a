//! Which response heads, and which chunked bodies, are let through at all.
use vstd::prelude::*;
use vstd::string::*;

use crate::chunked::{self, ChunkReader, ChunkStep, Phase};
use crate::gate;
use crate::http_front;
use crate::seqs;

verus! {

/// An ASCII digit.
pub open spec fn is_digit(b: u8) -> bool {
    48 <= b <= 57
}

/// A version as it stands in a status line: a digit, or two with a dot between
/// them.
pub open spec fn is_version(v: Seq<u8>) -> bool {
    ||| v.len() == 1 && is_digit(v[0])
    ||| v.len() == 3 && is_digit(v[0]) && v[1] == 46 && is_digit(v[2])
}

/// A status line: the protocol, its version, a space, three digits, and then
/// nothing, or a space and a reason without control characters.
pub open spec fn is_status_line(l: Seq<u8>, version: Seq<u8>, code: Seq<u8>, tail: Seq<u8>) -> bool {
    &&& l == seq![72u8, 84, 84, 80, 47] + version + seq![32u8] + code + tail
    &&& is_version(version)
    &&& code.len() == 3 && is_digit(code[0]) && is_digit(code[1]) && is_digit(code[2])
    &&& tail.len() > 0 ==> tail[0] == 32
    &&& forall|i: int|
        0 <= i < tail.len() ==> #[trigger] tail[i] == 9 || (32 <= tail[i] && tail[i] != 127)
}

/// Every such line is taken for a status line.
pub proof fn law_a_status_line_is_taken_for_one(
    l: &[u8],
    version: Seq<u8>,
    code: Seq<u8>,
    tail: Seq<u8>,
    r: bool,
)
    requires
        call_ensures(http_front::is_status_line, (l,), r),
        is_status_line(l@, version, code, tail),
    ensures
        r,
{
    let http = seq![72u8, 84, 84, 80, 47];
    let rest = code + tail;
    let behind = version + seq![32u8] + rest;
    assert(l@ =~= http + behind);
    assert(l@.take(5) =~= http);
    assert(l@.subrange(0, 5) =~= http);
    assert(l@.skip(5) =~= behind);
    assert forall|j: int| 0 <= j < version.len() implies behind[j] != 32 by {
        assert(behind[j] == version[j]);
    }
    assert(behind[version.len() as int] == 32);
    seqs::lemma_find_is(behind, 32u8, version.len() as int);
    assert(behind.take(version.len() as int) =~= version);
    assert(behind.skip(version.len() as int + 1) =~= rest);
    assert(rest[0] == code[0] && rest[1] == code[1] && rest[2] == code[2]);
    if tail.len() > 0 {
        assert(rest[3] == tail[0]);
    }
    seqs::lemma_find_is(rest, 32u8, 3);
    assert forall|i: int| 3 < i < rest.len() implies http_front::reason_byte(#[trigger] rest[i]) by {
        assert(rest[i] == tail[i - 3]);
    }
}

/// And no other line is.
pub proof fn law_no_other_line_is_a_status_line(l: &[u8], r: bool)
    requires
        call_ensures(http_front::is_status_line, (l,), r),
        r,
    ensures
        exists|version: Seq<u8>, code: Seq<u8>, tail: Seq<u8>| #[trigger]
            is_status_line(l@, version, code, tail),
{
    let http = seq![72u8, 84, 84, 80, 47];
    let behind = l@.skip(5);
    let n = seqs::find(behind, 32u8) as int;
    seqs::lemma_find(behind, 32u8);
    let version = behind.take(n);
    let rest = behind.skip(n + 1);
    seqs::lemma_find(rest, 32u8);
    let code = rest.take(3);
    let tail = rest.skip(3);
    assert(l@.subrange(0, 5) =~= http);
    assert(l@ =~= http + behind);
    assert(behind =~= version + seq![32u8] + rest);
    assert(rest =~= code + tail);
    assert(l@ =~= http + version + seq![32u8] + code + tail);
    assert(code[0] == rest[0] && code[1] == rest[1] && code[2] == rest[2]);
    if tail.len() > 0 {
        assert(tail[0] == rest[3]);
    }
    assert forall|i: int| 0 <= i < tail.len() implies #[trigger] tail[i] == 9 || (32 <= tail[i]
        && tail[i] != 127) by {
        if i > 0 {
            assert(http_front::reason_byte(rest[i + 3]));
            assert(tail[i] == rest[i + 3]);
        }
    }
    assert(is_status_line(l@, version, code, tail));
}

/// A response head has one reading exactly if its first line that is not empty is
/// a status line, every line ends with a carriage return and a line feed, of which
/// neither stands alone, and no line continues another.
pub proof fn law_a_head_is_let_through_if_it_has_one_reading(
    head: &[u8],
    r: bool,
    first: &[u8],
    is_first: bool,
)
    requires
        call_ensures(http_front::head_is_well_formed, (head,), r),
        http_front::full_lines(head@).len() > 0 ==> first@ == http_front::full_lines(head@)[0],
        call_ensures(http_front::is_status_line, (first,), is_first),
    ensures
        ({
            let lines = http_front::response_lines(head@);
            let s = head@;
            r <==> {
                &&& http_front::full_lines(s).len() > 0
                &&& is_first
                &&& forall|i: int| 0 <= i < s.len() && #[trigger] s[i] == 10 ==> i > 0 && s[i - 1]
                    == 13
                &&& forall|i: int|
                    0 <= i < s.len() && #[trigger] s[i] == 13 ==> i + 1 < s.len() && s[i + 1] == 10
                &&& forall|i: int|
                    1 <= i < lines.len() ==> (#[trigger] lines[i]).len() == 0 || (lines[i][0] != 32
                        && lines[i][0] != 9)
            }
        }),
{
    let s = head@;
    let lines = http_front::response_lines(s);
    if r {
        assert forall|i: int| 0 <= i < s.len() && #[trigger] s[i] == 10 implies i > 0 && s[i - 1]
            == 13 by {
            assert(gate::no_half_line_end(s, 13u8, 10u8, i));
        }
        assert forall|i: int| 0 <= i < s.len() && #[trigger] s[i] == 13 implies i + 1 < s.len()
            && s[i + 1] == 10 by {
            assert(gate::no_half_line_end(s, 13u8, 10u8, i));
        }
        assert forall|i: int| 1 <= i < lines.len() implies (#[trigger] lines[i]).len() == 0 || (
        lines[i][0] != 32 && lines[i][0] != 9) by {
            assert(!http_front::folded(lines[i]));
        }
    } else if http_front::full_lines(s).len() > 0 && is_first && (forall|i: int|
        0 <= i < s.len() && #[trigger] s[i] == 10 ==> i > 0 && s[i - 1] == 13) && (forall|i: int|
        0 <= i < s.len() && #[trigger] s[i] == 13 ==> i + 1 < s.len() && s[i + 1] == 10) && (
    forall|i: int|
        1 <= i < lines.len() ==> (#[trigger] lines[i]).len() == 0 || (lines[i][0] != 32
            && lines[i][0] != 9)) {
        assert forall|i: int| 0 <= i < s.len() implies #[trigger] gate::no_half_line_end(
            s,
            13u8,
            10u8,
            i,
        ) by {
            assert(s[i] == s[i]);
        }
        assert forall|i: int| 1 <= i < lines.len() implies !http_front::folded(
            #[trigger] lines[i],
        ) by {
            assert(lines[i].len() == 0 || (lines[i][0] != 32 && lines[i][0] != 9));
        }
    }
}

/// A chunked body is read as long as it keeps to its form and to its bounds: a
/// size line without its end is waited for up to 1024 bytes, the data of a chunk
/// goes as it comes, and it is followed by the end of a line or refused.
pub proof fn law_a_chunked_body_is_held_to_its_form(c: &mut ChunkReader, late: bool, r: ChunkStep)
    requires
        call_ensures(ChunkReader::next, (c, late), r),
    ensures
        old(c).phase is Ended ==> r is Ended,
        (old(c).phase is Size || old(c).phase is Data) && late && !old(c).checked ==> r is TooLate,
        old(c).phase is Size && !late && chunked::line_len(old(c).buf@) is None ==> (if old(c).buf@.len() > 1024 {
            r is Refused
        } else {
            r is Fill
        }),
        old(c).phase matches Phase::Data(left) ==> (!late && old(c).buf@.len() > 0 ==> (r matches
            ChunkStep::Send(b) && b@ == (if left <= old(c).buf@.len() {
            old(c).buf@.take(left as int)
        } else {
            old(c).buf@
        }))),
        old(c).phase is Data && !late && old(c).buf@.len() == 0 ==> r is Fill,
        old(c).phase is Closing && old(c).buf@.len() >= 2 ==> (if old(c).buf@[0] == 13 && old(c).buf@[1] == 10 {
            r matches ChunkStep::Send(b) && b@ == seq![13u8, 10]
        } else {
            r is Refused
        }),
        old(c).phase is Closing && old(c).buf@.len() < 2 ==> r is Fill,
        old(c).phase is Trailer && old(c).trailer_bytes > 8192 ==> r is Refused,
{
    let v = old(c)@;
    let a = r@;
    assert(v.phase == old(c).phase && v.buf == old(c).buf@);
    assert(v.buf.take(v.buf.len() as int) =~= v.buf);
    if v.buf.len() >= 2 {
        assert(v.buf.take(2)[0] == v.buf[0] && v.buf.take(2)[1] == v.buf[1]);
        if v.buf[0] == 13 && v.buf[1] == 10 {
            assert(v.buf.take(2) =~= seq![13u8, 10]);
        }
    }
    assert(http_front::line_end() =~= seq![13u8, 10]);
}

} // verus!
