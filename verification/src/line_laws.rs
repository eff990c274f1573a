//! The lines of a request head are the lines that it was made of, all of them.
use vstd::prelude::*;

use crate::gate;
use crate::seqs;

verus! {

/// Lines, with the end of one behind each.
pub open spec fn put_together<T>(lines: Seq<Seq<T>>, cr: T, lf: T) -> Seq<T>
    decreases lines.len(),
{
    if lines.len() == 0 {
        Seq::empty()
    } else {
        lines[0] + seq![cr, lf] + put_together(lines.skip(1), cr, lf)
    }
}

/// The head of a request that is made of a first line, of headers, and of an
/// empty line has that first line and those headers, in order and no others.
pub proof fn law_a_request_head_has_its_lines(first: Seq<char>, headers: Seq<Seq<char>>)
    requires
        seqs::lacks(first, '\r'),
        forall|i: int|
            0 <= i < headers.len() ==> (#[trigger] headers[i]).len() > 0 && seqs::lacks(
                headers[i],
                '\r',
            ),
    ensures
        ({
            let head = first + seq!['\r', '\n'] + put_together(headers, '\r', '\n') + seq![
                '\r',
                '\n',
            ];
            &&& gate::head_lines(head)[0] == first
            &&& gate::header_lines(head) == headers
        }),
{
    let none = Seq::<char>::empty();
    let end = seq!['\r', '\n'];
    let body = put_together(headers, '\r', '\n');
    let head = first + end + body + end;
    let full = |l: Seq<char>| l.len() > 0;
    lemma_first_line(first, body + end);
    assert(head =~= first + end + (body + end));
    lemma_request_lines(headers);
    let rest = gate::head_lines(body + end);
    assert(gate::head_lines(head) =~= seq![first] + rest);
    assert(gate::head_lines(head).skip(1) =~= rest);
    assert(rest == headers + seq![none, none]);
    assert(rest =~= headers.push(none).push(none));
    headers.lemma_filter_push(none, full);
    headers.push(none).lemma_filter_push(none, full);
    assert forall|i: int| 0 <= i < headers.len() implies full(#[trigger] headers[i]) by {}
    seqs::lemma_filter_all(headers, full);
}

proof fn lemma_first_line(first: Seq<char>, rest: Seq<char>)
    requires
        seqs::lacks(first, '\r'),
    ensures
        gate::head_lines(first + seq!['\r', '\n'] + rest) == seq![first] + gate::head_lines(rest),
{
    let end = gate::crlf();
    let s = first + seq!['\r', '\n'] + rest;
    let n = first.len() as int;
    assert(s.subrange(n, n + 2) =~= end);
    assert forall|j: int| 0 <= j < n implies !seqs::occurs_at(s, end, j) by {
        if seqs::occurs_at(s, end, j) {
            assert(s.subrange(j, j + 2)[0] == s[j]);
            assert(s[j] == first[j]);
        }
    }
    seqs::lemma_find_seq_is(s, end, 0, Some(n));
    assert(s.take(n) =~= first);
    assert(s.skip(n + 2) =~= rest);
}

proof fn lemma_request_lines(headers: Seq<Seq<char>>)
    requires
        forall|i: int| 0 <= i < headers.len() ==> seqs::lacks(#[trigger] headers[i], '\r'),
    ensures
        gate::head_lines(put_together(headers, '\r', '\n') + seq!['\r', '\n']) == headers + seq![
            Seq::<char>::empty(),
            Seq::<char>::empty(),
        ],
    decreases headers.len(),
{
    let none = Seq::<char>::empty();
    let end = seq!['\r', '\n'];
    let body = put_together(headers, '\r', '\n');
    if headers.len() == 0 {
        lemma_first_line(none, none);
        assert(body + end =~= none + end + none);
        assert forall|j: int| 0 <= j implies !seqs::occurs_at(none, gate::crlf(), j) by {}
        seqs::lemma_find_seq_is(none, gate::crlf(), 0, None);
        assert(gate::head_lines(none) =~= seq![none]);
        assert(seq![none] + seq![none] =~= headers + seq![none, none]);
    } else {
        let rest = headers.skip(1);
        assert forall|i: int| 0 <= i < rest.len() implies seqs::lacks(#[trigger] rest[i], '\r') by {
            assert(rest[i] == headers[i + 1]);
        }
        lemma_request_lines(rest);
        let more = put_together(rest, '\r', '\n') + end;
        assert(seqs::lacks(headers[0], '\r'));
        lemma_first_line(headers[0], more);
        assert(body + end =~= headers[0] + end + more);
        assert(seq![headers[0]] + (rest + seq![none, none]) =~= headers + seq![none, none]);
    }
}

} // verus!
