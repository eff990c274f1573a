//! What is read out of a request, header by header.
use vstd::prelude::*;
use vstd::string::*;

use crate::forwarding_laws::{header_name, lines_named, same_name};
use crate::gate::{self, Request};
use crate::seqs;
use crate::text;

verus! {

/// What stands behind the first colon of a line, without the space around it.
pub open spec fn value_of(line: Seq<char>) -> Seq<char> {
    text::trim(line.skip(seqs::find(line, ':') as int + 1))
}

/// What the headers of this name say, letter case of the name aside, in order.
pub open spec fn said(headers: Seq<Seq<char>>, name: Seq<char>) -> Seq<Seq<char>> {
    lines_named(headers, name).map_values(|l: Seq<char>| value_of(l))
}

pub proof fn lemma_said(headers: Seq<Seq<char>>, name: Seq<char>)
    ensures
        gate::values_named(headers, name) == said(headers, name),
    decreases headers.len(),
{
    let f = |l: Seq<char>| gate::header_value(l, name);
    let named = |l: Seq<char>| header_name(l) is Some && same_name(header_name(l)->0, name);
    let value = |l: Seq<char>| value_of(l);
    reveal(Seq::filter);
    reveal(Seq::filter_map);
    if headers.len() == 0 {
        assert(headers.filter(named).map_values(value) =~= Seq::empty());
        assert(headers.filter_map(f) =~= Seq::empty());
    } else {
        let front = headers.drop_last();
        let l = headers.last();
        lemma_said(front, name);
        if named(l) {
            assert(headers.filter(named) == front.filter(named).push(l));
            assert(headers.filter(named).map_values(value) =~= front.filter(named).map_values(
                value,
            ).push(value_of(l)));
            assert(f(l) == Some(value_of(l)));
            assert(headers.filter_map(f) =~= front.filter_map(f).push(value_of(l)));
        } else {
            assert(headers.filter(named) == front.filter(named));
            assert(headers.filter_map(f) =~= front.filter_map(f));
        }
    }
}

/// One of the things that a comma-separated list names is this, letter case
/// aside.
pub open spec fn names(value: Seq<char>, word: Seq<char>) -> bool {
    exists|i: int|
        0 <= i < seqs::split(value, ',').len() && same_name(
            text::trim(#[trigger] seqs::split(value, ',')[i]),
            word,
        )
}

/// One of these lists names this.
pub open spec fn one_names(values: Seq<Seq<char>>, word: Seq<char>) -> bool {
    exists|i: int| 0 <= i < values.len() && names(#[trigger] values[i], word)
}

proof fn lemma_one_names(values: Seq<Seq<char>>, word: Seq<char>)
    ensures
        gate::some_lists(values, word) == one_names(values, word),
{
    assert forall|v: Seq<char>| #[trigger] gate::lists(v, word) == names(v, word) by {
        let parts = seqs::split(v, ',');
        if gate::lists(v, word) {
            let i = choose|i: int|
                0 <= i < seqs::split(v, ',').len() && text::lowered(
                    text::trim(#[trigger] seqs::split(v, ',')[i]),
                ) == text::lowered(word);
            assert(same_name(text::trim(parts[i]), word));
        }
        if names(v, word) {
            let i = choose|i: int|
                0 <= i < seqs::split(v, ',').len() && same_name(
                    text::trim(#[trigger] seqs::split(v, ',')[i]),
                    word,
                );
            assert(text::lowered(text::trim(parts[i])) == text::lowered(word));
        }
    }
    if gate::some_lists(values, word) {
        let i = choose|i: int| 0 <= i < values.len() && gate::lists(#[trigger] values[i], word);
        assert(names(values[i], word));
    }
    if one_names(values, word) {
        let i = choose|i: int| 0 <= i < values.len() && names(#[trigger] values[i], word);
        assert(gate::lists(values[i], word));
    }
}

/// What a request asks for is read out of its own headers: its method and its
/// target are the first two of three words of the first line; it is an upgrade if
/// it says to what and its connection names the upgrade; it waits if it expects
/// the one thing there is to expect; it registers a service worker if it says so.
pub proof fn law_a_request_is_what_its_headers_say(
    head: &str,
    cookie: &str,
    r: Option<Request>,
)
    requires
        call_ensures(gate::parse, (head, cookie), r),
    ensures
        r matches Some(req) ==> {
            let headers = gate::header_lines(head@);
            let words = text::words(gate::head_lines(head@)[0]);
            &&& words.len() == 3
            &&& req.method@ == words[0]
            &&& req.target@ == words[1]
            &&& req.upgrade <==> said(headers, "upgrade"@).len() > 0 && said(
                headers,
                "upgrade"@,
            )[0].len() > 0 && one_names(said(headers, "connection"@), "upgrade"@)
            &&& req.expects_continue <==> one_names(said(headers, "expect"@), "100-continue"@)
            &&& req.service_worker <==> exists|i: int|
                0 <= i < said(headers, "service-worker"@).len() && same_name(
                    #[trigger] said(headers, "service-worker"@)[i],
                    "script"@,
                )
            &&& said(headers, "host"@).len() <= 1
        },
{
    if let Some(req) = r {
        let headers = gate::header_lines(head@);
        lemma_said(headers, "upgrade"@);
        lemma_said(headers, "connection"@);
        lemma_said(headers, "expect"@);
        lemma_said(headers, "service-worker"@);
        lemma_said(headers, "host"@);
        lemma_one_names(said(headers, "connection"@), "upgrade"@);
        lemma_one_names(said(headers, "expect"@), "100-continue"@);
        let ups = said(headers, "upgrade"@);
        if ups.len() > 0 {
            let l = lines_named(headers, "upgrade"@)[0];
            let behind = l.skip(seqs::find(l, ':') as int + 1);
            text::lemma_trim(behind);
            text::lemma_trim_same(text::trim(behind));
            assert(ups[0] == value_of(l));
        }
        let asked = said(headers, "service-worker"@);
        if exists|i: int| 0 <= i < asked.len() && same_name(#[trigger] asked[i], "script"@) {
            let i = choose|i: int| 0 <= i < asked.len() && same_name(#[trigger] asked[i], "script"@);
            assert(text::lowered(asked[i]) == text::lowered("script"@));
        }
        if exists|i: int|
            0 <= i < asked.len() && text::lowered(#[trigger] asked[i]) == text::lowered("script"@) {
            let i = choose|i: int|
                0 <= i < asked.len() && text::lowered(#[trigger] asked[i]) == text::lowered(
                    "script"@,
                );
            assert(same_name(asked[i], "script"@));
        }
    }
}

/// Not a transfer coding: nothing at all, or the one that changes nothing.
pub open spec fn is_no_coding(word: Seq<char>) -> bool {
    word.len() == 0 || same_name(word, "identity"@)
}

/// Where a body ends is read in one way or not at all. One length, of digits, is
/// the length; two lengths, or a length and a coding, are refused; a coding that
/// is not `chunked` at the end is refused; and without either there is no body.
pub proof fn law_a_body_has_one_end(head: &str, cookie: &str, r: Option<Request>)
    requires
        call_ensures(gate::parse, (head, cookie), r),
    ensures
        ({
            let lengths = said(gate::header_lines(head@), "content-length"@);
            let codings = said(gate::header_lines(head@), "transfer-encoding"@);
            &&& lengths.len() > 1 ==> r is None
            &&& r matches Some(req) ==> {
                &&& lengths.len() == 0 ==> req.content_length is None
                &&& codings.len() == 0 ==> !req.chunked
                &&& lengths.len() == 1 ==> !req.chunked && (req.content_length matches Some(n)
                    && text::is_number(lengths[0]) && text::number(lengths[0]) == n)
                &&& req.chunked ==> one_names(codings, "chunked"@)
                &&& !req.chunked ==> forall|i: int, k: int|
                    0 <= i < codings.len() && 0 <= k < seqs::split(codings[i], ',').len()
                        ==> is_no_coding(text::trim(#[trigger] seqs::split(codings[i], ',')[k]))
            }
        }),
{
    let headers = gate::header_lines(head@);
    let lengths = said(headers, "content-length"@);
    let values = said(headers, "transfer-encoding"@);
    lemma_said(headers, "content-length"@);
    lemma_said(headers, "transfer-encoding"@);
    if let Some(req) = r {
        if lengths.len() == 1 {
            let l = lines_named(headers, "content-length"@)[0];
            let behind = l.skip(seqs::find(l, ':') as int + 1);
            text::lemma_trim(behind);
            text::lemma_trim_same(text::trim(behind));
            assert(lengths[0] == value_of(l));
        }
        if values.len() == 0 {
            let of = |v: Seq<char>| gate::codings_of(v);
            assert(values.map_values(of) =~= Seq::empty());
            assert(gate::codings(values) =~= Seq::empty());
        }
        if req.chunked {
            lemma_chunked_named(values);
        } else {
            assert forall|i: int, k: int|
                0 <= i < values.len() && 0 <= k < seqs::split(
                    values[i],
                    ',',
                ).len() implies is_no_coding(text::trim(#[trigger] seqs::split(values[i], ',')[k])) by {
                lemma_no_coding(values, i, k);
            }
        }
    }
}

/// What a list of lists holds, one of them holds.
pub proof fn lemma_concat_holds<T>(parts: Seq<Seq<T>>, x: T)
    ensures
        seqs::concat(parts).contains(x) <==> exists|i: int|
            0 <= i < parts.len() && (#[trigger] parts[i]).contains(x),
    decreases parts.len(),
{
    if parts.len() > 0 {
        let front = parts.drop_last();
        let a = seqs::concat(front);
        let b = parts.last();
        assert(seqs::concat(parts) == a + b);
        lemma_concat_holds(front, x);
        if (a + b).contains(x) {
            let j = choose|j: int| 0 <= j < (a + b).len() && (a + b)[j] == x;
            if j < a.len() {
                assert(a[j] == x);
                let i = choose|i: int| 0 <= i < front.len() && (#[trigger] front[i]).contains(x);
                assert(parts[i] == front[i]);
            } else {
                assert(b[j - a.len()] == x);
                assert(parts[parts.len() - 1].contains(x));
            }
        }
        if exists|i: int| 0 <= i < parts.len() && (#[trigger] parts[i]).contains(x) {
            let i = choose|i: int| 0 <= i < parts.len() && (#[trigger] parts[i]).contains(x);
            if i < front.len() {
                assert(front[i].contains(x));
                let j = choose|j: int| 0 <= j < a.len() && a[j] == x;
                assert((a + b)[j] == x);
            } else {
                let j = choose|j: int| 0 <= j < b.len() && b[j] == x;
                assert((a + b)[a.len() + j] == x);
            }
        }
    }
}

pub proof fn lemma_small_words()
    ensures
        text::lowered("identity"@) == "identity"@,
        text::lowered("chunked"@) == "chunked"@,
{
    reveal_strlit("identity");
    reveal_strlit("chunked");
    assert(text::lowered("identity"@) =~= "identity"@);
    assert(text::lowered("chunked"@) =~= "chunked"@);
}

pub proof fn lemma_chunked_named(values: Seq<Seq<char>>)
    requires
        gate::codings(values).len() > 0,
        gate::codings(values).last() == "chunked"@,
    ensures
        one_names(values, "chunked"@),
        has_coding(values),
{
    let of = |v: Seq<char>| gate::codings_of(v);
    let small = |t: Seq<char>| text::lowered(text::trim(t));
    let counts = |t: Seq<char>| t.len() > 0 && t != "identity"@;
    let all = values.map_values(of);
    lemma_concat_holds(all, "chunked"@);
    assert(gate::codings(values).contains("chunked"@));
    let i = choose|i: int| 0 <= i < all.len() && (#[trigger] all[i]).contains("chunked"@);
    let list = seqs::split(values[i], ',').map_values(small);
    assert(all[i] == list.filter(counts));
    seqs::lemma_filter_holds(list, counts);
    let j = choose|j: int| 0 <= j < all[i].len() && all[i][j] == "chunked"@;
    assert(list.contains(list.filter(counts)[j]));
    let k = choose|k: int| 0 <= k < list.len() && list[k] == "chunked"@;
    lemma_small_words();
    assert(same_name(text::trim(seqs::split(values[i], ',')[k]), "chunked"@));
    assert(names(values[i], "chunked"@));
    lemma_has_coding(values);
}

/// A transfer coding is named.
pub open spec fn has_coding(values: Seq<Seq<char>>) -> bool {
    exists|i: int, k: int|
        0 <= i < values.len() && 0 <= k < seqs::split(values[i], ',').len() && !is_no_coding(
            text::trim(#[trigger] seqs::split(values[i], ',')[k]),
        )
}

pub proof fn lemma_has_coding(values: Seq<Seq<char>>)
    ensures
        has_coding(values) <==> gate::codings(values).len() > 0,
{
    let of = |v: Seq<char>| gate::codings_of(v);
    let small = |t: Seq<char>| text::lowered(text::trim(t));
    let counts = |t: Seq<char>| t.len() > 0 && t != "identity"@;
    let all = values.map_values(of);
    if gate::codings(values).len() > 0 {
        let word = gate::codings(values)[0];
        assert(gate::codings(values).contains(word));
        lemma_concat_holds(all, word);
        let i = choose|i: int| 0 <= i < all.len() && (#[trigger] all[i]).contains(word);
        let list = seqs::split(values[i], ',').map_values(small);
        assert(all[i] == list.filter(counts));
        seqs::lemma_filter_holds(list, counts);
        let j = choose|j: int| 0 <= j < all[i].len() && all[i][j] == word;
        assert(list.contains(list.filter(counts)[j]));
        let k = choose|k: int| 0 <= k < list.len() && list[k] == word;
        lemma_small_words();
        let t = text::trim(seqs::split(values[i], ',')[k]);
        assert(text::lowered(t).len() == t.len());
        assert(!is_no_coding(text::trim(seqs::split(values[i], ',')[k])));
    } else if has_coding(values) {
        let (i, k) = choose|i: int, k: int|
            0 <= i < values.len() && 0 <= k < seqs::split(values[i], ',').len() && !is_no_coding(
                text::trim(#[trigger] seqs::split(values[i], ',')[k]),
            );
        lemma_no_coding(values, i, k);
    }
}

/// The last word of the last list.
pub open spec fn last_word(values: Seq<Seq<char>>) -> Seq<char> {
    text::trim(seqs::split(values.last(), ',').last())
}

pub proof fn lemma_last_coding(values: Seq<Seq<char>>)
    requires
        values.len() > 0,
        !is_no_coding(last_word(values)),
    ensures
        gate::codings(values).len() > 0,
        gate::codings(values).last() == text::lowered(last_word(values)),
        gate::codings(values).last() == "chunked"@ <==> same_name(last_word(values), "chunked"@),
{
    let of = |v: Seq<char>| gate::codings_of(v);
    let small = |t: Seq<char>| text::lowered(text::trim(t));
    let counts = |t: Seq<char>| t.len() > 0 && t != "identity"@;
    let all = values.map_values(of);
    let parts = seqs::split(values.last(), ',');
    seqs::lemma_split_len(values.last(), ',');
    let list = parts.map_values(small);
    let word = list.last();
    lemma_small_words();
    assert(word == text::lowered(last_word(values)));
    assert(word.len() == last_word(values).len());
    assert(counts(word));
    reveal(Seq::filter);
    assert(list.filter(counts) == list.drop_last().filter(counts).push(word));
    assert(all.last() == list.filter(counts));
    assert(seqs::concat(all) == seqs::concat(all.drop_last()) + all.last());
}

/// A body that is sent in chunks is one whose last coding says so, and any other
/// last coding is refused.
pub proof fn law_the_last_coding_decides(head: &str, cookie: &str, r: Option<Request>)
    requires
        call_ensures(gate::parse, (head, cookie), r),
        said(gate::header_lines(head@), "transfer-encoding"@).len() > 0,
        !is_no_coding(last_word(said(gate::header_lines(head@), "transfer-encoding"@))),
    ensures
        same_name(
            last_word(said(gate::header_lines(head@), "transfer-encoding"@)),
            "chunked"@,
        ) ==> (r matches Some(req) ==> req.chunked && req.content_length is None),
        !same_name(
            last_word(said(gate::header_lines(head@), "transfer-encoding"@)),
            "chunked"@,
        ) ==> r is None,
{
    let headers = gate::header_lines(head@);
    lemma_said(headers, "transfer-encoding"@);
    lemma_last_coding(said(headers, "transfer-encoding"@));
}

/// A character of a header's name.
pub open spec fn is_name_char(c: char) -> bool {
    ||| '0' <= c && c <= '9'
    ||| 'a' <= c && c <= 'z'
    ||| 'A' <= c && c <= 'Z'
    ||| c == '!' || c == '#' || c == '$' || c == '%' || c == '&' || c == '\'' || c == '*'
    ||| c == '+' || c == '-' || c == '.' || c == '^' || c == '_' || c == '`' || c == '|'
    ||| c == '~'
}

proof fn lemma_name_char(c: char)
    ensures
        gate::tchar(c) <==> is_name_char(c),
{
    let marks = seq![
        '!',
        '#',
        '$',
        '%',
        '&',
        '\'',
        '*',
        '+',
        '-',
        '.',
        '^',
        '_',
        '`',
        '|',
        '~',
    ];
    assert(marks[0] == '!' && marks[1] == '#' && marks[2] == '$' && marks[3] == '%' && marks[4]
        == '&' && marks[5] == '\'' && marks[6] == '*' && marks[7] == '+' && marks[8] == '-'
        && marks[9] == '.' && marks[10] == '^' && marks[11] == '_' && marks[12] == '`' && marks[13]
        == '|' && marks[14] == '~');
}

/// A header line that has one reading: a name, of such characters alone, right
/// before its first colon.
pub open spec fn is_header(line: Seq<char>) -> bool {
    let n = seqs::find(line, ':') as int;
    0 < n < line.len() && forall|i: int| 0 <= i < n ==> is_name_char(#[trigger] line[i])
}

proof fn lemma_header(line: Seq<char>)
    ensures
        gate::unambiguous(line) <==> is_header(line),
{
    let n = seqs::find(line, ':') as int;
    seqs::lemma_find(line, ':');
    assert forall|c: char| #[trigger] gate::tchar(c) == is_name_char(c) by {
        lemma_name_char(c);
    }
    if n < line.len() {
        let k = line.take(n);
        if is_header(line) {
            assert forall|i: int| 0 <= i < k.len() implies gate::tchar(#[trigger] k[i]) by {
                assert(is_name_char(line[i]));
            }
        }
        if gate::unambiguous(line) {
            assert forall|i: int| 0 <= i < n implies is_name_char(#[trigger] line[i]) by {
                assert(gate::tchar(k[i]));
            }
        }
    }
}

/// A head that has one reading: every line ends with a carriage return and a line
/// feed, and neither stands alone; every header is one; the first line is three
/// words, the last of which names the protocol; and it is sent to one host at
/// most.
pub open spec fn is_readable(head: Seq<char>) -> bool {
    let headers = gate::header_lines(head);
    let words = text::words(gate::head_lines(head)[0]);
    &&& forall|i: int| 0 <= i < head.len() && #[trigger] head[i] == '\n' ==> i > 0 && head[i - 1]
        == '\r'
    &&& forall|i: int|
        0 <= i < head.len() && #[trigger] head[i] == '\r' ==> i + 1 < head.len() && head[i + 1]
            == '\n'
    &&& forall|i: int| 0 <= i < headers.len() ==> is_header(#[trigger] headers[i])
    &&& words.len() == 3
    &&& words[2].len() >= 5 && words[2].take(5) == "HTTP/"@
    &&& said(headers, "host"@).len() <= 1
}

proof fn lemma_readable(head: Seq<char>)
    ensures
        gate::head_is_plain(head) <==> is_readable(head),
{
    let headers = gate::header_lines(head);
    let words = text::words(gate::head_lines(head)[0]);
    lemma_said(headers, "host"@);
    reveal_strlit("HTTP/");
    assert("HTTP/"@.len() == 5);
    assert forall|l: Seq<char>| #[trigger] gate::unambiguous(l) == is_header(l) by {
        lemma_header(l);
    }
    if words.len() == 3 && words[2].len() >= 5 {
        assert(words[2].take(5) == words[2].subrange(0, 5));
    }
    if gate::head_is_plain(head) {
        assert forall|i: int| 0 <= i < head.len() && #[trigger] head[i] == '\n' implies i > 0
            && head[i - 1] == '\r' by {
            assert(gate::no_half_line_end(head, '\r', '\n', i));
        }
        assert forall|i: int| 0 <= i < head.len() && #[trigger] head[i] == '\r' implies i + 1
            < head.len() && head[i + 1] == '\n' by {
            assert(gate::no_half_line_end(head, '\r', '\n', i));
        }
        assert forall|i: int| 0 <= i < headers.len() implies is_header(#[trigger] headers[i]) by {
            assert(gate::unambiguous(headers[i]));
        }
    }
    if is_readable(head) {
        assert forall|i: int| 0 <= i < head.len() implies #[trigger] gate::no_half_line_end(
            head,
            '\r',
            '\n',
            i,
        ) by {
            assert(head[i] == head[i]);
        }
        assert forall|i: int| 0 <= i < headers.len() implies gate::unambiguous(
            #[trigger] headers[i],
        ) by {
            assert(is_header(headers[i]));
        }
    }
}

/// A head with two readings is refused.
pub proof fn law_a_head_with_two_readings_is_refused(head: &str, cookie: &str, r: Option<Request>)
    requires
        call_ensures(gate::parse, (head, cookie), r),
        !is_readable(head@),
    ensures
        r is None,
{
    lemma_readable(head@);
}

/// Nothing else is refused: a head whose lines can be read in one way only, with
/// one word for where its body ends, or none, is read.
pub proof fn law_a_plain_request_is_read(head: &str, cookie: &str, r: Option<Request>)
    requires
        call_ensures(gate::parse, (head, cookie), r),
        is_readable(head@),
    ensures
        ({
            let lengths = said(gate::header_lines(head@), "content-length"@);
            let codings = said(gate::header_lines(head@), "transfer-encoding"@);
            &&& lengths.len() == 0 && codings.len() == 0 ==> r is Some
            &&& lengths.len() == 1 && codings.len() == 0 && text::is_number(lengths[0])
                && text::number(lengths[0]) <= u64::MAX ==> r is Some
            &&& lengths.len() == 0 && codings.len() > 0 && same_name(
                last_word(codings),
                "chunked"@,
            ) ==> r is Some
        }),
{
    let headers = gate::header_lines(head@);
    let lengths = said(headers, "content-length"@);
    let values = said(headers, "transfer-encoding"@);
    lemma_readable(head@);
    lemma_said(headers, "content-length"@);
    lemma_said(headers, "transfer-encoding"@);
    if values.len() == 0 {
        let of = |v: Seq<char>| gate::codings_of(v);
        assert(values.map_values(of) =~= Seq::empty());
        assert(gate::codings(values) =~= Seq::empty());
        if lengths.len() == 1 {
            let l = lines_named(headers, "content-length"@)[0];
            let behind = l.skip(seqs::find(l, ':') as int + 1);
            text::lemma_trim(behind);
            text::lemma_trim_same(text::trim(behind));
            assert(lengths[0] == value_of(l));
        }
    } else if same_name(last_word(values), "chunked"@) {
        lemma_small_words();
        reveal_strlit("chunked");
        reveal_strlit("identity");
        let w = last_word(values);
        assert(text::lowered(w).len() == w.len());
        assert("chunked"@.len() == 7 && "identity"@.len() == 8);
        lemma_last_coding(values);
    }
}

pub proof fn lemma_no_coding(values: Seq<Seq<char>>, i: int, k: int)
    requires
        gate::codings(values).len() == 0,
        0 <= i < values.len(),
        0 <= k < seqs::split(values[i], ',').len(),
    ensures
        is_no_coding(text::trim(seqs::split(values[i], ',')[k])),
{
    let of = |v: Seq<char>| gate::codings_of(v);
    let small = |t: Seq<char>| text::lowered(text::trim(t));
    let counts = |t: Seq<char>| t.len() > 0 && t != "identity"@;
    let all = values.map_values(of);
    let list = seqs::split(values[i], ',').map_values(small);
    let word = list[k];
    lemma_small_words();
    assert(all[i] == list.filter(counts));
    if counts(word) {
        list.lemma_filter_contains(counts, k);
        assert(all[i].contains(word));
        lemma_concat_holds(all, word);
        assert(gate::codings(values).contains(word));
    }
    let t = text::trim(seqs::split(values[i], ',')[k]);
    assert(text::lowered(t).len() == t.len());
}

} // verus!
