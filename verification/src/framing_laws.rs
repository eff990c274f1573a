//! Where the body of a response ends, and what that leaves of its head.
use vstd::prelude::*;
use vstd::string::*;

use crate::forwarding_laws::{self, same_name};
use crate::http_front::{self, Body, Framing};
use crate::relay::{self, Opening};
use crate::reply_laws::{is_between_them, is_named, law_the_visitor_gets_everything_else};
use crate::request_laws::{self, has_coding, is_no_coding, last_word};
use crate::seqs;
use crate::text;

verus! {

/// What a line says behind its first colon.
pub open spec fn line_says(line: Seq<u8>) -> Seq<char> {
    text::trim(http_front::read_text(line.skip(seqs::find(line, 58u8) as int + 1)))
}

/// What the lines of this name say, in order.
pub open spec fn told(head: Seq<u8>, name: Seq<char>) -> Seq<Seq<char>> {
    http_front::full_lines(head).filter(|l: Seq<u8>| is_named(l, name)).map_values(
        |l: Seq<u8>| line_says(l),
    )
}

proof fn lemma_fields(lines: Seq<Seq<u8>>, name: Seq<char>)
    ensures
        http_front::values_in(lines.filter_map(|l: Seq<u8>| http_front::line_field(l)), name)
            == lines.filter(|l: Seq<u8>| is_named(l, name)).map_values(
            |l: Seq<u8>| line_says(l),
        ),
    decreases lines.len(),
{
    let field = |l: Seq<u8>| http_front::line_field(l);
    let value = |f: (Seq<char>, Seq<char>)| http_front::value_if(f, name);
    let named = |l: Seq<u8>| is_named(l, name);
    let says = |l: Seq<u8>| line_says(l);
    reveal(Seq::filter);
    reveal(Seq::filter_map);
    let fields = lines.filter_map(field);
    if lines.len() == 0 {
        assert(fields =~= Seq::empty());
        assert(fields.filter_map(value) =~= Seq::empty());
        assert(lines.filter(named).map_values(says) =~= Seq::empty());
    } else {
        let front = lines.drop_last();
        let l = lines.last();
        lemma_fields(front, name);
        match field(l) {
            Some(f) => {
                assert(fields =~= front.filter_map(field).push(f));
                assert(fields.drop_last() =~= front.filter_map(field));
                if named(l) {
                    assert(lines.filter(named) == front.filter(named).push(l));
                    assert(lines.filter(named).map_values(says) =~= front.filter(named).map_values(
                        says,
                    ).push(says(l)));
                    assert(fields.filter_map(value) =~= front.filter_map(field).filter_map(
                        value,
                    ).push(says(l)));
                } else {
                    assert(lines.filter(named) == front.filter(named));
                    assert(fields.filter_map(value) =~= front.filter_map(field).filter_map(value));
                }
            },
            None => {
                assert(fields =~= front.filter_map(field));
                assert(lines.filter(named) == front.filter(named));
            },
        }
    }
}

proof fn lemma_told(head: Seq<u8>, name: Seq<char>)
    ensures
        http_front::values_in(http_front::fields_of(head), name) == told(head, name),
{
    let full = |l: Seq<u8>| l.len() > 0;
    let named = |l: Seq<u8>| is_named(l, name);
    lemma_fields(http_front::response_lines(head), name);
    assert forall|l: Seq<u8>| #[trigger] named(l) implies full(l) by {}
    forwarding_laws::lemma_narrower(http_front::response_lines(head), full, named);
}

/// A head with one length, and no transfer coding, says how long its body is.
pub open spec fn has_one_length(head: Seq<u8>, n: u64) -> bool {
    let lengths = told(head, "content-length"@);
    lengths.len() == 1 && text::is_number(lengths[0]) && text::number(lengths[0]) == n
        && !has_coding(told(head, "transfer-encoding"@))
}

/// A head whose lengths cannot be gone by: there is more than one, or one that is
/// no number that fits, or a transfer coding beside it.
pub open spec fn has_bad_lengths(head: Seq<u8>) -> bool {
    let lengths = told(head, "content-length"@);
    lengths.len() > 0 && !(exists|n: u64| #[trigger] has_one_length(head, n))
}

/// A response with one length is that long and keeps it. One with a transfer
/// coding is as its last coding says. Everything else ends with the connection,
/// and only lengths that cannot be gone by are taken out.
pub proof fn law_a_response_ends_where_it_says(head: &[u8], r: Framing)
    requires
        call_ensures(http_front::response_framing, (head,), r),
    ensures
        ends_where_it_says(head@, r),
{
    lemma_ends(head@);
}

/// See [`law_a_response_ends_where_it_says`].
pub open spec fn ends_where_it_says(head: Seq<u8>, r: Framing) -> bool {
    let codings = told(head, "transfer-encoding"@);
    &&& forall|n: u64| #[trigger] has_one_length(head, n) ==> r.body == Body::Length(n)
    &&& r.body matches Body::Length(n) ==> has_one_length(head, n)
    &&& r.strip_lengths <==> has_bad_lengths(head)
    &&& r.body is Chunked ==> request_laws::one_names(codings, "chunked"@)
    &&& codings.len() > 0 && !is_no_coding(last_word(codings)) ==> (r.body is Chunked <==> same_name(
        last_word(codings),
        "chunked"@,
    ))
}

pub proof fn lemma_ends(head: Seq<u8>)
    ensures
        ends_where_it_says(head, http_front::framing_of_fields(http_front::fields_of(head))),
{
    let lengths = told(head, "content-length"@);
    let values = told(head, "transfer-encoding"@);
    lemma_told(head, "content-length"@);
    lemma_told(head, "transfer-encoding"@);
    request_laws::lemma_has_coding(values);
    let r = http_front::framing_of_fields(http_front::fields_of(head));
    if let Body::Length(n) = r.body {
        assert(has_one_length(head, n));
    }
    if r.body is Chunked {
        request_laws::lemma_chunked_named(values);
    }
    if values.len() > 0 && !is_no_coding(last_word(values)) {
        request_laws::lemma_last_coding(values);
    }
}

/// What the visitor gets of a response that is relayed: every line that is
/// between them and the app, in order, and the lengths but where they cannot be
/// gone by, and then the line that ends the connection.
pub proof fn law_a_relayed_head_keeps_its_lines(
    head: &[u8],
    rest: &[u8],
    complete: bool,
    bodyless: bool,
    r: Opening,
)
    requires
        call_ensures(relay::relay_response, (head, rest, complete, bodyless), r),
    ensures
        r matches Opening::Relay { out, .. } ==> http_front::full_lines(out@)
            == http_front::full_lines(head@).filter(
            |l: Seq<u8>|
                is_between_them(l) && (has_bad_lengths(head@) ==> !is_named(l, "content-length"@)),
        ).push(http_front::bytes_of("Connection: close"@)),
        r is Relay <==> complete && http_front::well_formed(head@),
{
    law_the_visitor_gets_everything_else(head@);
    lemma_ends(head@);
    let strips = http_front::framing_of_fields(http_front::fields_of(head@)).strip_lengths;
    let a = |l: Seq<u8>| is_between_them(l) && (strips ==> !is_named(l, "content-length"@));
    let b = |l: Seq<u8>|
        is_between_them(l) && (has_bad_lengths(head@) ==> !is_named(l, "content-length"@));
    forwarding_laws::lemma_same_filter(http_front::full_lines(head@), a, b);
    assert(r@ == relay::opening(head@, rest@, complete, bodyless));
}

} // verus!
