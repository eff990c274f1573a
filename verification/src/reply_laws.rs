//! What goes on to the visitor of a response head, line by line.
use vstd::prelude::*;

use crate::forwarding_laws;
use crate::http_front;
use crate::http_front::Sieve;
use crate::relay;
use crate::response_laws;
use crate::seqs;
use crate::text;

verus! {

/// A line that sets one of the cookies that are the share's own: a `Set-Cookie`
/// of the bare name, or of the name with a port behind it.
pub open spec fn sets_an_own_cookie(line: Seq<u8>) -> bool {
    match seqs::split_once(line, 58u8) {
        Some((k, v)) => {
            let name = http_front::name_set_by(http_front::read_text(v));
            &&& text::lowered(text::trim(http_front::read_text(k))) == "set-cookie"@
            &&& {
                ||| name == "h5i_share"@
                ||| exists|port: u16|
                    port != 0 && name == "h5i_share_"@ + #[trigger] text::decimal(port as nat)
            }
        },
        None => false,
    }
}

/// A line has this name, which is in lower case.
pub open spec fn is_named(line: Seq<u8>, name: Seq<char>) -> bool {
    match seqs::split_once(line, 58u8) {
        Some((k, _)) => text::lowered(text::trim(http_front::read_text(k))) == name,
        None => false,
    }
}

/// A line that is between the app and the visitor: it is not about how long the
/// connection lasts, and it sets no cookie of the share's own.
pub open spec fn is_between_them(line: Seq<u8>) -> bool {
    &&& !is_named(line, "connection"@)
    &&& !is_named(line, "keep-alive"@)
    &&& !sets_an_own_cookie(line)
}

/// The spelled-out tests are those that the filters go by.
proof fn lemma_tests(line: Seq<u8>)
    ensures
        http_front::sieved(Sieve::Connection, line) == !is_between_them(line),
        http_front::sieved(Sieve::Lengths, line) == is_named(line, "content-length"@),
        http_front::sieved(Sieve::ShareCookies, line) == sets_an_own_cookie(line),
{
    reveal_strlit("connection");
    reveal_strlit("keep-alive");
    reveal_strlit("content-length");
    assert("connection"@.len() == 10 && "keep-alive"@.len() == 10 && "content-length"@.len() == 14);
    if let Some((_, v)) = seqs::split_once(line, 58u8) {
        forwarding_laws::lemma_own_names(http_front::name_set_by(http_front::read_text(v)));
    }
}

/// What a filter leaves is what passes the spelled-out test.
proof fn lemma_left(sieve: Sieve, head: Seq<u8>, keep: spec_fn(Seq<u8>) -> bool)
    requires
        forall|l: Seq<u8>| #[trigger] keep(l) == !http_front::sieved(sieve, l),
    ensures
        http_front::left_by(sieve, head) == http_front::full_lines(head).filter(keep),
{
    let all = http_front::response_lines(head);
    let full = |l: Seq<u8>| l.len() > 0;
    let both = |l: Seq<u8>| l.len() > 0 && !http_front::sieved(sieve, l);
    lemma_both(all, full, keep, both);
}

/// Two tests one after the other are one.
proof fn lemma_both<A>(
    s: Seq<A>,
    p: spec_fn(A) -> bool,
    q: spec_fn(A) -> bool,
    both: spec_fn(A) -> bool,
)
    requires
        forall|a: A| #[trigger] both(a) == (p(a) && q(a)),
    ensures
        s.filter(both) == s.filter(p).filter(q),
    decreases s.len(),
{
    reveal(Seq::filter);
    if s.len() > 0 {
        let front = s.drop_last();
        lemma_both(front, p, q, both);
        assert(both(s.last()) == (p(s.last()) && q(s.last())));
        if p(s.last()) {
            assert(s.filter(p).drop_last() =~= front.filter(p));
        }
    }
}

/// A head that is closed keeps every line that is between the app and the
/// visitor, as it stood and where it stood, and ends with the one line that says
/// so.
pub proof fn law_closing_keeps_everything_else(head: Seq<u8>)
    ensures
        http_front::full_lines(
            http_front::rebuilt(Sieve::Connection, head, http_front::close_line()),
        ) == http_front::full_lines(head).filter(|l: Seq<u8>| is_between_them(l)).push(
            http_front::bytes_of("Connection: close"@),
        ),
{
    reveal(response_laws::filtered);
    let keep = |l: Seq<u8>| is_between_them(l);
    assert forall|l: Seq<u8>| #[trigger] keep(l) == !http_front::sieved(Sieve::Connection, l) by {
        lemma_tests(l);
    }
    lemma_left(Sieve::Connection, head, keep);
    response_laws::lemma_filtered_full(Sieve::Connection, head);
}

/// A head that loses its lengths loses nothing else.
pub proof fn law_stripping_lengths_keeps_everything_else(head: Seq<u8>)
    ensures
        http_front::full_lines(http_front::rebuilt(Sieve::Lengths, head, Seq::empty()))
            == http_front::full_lines(head).filter(
            |l: Seq<u8>| !is_named(l, "content-length"@),
        ),
{
    reveal(response_laws::filtered);
    let keep = |l: Seq<u8>| !is_named(l, "content-length"@);
    assert forall|l: Seq<u8>| #[trigger] keep(l) == !http_front::sieved(Sieve::Lengths, l) by {
        lemma_tests(l);
    }
    lemma_left(Sieve::Lengths, head, keep);
    response_laws::lemma_filtered_full(Sieve::Lengths, head);
}

/// A head that is passed on in between, or to change protocols, loses the
/// share's own cookies and nothing else.
pub proof fn law_stripping_cookies_keeps_everything_else(head: Seq<u8>)
    ensures
        http_front::full_lines(http_front::rebuilt(Sieve::ShareCookies, head, Seq::empty()))
            == http_front::full_lines(head).filter(|l: Seq<u8>| !sets_an_own_cookie(l)),
{
    reveal(response_laws::filtered);
    let keep = |l: Seq<u8>| !sets_an_own_cookie(l);
    assert forall|l: Seq<u8>| #[trigger] keep(l) == !http_front::sieved(
        Sieve::ShareCookies,
        l,
    ) by {
        lemma_tests(l);
    }
    lemma_left(Sieve::ShareCookies, head, keep);
    response_laws::lemma_filtered_full(Sieve::ShareCookies, head);
}

/// The visitor gets every line of a response head that is between them and the
/// app, as it stood and where it stood: all but those about the connection, the
/// share's own cookies, and, where the head gave two answers about where its body
/// ends, the lengths. Behind them stands the one line that ends the connection.
pub proof fn law_the_visitor_gets_everything_else(head: Seq<u8>)
    ensures
        ({
            let strips = http_front::framing_of_fields(http_front::fields_of(head)).strip_lengths;
            http_front::full_lines(relay::sanitised(head)) == http_front::full_lines(head).filter(
                |l: Seq<u8>|
                    is_between_them(l) && (strips ==> !is_named(l, "content-length"@)),
            ).push(http_front::bytes_of("Connection: close"@))
        }),
{
    let strips = http_front::framing_of_fields(http_front::fields_of(head)).strip_lengths;
    let closed = http_front::rebuilt(Sieve::Connection, head, http_front::close_line());
    let closing = http_front::bytes_of("Connection: close"@);
    let between = |l: Seq<u8>| is_between_them(l);
    let sized = |l: Seq<u8>| !is_named(l, "content-length"@);
    let both = |l: Seq<u8>| is_between_them(l) && (strips ==> !is_named(l, "content-length"@));
    let full = http_front::full_lines(head);
    law_closing_keeps_everything_else(head);
    if strips {
        law_stripping_lengths_keeps_everything_else(closed);
        lemma_both(full, between, sized, both);
        let front = full.filter(between);
        front.lemma_filter_push(closing, sized);
        response_laws::lemma_closing();
        reveal_strlit("connection");
        reveal_strlit("content-length");
        assert("connection"@.len() == 10 && "content-length"@.len() == 14);
        assert(sized(closing));
    } else {
        forwarding_laws::lemma_same_filter(full, between, both);
    }
}

} // verus!
