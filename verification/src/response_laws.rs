//! What holds of every response head that goes to a visitor.
use vstd::prelude::*;

use crate::gate;
use crate::http_front;
use crate::http_front::{Body, Framing, Sieve, CR, LF};
use crate::relay;
use crate::seqs;
use crate::text;

verus! {

/// No part of a line ending.
pub open spec fn unbroken(l: Seq<u8>) -> bool {
    seqs::lacks(l, CR) && seqs::lacks(l, LF)
}

/// The lines of a head whose line endings are all whole hold no part of one.
proof fn lemma_lines_unbroken(s: Seq<u8>)
    requires
        gate::line_ends_agree(s, CR, LF),
    ensures
        forall|i: int|
            0 <= i < http_front::response_lines(s).len() ==> unbroken(
                #[trigger] http_front::response_lines(s)[i],
            ),
    decreases s.len(),
{
    reveal(http_front::response_lines);
    seqs::lemma_find(s, LF);
    let n = seqs::find(s, LF) as int;
    let first = s.take(n);
    let lines = http_front::response_lines(s);
    assert(unbroken(http_front::without_cr(first))) by {
        let l = http_front::without_cr(first);
        assert forall|j: int| 0 <= j < l.len() implies l[j] != CR && l[j] != LF by {
            assert(l[j] == s[j]);
            assert(gate::no_half_line_end(s, CR, LF, j));
            if s[j] == CR {
                assert(s[j + 1] == LF);
                assert(j + 1 == n);
                assert(first.last() == CR);
            }
        }
    }
    if n < s.len() {
        let rest = s.skip(n + 1);
        assert forall|j: int| 0 <= j < rest.len() implies #[trigger] gate::no_half_line_end(
            rest,
            CR,
            LF,
            j,
        ) by {
            assert(gate::no_half_line_end(s, CR, LF, j + n + 1));
            assert(rest[j] == s[j + n + 1]);
            if j + 1 < rest.len() {
                assert(rest[j + 1] == s[j + n + 2]);
            }
            if j > 0 {
                assert(rest[j - 1] == s[j + n]);
            }
        }
        lemma_lines_unbroken(rest);
        assert forall|i: int| 0 <= i < lines.len() implies unbroken(#[trigger] lines[i]) by {
            if i > 0 {
                assert(lines[i] == http_front::response_lines(rest)[i - 1]);
            } else {
                assert(lines[0] == http_front::without_cr(first));
            }
        }
    } else {
        assert(first == s);
    }
}

/// The lines of a head hold no line feed.
proof fn lemma_lines_lack_feeds(s: Seq<u8>)
    ensures
        forall|i: int|
            0 <= i < http_front::response_lines(s).len() ==> seqs::lacks(
                #[trigger] http_front::response_lines(s)[i],
                LF,
            ),
{
    reveal(http_front::response_lines);
    let all = seqs::split(s, LF);
    let lines = http_front::response_lines(s);
    seqs::lemma_split_pieces(s, LF);
    assert forall|i: int| 0 <= i < lines.len() implies seqs::lacks(#[trigger] lines[i], LF) by {
        assert(lines[i] == http_front::without_cr(all[i]));
        assert(seqs::lacks(all[i], LF));
        assert forall|j: int| 0 <= j < lines[i].len() implies lines[i][j] != LF by {
            assert(lines[i][j] == all[i][j]);
        }
    }
}

/// A line and its line ending are the first line of what they begin.
proof fn lemma_split_line(l: Seq<u8>, rest: Seq<u8>)
    requires
        seqs::lacks(l, LF),
    ensures
        http_front::response_lines(l + http_front::line_end() + rest) == seq![l]
            + http_front::response_lines(rest),
{
    reveal(http_front::response_lines);
    let a = l + seq![CR];
    assert(l + http_front::line_end() + rest == a + seq![LF] + rest);
    seqs::lemma_split_at(a, LF, rest);
    assert(seqs::lacks(a, LF)) by {
        assert forall|i: int| 0 <= i < a.len() implies a[i] != LF by {
            if i < l.len() {
                assert(a[i] == l[i]);
            }
        }
    }
    seqs::lemma_split_whole(a, LF);
    assert(http_front::without_cr(a) == l);
    assert(http_front::response_lines(l + http_front::line_end() + rest) =~= seq![l]
        + http_front::response_lines(rest));
}

/// Ended lines are the first lines of what they begin.
proof fn lemma_split_ended(lines: Seq<Seq<u8>>, rest: Seq<u8>)
    requires
        forall|i: int| 0 <= i < lines.len() ==> seqs::lacks(#[trigger] lines[i], LF),
    ensures
        http_front::response_lines(http_front::ended_bytes(lines) + rest) == lines
            + http_front::response_lines(rest),
    decreases lines.len(),
{
    if lines.len() == 0 {
        assert(http_front::ended_bytes(lines) + rest == rest);
        assert(lines + http_front::response_lines(rest) == http_front::response_lines(rest));
    } else {
        let front = lines.drop_last();
        let last = lines.last();
        assert(last == lines[lines.len() - 1]);
        assert forall|i: int| 0 <= i < front.len() implies seqs::lacks(#[trigger] front[i], LF) by {
            assert(front[i] == lines[i]);
        }
        assert(front.push(last) == lines);
        http_front::lemma_ended_bytes_push(front, last);
        let more = last + http_front::line_end() + rest;
        assert(http_front::ended_bytes(lines) + rest == http_front::ended_bytes(front) + more);
        lemma_split_ended(front, more);
        lemma_split_line(last, rest);
        assert(front + (seq![last] + http_front::response_lines(rest)) == lines
            + http_front::response_lines(rest));
    }
}

/// The blank line that ends a head, and what is behind it.
proof fn lemma_blank_line()
    ensures
        http_front::response_lines(http_front::line_end()) == seq![
            Seq::<u8>::empty(),
            Seq::<u8>::empty(),
        ],
        gate::line_ends_agree(http_front::line_end(), CR, LF),
{
    let none = Seq::<u8>::empty();
    assert(http_front::response_lines(none) =~= seq![none]) by {
        reveal(http_front::response_lines);
        seqs::lemma_split_whole(none, LF);
    }
    lemma_split_line(none, none);
    assert(none + http_front::line_end() + none == http_front::line_end());
    assert(seq![none] + seq![none] == seq![none, none]);
    assert forall|i: int| 0 <= i < 2 implies #[trigger] gate::no_half_line_end(
        http_front::line_end(),
        CR,
        LF,
        i,
    ) by {}
}

/// Line endings that are whole stay so when lines are put in front.
proof fn lemma_ends_agree(lines: Seq<Seq<u8>>, rest: Seq<u8>)
    requires
        forall|i: int| 0 <= i < lines.len() ==> unbroken(#[trigger] lines[i]),
        gate::line_ends_agree(rest, CR, LF),
    ensures
        gate::line_ends_agree(http_front::ended_bytes(lines) + rest, CR, LF),
    decreases lines.len(),
{
    if lines.len() == 0 {
        assert(http_front::ended_bytes(lines) + rest == rest);
    } else {
        let front = lines.drop_last();
        let last = lines.last();
        assert(last == lines[lines.len() - 1]);
        assert forall|i: int| 0 <= i < front.len() implies unbroken(#[trigger] front[i]) by {
            assert(front[i] == lines[i]);
        }
        assert(front.push(last) == lines);
        http_front::lemma_ended_bytes_push(front, last);
        let s = last + http_front::line_end() + rest;
        let n = last.len() as int;
        assert forall|i: int| 0 <= i < s.len() implies #[trigger] gate::no_half_line_end(
            s,
            CR,
            LF,
            i,
        ) by {
            if i < n {
                assert(s[i] == last[i]);
            } else if i < n + 2 {
                assert(s[n] == CR && s[n + 1] == LF);
            } else {
                let j = i - n - 2;
                assert(s[i] == rest[j]);
                assert(gate::no_half_line_end(rest, CR, LF, j));
                if j > 0 {
                    assert(s[i - 1] == rest[j - 1]);
                }
                if j + 1 < rest.len() {
                    assert(s[i + 1] == rest[j + 1]);
                }
            }
        }
        assert(http_front::ended_bytes(lines) + rest == http_front::ended_bytes(front) + s);
        lemma_ends_agree(front, s);
    }
}

/// The line that ends a connection, without its line ending.
pub open spec fn closing() -> Seq<u8> {
    http_front::bytes_of("Connection: close"@)
}

/// The lines that a filter leaves, and the one that it adds.
pub open spec fn kept_lines(sieve: Sieve, head: Seq<u8>) -> Seq<Seq<u8>> {
    match sieve {
        Sieve::Connection => http_front::left_by(sieve, head).push(closing()),
        _ => http_front::left_by(sieve, head),
    }
}

/// A head that a filter has gone through.
#[verifier::opaque]
pub open spec fn filtered(sieve: Sieve, head: Seq<u8>) -> Seq<u8> {
    http_front::rebuilt(
        sieve,
        head,
        match sieve {
            Sieve::Connection => http_front::close_line(),
            _ => Seq::empty(),
        },
    )
}

/// ASCII bytes read as the characters they are.
proof fn lemma_ascii_text(b: Seq<u8>)
    requires
        forall|i: int| 0 <= i < b.len() ==> #[trigger] b[i] < 128,
    ensures
        http_front::ascii_len(b) == b.len(),
        http_front::read_text(b) == http_front::chars_of_bytes(b),
    decreases b.len(),
{
    if b.len() > 0 {
        let rest = b.skip(1);
        assert forall|i: int| 0 <= i < rest.len() implies #[trigger] rest[i] < 128 by {
            assert(rest[i] == b[i + 1]);
        }
        lemma_ascii_text(rest);
    }
    assert(b.take(b.len() as int) == b);
    let none = b.skip(b.len() as int);
    assert(none =~= Seq::<u8>::empty());
    assert(vstd::utf8::valid_utf8(none));
    assert(vstd::utf8::decode_utf8(none) =~= Seq::<char>::empty());
    assert(http_front::chars_of_bytes(b) + Seq::<char>::empty() =~= http_front::chars_of_bytes(b));
}

/// The line that ends a connection is a `Connection` header, in one line.
pub proof fn lemma_closing()
    ensures
        unbroken(closing()),
        closing().len() > 0,
        !http_front::folded(closing()),
        http_front::line_name(closing()) == "connection"@,
        http_front::line_field(closing()) == Some(("connection"@, "close"@)),
        !http_front::share_cookie_line(closing()),
        http_front::close_line() == closing() + http_front::line_end(),
{
    reveal_strlit("Connection: close");
    reveal_strlit("Connection: close\r\n");
    reveal_strlit("Connection");
    reveal_strlit("connection");
    reveal_strlit("close");
    reveal_strlit("set-cookie");
    let l = closing();
    let k = l.take(10);
    let v = l.skip(11);
    seqs::lemma_find_is(l, 58u8, 10);
    lemma_ascii_text(k);
    lemma_ascii_text(v);
    assert(http_front::read_text(k) =~= "Connection"@);
    text::lemma_trim_same("Connection"@);
    assert(text::lowered("Connection"@) =~= "connection"@);
    assert(http_front::read_text(v) =~= seq![' '] + "close"@);
    text::lemma_trim_space("close"@);
    assert("connection"@.len() != "set-cookie"@.len() || "connection"@[0] != "set-cookie"@[0]);
    vstd::utf8::is_ascii_chars_encode_utf8("Connection: close\r\n"@);
    assert(http_front::close_line() =~= closing() + http_front::line_end());
}

/// What a filter leaves: lines of the head, not empty, none that it takes out.
pub proof fn lemma_left_by(sieve: Sieve, head: Seq<u8>)
    ensures
        forall|i: int| 0 <= i < http_front::left_by(sieve, head).len() ==> {
            let l = #[trigger] http_front::left_by(sieve, head)[i];
            &&& l.len() > 0
            &&& !http_front::sieved(sieve, l)
            &&& seqs::lacks(l, LF)
            &&& http_front::response_lines(head).contains(l)
            &&& gate::line_ends_agree(head, CR, LF) ==> unbroken(l)
        },
{
    let all = http_front::response_lines(head);
    let keep = |l: Seq<u8>| l.len() > 0 && !http_front::sieved(sieve, l);
    lemma_lines_lack_feeds(head);
    if gate::line_ends_agree(head, CR, LF) {
        lemma_lines_unbroken(head);
    }
    seqs::lemma_filter_holds(all, keep);
    assert forall|i: int| 0 <= i < http_front::left_by(sieve, head).len() implies {
        let l = #[trigger] http_front::left_by(sieve, head)[i];
        &&& l.len() > 0
        &&& !http_front::sieved(sieve, l)
        &&& seqs::lacks(l, LF)
        &&& http_front::response_lines(head).contains(l)
        &&& gate::line_ends_agree(head, CR, LF) ==> unbroken(l)
    } by {
        let l = all.filter(keep)[i];
        assert(keep(l) && all.contains(l));
        let m = choose|m: int| 0 <= m < all.len() && all[m] == l;
        assert(seqs::lacks(all[m], LF));
        if gate::line_ends_agree(head, CR, LF) {
            assert(unbroken(all[m]));
        }
    }
}

/// The lines of a filtered head, one by one.
proof fn lemma_kept_lines(sieve: Sieve, head: Seq<u8>)
    ensures
        forall|i: int| 0 <= i < kept_lines(sieve, head).len() ==> {
            let l = #[trigger] kept_lines(sieve, head)[i];
            &&& seqs::lacks(l, LF)
            &&& l.len() > 0
            &&& gate::line_ends_agree(head, CR, LF) ==> unbroken(l)
        },
        filtered(sieve, head) == http_front::ended_bytes(kept_lines(sieve, head))
            + http_front::line_end(),
{
    reveal(filtered);
    let left = http_front::left_by(sieve, head);
    let none = Seq::<u8>::empty();
    lemma_left_by(sieve, head);
    lemma_closing();
    let lines = kept_lines(sieve, head);
    assert forall|i: int| 0 <= i < lines.len() implies {
        let l = #[trigger] lines[i];
        &&& seqs::lacks(l, LF)
        &&& l.len() > 0
        &&& gate::line_ends_agree(head, CR, LF) ==> unbroken(l)
    } by {
        if i < left.len() {
            assert(lines[i] == left[i]);
        }
    }
    match sieve {
        Sieve::Connection => {
            http_front::lemma_ended_bytes_push(left, closing());
        },
        _ => {
            assert(http_front::ended_bytes(left) + none == http_front::ended_bytes(left));
        },
    }
}

/// Lines that all stay are all that a filter leaves of them and a blank line.
proof fn lemma_refiltered(lines: Seq<Seq<u8>>, keep: spec_fn(Seq<u8>) -> bool)
    requires
        forall|i: int| 0 <= i < lines.len() ==> keep(#[trigger] lines[i]),
        !keep(Seq::empty()),
    ensures
        (lines + seq![Seq::<u8>::empty(), Seq::<u8>::empty()]).filter(keep) == lines,
{
    let tail = seq![Seq::<u8>::empty(), Seq::<u8>::empty()];
    Seq::filter_distributes_over_add(lines, tail, keep);
    seqs::lemma_filter_all(lines, keep);
    seqs::lemma_filter_none(tail, keep);
    assert(lines + Seq::<Seq<u8>>::empty() == lines);
}

/// A filtered head is the lines that the filter keeps and a blank line; line
/// endings that are all whole stay so.
proof fn lemma_filtered(sieve: Sieve, head: Seq<u8>)
    ensures
        gate::line_ends_agree(head, CR, LF) ==> gate::line_ends_agree(
            filtered(sieve, head),
            CR,
            LF,
        ),
        http_front::response_lines(filtered(sieve, head)) == kept_lines(sieve, head) + seq![
            Seq::<u8>::empty(),
            Seq::<u8>::empty(),
        ],
{
    let lines = kept_lines(sieve, head);
    lemma_kept_lines(sieve, head);
    lemma_blank_line();
    assert forall|i: int| 0 <= i < lines.len() implies seqs::lacks(#[trigger] lines[i], LF) by {}
    lemma_split_ended(lines, http_front::line_end());
    if gate::line_ends_agree(head, CR, LF) {
        assert forall|i: int| 0 <= i < lines.len() implies unbroken(#[trigger] lines[i]) by {}
        lemma_ends_agree(lines, http_front::line_end());
    }
}

/// The lines of a filtered head that are not empty are those that the filter
/// keeps.
pub proof fn lemma_filtered_full(sieve: Sieve, head: Seq<u8>)
    ensures
        http_front::full_lines(filtered(sieve, head)) == kept_lines(sieve, head),
{
    lemma_filtered(sieve, head);
    lemma_kept_lines(sieve, head);
    lemma_refiltered(kept_lines(sieve, head), |l: Seq<u8>| l.len() > 0);
}

/// A filter leaves of what it left before all of it.
proof fn lemma_filtered_again(sieve: Sieve, head: Seq<u8>)
    ensures
        http_front::left_by(sieve, filtered(sieve, head)) == http_front::left_by(sieve, head),
{
    let keep = |l: Seq<u8>| l.len() > 0 && !http_front::sieved(sieve, l);
    let left = http_front::left_by(sieve, head);
    let none = Seq::<u8>::empty();
    lemma_filtered(sieve, head);
    lemma_left_by(sieve, head);
    match sieve {
        Sieve::Connection => {
            lemma_closing();
            let tail = seq![closing(), none, none];
            assert(left.push(closing()) + seq![none, none] =~= left + tail);
            Seq::filter_distributes_over_add(left, tail, keep);
            seqs::lemma_filter_all(left, keep);
            seqs::lemma_filter_none(tail, keep);
            assert(left + Seq::<Seq<u8>>::empty() == left);
        },
        _ => {
            lemma_refiltered(left, keep);
        },
    }
}

/// A head that is closed says so once, says nothing of keeping the connection,
/// and sets none of the share's own cookies.
pub proof fn law_closed_head_ends_the_connection(head: Seq<u8>, i: int)
    requires
        0 <= i < http_front::full_lines(filtered(Sieve::Connection, head)).len(),
    ensures
        ({
            let lines = http_front::full_lines(filtered(Sieve::Connection, head));
            let l = lines[i];
            &&& !http_front::share_cookie_line(l)
            &&& http_front::line_name(l) != "keep-alive"@
            &&& (http_front::line_name(l) == "connection"@ <==> i == lines.len() - 1)
            &&& (i == lines.len() - 1 ==> http_front::line_field(l) == Some(
                ("connection"@, "close"@),
            ))
        }),
{
    lemma_filtered_full(Sieve::Connection, head);
    lemma_left_by(Sieve::Connection, head);
    lemma_closing();
    let left = http_front::left_by(Sieve::Connection, head);
    let lines = http_front::full_lines(filtered(Sieve::Connection, head));
    reveal_strlit("connection");
    reveal_strlit("keep-alive");
    assert("connection"@[0] != "keep-alive"@[0]);
    if i < left.len() {
        assert(lines[i] == left[i]);
    } else {
        assert(lines[i] == closing());
    }
}

/// Heads of which a filter leaves the same come out the same.
proof fn lemma_same_left(sieve: Sieve, a: Seq<u8>, b: Seq<u8>)
    requires
        http_front::left_by(sieve, a) == http_front::left_by(sieve, b),
    ensures
        filtered(sieve, a) == filtered(sieve, b),
{
    reveal(filtered);
}

/// No head that the cookie filter has gone through sets one of the share's own
/// cookies, and going through it again changes nothing.
pub proof fn law_share_cookies_do_not_travel(head: Seq<u8>)
    ensures
        ({
            let out = filtered(Sieve::ShareCookies, head);
            &&& forall|i: int|
                0 <= i < http_front::full_lines(out).len() ==> !http_front::share_cookie_line(
                    #[trigger] http_front::full_lines(out)[i],
                )
            &&& filtered(Sieve::ShareCookies, out) == out
        }),
{
    let out = filtered(Sieve::ShareCookies, head);
    lemma_filtered_again(Sieve::ShareCookies, head);
    lemma_same_left(Sieve::ShareCookies, out, head);
    lemma_filtered_full(Sieve::ShareCookies, head);
    assert forall|i: int| 0 <= i < http_front::full_lines(out).len() implies !(
    http_front::share_cookie_line(#[trigger] http_front::full_lines(out)[i])) by {
        lemma_left_by(Sieve::ShareCookies, head);
        assert(!http_front::sieved(
            Sieve::ShareCookies,
            http_front::left_by(Sieve::ShareCookies, head)[i],
        ));
    }
}

/// Closing a head that is closed changes nothing, whatever the head was; and a
/// well-formed head stays so, with its status.
pub proof fn law_closing_a_closed_head_changes_nothing(head: Seq<u8>)
    ensures
        filtered(Sieve::Connection, filtered(Sieve::Connection, head)) == filtered(
            Sieve::Connection,
            head,
        ),
        http_front::well_formed(head) ==> {
            &&& http_front::well_formed(filtered(Sieve::Connection, head))
            &&& http_front::status_of(filtered(Sieve::Connection, head)) == http_front::status_of(
                head,
            )
        },
{
    lemma_filtered_again(Sieve::Connection, head);
    lemma_same_left(Sieve::Connection, filtered(Sieve::Connection, head), head);
    if http_front::well_formed(head) {
        law_filtered_head_is_well_formed(head, Sieve::Connection);
    }
}

/// A status line is not a header that any filter takes out, nor does it
/// continue another line.
proof fn lemma_status_line_stays(l: Seq<u8>, sieve: Sieve)
    requires
        http_front::status_line(l),
    ensures
        !http_front::sieved(sieve, l),
        !http_front::folded(l),
{
    let http = seq![72u8, 84, 84, 80, 47];
    assert(l[0] == http[0]);
    assert(l[0] == 72);
    reveal_strlit("connection");
    reveal_strlit("keep-alive");
    reveal_strlit("content-length");
    reveal_strlit("set-cookie");
    match seqs::split_once(l, 58u8) {
        Some((k, _)) => {
            seqs::lemma_find(l, 58u8);
            if k.len() == 0 {
                assert(l[0] == 58);
            }
            assert(k[0] == 72);
            let t = http_front::read_text(k);
            assert(http_front::ascii_len(k) >= 1);
            lemma_ascii_len_bound(k);
            assert(t[0] == 'H');
            lemma_lowered_front(t);
            assert(http_front::line_name(l)[0] == 'h');
        },
        None => {
            assert(http_front::line_name(l).len() == 0);
        },
    }
    let n = http_front::line_name(l);
    assert(n.len() == 0 || n[0] == 'h');
    assert("connection"@.len() == 10 && "connection"@[0] == 'c');
    assert("keep-alive"@.len() == 10 && "keep-alive"@[0] == 'k');
    assert("content-length"@.len() == 14 && "content-length"@[0] == 'c');
    assert("set-cookie"@.len() == 10 && "set-cookie"@[0] == 's');
    assert(http_front::set_cookie_text(l) is None);
}

/// No more ASCII bytes stand in front than there are bytes.
proof fn lemma_ascii_len_bound(b: Seq<u8>)
    ensures
        http_front::ascii_len(b) <= b.len(),
    decreases b.len(),
{
    if b.len() > 0 && b[0] < 128 {
        lemma_ascii_len_bound(b.skip(1));
    }
}

/// A name that begins with `H` is compared as one that begins with `h`.
proof fn lemma_lowered_front(t: Seq<char>)
    requires
        t.len() > 0,
        t[0] == 'H',
    ensures
        http_front::name_of(t).len() > 0,
        http_front::name_of(t)[0] == 'h',
{
    assert(text::trim_start(t) == t);
    lemma_trim_end_keeps_front(t);
    assert(text::trim(t)[0] == 'H');
    assert(http_front::name_of(t)[0] == text::lower('H'));
}

/// Trimming the back leaves a front that is not white space.
proof fn lemma_trim_end_keeps_front(t: Seq<char>)
    requires
        t.len() > 0,
        !text::is_white(t[0]),
    ensures
        text::trim_end(t).len() > 0,
        text::trim_end(t)[0] == t[0],
    decreases t.len(),
{
    if text::is_white(t.last()) {
        if t.len() == 1 {
            assert(t.last() == t[0]);
        }
        lemma_trim_end_keeps_front(t.drop_last());
    }
}

/// The first that passes a filter passes a narrower one too, if it passes at
/// all, and is the first there as well.
proof fn lemma_first_of_filter<A>(s: Seq<A>, p: spec_fn(A) -> bool, q: spec_fn(A) -> bool)
    requires
        forall|a: A| #[trigger] q(a) ==> p(a),
        s.filter(p).len() > 0,
        q(s.filter(p)[0]),
    ensures
        s.filter(q).len() > 0,
        s.filter(q)[0] == s.filter(p)[0],
    decreases s.len(),
{
    reveal(Seq::filter);
    if s.len() > 0 {
        let front = s.drop_last();
        if front.filter(p).len() > 0 {
            assert(s.filter(p)[0] == front.filter(p)[0]);
            lemma_first_of_filter(front, p, q);
            assert(s.filter(q)[0] == front.filter(q)[0]);
        } else {
            assert(front.filter(q).len() == 0) by {
                seqs::lemma_filter_holds(front, q);
                if front.filter(q).len() > 0 {
                    let x = front.filter(q)[0];
                    assert(q(x) && front.contains(x));
                    let m = choose|m: int| 0 <= m < front.len() && front[m] == x;
                    front.lemma_filter_contains(p, m);
                    assert(front.filter(p).contains(x));
                }
            }
        }
    }
}

/// No line of a well-formed head continues another.
proof fn lemma_no_folded_line(head: Seq<u8>, l: Seq<u8>)
    requires
        http_front::well_formed(head),
        http_front::response_lines(head).contains(l),
    ensures
        !http_front::folded(l),
{
    let all = http_front::response_lines(head);
    let m = choose|m: int| 0 <= m < all.len() && all[m] == l;
    if m == 0 {
        if l.len() > 0 {
            lemma_head_line(all, |l: Seq<u8>| l.len() > 0);
            lemma_status_line_stays(l, Sieve::Lengths);
        }
    } else {
        assert(!http_front::folded(all[m]));
    }
}

/// The status line is the first line that any filter leaves.
proof fn lemma_status_line_is_first(head: Seq<u8>, sieve: Sieve)
    requires
        http_front::well_formed(head),
    ensures
        http_front::left_by(sieve, head).len() > 0,
        http_front::left_by(sieve, head)[0] == http_front::first_full_line(head)->0,
{
    let all = http_front::response_lines(head);
    let first = http_front::first_full_line(head)->0;
    let p = |l: Seq<u8>| l.len() > 0;
    let q = |l: Seq<u8>| l.len() > 0 && !http_front::sieved(sieve, l);
    lemma_status_line_stays(first, sieve);
    seqs::lemma_filter_holds(all, p);
    assert(all.filter(p)[0] == first);
    assert(p(first));
    lemma_first_of_filter(all, p, q);
}

/// A well-formed head that a filter has gone through is a well-formed head, with
/// the status line that it had.
pub proof fn law_filtered_head_is_well_formed(head: Seq<u8>, sieve: Sieve)
    requires
        http_front::well_formed(head),
    ensures
        http_front::well_formed(filtered(sieve, head)),
        http_front::first_full_line(filtered(sieve, head)) == http_front::first_full_line(head),
        http_front::status_of(filtered(sieve, head)) == http_front::status_of(head),
{
    let out = filtered(sieve, head);
    let left = http_front::left_by(sieve, head);
    let lines = kept_lines(sieve, head);
    lemma_filtered(sieve, head);
    assert(http_front::first_full_line(out) == http_front::first_full_line(head)) by {
        lemma_filtered_full(sieve, head);
        lemma_status_line_is_first(head, sieve);
        assert(lines[0] == left[0]);
    }
    assert forall|i: int| 1 <= i < http_front::response_lines(out).len() implies !(
    http_front::folded(#[trigger] http_front::response_lines(out)[i])) by {
        if i < left.len() {
            lemma_left_by(sieve, head);
            assert(http_front::response_lines(out)[i] == left[i]);
            lemma_no_folded_line(head, left[i]);
        } else if i < lines.len() {
            lemma_closing();
        }
    }
}

/// The first of a list is the first that passes a filter, if it passes.
proof fn lemma_head_line<A>(s: Seq<A>, p: spec_fn(A) -> bool)
    requires
        s.len() > 0,
        p(s[0]),
    ensures
        s.filter(p).len() > 0,
        s.filter(p)[0] == s[0],
    decreases s.len(),
{
    reveal(Seq::filter);
    if s.len() > 1 {
        lemma_head_line(s.drop_last(), p);
    } else {
        assert(s.drop_last().filter(p) == Seq::<A>::empty());
    }
}

/// The values of a field that a filter leaves alone are the same before and
/// after.
proof fn lemma_values_left(lines: Seq<Seq<u8>>, sieve: Sieve, name: Seq<char>)
    requires
        forall|l: Seq<u8>| #[trigger]
            http_front::sieved(sieve, l) ==> http_front::line_name(l) != name,
        name.len() > 0,
    ensures
        ({
            let f = |l: Seq<u8>| http_front::line_field(l);
            let keep = |l: Seq<u8>| l.len() > 0 && !http_front::sieved(sieve, l);
            http_front::values_in(lines.filter(keep).filter_map(f), name) == http_front::values_in(
                lines.filter_map(f),
                name,
            )
        }),
    decreases lines.len(),
{
    let f = |l: Seq<u8>| http_front::line_field(l);
    let g = |x: (Seq<char>, Seq<char>)| http_front::value_if(x, name);
    let keep = |l: Seq<u8>| l.len() > 0 && !http_front::sieved(sieve, l);
    reveal(Seq::filter);
    if lines.len() > 0 {
        let front = lines.drop_last();
        let l = lines.last();
        lemma_values_left(front, sieve, name);
        let kept = front.filter(keep);
        if l.len() == 0 {
            seqs::lemma_find(l, 58u8);
            assert(f(l) is None);
        } else if keep(l) {
            assert(lines.filter(keep) == kept.push(l));
            assert(kept.push(l).drop_last() == kept);
            match f(l) {
                Some(x) => {
                    let a = kept.filter_map(f);
                    let b = front.filter_map(f);
                    assert(kept.push(l).filter_map(f) == a + seq![x]);
                    assert(lines.filter_map(f) == b + seq![x]);
                    seqs::lemma_filter_map_concat(a, seq![x], g);
                    seqs::lemma_filter_map_concat(b, seq![x], g);
                },
                None => {},
            }
        } else {
            match f(l) {
                Some(x) => {
                    let b = front.filter_map(f);
                    assert(lines.filter_map(f) == b + seq![x]);
                    seqs::lemma_filter_map_concat(b, seq![x], g);
                    Seq::<(Seq<char>, Seq<char>)>::lemma_filter_map_singleton(x, g);
                    assert(x.0 == http_front::line_name(l));
                    assert(g(x) is None);
                    assert(b.filter_map(g) + Seq::<Seq<char>>::empty() == b.filter_map(g));
                },
                None => {},
            }
        }
    }
}

/// A line with no field in it, or one of another name, adds no value.
proof fn lemma_no_value(lines: Seq<Seq<u8>>, last: Seq<u8>, name: Seq<char>)
    requires
        match http_front::line_field(last) {
            Some(x) => x.0 != name,
            None => true,
        },
    ensures
        ({
            let f = |l: Seq<u8>| http_front::line_field(l);
            http_front::values_in(lines.push(last).filter_map(f), name) == http_front::values_in(
                lines.filter_map(f),
                name,
            )
        }),
{
    let f = |l: Seq<u8>| http_front::line_field(l);
    let g = |x: (Seq<char>, Seq<char>)| http_front::value_if(x, name);
    assert(lines.push(last).drop_last() == lines);
    match f(last) {
        Some(x) => {
            let a = lines.filter_map(f);
            assert(lines.push(last).filter_map(f) == a.push(x));
            assert(a.push(x).drop_last() == a);
        },
        None => {},
    }
}

/// The values of a field, on a head that a filter has gone through, are those
/// on the lines that the filter leaves.
proof fn lemma_filtered_values(head: Seq<u8>, sieve: Sieve, name: Seq<char>)
    requires
        sieve is Connection ==> name != "connection"@,
    ensures
        http_front::values_in(http_front::fields_of(filtered(sieve, head)), name)
            == http_front::values_in(
            http_front::left_by(sieve, head).filter_map(|l: Seq<u8>| http_front::line_field(l)),
            name,
        ),
{
    let left = http_front::left_by(sieve, head);
    let lines = kept_lines(sieve, head);
    let none = Seq::<u8>::empty();
    lemma_filtered(sieve, head);
    seqs::lemma_find(none, 58u8);
    assert(http_front::line_field(none) is None);
    lemma_no_value(lines, none, name);
    lemma_no_value(lines.push(none), none, name);
    assert(lines + seq![none, none] =~= lines.push(none).push(none));
    match sieve {
        Sieve::Connection => {
            lemma_closing();
            lemma_no_value(left, closing(), name);
        },
        _ => {},
    }
}

/// A field that a filter leaves alone has the values that it had.
proof fn lemma_values_kept(head: Seq<u8>, sieve: Sieve, name: Seq<char>)
    requires
        name.len() > 0,
        sieve is Connection ==> name != "connection"@,
        forall|l: Seq<u8>| #[trigger]
            http_front::sieved(sieve, l) ==> http_front::line_name(l) != name,
    ensures
        http_front::values_in(http_front::fields_of(filtered(sieve, head)), name)
            == http_front::values_in(http_front::fields_of(head), name),
{
    lemma_filtered_values(head, sieve, name);
    lemma_values_left(http_front::response_lines(head), sieve, name);
}

/// A field that a filter takes out has no values left.
proof fn lemma_values_gone(head: Seq<u8>, sieve: Sieve, name: Seq<char>)
    requires
        sieve is Connection ==> name != "connection"@,
        forall|l: Seq<u8>| #[trigger]
            http_front::line_name(l) == name ==> http_front::sieved(sieve, l),
    ensures
        http_front::values_in(http_front::fields_of(filtered(sieve, head)), name).len() == 0,
{
    let f = |l: Seq<u8>| http_front::line_field(l);
    let g = |x: (Seq<char>, Seq<char>)| http_front::value_if(x, name);
    let left = http_front::left_by(sieve, head);
    let a = left.filter_map(f);
    lemma_filtered_values(head, sieve, name);
    lemma_left_by(sieve, head);
    seqs::lemma_filter_map_holds(left, f);
    assert forall|i: int| 0 <= i < a.len() implies g(#[trigger] a[i]) is None by {
        let j = choose|j: int| 0 <= j < left.len() && f(#[trigger] left[j]) == Some(a[i]);
        assert(!http_front::sieved(sieve, left[j]));
        assert(a[i].0 == http_front::line_name(left[j]));
    }
    seqs::lemma_filter_map_none(a, g);
}

/// What a visitor gets has one framing: the sanitised head frames the body as
/// this proxy does, and gives no two answers about where it ends.
pub proof fn law_sanitised_head_has_one_framing(head: Seq<u8>)
    requires
        http_front::well_formed(head),
    ensures
        http_front::framing_of_fields(http_front::fields_of(relay::sanitised(head))) == (Framing {
            body: http_front::framing_of_fields(http_front::fields_of(head)).body,
            strip_lengths: false,
        }),
{
    reveal(filtered);
    let closed = filtered(Sieve::Connection, head);
    let te = "transfer-encoding"@;
    let cl = "content-length"@;
    reveal_strlit("transfer-encoding");
    reveal_strlit("content-length");
    reveal_strlit("connection");
    reveal_strlit("keep-alive");
    reveal_strlit("set-cookie");
    assert(te.len() == 17 && cl.len() == 14 && "connection"@.len() == 10 && "keep-alive"@.len()
        == 10 && "set-cookie"@.len() == 10);
    assert forall|l: Seq<u8>| http_front::sieved(Sieve::Connection, l) implies http_front::line_name(
        l,
    ) != te && http_front::line_name(l) != cl by {}
    lemma_values_kept(head, Sieve::Connection, te);
    lemma_values_kept(head, Sieve::Connection, cl);
    law_filtered_head_is_well_formed(head, Sieve::Connection);
    if http_front::framing_of_fields(http_front::fields_of(head)).strip_lengths {
        assert forall|l: Seq<u8>| http_front::sieved(Sieve::Lengths, l) implies http_front::line_name(
            l,
        ) != te by {}
        lemma_values_kept(closed, Sieve::Lengths, te);
        lemma_values_gone(closed, Sieve::Lengths, cl);
    }
}

/// A closed head has one `Connection` field, and it says `close`.
proof fn lemma_closed_once(head: Seq<u8>)
    ensures
        http_front::values_in(
            http_front::fields_of(filtered(Sieve::Connection, head)),
            "connection"@,
        ) == seq!["close"@],
{
    let f = |l: Seq<u8>| http_front::line_field(l);
    let name = "connection"@;
    let g = |x: (Seq<char>, Seq<char>)| http_front::value_if(x, name);
    let left = http_front::left_by(Sieve::Connection, head);
    let lines = left.push(closing());
    let none = Seq::<u8>::empty();
    lemma_filtered(Sieve::Connection, head);
    lemma_left_by(Sieve::Connection, head);
    lemma_closing();
    seqs::lemma_find(none, 58u8);
    assert(http_front::line_field(none) is None);
    lemma_no_value(lines, none, name);
    lemma_no_value(lines.push(none), none, name);
    assert(lines + seq![none, none] =~= lines.push(none).push(none));
    let a = left.filter_map(f);
    seqs::lemma_filter_map_holds(left, f);
    assert forall|i: int| 0 <= i < a.len() implies g(#[trigger] a[i]) is None by {
        let j = choose|j: int| 0 <= j < left.len() && f(#[trigger] left[j]) == Some(a[i]);
        assert(!http_front::sieved(Sieve::Connection, left[j]));
        assert(a[i].0 == http_front::line_name(left[j]));
    }
    seqs::lemma_filter_map_none(a, g);
    assert(lines.drop_last() == left);
    let x = (name, "close"@);
    assert(lines.filter_map(f) == a.push(x));
    assert(a.push(x).drop_last() == a);
    assert(a.push(x).filter_map(g) =~= seq!["close"@]);
}

/// What a visitor gets ends the connection, in one field, and sets none of the
/// share's own cookies. It has at most one length, none beside a transfer coding,
/// and exactly one where that is how the body is framed.
pub proof fn law_sanitised_head_says_each_thing_once(head: Seq<u8>)
    requires
        http_front::well_formed(head),
    ensures
        ({
            let out = relay::sanitised(head);
            let fields = http_front::fields_of(out);
            let lengths = http_front::values_in(fields, "content-length"@);
            let codings = gate::codings(http_front::values_in(fields, "transfer-encoding"@));
            &&& http_front::values_in(fields, "connection"@) == seq!["close"@]
            &&& forall|i: int|
                0 <= i < http_front::full_lines(out).len() ==> !http_front::share_cookie_line(
                    #[trigger] http_front::full_lines(out)[i],
                )
            &&& lengths.len() <= 1
            &&& codings.len() > 0 ==> lengths.len() == 0
            &&& http_front::framing_of_fields(http_front::fields_of(head)).body matches Body::Length(
                n,
            ) ==> lengths.len() == 1 && text::is_number(lengths[0]) && text::number(lengths[0])
                == n
        }),
{
    let closed = filtered(Sieve::Connection, head);
    let out = relay::sanitised(head);
    law_sanitised_head_has_one_framing(head);
    lemma_closed_once(head);
    assert(closed == http_front::rebuilt(Sieve::Connection, head, http_front::close_line())) by {
        reveal(filtered);
    }
    assert forall|i: int| 0 <= i < http_front::full_lines(closed).len() implies !(
    http_front::share_cookie_line(#[trigger] http_front::full_lines(closed)[i])) by {
        law_closed_head_ends_the_connection(head, i);
    }
    if http_front::framing_of_fields(http_front::fields_of(head)).strip_lengths {
        let stripped = filtered(Sieve::Lengths, closed);
        assert(stripped == out) by {
            reveal(filtered);
        }
        reveal_strlit("content-length");
        reveal_strlit("connection");
        assert("content-length"@.len() == 14 && "connection"@.len() == 10);
        lemma_values_kept(closed, Sieve::Lengths, "connection"@);
        lemma_filtered_full(Sieve::Lengths, closed);
        lemma_left_by(Sieve::Lengths, closed);
        assert forall|i: int| 0 <= i < http_front::full_lines(out).len() implies !(
        http_front::share_cookie_line(#[trigger] http_front::full_lines(out)[i])) by {
            let l = http_front::left_by(Sieve::Lengths, closed)[i];
            assert(http_front::full_lines(out)[i] == l);
            let all = http_front::response_lines(closed);
            let keep = |l: Seq<u8>| l.len() > 0;
            let m = choose|m: int| 0 <= m < all.len() && all[m] == l;
            all.lemma_filter_contains(keep, m);
            let full = http_front::full_lines(closed);
            assert(full.contains(l));
            let k = choose|k: int| 0 <= k < full.len() && full[k] == l;
            assert(!http_front::share_cookie_line(full[k]));
        }
    }
}

/// What a visitor gets is a well-formed head with the status that the box gave.
pub proof fn law_sanitised_head_is_well_formed(head: Seq<u8>)
    requires
        http_front::well_formed(head),
    ensures
        http_front::well_formed(relay::sanitised(head)),
        http_front::status_of(relay::sanitised(head)) == http_front::status_of(head),
{
    reveal(filtered);
    law_filtered_head_is_well_formed(head, Sieve::Connection);
    law_filtered_head_is_well_formed(filtered(Sieve::Connection, head), Sieve::Lengths);
}

/// What is learned from a box's heads is only what the box set: no cookie that
/// is named like one of the share's own comes to be known.
pub proof fn law_share_cookies_are_not_learned(
    known: Set<Seq<char>>,
    lines: Seq<Seq<u8>>,
    pair: Seq<char>,
)
    requires
        http_front::learned_from(known, lines).contains(pair),
        !known.contains(pair),
    ensures
        exists|i: int, n: Seq<char>, v: Seq<char>|
            0 <= i < lines.len() && #[trigger] http_front::line_pair(lines[i]) == Some((n, v))
                && pair == #[trigger] gate::cookie_pair(n, v) && !gate::share_cookie_name(n),
    decreases lines.len(),
{
    if lines.len() > 0 {
        let front = lines.drop_last();
        if http_front::learned_from(known, front).contains(pair) {
            law_share_cookies_are_not_learned(known, front, pair);
            let (i, n, v) = choose|i: int, n: Seq<char>, v: Seq<char>|
                0 <= i < front.len() && #[trigger] http_front::line_pair(front[i]) == Some((n, v))
                    && pair == #[trigger] gate::cookie_pair(n, v) && !gate::share_cookie_name(n);
            assert(http_front::line_pair(lines[i]) == Some((n, v)));
        } else {
            let (n, v) = http_front::line_pair(lines.last())->0;
            assert(http_front::line_pair(lines[lines.len() - 1]) == Some((n, v)));
            assert(pair == gate::cookie_pair(n, v));
        }
    }
}

} // verus!
