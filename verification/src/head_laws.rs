//! What is read out of a response: its status, the cookies that it sets, where
//! its head ends, and how long a chunk is.
use vstd::prelude::*;
use vstd::string::*;

use crate::address;
use crate::chunked;
use crate::forwarding_laws;
use crate::gate::{self, AppCookies};
use crate::http_front;
use crate::seqs;
use crate::text;

verus! {

/// The status of a response is the number that stands between the first two
/// spaces of its first line that is not empty.
pub proof fn law_the_status_is_the_second_word(
    head: Seq<u8>,
    version: Seq<u8>,
    code: Seq<u8>,
    reason: Seq<u8>,
    n: u16,
)
    requires
        http_front::full_lines(head).len() > 0,
        http_front::full_lines(head)[0] == version + seq![32u8] + code + seq![32u8] + reason,
        seqs::lacks(version, 32u8),
        seqs::lacks(code, 32u8),
        http_front::chars_of_bytes(code) == text::decimal(n as nat),
    ensures
        http_front::status_of(head) == Some(n as nat),
{
    let l = http_front::full_lines(head)[0];
    seqs::lemma_split_whole(version, 32u8);
    seqs::lemma_split_whole(code, 32u8);
    seqs::lemma_split_at(version, 32u8, code);
    seqs::lemma_split_at(version + seq![32u8] + code, 32u8, reason);
    let words = seqs::split(l, 32u8);
    seqs::lemma_split_len(reason, 32u8);
    assert(words == seq![version] + seq![code] + seqs::split(reason, 32u8));
    assert(words[1] == code);
    text::law_decimal_reads_back(n as nat);
    let digits = text::decimal(n as nat);
    assert(text::is_digit(digits[0]));
}

/// An interim answer is one whose status is a hundred and something, but for the
/// one that changes protocols. A body is missing from an answer to `HEAD`,
/// letter case aside, and from one whose status says so.
pub proof fn law_the_status_tells_what_follows(
    head: &[u8],
    method: &str,
    status: Option<u16>,
    switching: bool,
    interim: bool,
    bodyless: bool,
)
    requires
        call_ensures(http_front::status_code, (head,), status),
        call_ensures(http_front::is_switching, (head,), switching),
        call_ensures(http_front::is_informational, (head,), interim),
        call_ensures(http_front::has_no_body, (method, head), bodyless),
    ensures
        switching <==> status == Some(101u16),
        interim <==> (status matches Some(c) && (c == 100 || 102 <= c <= 199)),
        bodyless <==> forwarding_laws::same_name(method@, "head"@) || status == Some(204u16)
            || status == Some(304u16),
{
    reveal_strlit("HEAD");
    reveal_strlit("head");
    assert(text::lowered("HEAD"@) =~= text::lowered("head"@));
}

/// A head ends right behind its first blank line.
pub proof fn law_a_head_ends_behind_its_first_blank_line(buf: &[u8], r: Option<usize>)
    requires
        call_ensures(http_front::find_head_end, (buf,), r),
    ensures
        r matches Some(i) ==> 4 <= i <= buf@.len() && buf@[i - 4] == 13 && buf@[i - 3] == 10
            && buf@[i - 2] == 13 && buf@[i - 1] == 10 && forall|j: int|
            0 <= j < i - 4 ==> !(#[trigger] buf@[j] == 13 && buf@[j + 1] == 10 && buf@[j + 2] == 13
                && buf@[j + 3] == 10),
        r is None ==> forall|j: int|
            0 <= j && j + 4 <= buf@.len() ==> !(#[trigger] buf@[j] == 13 && buf@[j + 1] == 10
                && buf@[j + 2] == 13 && buf@[j + 3] == 10),
{
    let blank = http_front::blank_line();
    seqs::lemma_find_seq(buf@, blank, 0);
    assert forall|j: int| 0 <= j && j + 4 <= buf@.len() implies seqs::occurs_at(buf@, blank, j) == (
    #[trigger] buf@[j] == 13 && buf@[j + 1] == 10 && buf@[j + 2] == 13 && buf@[j + 3] == 10) by {
        let part = buf@.subrange(j, j + 4);
        assert(part[0] == buf@[j] && part[1] == buf@[j + 1] && part[2] == buf@[j + 2] && part[3]
            == buf@[j + 3]);
        if buf@[j] == 13 && buf@[j + 1] == 10 && buf@[j + 2] == 13 && buf@[j + 3] == 10 {
            assert(part =~= blank);
        }
    }
}

/// A cookie of the app: it has a name, and it is not one of the share's own.
pub open spec fn is_of_the_app(name: Seq<char>) -> bool {
    &&& name.len() > 0
    &&& name != "h5i_share"@
    &&& forall|port: u16|
        port != 0 ==> name != "h5i_share_"@ + #[trigger] text::decimal(port as nat)
}

/// A cookie that a box sets is known from then on, if it is the app's and the list
/// is not full; nothing that was known is forgotten, and nothing else is learned.
pub proof fn law_a_cookie_of_the_app_is_learned(app: &mut AppCookies, name: &str, value: &str)
    requires
        call_ensures(AppCookies::learn, (app, name, value), ()),
    ensures
        is_of_the_app(name@) && old(app)@.len() < 64 ==> final(app)@.contains(
            name@ + seq!['='] + value@,
        ),
        !is_of_the_app(name@) ==> final(app)@ == old(app)@,
        old(app)@.subset_of(final(app)@),
        forall|p: Seq<char>| #[trigger]
            final(app)@.contains(p) ==> old(app)@.contains(p) || p == name@ + seq!['='] + value@,
{
    forwarding_laws::lemma_own_names(name@);
    assert(gate::cookie_pair(name@, value@) =~= name@ + seq!['='] + value@);
}

/// A cookie is known by its name and its value, exactly.
pub proof fn law_a_cookie_is_known_by_name_and_value(
    app: AppCookies,
    name: &str,
    value: &str,
    r: bool,
)
    requires
        call_ensures(AppCookies::knows, (&app, name, value), r),
    ensures
        r <==> app@.contains(name@ + seq!['='] + value@),
{
    assert(gate::cookie_pair(name@, value@) =~= name@ + seq!['='] + value@);
}

/// Every cookie that a head sets is learned, as long as the list is not full by
/// the end of it, and nothing that was known is forgotten.
pub proof fn law_every_cookie_of_a_head_is_learned(
    head: &[u8],
    app: &mut AppCookies,
    i: int,
    name: Seq<char>,
    value: Seq<char>,
)
    requires
        call_ensures(http_front::learn_app_cookies, (head, app), ()),
        final(app)@.len() < 64,
        final(app)@.finite(),
        0 <= i < http_front::response_lines(head@).len(),
        http_front::line_pair(http_front::response_lines(head@)[i]) == Some((name, value)),
        is_of_the_app(name),
    ensures
        final(app)@.contains(name + seq!['='] + value),
        old(app)@.subset_of(final(app)@),
{
    lemma_all_learned(old(app)@, http_front::response_lines(head@), i, name, value);
}

proof fn lemma_all_learned(
    known: Set<Seq<char>>,
    lines: Seq<Seq<u8>>,
    i: int,
    name: Seq<char>,
    value: Seq<char>,
)
    requires
        http_front::learned_from(known, lines).len() < 64,
        http_front::learned_from(known, lines).finite(),
        0 <= i < lines.len(),
        http_front::line_pair(lines[i]) == Some((name, value)),
        is_of_the_app(name),
    ensures
        http_front::learned_from(known, lines).contains(name + seq!['='] + value),
        known.subset_of(http_front::learned_from(known, lines)),
    decreases lines.len(),
{
    let front = lines.drop_last();
    let before = http_front::learned_from(known, front);
    let after = http_front::learned_from(known, lines);
    lemma_grows(known, lines);
    lemma_grows(known, front);
    assert(before.subset_of(after));
    vstd::set_lib::lemma_len_subset(before, after);
    assert(gate::cookie_pair(name, value) =~= name + seq!['='] + value);
    if i < front.len() {
        assert(front[i] == lines[i]);
        lemma_all_learned(known, front, i, name, value);
    } else {
        forwarding_laws::lemma_own_names(name);
        assert(lines.last() == lines[i]);
    }
}

proof fn lemma_grows(known: Set<Seq<char>>, lines: Seq<Seq<u8>>)
    ensures
        known.subset_of(http_front::learned_from(known, lines)),
        lines.len() > 0 ==> http_front::learned_from(known, lines.drop_last()).subset_of(
            http_front::learned_from(known, lines),
        ),
    decreases lines.len(),
{
    if lines.len() > 0 {
        lemma_grows(known, lines.drop_last());
    }
}

/// A chunk is as long as its line says, in hexadecimal, whatever stands behind a
/// semicolon; a line that does not end as a line, or that begins with anything but
/// a hexadecimal digit, says nothing.
pub proof fn law_a_chunk_is_as_long_as_its_line_says(
    line: &[u8],
    digits: Seq<u8>,
    more: Seq<u8>,
    n: u64,
    r: Option<u64>,
)
    requires
        call_ensures(chunked::chunk_size, (line,), r),
        http_front::chars_of_bytes(digits) == address::hexadecimal(n as nat),
        chunked::clean_line(more),
    ensures
        line@ == digits + seq![13u8, 10] ==> r == Some(n),
        line@ == digits + seq![59u8] + more + seq![13u8, 10] ==> r == Some(n),
        line@.len() < 3 ==> r is None,
        line@.len() >= 2 && !(line@[line@.len() - 2] == 13 && line@.last() == 10) ==> r is None,
        line@.len() > 0 && text::hex_value(line@[0] as char) is None ==> r is None,
{
    let hex = http_front::chars_of_bytes(digits);
    lemma_hexadecimal(n as nat);
    assert forall|i: int| 0 <= i < digits.len() implies digits[i] != 59 && chunked::clean_byte(
        #[trigger] digits[i],
    ) by {
        assert(hex[i] == digits[i] as char);
        assert(text::hex_value(hex[i]) is Some);
    }
    let end = seq![13u8, 10];
    seqs::lemma_split_whole(digits, 59u8);
    if line@ == digits + end {
        assert(line@.take(line@.len() - 2) =~= digits);
        assert(chunked::clean_line(digits));
    }
    if line@ == digits + seq![59u8] + more + end {
        let l = digits + seq![59u8] + more;
        assert(line@.take(line@.len() - 2) =~= l);
        seqs::lemma_split_at(digits, 59u8, more);
        assert(seqs::split(l, 59u8)[0] == digits);
        assert forall|i: int| 0 <= i < l.len() implies chunked::clean_byte(#[trigger] l[i]) by {
            if i < digits.len() {
                assert(l[i] == digits[i]);
            } else if i > digits.len() {
                assert(l[i] == more[i - digits.len() - 1]);
            }
        }
    }
    if chunked::size_of(line@) is Some {
        let l = chunked::unended(line@)->0;
        let first = seqs::split(l, 59u8)[0];
        let word = http_front::chars_of_bytes(first);
        seqs::lemma_split_len(l, 59u8);
        assert(word[0] == first[0] as char);
        seqs::lemma_find(l, 59u8);
        assert(first[0] == l[0]);
        assert(l[0] == line@[0]);
    }
}

/// The line of a chunk of this size, without more.
pub proof fn lemma_size_line(digits: Seq<u8>, n: u64)
    requires
        http_front::chars_of_bytes(digits) == address::hexadecimal(n as nat),
    ensures
        chunked::size_of(digits + seq![13u8, 10]) == Some(n),
        seqs::lacks(digits, 10u8),
{
    let hex = http_front::chars_of_bytes(digits);
    let line = digits + seq![13u8, 10];
    lemma_hexadecimal(n as nat);
    assert forall|i: int| 0 <= i < digits.len() implies digits[i] != 59 && digits[i] != 10
        && chunked::clean_byte(#[trigger] digits[i]) by {
        assert(hex[i] == digits[i] as char);
        assert(text::hex_value(hex[i]) is Some);
    }
    seqs::lemma_split_whole(digits, 59u8);
    assert(line.take(line.len() - 2) =~= digits);
    assert(chunked::clean_line(digits));
}

proof fn lemma_hexadecimal(n: nat)
    ensures
        chunked::is_hex(address::hexadecimal(n)),
        chunked::hex_number(address::hexadecimal(n)) == n,
        forall|i: int|
            0 <= i < address::hexadecimal(n).len() ==> text::hex_value(
                #[trigger] address::hexadecimal(n)[i],
            ) is Some,
    decreases n,
{
    let s = address::hexadecimal(n);
    if n >= 16 {
        lemma_hexadecimal(n / 16);
        assert(s.drop_last() =~= address::hexadecimal(n / 16));
        assert forall|i: int| 0 <= i < s.len() implies text::hex_value(#[trigger] s[i]) is Some by {
            if i < s.len() - 1 {
                assert(s[i] == address::hexadecimal(n / 16)[i]);
            }
        }
    } else {
        assert(s.drop_last() =~= Seq::empty());
        assert(chunked::hex_number(Seq::<char>::empty()) == 0);
    }
}

} // verus!
