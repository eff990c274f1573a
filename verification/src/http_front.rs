//! The loopback HTTP front that both browser-facing sides of a share use.
//!
//! Two places serve HTTP to a browser and are otherwise nothing alike: the
//! sharer's quick tunnel, whose visitor is on the open internet, and the
//! joiner's own proxy, whose visitor is a tab on the same machine. What they
//! share is the part that must not be written twice: read a bounded head, find
//! the credential, bounce the first request so the token leaves the URL, and
//! never pass the credential upstream.
//!
//! This module reads and rewrites heads. Where a body ends is the business of
//! [`crate::chunked`], and what to do as bytes come and go that of
//! [`crate::relay`].
use vstd::prelude::*;
use vstd::slice::slice_subrange;
use vstd::string::*;

use crate::gate;
use crate::gate::{AppCookies, Refusal, Request};
use crate::seqs;
use crate::text;

verus! {

/// What `String::from_utf8_lossy` makes of bytes that are not UTF-8.
pub uninterp spec fn lossy_text(bytes: Seq<u8>) -> Seq<char>;

/// `String::from_utf8_lossy`: ASCII bytes in front as the characters they are,
/// and behind them bytes that are UTF-8 as the text they spell, and any others
/// with a replacement character where they are not.
///
/// The text is a function of the bytes alone. What stands where the bytes are
/// not UTF-8 is not said.
#[verifier::external_body]
fn lossy(bytes: &[u8]) -> (r: String)
    ensures
        r@ == chars_of_bytes(bytes@.take(ascii_len(bytes@) as int)) + {
            let rest = bytes@.skip(ascii_len(bytes@) as int);
            if vstd::utf8::valid_utf8(rest) {
                vstd::utf8::decode_utf8(rest)
            } else {
                lossy_text(rest)
            }
        },
{
    String::from_utf8_lossy(bytes).into_owned()
}

/// How many ASCII bytes stand in front.
pub open spec fn ascii_len(bytes: Seq<u8>) -> nat
    decreases bytes.len(),
{
    if bytes.len() == 0 || bytes[0] >= 128 {
        0
    } else {
        1 + ascii_len(bytes.skip(1))
    }
}

/// Bytes as text: what they spell, or what is made of them where they spell
/// nothing.
pub open spec fn read_text(bytes: Seq<u8>) -> Seq<char> {
    let rest = bytes.skip(ascii_len(bytes) as int);
    chars_of_bytes(bytes.take(ascii_len(bytes) as int)) + if vstd::utf8::valid_utf8(rest) {
        vstd::utf8::decode_utf8(rest)
    } else {
        lossy_text(rest)
    }
}

/// Characters as bytes, one for one.
pub open spec fn bytes_of(s: Seq<char>) -> Seq<u8> {
    s.map_values(|c: char| c as u8)
}

/// A carriage return.
pub const CR: u8 = 13;

/// A line feed.
pub const LF: u8 = 10;

/// A space.
pub const SP: u8 = 32;

/// A horizontal tab.
pub const HTAB: u8 = 9;

/// The two bytes that end a line.
pub open spec fn line_end() -> Seq<u8> {
    seq![CR, LF]
}

/// A line without the carriage return behind it.
pub open spec fn without_cr(line: Seq<u8>) -> Seq<u8> {
    if line.len() > 0 && line.last() == CR {
        line.drop_last()
    } else {
        line
    }
}

/// The lines of a response head, without their line endings.
#[verifier::opaque]
pub open spec fn response_lines(head: Seq<u8>) -> Seq<Seq<u8>> {
    seqs::split(head, LF).map_values(|l: Seq<u8>| without_cr(l))
}

/// The lines of a response head that are not empty.
pub open spec fn full_lines(head: Seq<u8>) -> Seq<Seq<u8>> {
    response_lines(head).filter(|l: Seq<u8>| l.len() > 0)
}

/// What a header name is compared as.
pub open spec fn name_of(name: Seq<char>) -> Seq<char> {
    text::lowered(text::trim(name))
}

/// A header line's name, in lower case. Empty for a line with no colon.
pub open spec fn line_name(line: Seq<u8>) -> Seq<char> {
    match seqs::split_once(line, 58u8) {
        Some((k, _)) => name_of(read_text(k)),
        None => Seq::empty(),
    }
}

/// The first segment of a `Set-Cookie` value: what stands before the
/// attributes.
pub open spec fn first_segment(value: Seq<char>) -> Seq<char> {
    seqs::split(text::trim_start(value), ';')[0]
}

/// The name that a `Set-Cookie` value sets: what precedes the `=`, and the
/// whole segment when there is none.
pub open spec fn name_set_by(value: Seq<char>) -> Seq<char> {
    match seqs::split_once(first_segment(value), '=') {
        Some((k, _)) => text::trim(k),
        None => text::trim(first_segment(value)),
    }
}

/// The name and the value that a `Set-Cookie` value assigns.
pub open spec fn pair_set_by(value: Seq<char>) -> Option<(Seq<char>, Seq<char>)> {
    match seqs::split_once(first_segment(value), '=') {
        Some((k, v)) => Some((text::trim(k), text::trim(v))),
        None => None,
    }
}

/// The text of a `Set-Cookie` line behind the colon; `None` for other lines.
pub open spec fn set_cookie_text(line: Seq<u8>) -> Option<Seq<char>> {
    match seqs::split_once(line, 58u8) {
        Some((k, v)) => if name_of(read_text(k)) == "set-cookie"@ {
            Some(read_text(v))
        } else {
            None
        },
        None => None,
    }
}

/// A line that sets one of the share's own cookies.
pub open spec fn share_cookie_line(line: Seq<u8>) -> bool {
    set_cookie_text(line) is Some && gate::share_cookie_name(
        name_set_by(set_cookie_text(line)->0),
    )
}

/// A header name as it is compared: without the space around it, in lower case.
pub fn lowered_name(name: &str) -> (r: Vec<char>)
    ensures
        r@ == name_of(name@),
{
    let n: Vec<char> = text::chars_of(name);
    text::lower_chars(text::trimmed(n.as_slice()))
}

/// A header line's name, lowercased. Empty for a line with no colon.
pub fn header_name(line: &[u8]) -> (r: Vec<char>)
    ensures
        r@ == line_name(line@),
{
    match seqs::split_at_first(line, 58u8) {
        Some((k, _)) => lowered_name(lossy(k).as_str()),
        None => Vec::new(),
    }
}

/// The first segment of a `Set-Cookie` value.
fn leading_segment<'a>(value: &'a [char]) -> (r: &'a [char])
    ensures
        r@ == first_segment(value@),
{
    let parts: Vec<&'a [char]> = seqs::split_at_each(text::trimmed_start(value), ';');
    proof {
        seqs::lemma_split_len(text::trim_start(value@), ';');
        assert(seqs::views(parts@).len() == parts@.len());
        assert(seqs::views(parts@)[0] == parts@[0]@);
    }
    parts[0]
}

/// The name that a `Set-Cookie` value sets. A name with no value behind it is
/// one too: whatever is named like ours does not travel, however it is spelled.
pub fn cookie_name_in(value: &str) -> (r: String)
    ensures
        r@ == name_set_by(value@),
{
    let v: Vec<char> = text::chars_of(value);
    let first = leading_segment(v.as_slice());
    match seqs::split_at_first(first, '=') {
        Some((k, _)) => text::text_of(text::trimmed(k)),
        None => text::text_of(text::trimmed(first)),
    }
}

/// The name and the value that a `Set-Cookie` value assigns. This one requires
/// a `=`: a cookie with no value is one no browser stores and therefore one no
/// browser sends back.
pub fn cookie_pair_in(value: &str) -> (r: Option<(String, String)>)
    ensures
        match r {
            Some((n, v)) => pair_set_by(value@) == Some((n@, v@)),
            None => pair_set_by(value@) is None,
        },
{
    let v: Vec<char> = text::chars_of(value);
    let first = leading_segment(v.as_slice());
    match seqs::split_at_first(first, '=') {
        Some((k, v)) => Some((text::text_of(text::trimmed(k)), text::text_of(text::trimmed(v)))),
        None => None,
    }
}

/// The text of a `Set-Cookie` line behind its colon.
fn set_cookie_value(line: &[u8]) -> (r: Option<String>)
    ensures
        match r {
            Some(v) => set_cookie_text(line@) == Some(v@),
            None => set_cookie_text(line@) is None,
        },
{
    match seqs::split_at_first(line, 58u8) {
        Some((k, v)) => {
            let name: Vec<char> = lowered_name(lossy(k).as_str());
            if text::is_text(name.as_slice(), "set-cookie") {
                Some(lossy(v))
            } else {
                None
            }
        },
        None => None,
    }
}

/// The name a `Set-Cookie` line sets, or `None` for any other header.
pub fn set_cookie_name(line: &[u8]) -> (r: Option<String>)
    ensures
        match r {
            Some(n) => set_cookie_text(line@) is Some && n@ == name_set_by(
                set_cookie_text(line@)->0,
            ),
            None => set_cookie_text(line@) is None,
        },
{
    match set_cookie_value(line) {
        Some(v) => Some(cookie_name_in(v.as_str())),
        None => None,
    }
}

/// The name *and value* a `Set-Cookie` line assigns, for the allowlist.
pub open spec fn line_pair(line: Seq<u8>) -> Option<(Seq<char>, Seq<char>)> {
    match set_cookie_text(line) {
        Some(v) => pair_set_by(v),
        None => None,
    }
}

/// The name *and value* a `Set-Cookie` line assigns, for the allowlist.
pub fn set_cookie_pair(line: &[u8]) -> (r: Option<(String, String)>)
    ensures
        match r {
            Some((n, v)) => line_pair(line@) == Some((n@, v@)),
            None => line_pair(line@) is None,
        },
{
    match set_cookie_value(line) {
        Some(v) => cookie_pair_in(v.as_str()),
        None => None,
    }
}

/// Is this header line a `Set-Cookie` for one of ours?
///
/// The box cannot guess a token, so the worst it could do is clear one, but
/// cookies ignore the port, so on the joining side one box could log a visitor
/// out of a *different* share. Nothing legitimate sets a cookie by this name.
pub fn sets_a_share_cookie(line: &[u8]) -> (r: bool)
    ensures
        r == share_cookie_line(line@),
{
    match set_cookie_name(line) {
        Some(n) => gate::is_share_cookie_name(n.as_str()),
        None => false,
    }
}

/// The lines of a response head, without their line endings.
pub fn lines_of_response<'a>(head: &'a [u8]) -> (r: Vec<&'a [u8]>)
    ensures
        seqs::views(r@) == response_lines(head@),
{
    reveal(response_lines);
    let parts: Vec<&'a [u8]> = seqs::split_at_each(head, LF);
    let ghost all = seqs::split(head@, LF);
    let mut out: Vec<&'a [u8]> = Vec::new();
    let mut i: usize = 0;
    assert(seqs::views(parts@).len() == parts@.len());
    while i < parts.len()
        invariant
            0 <= i <= parts@.len(),
            out@.len() == i,
            all.len() == parts@.len(),
            seqs::views(parts@) == all,
            forall|j: int| 0 <= j < i ==> (#[trigger] out@[j])@ == without_cr(all[j]),
        decreases parts@.len() - i,
    {
        let l = parts[i];
        assert(seqs::views(parts@)[i as int] == l@);
        let n: usize = l.len();
        if n > 0 && l[n - 1] == CR {
            let piece = slice_subrange(l, 0, n - 1);
            assert(piece@ == l@.drop_last());
            out.push(piece);
        } else {
            out.push(l);
        }
        i = i + 1;
    }
    assert(seqs::views(out@) =~= response_lines(head@));
    out
}

/// The lines of a response head that are not empty.
fn full_lines_of<'a>(head: &'a [u8]) -> (r: Vec<&'a [u8]>)
    ensures
        seqs::views(r@) == full_lines(head@),
{
    let lines: Vec<&'a [u8]> = lines_of_response(head);
    let ghost all = response_lines(head@);
    let ghost keep = |l: Seq<u8>| l.len() > 0;
    let mut out: Vec<&'a [u8]> = Vec::new();
    let mut i: usize = 0;
    assert(all.take(0).filter(keep) == Seq::<Seq<u8>>::empty()) by {
        reveal(Seq::filter);
    }
    while i < lines.len()
        invariant
            0 <= i <= lines@.len(),
            all == seqs::views(lines@),
            keep == (|l: Seq<u8>| l.len() > 0),
            seqs::views(out@) == all.take(i as int).filter(keep),
        decreases lines@.len() - i,
    {
        let l = lines[i];
        proof {
            assert(all[i as int] == l@);
            seqs::lemma_filter_step(all, keep, i as int);
        }
        let ghost before = out@;
        if l.len() > 0 {
            out.push(l);
            assert(seqs::views(out@) == seqs::views(before).push(l@));
        }
        i = i + 1;
    }
    assert(all.take(all.len() as int) == all);
    out
}

/// The first line of a head that is not empty.
pub open spec fn first_full_line(head: Seq<u8>) -> Option<Seq<u8>> {
    if full_lines(head).len() > 0 {
        Some(full_lines(head)[0])
    } else {
        None
    }
}

/// Bytes read as characters, one for one.
pub open spec fn chars_of_bytes(s: Seq<u8>) -> Seq<char> {
    s.map_values(|b: u8| b as char)
}

/// The status code that a response head gives: the second of the words, parted
/// by single spaces, of the first line that is not empty.
pub open spec fn status_of(head: Seq<u8>) -> Option<nat> {
    match first_full_line(head) {
        Some(l) => if seqs::split(l, SP).len() > 1 {
            text::small_number(chars_of_bytes(seqs::split(l, SP)[1]))
        } else {
            None
        },
        None => None,
    }
}

/// Bytes as characters, one for one.
fn as_chars(s: &[u8]) -> (r: Vec<char>)
    ensures
        r@ == chars_of_bytes(s@),
{
    let mut out: Vec<char> = Vec::new();
    let mut i: usize = 0;
    while i < s.len()
        invariant
            0 <= i <= s@.len(),
            out@ == chars_of_bytes(s@.take(i as int)),
        decreases s@.len() - i,
    {
        out.push(s[i] as char);
        assert(chars_of_bytes(s@.take(i + 1)) == chars_of_bytes(s@.take(i as int)).push(
            s@[i as int] as char,
        ));
        i = i + 1;
    }
    assert(s@.take(s@.len() as int) == s@);
    out
}

/// The status code from a response head.
///
/// Reads the first *non-empty* line, which is the line [`head_is_well_formed`]
/// accepts as the status line: a blank line before it is absorbed, and a `100`,
/// a `101` or a `304` behind one is still what it is.
pub fn status_code(head: &[u8]) -> (r: Option<u16>)
    ensures
        match r {
            Some(c) => status_of(head@) == Some(c as nat),
            None => status_of(head@) is None,
        },
{
    let lines: Vec<&[u8]> = full_lines_of(head);
    assert(seqs::views(lines@).len() == lines@.len());
    if lines.len() == 0 {
        return None;
    }
    assert(seqs::views(lines@)[0] == lines@[0]@);
    let words: Vec<&[u8]> = seqs::split_at_each(lines[0], SP);
    assert(seqs::views(words@).len() == words@.len());
    if words.len() < 2 {
        return None;
    }
    assert(seqs::views(words@)[1] == words@[1]@);
    let code: Vec<char> = as_chars(words[1]);
    text::parse_small_number(code.as_slice())
}

/// A `101`: the box agreeing to change protocols.
pub fn is_switching(head: &[u8]) -> (r: bool)
    ensures
        r == (status_of(head@) == Some(101nat)),
{
    match status_code(head) {
        Some(c) => c == 101,
        None => false,
    }
}

/// A `1xx` head that is *not* a `101`.
pub open spec fn informational(head: Seq<u8>) -> bool {
    match status_of(head) {
        Some(c) => 100 <= c < 200 && c != 101,
        None => false,
    }
}

/// A `1xx` head that is *not* a `101`: an interim answer, with the real one
/// still to come.
pub fn is_informational(head: &[u8]) -> (r: bool)
    ensures
        r == informational(head@),
{
    match status_code(head) {
        Some(c) => 100 <= c && c < 200 && c != 101,
        None => false,
    }
}

/// An answer that carries no body, whatever length it declares: the answer to a
/// `HEAD`, a `204` and a `304`.
pub open spec fn bodyless(method: Seq<char>, head: Seq<u8>) -> bool {
    text::lowered(method) == text::lowered("HEAD"@) || status_of(head) == Some(204nat) || status_of(
        head,
    ) == Some(304nat)
}

/// Does this response carry no body at all?
///
/// Three cases where a `Content-Length` is present and describes a body that is
/// never sent, and waiting for it would hang the connection until an idle
/// timeout: the answer to a `HEAD`, a `204 No Content`, and a `304 Not
/// Modified`.
pub fn has_no_body(method: &str, head: &[u8]) -> (r: bool)
    ensures
        r == bodyless(method@, head@),
{
    let m: Vec<char> = text::chars_of(method);
    if text::is_text_ignoring_case(m.as_slice(), "HEAD") {
        return true;
    }
    match status_code(head) {
        Some(c) => c == 204 || c == 304,
        None => false,
    }
}

/// An ASCII digit.
pub open spec fn digit_byte(b: u8) -> bool {
    48 <= b <= 57
}

/// `1`, `1.1` and the like.
pub open spec fn is_version(v: Seq<u8>) -> bool {
    ||| v.len() == 1 && digit_byte(v[0])
    ||| v.len() == 3 && digit_byte(v[0]) && v[1] == 46 && digit_byte(v[2])
}

/// What RFC 7230 allows in a reason phrase: HTAB, SP, visible ASCII and obs-text.
pub open spec fn reason_byte(b: u8) -> bool {
    b == HTAB || 0x20 <= b < 0x7f || b >= 0x80
}

/// `HTTP/<d>.<d> <3 digits>`, and then whatever reason phrase it likes.
pub open spec fn status_line(l: Seq<u8>) -> bool {
    let http = seq![72u8, 84, 84, 80, 47];
    http.is_prefix_of(l) && match seqs::split_once(l.skip(5), SP) {
        None => false,
        Some((version, rest)) => {
            let n = seqs::find(rest, SP) as int;
            &&& is_version(version)
            &&& n == 3
            &&& digit_byte(rest[0]) && digit_byte(rest[1]) && digit_byte(rest[2])
            &&& forall|i: int| n < i < rest.len() ==> reason_byte(#[trigger] rest[i])
        },
    }
}

/// `HTTP/<d>.<d> <3 digits>`, and then whatever reason phrase it likes.
///
/// A test for `HTTP/` alone is not the same thing: `HTTP/1.1`, `HTTP/oops` and
/// `HTTP/1.1: 200 OK` all pass it, and such a line relays verbatim. The reason
/// phrase is the box's to choose and reaches the visitor verbatim, so it is held
/// to what RFC 7230 allows: no escape sequences for a terminal.
pub fn is_status_line(l: &[u8]) -> (r: bool)
    ensures
        r == status_line(l@),
{
    let http: [u8; 5] = [72u8, 84, 84, 80, 47];
    assert(http@ == seq![72u8, 84, 84, 80, 47]);
    if !seqs::begins_with(l, &http) {
        return false;
    }
    let tail = slice_subrange(l, 5, l.len());
    assert(tail@ == l@.skip(5));
    let (version, rest) = match seqs::split_at_first(tail, SP) {
        Some(p) => p,
        None => {
            return false;
        },
    };
    let version_ok: bool = (version.len() == 1 && is_digit_byte(version[0])) || (version.len() == 3
        && is_digit_byte(version[0]) && version[1] == 46 && is_digit_byte(version[2]));
    if !version_ok {
        return false;
    }
    let n: usize = seqs::position(rest, SP);
    proof {
        seqs::lemma_find(rest@, SP);
    }
    if n != 3 {
        return false;
    }
    if !is_digit_byte(rest[0]) || !is_digit_byte(rest[1]) || !is_digit_byte(rest[2]) {
        return false;
    }
    let mut i: usize = 4;
    while i < rest.len()
        invariant
            4 <= i,
            seqs::split_once(l@.skip(5), SP) == Some((version@, rest@)),
            seqs::find(rest@, SP) == 3,
            forall|j: int| 3 < j < i && j < rest@.len() ==> reason_byte(#[trigger] rest@[j]),
        decreases rest@.len() - i,
    {
        let b: u8 = rest[i];
        if !(b == HTAB || (0x20 <= b && b < 0x7f) || b >= 0x80) {
            assert(!reason_byte(rest@[i as int]));
            return false;
        }
        i = i + 1;
    }
    true
}

/// An ASCII digit?
fn is_digit_byte(b: u8) -> (r: bool)
    ensures
        r == digit_byte(b),
{
    48 <= b && b <= 57
}

/// A line that continues the one before it.
pub open spec fn folded(l: Seq<u8>) -> bool {
    l.len() > 0 && (l[0] == SP || l[0] == HTAB)
}

/// A response head that has one reading: a status line first, every line ending
/// a CRLF, and no line that continues another.
pub open spec fn well_formed(head: Seq<u8>) -> bool {
    &&& first_full_line(head) is Some
    &&& status_line(first_full_line(head)->0)
    &&& gate::line_ends_agree(head, CR, LF)
    &&& forall|i: int|
        1 <= i < response_lines(head).len() ==> !folded(#[trigger] response_lines(head)[i])
}

/// Is every line ending in this head a CRLF, and is every header line a header
/// rather than a continuation of one?
///
/// It has to be a response at all: the sanitiser drops lines, so a box whose
/// first line is a header would have that header *promoted* into the status
/// line's place. A leading blank line before a real status line is absorbed.
///
/// The other rules are the request side's, for the request side's reason: a line
/// this proxy reads as one thing and the visitor's browser reads as two is a
/// header walking past the filters.
pub fn head_is_well_formed(head: &[u8]) -> (r: bool)
    ensures
        r == well_formed(head@),
{
    let full: Vec<&[u8]> = full_lines_of(head);
    assert(seqs::views(full@).len() == full@.len());
    if full.len() == 0 {
        return false;
    }
    assert(seqs::views(full@)[0] == full@[0]@);
    if !is_status_line(full[0]) {
        return false;
    }
    if !gate::line_ends_are_consistent(head, CR, LF) {
        return false;
    }
    let lines: Vec<&[u8]> = lines_of_response(head);
    let ghost all = response_lines(head@);
    let mut i: usize = 1;
    while i < lines.len()
        invariant
            1 <= i,
            all == response_lines(head@),
            all == seqs::views(lines@),
            forall|j: int| 1 <= j < i && j < all.len() ==> !folded(#[trigger] all[j]),
        decreases lines@.len() - i,
    {
        let l = lines[i];
        assert(all[i as int] == l@);
        if l.len() > 0 && (l[0] == SP || l[0] == HTAB) {
            assert(folded(all[i as int]));
            return false;
        }
        i = i + 1;
    }
    assert(all.len() == lines@.len());
    true
}

/// What a filter takes out of a response head.
#[derive(Clone, Copy, PartialEq, Eq, Structural)]
pub enum Sieve {
    /// What says how long the connection lasts, and the share's own cookies.
    Connection,
    /// What says how long the body is.
    Lengths,
    /// The share's own cookies.
    ShareCookies,
}

/// Does this filter take this line out?
pub open spec fn sieved(sieve: Sieve, line: Seq<u8>) -> bool {
    match sieve {
        Sieve::Connection => line_name(line) == "connection"@ || line_name(line) == "keep-alive"@
            || share_cookie_line(line),
        Sieve::Lengths => line_name(line) == "content-length"@,
        Sieve::ShareCookies => share_cookie_line(line),
    }
}

/// The lines of a head that a filter leaves.
pub open spec fn left_by(sieve: Sieve, head: Seq<u8>) -> Seq<Seq<u8>> {
    response_lines(head).filter(|l: Seq<u8>| l.len() > 0 && !sieved(sieve, l))
}

/// Lines with a line ending behind each.
pub open spec fn ended_bytes(lines: Seq<Seq<u8>>) -> Seq<u8> {
    seqs::concat(lines.map_values(|l: Seq<u8>| l + line_end()))
}

/// A head without what a filter takes out, and with `extra` at its end.
pub open spec fn rebuilt(sieve: Sieve, head: Seq<u8>, extra: Seq<u8>) -> Seq<u8> {
    ended_bytes(left_by(sieve, head)) + extra + line_end()
}

/// Does this filter take this line out?
fn takes_out(sieve: Sieve, line: &[u8]) -> (r: bool)
    ensures
        r == sieved(sieve, line@),
{
    match sieve {
        Sieve::Connection => {
            let name: Vec<char> = header_name(line);
            text::is_text(name.as_slice(), "connection") || text::is_text(
                name.as_slice(),
                "keep-alive",
            ) || sets_a_share_cookie(line)
        },
        Sieve::Lengths => {
            let name: Vec<char> = header_name(line);
            text::is_text(name.as_slice(), "content-length")
        },
        Sieve::ShareCookies => sets_a_share_cookie(line),
    }
}

/// One line more is its bytes and one line ending more.
pub proof fn lemma_ended_bytes_push(lines: Seq<Seq<u8>>, l: Seq<u8>)
    ensures
        ended_bytes(lines.push(l)) == ended_bytes(lines) + (l + line_end()),
{
    let f = |l: Seq<u8>| l + line_end();
    assert(lines.push(l).map_values(f).drop_last() == lines.map_values(f));
    assert(lines.push(l).map_values(f).last() == l + line_end());
}

/// Rebuild a response head, dropping the lines a filter rejects and appending
/// whatever the caller wants at the end.
///
/// The status line survives every filter, and it is worth being precise about
/// why: not because it has no colon (`HTTP/1.1 500 Error: bad thing` does), but
/// because no filter matches what [`header_name`] makes of one.
fn rebuild_head(head: &[u8], sieve: Sieve, extra: &[u8]) -> (r: Vec<u8>)
    ensures
        r@ == rebuilt(sieve, head@, extra@),
{
    let lines: Vec<&[u8]> = lines_of_response(head);
    let end: [u8; 2] = [CR, LF];
    assert(end@ == line_end());
    let ghost all = response_lines(head@);
    let ghost keep = |l: Seq<u8>| l.len() > 0 && !sieved(sieve, l);
    let mut out: Vec<u8> = Vec::new();
    let mut i: usize = 0;
    proof {
        assert(all.take(0).filter(keep) == Seq::<Seq<u8>>::empty()) by {
            reveal(Seq::filter);
        }
        assert(out@ == ended_bytes(all.take(0).filter(keep)));
    }
    while i < lines.len()
        invariant
            0 <= i <= lines@.len(),
            end@ == line_end(),
            all == seqs::views(lines@),
            keep == (|l: Seq<u8>| l.len() > 0 && !sieved(sieve, l)),
            out@ == ended_bytes(all.take(i as int).filter(keep)),
        decreases lines@.len() - i,
    {
        let l = lines[i];
        let ghost kept = all.take(i as int).filter(keep);
        proof {
            assert(all[i as int] == l@);
            seqs::lemma_filter_step(all, keep, i as int);
            lemma_ended_bytes_push(kept, l@);
        }
        if l.len() > 0 && !takes_out(sieve, l) {
            seqs::push_all(&mut out, l);
            seqs::push_all(&mut out, &end);
            assert(out@ == ended_bytes(kept) + (l@ + line_end()));
        }
        i = i + 1;
    }
    assert(all.take(all.len() as int) == all);
    seqs::push_all(&mut out, extra);
    seqs::push_all(&mut out, &end);
    out
}

/// The header line that ends a connection, with its line ending.
pub open spec fn close_line() -> Seq<u8> {
    vstd::utf8::encode_utf8("Connection: close\r\n"@)
}

/// The response head with its connection-lifetime headers replaced by one that
/// says the connection ends here, and any share cookie the box tried to set
/// taken out.
pub fn close_the_connection(head: &[u8]) -> (r: Vec<u8>)
    ensures
        r@ == rebuilt(Sieve::Connection, head@, close_line()),
{
    rebuild_head(head, Sieve::Connection, "Connection: close\r\n".as_bytes())
}

/// Drop every `Content-Length` from a head whose framing we refused to trust.
pub fn strip_lengths(head: &[u8]) -> (r: Vec<u8>)
    ensures
        r@ == rebuilt(Sieve::Lengths, head@, Seq::empty()),
{
    let none: [u8; 0] = [];
    assert(none@ == Seq::<u8>::empty());
    rebuild_head(head, Sieve::Lengths, &none)
}

/// Drop every `Set-Cookie` that sets a share cookie, and nothing else.
pub fn strip_share_cookies(head: &[u8]) -> (r: Vec<u8>)
    ensures
        r@ == rebuilt(Sieve::ShareCookies, head@, Seq::empty()),
{
    let none: [u8; 0] = [];
    assert(none@ == Seq::<u8>::empty());
    rebuild_head(head, Sieve::ShareCookies, &none)
}

/// What a box that sends these lines leaves the list of its cookies with.
pub open spec fn learned_from(known: Set<Seq<char>>, lines: Seq<Seq<u8>>) -> Set<Seq<char>>
    decreases lines.len(),
{
    if lines.len() == 0 {
        known
    } else {
        let before = learned_from(known, lines.drop_last());
        match line_pair(lines.last()) {
            Some((n, v)) => gate::learned(before, n, v),
            None => before,
        }
    }
}

/// Note every cookie this head sets, so the ones the visitor sends back can be
/// told from the rest of a shared jar's contents.
///
/// Called on every response head that reaches the visitor, interim and final
/// alike. Missing one costs an app its cookie; it cannot leak anything.
pub fn learn_app_cookies(head: &[u8], app: &mut AppCookies)
    requires
        old(app).wf(),
    ensures
        final(app).wf(),
        final(app)@ == learned_from(old(app)@, response_lines(head@)),
{
    let lines: Vec<&[u8]> = lines_of_response(head);
    let ghost all = response_lines(head@);
    let ghost known = app@;
    let mut i: usize = 0;
    assert(learned_from(known, all.take(0)) == known);
    while i < lines.len()
        invariant
            0 <= i <= lines@.len(),
            all == seqs::views(lines@),
            app.wf(),
            app@ == learned_from(known, all.take(i as int)),
        decreases lines@.len() - i,
    {
        proof {
            assert(all[i as int] == lines@[i as int]@);
            assert(all.take(i + 1).drop_last() == all.take(i as int));
            assert(all.take(i + 1).last() == all[i as int]);
        }
        match set_cookie_pair(lines[i]) {
            Some((name, value)) => {
                app.learn(name.as_str(), value.as_str());
            },
            None => {},
        }
        i = i + 1;
    }
    assert(all.take(all.len() as int) == all);
}

/// Where a response's body ends, as far as this proxy will commit to it.
#[derive(Debug, Clone, Copy, PartialEq, Eq, Structural)]
pub enum Body {
    /// Exactly this many bytes.
    Length(u64),
    /// At the terminating zero-length chunk, which this proxy watches for as it
    /// relays. It does not *parse* the body, which goes through untouched; it
    /// only tracks where the framing says the message stops.
    Chunked,
    /// The connection closing is the framing, and there is nothing else to go
    /// on.
    UntilClose,
}

/// How a response's body is framed, and whether its head can be passed on as
/// it stands.
#[derive(Debug, Clone, Copy, PartialEq, Eq, Structural)]
pub struct Framing {
    pub body: Body,
    /// Drop every `Content-Length` on the way out. Set whenever the head said
    /// two things about where the body ends: the visitor gets one framing
    /// rather than two.
    pub strip_lengths: bool,
}

/// A header field as it is compared: the name in lower case, and the value
/// without the space around it.
pub open spec fn line_field(line: Seq<u8>) -> Option<(Seq<char>, Seq<char>)> {
    match seqs::split_once(line, 58u8) {
        Some((k, v)) => Some((name_of(read_text(k)), text::trim(read_text(v)))),
        None => None,
    }
}

/// The header fields of a response head, in order.
pub open spec fn fields_of(head: Seq<u8>) -> Seq<(Seq<char>, Seq<char>)> {
    response_lines(head).filter_map(|l: Seq<u8>| line_field(l))
}

/// The value of a field of this name.
pub open spec fn value_if(field: (Seq<char>, Seq<char>), name: Seq<char>) -> Option<Seq<char>> {
    if field.0 == name {
        Some(field.1)
    } else {
        None
    }
}

/// The values of the fields of this name, in order.
pub open spec fn values_in(fields: Seq<(Seq<char>, Seq<char>)>, name: Seq<char>) -> Seq<Seq<char>> {
    fields.filter_map(|f: (Seq<char>, Seq<char>)| value_if(f, name))
}

/// How a response with these header fields is framed. A transfer coding beats a
/// length. One length that is a number is the length. Anything else is framed
/// by the close, and the lengths do not travel.
pub open spec fn framing_of_fields(fields: Seq<(Seq<char>, Seq<char>)>) -> Framing {
    let codings = gate::codings(values_in(fields, "transfer-encoding"@));
    let lengths = values_in(fields, "content-length"@);
    if codings.len() > 0 {
        Framing {
            body: if codings.last() == "chunked"@ {
                Body::Chunked
            } else {
                Body::UntilClose
            },
            strip_lengths: lengths.len() > 0,
        }
    } else if lengths.len() == 0 {
        Framing { body: Body::UntilClose, strip_lengths: false }
    } else if lengths.len() == 1 && text::is_number(lengths[0]) && text::number(lengths[0])
        <= u64::MAX {
        Framing { body: Body::Length(text::number(lengths[0]) as u64), strip_lengths: false }
    } else {
        Framing { body: Body::UntilClose, strip_lengths: true }
    }
}

/// A list of fields as the sequences they stand for.
pub open spec fn field_views(fields: Seq<(Vec<char>, Vec<char>)>) -> Seq<(Seq<char>, Seq<char>)> {
    fields.map_values(|f: (Vec<char>, Vec<char>)| (f.0@, f.1@))
}

/// The header fields of a response head, in order.
fn fields<'a>(head: &'a [u8]) -> (r: Vec<(Vec<char>, Vec<char>)>)
    ensures
        field_views(r@) == fields_of(head@),
{
    let lines: Vec<&'a [u8]> = lines_of_response(head);
    let ghost all = response_lines(head@);
    let ghost f = |l: Seq<u8>| line_field(l);
    let mut out: Vec<(Vec<char>, Vec<char>)> = Vec::new();
    let mut i: usize = 0;
    while i < lines.len()
        invariant
            0 <= i <= lines@.len(),
            all == seqs::views(lines@),
            f == (|l: Seq<u8>| line_field(l)),
            field_views(out@) == all.take(i as int).filter_map(f),
        decreases lines@.len() - i,
    {
        let l = lines[i];
        proof {
            assert(all[i as int] == l@);
            seqs::lemma_filter_map_step(all, f, i as int);
        }
        match seqs::split_at_first(l, 58u8) {
            Some((k, v)) => {
                let value: Vec<char> = text::chars_of(lossy(v).as_str());
                let field = (
                    lowered_name(lossy(k).as_str()),
                    seqs::copy_of(text::trimmed(value.as_slice())),
                );
                let ghost before = out@;
                out.push(field);
                assert(field_views(out@) == field_views(before).push((field.0@, field.1@)));
            },
            None => {},
        }
        i = i + 1;
    }
    assert(all.take(all.len() as int) == all);
    out
}

/// The values of the fields of this name, in order.
fn values_among<'a>(fields: &'a Vec<(Vec<char>, Vec<char>)>, name: &str) -> (r: Vec<&'a [char]>)
    ensures
        seqs::views(r@) == values_in(field_views(fields@), name@),
{
    let ghost all = field_views(fields@);
    let ghost f = |f: (Seq<char>, Seq<char>)| value_if(f, name@);
    let mut out: Vec<&'a [char]> = Vec::new();
    let mut i: usize = 0;
    while i < fields.len()
        invariant
            0 <= i <= fields@.len(),
            all == field_views(fields@),
            f == (|f: (Seq<char>, Seq<char>)| value_if(f, name@)),
            seqs::views(out@) == all.take(i as int).filter_map(f),
        decreases fields@.len() - i,
    {
        let field = &fields[i];
        proof {
            assert(all[i as int] == (field.0@, field.1@));
            seqs::lemma_filter_map_step(all, f, i as int);
        }
        if text::is_text(field.0.as_slice(), name) {
            let ghost before = out@;
            let v = field.1.as_slice();
            out.push(v);
            assert(seqs::views(out@) == seqs::views(before).push(v@));
        }
        i = i + 1;
    }
    assert(all.take(all.len() as int) == all);
    out
}

/// How a response with these header fields is framed.
///
/// `Transfer-Encoding` beats `Content-Length` for every HTTP client, so framing
/// on the length when both are present would send the client a prefix of the
/// chunk framing and close. *Any* transfer coding does that, not only `chunked`,
/// and `chunked` has to be the *final* coding to be worth anything.
pub fn framing_in(fields: &Vec<(Vec<char>, Vec<char>)>) -> (r: Framing)
    ensures
        r == framing_of_fields(field_views(fields@)),
{
    let encodings: Vec<&[char]> = values_among(fields, "transfer-encoding");
    let lengths: Vec<&[char]> = values_among(fields, "content-length");
    let codings: Vec<Vec<char>> = gate::all_codings(&encodings);
    let ghost cs = codings@.map_values(|c: Vec<char>| c@);
    assert(cs.len() == codings@.len());
    assert(seqs::views(lengths@).len() == lengths@.len());
    if codings.len() > 0 {
        let last = &codings[codings.len() - 1];
        assert(cs.last() == last@);
        return Framing {
            body: if text::is_text(last.as_slice(), "chunked") {
                Body::Chunked
            } else {
                Body::UntilClose
            },
            strip_lengths: lengths.len() > 0,
        };
    }
    if lengths.len() == 0 {
        return Framing { body: Body::UntilClose, strip_lengths: false };
    }
    if lengths.len() == 1 {
        assert(seqs::views(lengths@)[0] == lengths@[0]@);
        match text::parse_number(lengths[0], u64::MAX) {
            Some(n) => {
                return Framing { body: Body::Length(n), strip_lengths: false };
            },
            None => {},
        }
    }
    Framing { body: Body::UntilClose, strip_lengths: true }
}

/// Read the response's framing out of its head.
pub fn response_framing(head: &[u8]) -> (r: Framing)
    ensures
        r == framing_of_fields(fields_of(head@)),
{
    framing_in(&fields(head))
}

/// The blank line that ends a head, with the end of the line before it.
pub open spec fn blank_line() -> Seq<u8> {
    seq![CR, LF, CR, LF]
}

/// The position just past the blank line that ends a head.
pub open spec fn head_end(buf: Seq<u8>) -> Option<int> {
    match seqs::find_seq(buf, blank_line(), 0) {
        Some(i) => Some(i + 4),
        None => None,
    }
}

/// Index just past the blank line that ends an HTTP head.
pub fn find_head_end(buf: &[u8]) -> (r: Option<usize>)
    ensures
        match r {
            Some(i) => head_end(buf@) == Some(i as int) && 4 <= i <= buf@.len(),
            None => head_end(buf@) is None,
        },
{
    let blank: [u8; 4] = [CR, LF, CR, LF];
    assert(blank@ == blank_line());
    let n: usize = buf.len();
    match seqs::position_of(buf, &blank) {
        Some(i) => Some(i + 4),
        None => None,
    }
}

/// What to do with a connection once its head has been read.
#[derive(Debug, Clone, PartialEq, Eq)]
pub enum Next {
    /// Write these bytes and close: the redirect that sets the cookie, or a
    /// refusal.
    ///
    /// The second field is the refusal's own reason, when there is one; the
    /// redirect has none.
    Respond(String, Option<Refusal>),
    /// Authorized: open the upstream, send this head, then move bytes.
    Proxy {
        /// The head as it should reach the box: share credential removed.
        head: String,
        /// The parsed request, which is what it takes to know where this
        /// request ends.
        req: Request,
    },
}

/// A [`Next`] with its texts as sequences of characters.
pub enum NextView {
    Respond(Seq<char>, Option<Refusal>),
    Proxy { head: Seq<char>, req: gate::RequestView },
}

impl View for Next {
    type V = NextView;

    open spec fn view(&self) -> NextView {
        match self {
            Next::Respond(s, r) => NextView::Respond(s@, *r),
            Next::Proxy { head, req } => NextView::Proxy { head: head@, req: req@ },
        }
    }
}

/// Why there is no head to work with.
///
/// Two answers, not one, because they are different facts and only one belongs
/// in an ingress receipt.
#[derive(Debug, Clone, Copy, PartialEq, Eq, Structural)]
pub enum NoHead {
    /// Nothing arrived, or the peer went away before saying anything. A
    /// browser's speculative preconnect is exactly this shape and so is every
    /// port scan, so it is not worth a line.
    Silent,
    /// Bytes arrived and they are not a head this share will read. Worth
    /// recording: it is the same fact as a head that is refused, arriving one
    /// step earlier.
    Refused,
}

/// Why a request is refused before its credential is weighed.
pub open spec fn screened(req: gate::RequestView) -> Option<Refusal> {
    if req.service_worker {
        Some(Refusal::ServiceWorker)
    } else if req.cross_origin {
        Some(Refusal::ForeignOrigin)
    } else if req.token is None {
        Some(Refusal::NotAuthorized)
    } else {
        None
    }
}

/// A refusal, with its reason.
pub open spec fn refused(r: Refusal) -> NextView {
    NextView::Respond(gate::refusal_text(r), Some(r))
}

/// What a request gets, given whether its credential is one that a grant
/// matches.
pub open spec fn decision(
    head: Seq<char>,
    cookie: Seq<char>,
    authorized: bool,
    secure: bool,
    app: Option<Set<Seq<char>>>,
) -> NextView {
    match gate::parsed(head, cookie) {
        None => refused(Refusal::Malformed),
        Some(req) => match screened(req) {
            Some(r) => refused(r),
            None => if !authorized {
                refused(Refusal::NotAuthorized)
            } else if req.from_query {
                NextView::Respond(
                    gate::redirect(
                        cookie,
                        req.token->0,
                        if gate::on_this_origin(req.clean_target) {
                            req.clean_target
                        } else {
                            seq!['/']
                        },
                        secure,
                    ),
                    None,
                )
            } else {
                NextView::Proxy { head: gate::upstream_head(head, req, app), req }
            },
        },
    }
}

/// The credential that has to be weighed to answer a request, if one has to be.
pub open spec fn to_weigh(head: Seq<char>, cookie: Seq<char>) -> Option<Seq<char>> {
    match gate::parsed(head, cookie) {
        Some(req) => if screened(req) is None {
            req.token
        } else {
            None
        },
        None => None,
    }
}

/// A refusal, with its reason.
fn refuse(r: Refusal) -> (n: Next)
    ensures
        n@ == refused(r),
{
    Next::Respond(gate::refusal_response(r), Some(r))
}

/// What a request gets whose credential has been weighed.
///
/// Authorized with the token in the URL: set the cookie and send the browser to
/// the same page without it, rather than proxying this one. A request that
/// reached the app with the token in its target would put it in the app's logs
/// and in `Referer` on every link out of the page.
pub fn decide_weighed(
    head: &str,
    cookie: &str,
    req: Request,
    authorized: bool,
    secure: bool,
    app: Option<&AppCookies>,
) -> (r: Next)
    requires
        gate::parsed(head@, cookie@) == Some(req@),
    ensures
        r@ == decision(head@, cookie@, authorized, secure, gate::jar(app)),
{
    // Refused before the credential is even weighed: this is not about who is
    // asking, it is about what a registration would leave behind on the
    // joiner's machine once the share is over.
    if req.service_worker {
        return refuse(Refusal::ServiceWorker);
    }
    // Also before the credential: the cookie is exactly what makes this worth
    // refusing, because the browser attaches it to a request the page had no
    // business making.
    if req.cross_origin {
        return refuse(Refusal::ForeignOrigin);
    }
    match &req.token {
        None => {
            return refuse(Refusal::NotAuthorized);
        },
        Some(token) => {
            if !authorized {
                return refuse(Refusal::NotAuthorized);
            }
            if req.from_query {
                let location: String = gate::safe_location(req.clean_target.as_str());
                return Next::Respond(
                    gate::set_cookie_redirect(cookie, token.as_str(), location.as_str(), secure),
                    None,
                );
            }
        },
    }
    Next::Proxy { head: gate::rewrite_for_upstream(head, &req, cookie, app), req }
}

/// Decide what a request gets.
///
/// `authorize` is the caller's grant check: the bridge's table on the sharer's
/// side, a single local token on the joiner's. It is only ever called with a
/// token that already looks like one, because [`gate::parse`] refuses the rest,
/// and only when nothing else decides.
pub fn decide(
    head: &str,
    cookie: &str,
    authorize: impl FnOnce(&str) -> bool,
    secure: bool,
    app: Option<&AppCookies>,
) -> (r: Next)
    requires
        forall|t: &str| to_weigh(head@, cookie@) == Some(t@) ==> call_requires(authorize, (t,)),
    ensures
        match to_weigh(head@, cookie@) {
            None => forall|ok: bool|
                r@ == #[trigger] decision(head@, cookie@, ok, secure, gate::jar(app)),
            Some(token) => exists|t: &str, ok: bool| #[trigger]
                call_ensures(authorize, (t,), ok) && t@ == token && r@ == decision(
                    head@,
                    cookie@,
                    ok,
                    secure,
                    gate::jar(app),
                ),
        },
{
    let req = match gate::parse(head, cookie) {
        Some(req) => req,
        None => {
            return refuse(Refusal::Malformed);
        },
    };
    let authorized: bool = if req.service_worker || req.cross_origin {
        false
    } else {
        match &req.token {
            Some(token) => authorize(token.as_str()),
            None => false,
        }
    };
    decide_weighed(head, cookie, req, authorized, secure, app)
}

/// The request as it should reach the box, and what it takes to know where it
/// ends.
pub struct Forwarded<'a> {
    /// Rewritten head: share credential removed, `Connection: close` forced.
    pub head: &'a str,
    /// Bytes that arrived in the same read as the head. The start of the body.
    pub rest: &'a [u8],
    pub req: &'a Request,
}

/// Bytes moved, counted as they go so a connection cut short by a revoke still
/// reports what it carried.
#[derive(Debug, Clone, Copy, PartialEq, Eq, Structural)]
pub struct Counters {
    pub to_box: u64,
    pub to_peer: u64,
    /// Set when the box left a response unfinished. Silent truncation is the
    /// part a visitor cannot debug and the sharer cannot see, so it is carried
    /// back out to the receipt, and a visitor who cancelled a download is
    /// deliberately not counted.
    pub truncated: bool,
}

impl Default for Counters {
    fn default() -> (r: Counters)
        ensures
            r == (Counters { to_box: 0, to_peer: 0, truncated: false }),
    {
        Counters { to_box: 0, to_peer: 0, truncated: false }
    }
}

impl Counters {
    /// The counters once so many more bytes have reached the visitor.
    pub open spec fn after_relaying(self, n: u64) -> Counters {
        Counters { to_peer: self.to_peer.wrapping_add(n), ..self }
    }

    /// The counters once so many more bytes have reached the box.
    pub open spec fn after_forwarding(self, n: u64) -> Counters {
        Counters { to_box: self.to_box.wrapping_add(n), ..self }
    }

    /// So many more bytes have reached the visitor.
    pub fn relayed(&mut self, n: u64)
        ensures
            *final(self) == old(self).after_relaying(n),
    {
        self.to_peer = self.to_peer.wrapping_add(n);
    }

    /// So many more bytes have reached the box.
    pub fn forwarded(&mut self, n: u64)
        ensures
            *final(self) == old(self).after_forwarding(n),
    {
        self.to_box = self.to_box.wrapping_add(n);
    }

    pub fn was_truncated(&self) -> (r: bool)
        ensures
            r == self.truncated,
    {
        self.truncated
    }

    pub fn read(&self) -> (r: (u64, u64))
        ensures
            r == (self.to_box, self.to_peer),
    {
        (self.to_box, self.to_peer)
    }
}

/// What a visitor gets when the box's answer is shaped in a way this proxy
/// will not pass on.
pub fn malformed_head_response() -> (r: String)
    ensures
        r@ == gate::plain_answer(
            "502 Bad Gateway"@,
            "The app in this box sent a reply h5i will not forward: its headers are not well formed. Whoever shared it needs to look."@,
        ),
{
    gate::answer(
        "502 Bad Gateway",
        "The app in this box sent a reply h5i will not forward: its headers are not well formed. Whoever shared it needs to look.",
    )
}

/// What a peer gets when the box stopped reading its request.
pub fn unreachable_box_response() -> (r: String)
    ensures
        r@ == gate::plain_answer(
            "502 Bad Gateway"@,
            "The app in this box stopped reading. Whoever shared it needs to look."@,
        ),
{
    gate::answer(
        "502 Bad Gateway",
        "The app in this box stopped reading. Whoever shared it needs to look.",
    )
}

/// What a peer gets when it declared a body and took too long to send it.
pub fn timed_out_response() -> (r: String)
    ensures
        r@ == gate::plain_answer(
            "408 Request Timeout"@,
            "That request took too long to arrive. Try it again."@,
        ),
{
    gate::answer("408 Request Timeout", "That request took too long to arrive. Try it again.")
}

/// What a visitor gets when the box starts a response and never finishes it.
pub fn unfinished_response() -> (r: String)
    ensures
        r@ == gate::plain_answer(
            "502 Bad Gateway"@,
            "The app in this box began a reply and did not finish it. Whoever shared it needs to look."@,
        ),
{
    gate::answer(
        "502 Bad Gateway",
        "The app in this box began a reply and did not finish it. Whoever shared it needs to look.",
    )
}

/// Only a request that was weighed and found authorized gets further than a
/// refusal: nothing that a foreign page sent is proxied, nor a service worker
/// registration, whatever credential it carries.
pub proof fn law_only_the_authorized_get_in(
    head: Seq<char>,
    cookie: Seq<char>,
    authorized: bool,
    secure: bool,
    app: Option<Set<Seq<char>>>,
)
    ensures
        match decision(head, cookie, authorized, secure, app) {
            NextView::Proxy { head: out, req } => {
                &&& authorized
                &&& gate::parsed(head, cookie) == Some(req)
                &&& out == gate::upstream_head(head, req, app)
                &&& to_weigh(head, cookie) == req.token
                &&& req.token is Some
                &&& !req.from_query
                &&& !req.service_worker
                &&& !req.cross_origin
            },
            NextView::Respond(_, None) => authorized && to_weigh(head, cookie) is Some,
            NextView::Respond(text, Some(r)) => text == gate::refusal_text(r),
        },
{
}

/// A service worker registration and a foreign page's request are refused
/// whatever credential they carry.
pub proof fn law_some_requests_are_refused_whoever_asks(
    head: Seq<char>,
    cookie: Seq<char>,
    authorized: bool,
    secure: bool,
    app: Option<Set<Seq<char>>>,
)
    requires
        gate::parsed(head, cookie) is Some,
    ensures
        gate::parsed(head, cookie)->0.service_worker ==> decision(
            head,
            cookie,
            authorized,
            secure,
            app,
        ) == refused(Refusal::ServiceWorker),
        !gate::parsed(head, cookie)->0.service_worker && gate::parsed(head, cookie)->0.cross_origin
            ==> decision(head, cookie, authorized, secure, app) == refused(Refusal::ForeignOrigin),
{
}

/// Whoever is probing learns nothing: a request with no credential and one with
/// a credential that no grant matches get the same answer.
pub proof fn law_a_wrong_credential_is_answered_like_none(
    with: Seq<char>,
    without: Seq<char>,
    cookie: Seq<char>,
    secure: bool,
    app: Option<Set<Seq<char>>>,
)
    requires
        to_weigh(with, cookie) is Some,
        gate::parsed(without, cookie) is Some,
        !gate::parsed(without, cookie)->0.service_worker,
        !gate::parsed(without, cookie)->0.cross_origin,
        gate::parsed(without, cookie)->0.token is None,
    ensures
        decision(with, cookie, false, secure, app) == decision(without, cookie, false, secure, app),
{
}

/// A credential is weighed only if it looks like one.
pub proof fn law_only_a_plausible_credential_is_weighed(head: Seq<char>, cookie: Seq<char>)
    ensures
        to_weigh(head, cookie) is Some ==> gate::is_plausible(to_weigh(head, cookie)->0),
{
}

} // verus!
