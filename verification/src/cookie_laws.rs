//! What holds of the cookies of two proxies on one machine.
//!
//! Cookies ignore the port, so a browser sends each proxy the credentials of
//! both. Each reads its own.
use vstd::prelude::*;

use crate::gate;
use crate::gate_laws;
use crate::seqs;
use crate::text;

verus! {

/// A letter, a digit or an underscore.
pub open spec fn is_word_char(c: char) -> bool {
    text::is_alphanumeric(c) || c == '_'
}

/// Letters, digits and underscores, and at least one.
pub open spec fn is_word(s: Seq<char>) -> bool {
    s.len() > 0 && forall|i: int| 0 <= i < s.len() ==> is_word_char(#[trigger] s[i])
}

/// A word has no white space in it and none of what a `Cookie` header is parted
/// by.
proof fn lemma_word(s: Seq<char>)
    requires
        is_word(s),
    ensures
        text::is_trimmed(s),
        text::trim(s) == s,
        text::is_solid(s),
        seqs::lacks(s, ';'),
        seqs::lacks(s, '='),
        gate_laws::unbroken(s),
{
    assert forall|i: int| 0 <= i < s.len() implies {
        &&& !text::is_white(#[trigger] s[i])
        &&& s[i] != ';'
        &&& s[i] != '='
        &&& s[i] != '\r'
        &&& s[i] != '\n'
    } by {
        assert(is_word_char(s[i]));
    }
    text::lemma_trim_same(s);
}

/// The cookie name of a port is a word.
proof fn lemma_port_cookie_is_a_word(port: u16)
    ensures
        is_word(gate::port_cookie(port)),
{
    let name = gate::port_cookie(port);
    let digits = text::decimal(port as nat);
    reveal_strlit("h5i_share");
    let front = gate::COOKIE@;
    text::law_decimal_reads_back(port as nat);
    assert(front.len() == 9);
    assert forall|i: int| 0 <= i < name.len() implies is_word_char(#[trigger] name[i]) by {
        if i < 9 {
            assert(name[i] == front[i]);
        } else if i > 9 {
            assert(name[i] == digits[i - 10]);
            assert(text::is_digit(digits[i - 10]));
        }
    }
}

/// Two ports have two cookie names.
pub proof fn law_two_ports_have_two_cookies(a: u16, b: u16)
    requires
        a != b,
    ensures
        gate::port_cookie(a) != gate::port_cookie(b),
{
    let n = gate::COOKIE@.len() as int + 1;
    text::law_decimal_reads_back(a as nat);
    text::law_decimal_reads_back(b as nat);
    assert(gate::port_cookie(a).skip(n) == text::decimal(a as nat));
    assert(gate::port_cookie(b).skip(n) == text::decimal(b as nat));
}

/// Two cookies as a browser sends them.
pub open spec fn both_cookies(
    name: Seq<char>,
    value: Seq<char>,
    other_name: Seq<char>,
    other_value: Seq<char>,
) -> Seq<char> {
    gate::cookie_pair(name, value) + seq![';', ' '] + gate::cookie_pair(other_name, other_value)
}

/// A pair is parted where its name ends.
proof fn lemma_pair(name: Seq<char>, value: Seq<char>)
    requires
        is_word(name),
        is_word(value),
    ensures
        seqs::split_once(gate::cookie_pair(name, value), '=') == Some((name, value)),
        text::is_trimmed(gate::cookie_pair(name, value)),
        seqs::lacks(gate::cookie_pair(name, value), ';'),
        gate_laws::unbroken(gate::cookie_pair(name, value)),
{
    let pair = gate::cookie_pair(name, value);
    let n = name.len() as int;
    lemma_word(name);
    lemma_word(value);
    assert forall|i: int| 0 <= i < pair.len() implies (if i < n {
        pair[i] == name[i]
    } else if i == n {
        pair[i] == '='
    } else {
        pair[i] == value[i - n - 1]
    }) by {}
    seqs::lemma_find_is(pair, '=', n);
    assert(pair.take(n) == name);
    assert(pair.skip(n + 1) == value);
    assert(pair[0] == name[0]);
    assert(pair.last() == value.last());
    assert forall|i: int| 0 <= i < pair.len() implies pair[i] != ';' && pair[i] != '\r' && pair[i]
        != '\n' by {
        if i < n {
            assert(is_word_char(name[i]));
        } else if i > n {
            assert(is_word_char(value[i - n - 1]));
        }
    }
}

/// Of two cookies in one header, each name finds its own.
proof fn lemma_own_cookie(
    name: Seq<char>,
    value: Seq<char>,
    other_name: Seq<char>,
    other_value: Seq<char>,
)
    requires
        is_word(name),
        is_word(value),
        is_word(other_name),
        is_word(other_value),
        name != other_name,
    ensures
        ({
            let header = both_cookies(name, value, other_name, other_value);
            &&& gate::our_cookie(header, name) == Some(value)
            &&& gate::our_cookie(header, other_name) == Some(other_value)
        }),
{
    let one = gate::cookie_pair(name, value);
    let two = gate::cookie_pair(other_name, other_value);
    let header = both_cookies(name, value, other_name, other_value);
    lemma_pair(name, value);
    lemma_pair(other_name, other_value);
    let late = seq![' '] + two;
    assert(header =~= one + seq![';'] + late);
    assert forall|i: int| 0 <= i < late.len() implies late[i] != ';' by {
        if i > 0 {
            assert(late[i] == two[i - 1]);
        }
    }
    seqs::lemma_split_at(one, ';', late);
    seqs::lemma_split_whole(one, ';');
    seqs::lemma_split_whole(late, ';');
    text::lemma_trim_same(one);
    text::lemma_trim_space(two);
    let segments = gate::cookie_segments(header);
    assert(segments =~= seq![one, two]);
    lemma_word(name);
    lemma_word(value);
    lemma_word(other_name);
    lemma_word(other_value);
    lemma_found(segments, name, one, two);
    lemma_found(segments, other_name, one, two);
}

/// What two segments give a name.
proof fn lemma_found(segments: Seq<Seq<char>>, name: Seq<char>, one: Seq<char>, two: Seq<char>)
    requires
        segments == seq![one, two],
        gate::cookie_value(one, name) is Some != gate::cookie_value(two, name) is Some,
    ensures
        gate::last_of(segments.filter_map(|c: Seq<char>| gate::cookie_value(c, name))) == (
        if gate::cookie_value(one, name) is Some {
            gate::cookie_value(one, name)
        } else {
            gate::cookie_value(two, name)
        }),
{
    let take = |c: Seq<char>| gate::cookie_value(c, name);
    assert(segments =~= seq![one] + seq![two]);
    seqs::lemma_filter_map_concat(seq![one], seq![two], take);
    Seq::<Seq<char>>::lemma_filter_map_singleton(one, take);
    Seq::<Seq<char>>::lemma_filter_map_singleton(two, take);
    let a = seq![one].filter_map(take);
    let b = seq![two].filter_map(take);
    assert(segments.filter_map(take) == a + b);
}

/// A request that carries this `Cookie` header and nothing else of note.
pub open spec fn request_with(header: Seq<char>) -> Seq<char> {
    "GET / HTTP/1.1\r\nHost: x\r\nCookie: "@ + header + "\r\n\r\n"@
}

/// The lines of such a request.
proof fn lemma_request_lines(header: Seq<char>)
    requires
        gate_laws::unbroken(header),
    ensures
        gate::line_ends_agree(request_with(header), '\r', '\n'),
        gate::head_lines(request_with(header))[0] == "GET / HTTP/1.1"@,
        gate::header_lines(request_with(header)) == seq!["Host: x"@, "Cookie: "@ + header],
{
    let first = "GET / HTTP/1.1"@;
    let host = "Host: x"@;
    let cookie = "Cookie: "@ + header;
    let lines = seq![host, cookie];
    reveal_strlit("GET / HTTP/1.1\r\nHost: x\r\nCookie: ");
    reveal_strlit("GET / HTTP/1.1");
    reveal_strlit("Host: x");
    reveal_strlit("Cookie: ");
    reveal_strlit("\r\n\r\n");
    assert(gate_laws::unbroken(first));
    assert(gate_laws::unbroken(host));
    assert(gate_laws::unbroken(cookie)) by {
        assert forall|i: int| 0 <= i < cookie.len() implies cookie[i] != '\r' && cookie[i]
            != '\n' by {
            if i >= 8 {
                assert(cookie[i] == header[i - 8]);
            }
        }
    }
    gate_laws::lemma_read_back(first, lines);
    gate::lemma_ended_push(seq![host], cookie);
    gate::lemma_ended_push(Seq::empty(), host);
    assert(Seq::<Seq<char>>::empty().push(host) =~= seq![host]);
    assert(seq![host].push(cookie) =~= lines);
    assert(gate::ended(Seq::empty()) =~= Seq::<char>::empty());
    assert(first + gate::crlf() + (gate::ended(lines) + gate::crlf()) =~= request_with(header));
}

/// The values that such a request has for a header name.
proof fn lemma_request_values(header: Seq<char>, name: Seq<char>)
    requires
        text::is_trimmed(header),
    ensures
        gate::header_value("Host: x"@, name) == (if text::lowered(name) == text::lowered("host"@) {
            Some("x"@)
        } else {
            None
        }),
        gate::header_value("Cookie: "@ + header, name) == (if text::lowered(name) == text::lowered(
            "cookie"@,
        ) {
            Some(header)
        } else {
            None
        }),
        gate::unambiguous("Host: x"@),
        gate::unambiguous("Cookie: "@ + header),
{
    let host = "Host: x"@;
    let cookie = "Cookie: "@ + header;
    reveal_strlit("Host: x");
    reveal_strlit("Host");
    reveal_strlit("host");
    reveal_strlit("x");
    reveal_strlit("Cookie: ");
    reveal_strlit("Cookie");
    reveal_strlit("cookie");
    seqs::lemma_find_is(host, ':', 4);
    assert(host.take(4) =~= "Host"@);
    assert(host.skip(5) =~= seq![' '] + "x"@);
    text::lemma_trim_same("Host"@);
    text::lemma_trim_space("x"@);
    assert(text::lowered("Host"@) =~= text::lowered("host"@));
    assert forall|i: int| 0 <= i < 8 implies cookie[i] == "Cookie: "@[i] by {}
    seqs::lemma_find_is(cookie, ':', 6);
    assert(cookie.take(6) =~= "Cookie"@);
    assert(cookie.skip(7) =~= seq![' '] + header);
    text::lemma_trim_same("Cookie"@);
    text::lemma_trim_space(header);
    assert(text::lowered("Cookie"@) =~= text::lowered("cookie"@));
    assert forall|i: int| 0 <= i < 4 implies gate::tchar(#[trigger] "Host"@[i]) by {}
    assert forall|i: int| 0 <= i < 6 implies gate::tchar(#[trigger] "Cookie"@[i]) by {}
}

/// All the values that such a request has for a header name.
proof fn lemma_request_named(header: Seq<char>, name: Seq<char>)
    requires
        text::is_trimmed(header),
        gate_laws::unbroken(header),
    ensures
        gate::values_named(gate::header_lines(request_with(header)), name) == (if text::lowered(
            name,
        ) == text::lowered("host"@) {
            seq!["x"@]
        } else if text::lowered(name) == text::lowered("cookie"@) {
            seq![header]
        } else {
            Seq::empty()
        }),
{
    let host = "Host: x"@;
    let cookie = "Cookie: "@ + header;
    let f = |l: Seq<char>| gate::header_value(l, name);
    lemma_request_lines(header);
    lemma_request_values(header, name);
    let lines = seq![host, cookie];
    assert(lines =~= seq![host] + seq![cookie]);
    seqs::lemma_filter_map_concat(seq![host], seq![cookie], f);
    Seq::<Seq<char>>::lemma_filter_map_singleton(host, f);
    Seq::<Seq<char>>::lemma_filter_map_singleton(cookie, f);
    reveal_strlit("host");
    reveal_strlit("cookie");
    gate_laws::lemma_other_length("host"@, "cookie"@);
    assert(gate::values_named(gate::header_lines(request_with(header)), name) =~= seq![
        host,
    ].filter_map(f) + seq![cookie].filter_map(f));
}

/// Such a request is read, and its credential is what its header gives this
/// name.
proof fn lemma_request_token(header: Seq<char>, name: Seq<char>)
    requires
        text::is_trimmed(header),
        gate_laws::unbroken(header),
        gate::our_cookie(header, name) is Some,
        gate::is_plausible(gate::our_cookie(header, name)->0),
    ensures
        gate::parsed(request_with(header), name) is Some,
        gate::parsed(request_with(header), name)->0.token == gate::our_cookie(header, name),
{
    let head = request_with(header);
    let headers = gate::header_lines(head);
    lemma_request_lines(header);
    lemma_request_values(header, Seq::empty());
    assert(headers[0] == "Host: x"@ && headers[1] == "Cookie: "@ + header);
    assert forall|i: int| 0 <= i < headers.len() implies gate::unambiguous(
        #[trigger] headers[i],
    ) by {}
    let first = "GET / HTTP/1.1"@;
    reveal_strlit("GET / HTTP/1.1");
    reveal_strlit("GET");
    reveal_strlit("/");
    reveal_strlit("HTTP/1.1");
    reveal_strlit("HTTP/");
    assert(first =~= "GET"@ + seq![' '] + "/"@ + seq![' '] + "HTTP/1.1"@);
    text::lemma_three_words("GET"@, "/"@, "HTTP/1.1"@);
    assert("HTTP/1.1"@.subrange(0, 5) =~= "HTTP/"@);
    assert("HTTP/"@.is_prefix_of("HTTP/1.1"@));
    reveal_strlit("host");
    reveal_strlit("cookie");
    reveal_strlit("content-length");
    reveal_strlit("transfer-encoding");
    lemma_request_named(header, "host"@);
    lemma_request_named(header, "cookie"@);
    lemma_request_named(header, "content-length"@);
    lemma_request_named(header, "transfer-encoding"@);
    gate_laws::lemma_other_length("cookie"@, "host"@);
    gate_laws::lemma_other_length("content-length"@, "host"@);
    gate_laws::lemma_other_length("content-length"@, "cookie"@);
    gate_laws::lemma_other_length("transfer-encoding"@, "host"@);
    gate_laws::lemma_other_length("transfer-encoding"@, "cookie"@);
    let te = gate::values_named(headers, "transfer-encoding"@);
    assert(te.map_values(|v: Seq<char>| gate::codings_of(v)) =~= Seq::empty());
    assert(gate::codings(te).len() == 0);
    assert(gate::framing(headers) == Some((None::<u64>, false)));
    assert(gate::head_is_plain(head));
    seqs::lemma_find_is("/"@, '?', 1);
    assert(gate::query_token("/"@) is None);
    let cookies = gate::values_named(headers, "cookie"@);
    assert(cookies =~= seq![header]);
    assert(gate::cookie_token(cookies, name) == gate::our_cookie(header, name));
}

/// Two proxies on one machine, each sent the credentials of both, read each its
/// own.
pub proof fn law_each_proxy_reads_its_own_cookie(
    a: u16,
    b: u16,
    mine: Seq<char>,
    theirs: Seq<char>,
)
    requires
        a != b,
        gate::is_plausible(mine),
        gate::is_plausible(theirs),
    ensures
        ({
            let head = request_with(
                both_cookies(gate::port_cookie(a), mine, gate::port_cookie(b), theirs),
            );
            &&& gate::parsed(head, gate::port_cookie(a)) is Some
            &&& gate::parsed(head, gate::port_cookie(a))->0.token == Some(mine)
            &&& gate::parsed(head, gate::port_cookie(b)) is Some
            &&& gate::parsed(head, gate::port_cookie(b))->0.token == Some(theirs)
        }),
{
    let one = gate::port_cookie(a);
    let two = gate::port_cookie(b);
    let header = both_cookies(one, mine, two, theirs);
    lemma_port_cookie_is_a_word(a);
    lemma_port_cookie_is_a_word(b);
    law_two_ports_have_two_cookies(a, b);
    lemma_own_cookie(one, mine, two, theirs);
    lemma_pair(one, mine);
    lemma_pair(two, theirs);
    let front = gate::cookie_pair(one, mine);
    let back = gate::cookie_pair(two, theirs);
    assert(header[0] == front[0]);
    assert(header.last() == back.last());
    assert(gate_laws::unbroken(header)) by {
        assert forall|i: int| 0 <= i < header.len() implies header[i] != '\r' && header[i]
            != '\n' by {
            if i < front.len() {
                assert(header[i] == front[i]);
            } else if i >= front.len() + 2 {
                assert(header[i] == back[i - front.len() - 2]);
            }
        }
    }
    lemma_request_token(header, one);
    lemma_request_token(header, two);
}

} // verus!
