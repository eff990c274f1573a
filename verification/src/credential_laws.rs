//! What holds of the credential of a request: where it is read, and that it is
//! taken out where it was.
use vstd::prelude::*;
use vstd::string::*;

use crate::gate::{self, Request};
use crate::request_laws::{self, said};
use crate::seqs;
use crate::text;

verus! {

/// A target with a query.
pub open spec fn with_query(path: Seq<char>, query: Seq<char>) -> Seq<char> {
    path + seq!['?'] + query
}

/// A pair of a query.
pub open spec fn pair(name: Seq<char>, value: Seq<char>) -> Seq<char> {
    name + seq!['='] + value
}

proof fn lemma_parted(a: Seq<char>, c: char, b: Seq<char>)
    requires
        seqs::lacks(a, c),
    ensures
        seqs::split_once(a + seq![c] + b, c) == Some((a, b)),
{
    let s = a + seq![c] + b;
    assert forall|j: int| 0 <= j < a.len() implies s[j] != c by {
        assert(s[j] == a[j]);
    }
    seqs::lemma_find_is(s, c, a.len() as int);
    assert(s.take(a.len() as int) =~= a);
    assert(s.skip(a.len() as int + 1) =~= b);
}

/// A name without an escape in it is the share's own only if it is spelled so.
pub proof fn law_a_plain_name_is_what_it_says(raw: Seq<char>, want: Seq<char>)
    requires
        seqs::lacks(raw, '%'),
    ensures
        gate::spells(raw, want) <==> raw == want,
    decreases raw.len(),
{
    if raw.len() == 0 {
        assert(want.len() == 0 <==> raw =~= want);
    } else {
        let rest = raw.skip(1);
        assert forall|j: int| 0 <= j < rest.len() implies rest[j] != '%' by {
            assert(rest[j] == raw[j + 1]);
        }
        assert(raw[0] != '%');
        if want.len() > 0 {
            law_a_plain_name_is_what_it_says(rest, want.skip(1));
            assert(raw =~= seq![raw[0]] + rest);
            assert(want =~= seq![want[0]] + want.skip(1));
            if raw == want {
                assert(rest =~= want.skip(1));
            }
        } else {
            assert(raw.len() != want.len());
        }
    }
}

/// A character that is written as its two hexadecimal digits is read as itself.
pub proof fn law_an_escaped_character_is_read(
    hi: char,
    lo: char,
    rest: Seq<char>,
    c: char,
    want: Seq<char>,
)
    requires
        text::hex_value(hi) is Some,
        text::hex_value(lo) is Some,
    ensures
        gate::spells(seq!['%', hi, lo] + rest, seq![c] + want) <==> c as int == text::hex_value(
            hi,
        )->0 * 16 + text::hex_value(lo)->0 && gate::spells(rest, want),
{
    let raw = seq!['%', hi, lo] + rest;
    assert(raw.skip(3) =~= rest);
    assert((seq![c] + want).skip(1) =~= want);
}

proof fn lemma_own_pair(t: Seq<char>)
    ensures
        gate::is_share_pair(pair("h5i"@, t)),
        gate::query_pair(pair("h5i"@, t)) == ("h5i"@, t),
{
    reveal_strlit("h5i");
    lemma_parted("h5i"@, '=', t);
    law_a_plain_name_is_what_it_says("h5i"@, "h5i"@);
}

/// A target without a query carries no invite, and stays as it is.
pub proof fn law_a_target_without_a_query_stays(target: Seq<char>)
    requires
        seqs::lacks(target, '?'),
    ensures
        gate::query_token(target) is None,
        gate::clean(target) == target,
{
    seqs::lemma_find_is(target, '?', target.len() as int);
}

/// An invite that is the whole query is read, and leaves with its question mark.
pub proof fn law_an_invite_alone_is_read_and_taken_out(path: Seq<char>, t: Seq<char>)
    requires
        seqs::lacks(path, '?'),
        seqs::lacks(t, '&'),
    ensures
        gate::query_token(with_query(path, pair("h5i"@, t))) == Some(t),
        gate::clean(with_query(path, pair("h5i"@, t))) == path,
{
    let p = pair("h5i"@, t);
    reveal_strlit("h5i");
    lemma_parted(path, '?', p);
    lemma_own_pair(t);
    assert forall|j: int| 0 <= j < p.len() implies p[j] != '&' by {
        if j >= 4 {
            assert(p[j] == t[j - 4]);
        }
    }
    seqs::lemma_split_whole(p, '&');
    let own = |p: Seq<char>| gate::share_value(p);
    let other = |p: Seq<char>| !gate::is_share_pair(p);
    let none = Seq::<Seq<char>>::empty();
    assert(seq![p] =~= none.push(p));
    none.lemma_filter_push(p, other);
    assert(none.filter(other) =~= none) by {
        reveal(Seq::filter);
    }
    lemma_one_value(none, p);
}

proof fn lemma_one_value(front: Seq<Seq<char>>, p: Seq<char>)
    ensures
        gate::last_of(front.push(p).filter_map(|p: Seq<char>| gate::share_value(p))) == (
        match gate::share_value(p) {
            Some(v) => Some(v),
            None => gate::last_of(front.filter_map(|p: Seq<char>| gate::share_value(p))),
        }),
{
    let own = |p: Seq<char>| gate::share_value(p);
    reveal(Seq::filter_map);
    assert(front.push(p).drop_last() =~= front);
    assert(front.push(p).last() == p);
    match own(p) {
        Some(v) => {
            assert(front.push(p).filter_map(own) =~= front.filter_map(own).push(v));
        },
        None => {
            assert(front.push(p).filter_map(own) =~= front.filter_map(own));
        },
    }
}

/// The last invite of a query counts, and taking it out leaves what would be left
/// without it.
pub proof fn law_the_last_invite_counts(path: Seq<char>, query: Seq<char>, t: Seq<char>)
    requires
        seqs::lacks(path, '?'),
        seqs::lacks(t, '&'),
    ensures
        gate::query_token(with_query(path, query + seq!['&'] + pair("h5i"@, t))) == Some(t),
        gate::clean(with_query(path, query + seq!['&'] + pair("h5i"@, t))) == gate::clean(
            with_query(path, query),
        ),
{
    let p = pair("h5i"@, t);
    reveal_strlit("h5i");
    lemma_own_pair(t);
    assert forall|j: int| 0 <= j < p.len() implies p[j] != '&' by {
        if j >= 4 {
            assert(p[j] == t[j - 4]);
        }
    }
    lemma_added(path, query, p);
}

/// A pair that is the app's own changes nothing of an invite, and stands behind
/// what was left.
pub proof fn law_a_pair_of_the_app_stays(path: Seq<char>, query: Seq<char>, p: Seq<char>)
    requires
        seqs::lacks(path, '?'),
        seqs::lacks(p, '&'),
        !gate::is_share_pair(p),
    ensures
        gate::query_token(with_query(path, query + seq!['&'] + p)) == gate::query_token(
            with_query(path, query),
        ),
        gate::clean(with_query(path, query + seq!['&'] + p)) == (if gate::clean(
            with_query(path, query),
        ) == path {
            with_query(path, p)
        } else {
            gate::clean(with_query(path, query)) + seq!['&'] + p
        }),
{
    lemma_added(path, query, p);
    lemma_parted(path, '?', query);
    let kept = gate::kept_pairs(query);
    if kept.len() == 0 {
        assert(seqs::join(kept.push(p), seq!['&']) == p);
    } else {
        assert(kept.push(p).drop_last() =~= kept);
        let j = seqs::join(kept, seq!['&']);
        assert((path + seq!['?'] + j).len() > path.len());
        assert(path + seq!['?'] + (j + seq!['&'] + p) =~= path + seq!['?'] + j + seq!['&'] + p);
    }
}

proof fn lemma_added(path: Seq<char>, query: Seq<char>, p: Seq<char>)
    requires
        seqs::lacks(path, '?'),
        seqs::lacks(p, '&'),
    ensures
        ({
            let more = with_query(path, query + seq!['&'] + p);
            &&& gate::query_token(more) == (match gate::share_value(p) {
                Some(v) => Some(v),
                None => gate::query_token(with_query(path, query)),
            })
            &&& gate::is_share_pair(p) ==> gate::clean(more) == gate::clean(
                with_query(path, query),
            )
            &&& !gate::is_share_pair(p) ==> gate::clean(more) == path + seq!['?'] + seqs::join(
                gate::kept_pairs(query).push(p),
                seq!['&'],
            )
        }),
{
    lemma_parted(path, '?', query);
    lemma_parted(path, '?', query + seq!['&'] + p);
    seqs::lemma_split_whole(p, '&');
    seqs::lemma_split_at(query, '&', p);
    let all = seqs::split(query, '&');
    let other = |p: Seq<char>| !gate::is_share_pair(p);
    assert(all + seq![p] =~= all.push(p));
    all.lemma_filter_push(p, other);
    lemma_one_value(all, p);
}

/// A letter of ASCII or a digit.
pub open spec fn is_letter_or_digit(c: char) -> bool {
    ('0' <= c && c <= '9') || ('A' <= c && c <= 'Z') || ('a' <= c && c <= 'z')
}

/// A credential that is worth weighing is one to 128 letters and digits.
pub proof fn law_a_credential_is_letters_and_digits(token: &[char], r: bool)
    requires
        call_ensures(gate::plausible, (token,), r),
    ensures
        r <==> 1 <= token@.len() <= 128 && forall|i: int|
            0 <= i < token@.len() ==> is_letter_or_digit(#[trigger] token@[i]),
{
    if 1 <= token@.len() <= 128 && forall|i: int|
        0 <= i < token@.len() ==> is_letter_or_digit(#[trigger] token@[i]) {
        assert forall|i: int| 0 <= i < token@.len() implies text::is_alphanumeric(
            #[trigger] token@[i],
        ) by {
            assert(is_letter_or_digit(token@[i]));
        }
    }
}

/// The share's cookie, wherever it stands, is read; the last one of a header
/// counts.
pub proof fn law_the_last_cookie_of_the_name_counts(
    value: Seq<char>,
    name: Seq<char>,
    t: Seq<char>,
)
    requires
        name.len() > 0,
        text::is_trimmed(name),
        text::is_trimmed(t),
        t.len() > 0,
        seqs::lacks(name, '='),
        seqs::lacks(name, ';'),
        seqs::lacks(t, ';'),
    ensures
        gate::our_cookie(pair(name, t), name) == Some(t),
        gate::our_cookie(value + seq![';'] + (seq![' '] + pair(name, t)), name) == Some(t),
{
    let c = pair(name, t);
    lemma_parted(name, '=', t);
    text::lemma_trim_same(name);
    text::lemma_trim_same(t);
    assert(c[0] == name[0] && c.last() == t.last());
    text::lemma_trim_same(c);
    text::lemma_trim_space(c);
    assert forall|j: int| 0 <= j < c.len() implies c[j] != ';' by {
        if j < name.len() {
            assert(c[j] == name[j]);
        } else if j > name.len() {
            assert(c[j] == t[j - name.len() - 1]);
        }
    }
    let spaced = seq![' '] + c;
    assert forall|j: int| 0 <= j < spaced.len() implies spaced[j] != ';' by {
        if j > 0 {
            assert(spaced[j] == c[j - 1]);
        }
    }
    lemma_cookie_added(Seq::empty(), name, c);
    let none = Seq::<Seq<char>>::empty();
    seqs::lemma_split_whole(c, ';');
    assert(seq![c] =~= none.push(c));
    seqs::lemma_split_whole(spaced, ';');
    seqs::lemma_split_at(value, ';', spaced);
    lemma_cookie_added(seqs::split(value, ';'), name, spaced);
    assert(seqs::split(value, ';') + seq![spaced] =~= seqs::split(value, ';').push(spaced));
}

/// A cookie of another name changes nothing of it.
pub proof fn law_another_cookie_is_not_ours(
    value: Seq<char>,
    name: Seq<char>,
    other: Seq<char>,
    t: Seq<char>,
)
    requires
        other != name,
        other.len() > 0,
        t.len() > 0,
        text::is_trimmed(other),
        text::is_trimmed(t),
        seqs::lacks(other, '='),
        seqs::lacks(other, ';'),
        seqs::lacks(t, ';'),
    ensures
        gate::our_cookie(value + seq![';'] + pair(other, t), name) == gate::our_cookie(value, name),
{
    let c = pair(other, t);
    lemma_parted(other, '=', t);
    text::lemma_trim_same(other);
    assert(c[0] == other[0] && c.last() == t.last());
    text::lemma_trim_same(c);
    assert forall|j: int| 0 <= j < c.len() implies c[j] != ';' by {
        if j < other.len() {
            assert(c[j] == other[j]);
        } else if j > other.len() {
            assert(c[j] == t[j - other.len() - 1]);
        }
    }
    seqs::lemma_split_whole(c, ';');
    seqs::lemma_split_at(value, ';', c);
    lemma_cookie_added(seqs::split(value, ';'), name, c);
    assert(seqs::split(value, ';') + seq![c] =~= seqs::split(value, ';').push(c));
}

proof fn lemma_cookie_added(parts: Seq<Seq<char>>, name: Seq<char>, c: Seq<char>)
    ensures
        ({
            let trim = |c: Seq<char>| text::trim(c);
            let ours = |c: Seq<char>| gate::cookie_value(c, name);
            gate::last_of(parts.push(c).map_values(trim).filter_map(ours)) == (
            match gate::cookie_value(text::trim(c), name) {
                Some(v) => Some(v),
                None => gate::last_of(parts.map_values(trim).filter_map(ours)),
            })
        }),
{
    let trim = |c: Seq<char>| text::trim(c);
    let ours = |c: Seq<char>| gate::cookie_value(c, name);
    let front = parts.map_values(trim);
    let all = parts.push(c).map_values(trim);
    reveal(Seq::filter_map);
    assert(all =~= front.push(text::trim(c)));
    assert(all.drop_last() =~= front);
    match ours(text::trim(c)) {
        Some(v) => {
            assert(all.filter_map(ours) =~= front.filter_map(ours).push(v));
        },
        None => {
            assert(all.filter_map(ours) =~= front.filter_map(ours));
        },
    }
}

/// The first of these that holds our cookie.
pub open spec fn is_first_cookie(values: Seq<Seq<char>>, name: Seq<char>, i: int) -> bool {
    0 <= i < values.len() && gate::our_cookie(values[i], name) is Some && forall|j: int|
        0 <= j < i ==> gate::our_cookie(#[trigger] values[j], name) is None
}

proof fn lemma_first_cookie(values: Seq<Seq<char>>, name: Seq<char>, i: int)
    requires
        is_first_cookie(values, name, i),
    ensures
        gate::cookie_token(values, name) == gate::our_cookie(values[i], name),
    decreases values.len(),
{
    if i > 0 {
        assert(gate::our_cookie(values[0], name) is None);
        let rest = values.skip(1);
        assert forall|j: int| 0 <= j < i - 1 implies gate::our_cookie(
            #[trigger] rest[j],
            name,
        ) is None by {
            assert(rest[j] == values[j + 1]);
        }
        assert(rest[i - 1] == values[i]);
        lemma_first_cookie(rest, name, i - 1);
    }
}

proof fn lemma_no_cookie(values: Seq<Seq<char>>, name: Seq<char>)
    requires
        forall|j: int|
            0 <= j < values.len() ==> gate::our_cookie(#[trigger] values[j], name) is None,
    ensures
        gate::cookie_token(values, name) is None,
    decreases values.len(),
{
    if values.len() > 0 {
        let rest = values.skip(1);
        assert forall|j: int| 0 <= j < rest.len() implies gate::our_cookie(
            #[trigger] rest[j],
            name,
        ) is None by {
            assert(rest[j] == values[j + 1]);
        }
        lemma_no_cookie(rest, name);
    }
}

/// The credential of a request is its invite, if that could be one; else the
/// share's cookie, of the first header that has it, if that could be one; else
/// there is none.
pub proof fn law_the_invite_comes_before_the_cookie(
    head: &str,
    cookie: &str,
    r: Option<Request>,
    i: int,
)
    requires
        call_ensures(gate::parse, (head, cookie), r),
    ensures
        r matches Some(req) ==> {
            let values = said(gate::header_lines(head@), "cookie"@);
            let invite = gate::query_token(req.target@);
            &&& req.clean_target@ == gate::clean(req.target@)
            &&& req.from_query <==> invite is Some && gate::is_plausible(invite->0)
            &&& req.from_query ==> text::maybe(req.token) == invite
            &&& !req.from_query && is_first_cookie(values, cookie@, i) ==> text::maybe(req.token)
                == (if gate::is_plausible(gate::our_cookie(values[i], cookie@)->0) {
                gate::our_cookie(values[i], cookie@)
            } else {
                None
            })
            &&& !req.from_query && (forall|j: int|
                0 <= j < values.len() ==> gate::our_cookie(#[trigger] values[j], cookie@) is None)
                ==> req.token is None
        },
{
    if let Some(req) = r {
        let headers = gate::header_lines(head@);
        request_laws::lemma_said(headers, "cookie"@);
        let values = said(headers, "cookie"@);
        if is_first_cookie(values, cookie@, i) {
            lemma_first_cookie(values, cookie@, i);
        }
        if forall|j: int|
            0 <= j < values.len() ==> gate::our_cookie(#[trigger] values[j], cookie@) is None {
            lemma_no_cookie(values, cookie@);
        }
        assert(req@.token == text::maybe(req.token));
    }
}

} // verus!
