//! What holds of every request that is forwarded.
use vstd::prelude::*;

use crate::gate;
use crate::gate::RequestView;
use crate::seqs;
use crate::text;

verus! {

/// Only the characters that a piece of a target may hold.
proof fn lemma_kept_pairs(query: Seq<char>)
    ensures
        forall|i: int| 0 <= i < gate::kept_pairs(query).len() ==> {
            let p = #[trigger] gate::kept_pairs(query)[i];
            &&& !gate::is_share_pair(p)
            &&& seqs::lacks(p, '&')
            &&& forall|c: char| p.contains(c) ==> query.contains(c)
        },
{
    let all = seqs::split(query, '&');
    let keep = |p: Seq<char>| !gate::is_share_pair(p);
    seqs::lemma_filter_holds(all, keep);
    seqs::lemma_split_pieces(query, '&');
    assert forall|i: int| 0 <= i < gate::kept_pairs(query).len() implies {
        let p = #[trigger] gate::kept_pairs(query)[i];
        &&& !gate::is_share_pair(p)
        &&& seqs::lacks(p, '&')
        &&& forall|c: char| p.contains(c) ==> query.contains(c)
    } by {
        let p = all.filter(keep)[i];
        assert(keep(p) && all.contains(p));
        let m = choose|m: int| 0 <= m < all.len() && all[m] == p;
        assert(seqs::lacks(all[m], '&'));
        assert forall|c: char| p.contains(c) implies query.contains(c) by {
            let j = choose|j: int| 0 <= j < p.len() && p[j] == c;
            assert(query.contains(all[m][j]));
        }
    }
}

/// What a cleaned target holds stood in the target.
pub proof fn law_cleaning_adds_nothing(target: Seq<char>, c: char)
    requires
        gate::clean(target).contains(c),
        c != '&',
    ensures
        target.contains(c),
{
    match seqs::split_once(target, '?') {
        Some((path, query)) => {
            seqs::lemma_find(target, '?');
            let i = seqs::find(target, '?') as int;
            lemma_kept_pairs(query);
            let kept = gate::kept_pairs(query);
            let out = gate::clean(target);
            let k = choose|k: int| 0 <= k < out.len() && out[k] == c;
            if kept.len() == 0 {
                assert(target[k] == c);
            } else {
                let joined = seqs::join(kept, seq!['&']);
                if k < path.len() {
                    assert(target[k] == c);
                } else if k == path.len() {
                    assert(target[i] == c);
                } else {
                    assert(joined[k - path.len() - 1] == c);
                    seqs::lemma_join_holds(kept, seq!['&'], c);
                    assert(!seq!['&'].contains(c));
                    let m = choose|m: int| 0 <= m < kept.len() && (#[trigger] kept[m]).contains(c);
                    assert(query.contains(c));
                    let j = choose|j: int| 0 <= j < query.len() && query[j] == c;
                    assert(target[j + i + 1] == c);
                }
            }
        },
        None => {},
    }
}

/// A cleaned target carries no credential, and cleaning it again changes
/// nothing.
pub proof fn law_cleaned_target_carries_no_credential(target: Seq<char>)
    ensures
        gate::query_token(gate::clean(target)) is None,
        gate::clean(gate::clean(target)) == gate::clean(target),
{
    let out = gate::clean(target);
    let take = |p: Seq<char>| gate::share_value(p);
    match seqs::split_once(target, '?') {
        Some((path, query)) => {
            seqs::lemma_find(target, '?');
            let i = seqs::find(target, '?') as int;
            let kept = gate::kept_pairs(query);
            lemma_kept_pairs(query);
            assert forall|j: int| 0 <= j < path.len() implies path[j] != '?' by {
                assert(path[j] == target[j]);
            }
            if kept.len() == 0 {
                seqs::lemma_find_is(path, '?', path.len() as int);
                assert(seqs::split_once(path, '?') is None);
            } else {
                let joined = seqs::join(kept, seq!['&']);
                assert forall|j: int| 0 <= j < path.len() implies out[j] != '?' by {
                    assert(out[j] == path[j]);
                }
                assert(out[path.len() as int] == '?');
                seqs::lemma_find_is(out, '?', path.len() as int);
                assert(out.take(path.len() as int) == path);
                assert(out.skip(path.len() as int + 1) == joined);
                seqs::lemma_split_join(kept, '&');
                let keep = |p: Seq<char>| !gate::is_share_pair(p);
                assert forall|j: int| 0 <= j < kept.len() implies keep(#[trigger] kept[j]) by {}
                seqs::lemma_filter_all(kept, keep);
                assert(gate::kept_pairs(joined) == kept);
                assert forall|j: int| 0 <= j < kept.len() implies take(#[trigger] kept[j]) is None by {}
                seqs::lemma_filter_map_none(kept, take);
            }
        },
        None => {},
    }
}

/// The rest of the query is left alone: a target without the share's parameter
/// is its own cleaned form, and in one with it every other part stays, in its
/// place.
pub proof fn law_the_rest_of_the_query_is_left_alone(target: Seq<char>)
    ensures
        match seqs::split_once(target, '?') {
            None => gate::clean(target) == target,
            Some((path, query)) => {
                let kept = gate::kept_pairs(query);
                &&& untouched_query(query) ==> gate::clean(target) == target
                &&& kept.len() > 0 ==> match seqs::split_once(gate::clean(target), '?') {
                    Some((p, q)) => p == path && seqs::split(q, '&') == kept,
                    None => false,
                }
                &&& kept.len() == 0 ==> gate::clean(target) == path
            },
        },
{
    match seqs::split_once(target, '?') {
        Some((path, query)) => {
            if gate::kept_pairs(query).len() > 0 {
                lemma_cleaned_query(target, path, query);
            }
            if untouched_query(query) {
                lemma_untouched_query(target, path, query);
            }
        },
        None => {},
    }
}

/// No part of this query is the share's own.
pub open spec fn untouched_query(query: Seq<char>) -> bool {
    let all = seqs::split(query, '&');
    forall|i: int| 0 <= i < all.len() ==> !gate::is_share_pair(#[trigger] all[i])
}

/// The query of a cleaned target is the parts that stayed.
proof fn lemma_cleaned_query(target: Seq<char>, path: Seq<char>, query: Seq<char>)
    requires
        seqs::split_once(target, '?') == Some((path, query)),
        gate::kept_pairs(query).len() > 0,
    ensures
        ({
            let joined = seqs::join(gate::kept_pairs(query), seq!['&']);
            &&& seqs::split_once(gate::clean(target), '?') == Some((path, joined))
            &&& seqs::split(joined, '&') == gate::kept_pairs(query)
        }),
{
    seqs::lemma_find(target, '?');
    let kept = gate::kept_pairs(query);
    let joined = seqs::join(kept, seq!['&']);
    let out = gate::clean(target);
    lemma_kept_pairs(query);
    assert(out == path + seq!['?'] + joined);
    assert forall|j: int| 0 <= j < path.len() implies out[j] != '?' by {
        assert(out[j] == path[j] && path[j] == target[j]);
    }
    assert(out[path.len() as int] == '?');
    seqs::lemma_find_is(out, '?', path.len() as int);
    assert(out.take(path.len() as int) == path);
    assert(out.skip(path.len() as int + 1) == joined);
    seqs::lemma_split_join(kept, '&');
}

/// A query with nothing of the share's in it stays whole.
proof fn lemma_untouched_query(target: Seq<char>, path: Seq<char>, query: Seq<char>)
    requires
        seqs::split_once(target, '?') == Some((path, query)),
        untouched_query(query),
    ensures
        gate::clean(target) == target,
{
    let all = seqs::split(query, '&');
    let keep = |p: Seq<char>| !gate::is_share_pair(p);
    seqs::lemma_find(target, '?');
    assert(target =~= path + seq!['?'] + query);
    assert forall|j: int| 0 <= j < all.len() implies keep(#[trigger] all[j]) by {}
    seqs::lemma_filter_all(all, keep);
    assert(gate::kept_pairs(query) == all);
    seqs::lemma_split_len(query, '&');
    seqs::lemma_join_split(query, '&');
}

/// A redirect stays on this origin: what it points at begins with a slash, and
/// not with two or with a slash and a backslash.
pub proof fn law_redirect_stays_on_this_origin(target: Seq<char>)
    ensures
        gate::on_this_origin(
            if gate::on_this_origin(target) {
                target
            } else {
                seq!['/']
            },
        ),
{
}

/// The cookie that a loopback proxy uses is one of the share's own, whatever
/// its port.
pub proof fn law_port_cookies_are_share_cookies(port: u16)
    requires
        port != 0,
    ensures
        gate::share_cookie_name(gate::port_cookie(port)),
{
}

/// Where a redirect points is one word: it cannot break out of its header.
pub proof fn law_redirect_is_one_word(head: Seq<char>, cookie: Seq<char>)
    requires
        gate::parsed(head, cookie) is Some,
    ensures
        text::is_solid(gate::parsed(head, cookie)->0.clean_target),
{
    let first = gate::head_lines(head)[0];
    let target = text::words(first)[1];
    let clean = gate::clean(target);
    text::lemma_words(first);
    assert forall|i: int| 0 <= i < clean.len() implies !text::is_white(#[trigger] clean[i]) by {
        assert(clean.contains(clean[i]));
        if clean[i] != '&' {
            law_cleaning_adds_nothing(target, clean[i]);
            let m = choose|m: int| 0 <= m < target.len() && target[m] == clean[i];
            assert(!text::is_white(target[m]));
        }
    }
}

/// No part of a line ending.
pub open spec fn unbroken(s: Seq<char>) -> bool {
    seqs::lacks(s, '\r') && seqs::lacks(s, '\n')
}

/// The lines of a text whose line endings are all whole hold no part of one.
proof fn lemma_lines_unbroken(s: Seq<char>)
    requires
        gate::line_ends_agree(s, '\r', '\n'),
    ensures
        forall|i: int|
            0 <= i < gate::head_lines(s).len() ==> unbroken(#[trigger] gate::head_lines(s)[i]),
    decreases s.len(),
{
    let pat = gate::crlf();
    seqs::lemma_find_seq(s, pat, 0);
    let n = match seqs::find_seq(s, pat, 0) {
        Some(i) => i,
        None => s.len() as int,
    };
    assert forall|j: int| 0 <= j < s.len() && s[j] == '\r' implies seqs::occurs_at(s, pat, j) by {
        assert(gate::no_half_line_end(s, '\r', '\n', j));
        assert(s.subrange(j, j + 2) == pat);
    }
    let first = s.take(n);
    assert(unbroken(first)) by {
        assert forall|j: int| 0 <= j < first.len() implies first[j] != '\r' && first[j] != '\n' by {
            assert(first[j] == s[j]);
            if s[j] == '\r' {
                assert(seqs::occurs_at(s, pat, j));
            }
            if s[j] == '\n' {
                assert(gate::no_half_line_end(s, '\r', '\n', j));
                assert(seqs::occurs_at(s, pat, j - 1));
            }
        }
    }
    match seqs::find_seq(s, pat, 0) {
        Some(i) => {
            let rest = s.skip(i + 2);
            assert(s.subrange(i, i + 2)[1] == '\n');
            assert forall|j: int| 0 <= j < rest.len() implies #[trigger] gate::no_half_line_end(
                rest,
                '\r',
                '\n',
                j,
            ) by {
                assert(gate::no_half_line_end(s, '\r', '\n', j + i + 2));
                assert(rest[j] == s[j + i + 2]);
                if j + 1 < rest.len() {
                    assert(rest[j + 1] == s[j + i + 3]);
                }
                if j > 0 {
                    assert(rest[j - 1] == s[j + i + 1]);
                }
            }
            lemma_lines_unbroken(rest);
            assert forall|k: int| 0 <= k < gate::head_lines(s).len() implies unbroken(
                #[trigger] gate::head_lines(s)[k],
            ) by {
                if k > 0 {
                    assert(gate::head_lines(s)[k] == gate::head_lines(rest)[k - 1]);
                } else {
                    assert(gate::head_lines(s)[0] == first);
                }
            }
        },
        None => {
            assert(first == s);
        },
    }
}

/// A line and its line ending are the first line of what they begin.
proof fn lemma_split_line(l: Seq<char>, rest: Seq<char>)
    requires
        unbroken(l),
    ensures
        gate::head_lines(l + gate::crlf() + rest) == seq![l] + gate::head_lines(rest),
{
    let s = l + gate::crlf() + rest;
    let n = l.len() as int;
    assert(s.subrange(n, n + 2) == gate::crlf());
    assert forall|j: int| 0 <= j < n implies !seqs::occurs_at(s, gate::crlf(), j) by {
        if seqs::occurs_at(s, gate::crlf(), j) {
            assert(s.subrange(j, j + 2)[0] == '\r');
            assert(l[j] == '\r');
        }
    }
    seqs::lemma_find_seq_is(s, gate::crlf(), 0, Some(n));
    assert(s.take(n) == l);
    assert(s.skip(n + 2) == rest);
}

/// Ended lines are the first lines of what they begin.
proof fn lemma_split_ended(lines: Seq<Seq<char>>, rest: Seq<char>)
    requires
        forall|i: int| 0 <= i < lines.len() ==> unbroken(#[trigger] lines[i]),
    ensures
        gate::head_lines(gate::ended(lines) + rest) == lines + gate::head_lines(rest),
    decreases lines.len(),
{
    if lines.len() == 0 {
        assert(gate::ended(lines) + rest == rest);
        assert(lines + gate::head_lines(rest) == gate::head_lines(rest));
    } else {
        let front = lines.drop_last();
        let last = lines.last();
        assert forall|i: int| 0 <= i < front.len() implies unbroken(#[trigger] front[i]) by {
            assert(front[i] == lines[i]);
        }
        assert(front.push(last) == lines);
        gate::lemma_ended_push(front, last);
        let more = last + gate::crlf() + rest;
        assert(gate::ended(lines) + rest == gate::ended(front) + more);
        lemma_split_ended(front, more);
        lemma_split_line(last, rest);
        assert(front + (seq![last] + gate::head_lines(rest)) == lines + gate::head_lines(rest));
    }
}

/// The line that forces a connection to close.
pub open spec fn close_line() -> Seq<char> {
    "Connection: close"@
}

/// The header lines of the head that goes to the box.
pub open spec fn sent_headers(
    head: Seq<char>,
    req: RequestView,
    app: Option<Set<Seq<char>>>,
) -> Seq<Seq<char>> {
    gate::forwarded_lines(head, req, app) + (if req.upgrade {
        Seq::empty()
    } else {
        seq![close_line()]
    })
}

/// The segments of a `Cookie` value that go to the box.
pub open spec fn sent_segments(value: Seq<char>, app: Option<Set<Seq<char>>>) -> Seq<Seq<char>> {
    gate::cookie_segments(value).filter(|c: Seq<char>| gate::goes_upstream(c, app))
}

/// Segments that go to the box are trimmed, not empty, and made of the value.
pub proof fn lemma_sent_segments(value: Seq<char>, app: Option<Set<Seq<char>>>)
    ensures
        forall|i: int| 0 <= i < sent_segments(value, app).len() ==> {
            let c = #[trigger] sent_segments(value, app)[i];
            &&& c.len() > 0
            &&& text::is_trimmed(c)
            &&& gate::goes_upstream(c, app)
            &&& seqs::lacks(c, ';')
            &&& forall|x: char| c.contains(x) ==> value.contains(x)
        },
{
    let parts = seqs::split(value, ';');
    let all = gate::cookie_segments(value);
    let keep = |c: Seq<char>| gate::goes_upstream(c, app);
    seqs::lemma_filter_holds(all, keep);
    seqs::lemma_split_pieces(value, ';');
    assert forall|i: int| 0 <= i < sent_segments(value, app).len() implies {
        let c = #[trigger] sent_segments(value, app)[i];
        &&& c.len() > 0
        &&& text::is_trimmed(c)
        &&& gate::goes_upstream(c, app)
        &&& seqs::lacks(c, ';')
        &&& forall|x: char| c.contains(x) ==> value.contains(x)
    } by {
        let c = all.filter(keep)[i];
        assert(keep(c) && all.contains(c));
        let m = choose|m: int| 0 <= m < all.len() && all[m] == c;
        text::lemma_trim(parts[m]);
        assert(c == text::trim(parts[m]));
        assert(seqs::lacks(parts[m], ';'));
        assert forall|x: char| c.contains(x) implies value.contains(x) by {
            assert(parts[m].contains(x));
            let j = choose|j: int| 0 <= j < parts[m].len() && parts[m][j] == x;
            assert(value.contains(parts[m][j]));
        }
        assert(seqs::lacks(c, ';')) by {
            assert forall|j: int| 0 <= j < c.len() implies c[j] != ';' by {
                assert(c.contains(c[j]));
                assert(parts[m].contains(c[j]));
                let k = choose|k: int| 0 <= k < parts[m].len() && parts[m][k] == c[j];
                assert(parts[m][k] != ';');
            }
        }
        if c.len() == 0 {
            seqs::lemma_find(c, '=');
            assert(seqs::split_once(c, '=') is None);
        }
    }
}

/// Trimmed segments joined by `; ` are trimmed, and are the segments of what
/// they make.
proof fn lemma_joined_segments(segs: Seq<Seq<char>>)
    requires
        segs.len() > 0,
        forall|i: int| 0 <= i < segs.len() ==> {
            let c = #[trigger] segs[i];
            c.len() > 0 && text::is_trimmed(c) && seqs::lacks(c, ';')
        },
    ensures
        ({
            let all = seqs::join(segs, seq![';', ' ']);
            &&& all.len() > 0
            &&& text::is_trimmed(all)
            &&& gate::cookie_segments(all) == segs
        }),
    decreases segs.len(),
{
    let f = |c: Seq<char>| text::trim(c);
    let last = segs.last();
    assert(last == segs[segs.len() - 1]);
    if segs.len() == 1 {
        assert(segs[0] == last);
        seqs::lemma_split_whole(last, ';');
        text::lemma_trim_same(last);
        assert(gate::cookie_segments(last) == segs);
    } else {
        let front = segs.drop_last();
        assert forall|i: int| 0 <= i < front.len() implies {
            let c = #[trigger] front[i];
            c.len() > 0 && text::is_trimmed(c) && seqs::lacks(c, ';')
        } by {
            assert(front[i] == segs[i]);
        }
        lemma_joined_segments(front);
        let before = seqs::join(front, seq![';', ' ']);
        let spaced = seq![' '] + last;
        let all = seqs::join(segs, seq![';', ' ']);
        assert(all == before + seq![';'] + spaced);
        seqs::lemma_split_at(before, ';', spaced);
        assert(seqs::lacks(spaced, ';')) by {
            assert forall|i: int| 0 <= i < spaced.len() implies spaced[i] != ';' by {
                if i > 0 {
                    assert(spaced[i] == last[i - 1]);
                }
            }
        }
        seqs::lemma_split_whole(spaced, ';');
        text::lemma_trim_space(last);
        assert(gate::cookie_segments(all) == (seqs::split(before, ';') + seq![spaced]).map_values(f));
        assert(gate::cookie_segments(all) =~= gate::cookie_segments(before) + seq![last]);
        assert(front + seq![last] == segs);
        assert(all[0] == before[0]);
        assert(all.last() == last.last());
    }
}

/// A rewritten `Cookie` line is one header in one line, and its segments are
/// those that may go to the box.
pub proof fn lemma_cookie_line(value: Seq<char>, app: Option<Set<Seq<char>>>)
    requires
        gate::kept_cookies(value, app).len() > 0,
    ensures
        ({
            let kept = gate::kept_cookies(value, app);
            let line = "Cookie: "@ + kept;
            &&& seqs::split_once(line, ':') == Some(("Cookie"@, seq![' '] + kept))
            &&& text::trim(seq![' '] + kept) == kept
            &&& gate::unambiguous(line)
            &&& gate::cookie_segments(kept) == sent_segments(value, app)
            &&& (unbroken(value) ==> unbroken(line))
        }),
{
    reveal_strlit("Cookie: ");
    reveal_strlit("Cookie");
    let segs = sent_segments(value, app);
    let kept = gate::kept_cookies(value, app);
    lemma_sent_segments(value, app);
    assert(segs.len() > 0);
    lemma_joined_segments(segs);
    text::lemma_trim_space(kept);
    let line = "Cookie: "@ + kept;
    assert forall|j: int| 0 <= j < 6 implies line[j] != ':' by {}
    assert(line[6] == ':');
    seqs::lemma_find_is(line, ':', 6);
    assert(line.take(6) == "Cookie"@);
    assert(line.skip(7) == seq![' '] + kept);
    assert forall|i: int| 0 <= i < "Cookie"@.len() implies gate::tchar(#[trigger] "Cookie"@[i]) by {}
    if unbroken(value) {
        assert forall|j: int| 0 <= j < line.len() implies line[j] != '\r' && line[j] != '\n' by {
            if j >= 8 {
                let x = kept[j - 8];
                assert(line[j] == x);
                assert(kept.contains(x));
                seqs::lemma_join_holds(segs, seq![';', ' '], x);
                if seq![';', ' '].contains(x) {
                } else {
                    let m = choose|m: int| 0 <= m < segs.len() && (#[trigger] segs[m]).contains(x);
                    assert(value.contains(x));
                }
            }
        }
    }
}

/// A header name that is neither dropped nor rewritten.
pub open spec fn untouched(name: Seq<char>, req: RequestView) -> bool {
    text::lowered(name) != text::lowered("cookie"@) && !gate::held_back(name, req)
}

/// `Cookie` is `cookie`, letter case aside.
pub proof fn lemma_cookie_name()
    ensures
        text::lowered(text::trim("Cookie"@)) == text::lowered("cookie"@),
{
    reveal_strlit("Cookie");
    reveal_strlit("cookie");
    text::lemma_trim_same("Cookie"@);
    assert(text::lowered("Cookie"@) =~= text::lowered("cookie"@));
}

/// What the line that forces a close is as a header.
pub proof fn lemma_close_line(name: Seq<char>)
    ensures
        gate::header_value(close_line(), name) == if text::lowered(name) == text::lowered(
            "connection"@,
        ) {
            Some("close"@)
        } else {
            None
        },
        gate::unambiguous(close_line()),
        unbroken(close_line()),
        close_line().len() > 0,
{
    reveal_strlit("Connection: close");
    reveal_strlit("connection");
    reveal_strlit("close");
    let l = close_line();
    let k = l.take(10);
    seqs::lemma_find_is(l, ':', 10);
    text::lemma_trim_same(k);
    assert(text::lowered(k) =~= text::lowered("connection"@));
    assert(l.skip(11) =~= seq![' '] + "close"@);
    text::lemma_trim_space("close"@);
    assert forall|i: int| 0 <= i < k.len() implies gate::tchar(#[trigger] k[i]) by {}
}

/// A `Cookie` value whose segments may all go to the box.
pub open spec fn only_goes_upstream(value: Seq<char>, app: Option<Set<Seq<char>>>) -> bool {
    forall|i: int|
        0 <= i < gate::cookie_segments(value).len() ==> gate::goes_upstream(
            #[trigger] gate::cookie_segments(value)[i],
            app,
        )
}

/// What is sent of one header line.
proof fn lemma_forwarded_line(l: Seq<char>, req: RequestView, app: Option<Set<Seq<char>>>, name: Seq<
    char,
>)
    requires
        l.len() > 0,
        gate::unambiguous(l),
        unbroken(l),
    ensures
        match gate::forwarded_line(l, req, app) {
            Some(m) => {
                &&& m.len() > 0
                &&& unbroken(m)
                &&& gate::unambiguous(m)
                &&& (untouched(name, req) ==> gate::header_value(m, name) == gate::header_value(
                    l,
                    name,
                ))
                &&& (gate::held_back(name, req) ==> gate::header_value(m, name) is None)
                &&& match gate::header_value(m, "cookie"@) {
                    Some(v) => only_goes_upstream(v, app),
                    None => true,
                }
            },
            None => untouched(name, req) ==> gate::header_value(l, name) is None,
        },
{
    let (k, v) = seqs::split_once(l, ':')->0;
    seqs::lemma_find(l, ':');
    lemma_cookie_name();
    if text::lowered(text::trim(k)) == text::lowered("cookie"@) {
        let value = text::trim(v);
        let kept = gate::kept_cookies(value, app);
        if kept.len() > 0 {
            lemma_cookie_line(value, app);
            lemma_sent_segments(value, app);
            assert(unbroken(value)) by {
                text::lemma_trim(v);
                assert forall|j: int| 0 <= j < value.len() implies value[j] != '\r' && value[j]
                    != '\n' by {
                    assert(value.contains(value[j]));
                    assert(v.contains(value[j]));
                    let m = choose|m: int| 0 <= m < v.len() && v[m] == value[j];
                    assert(l[m + k.len() + 1] == value[j]);
                }
            }
            lemma_not_cookie_and_held_back(req);
            if gate::held_back(name, req) {
                lemma_held_back_by_case(name, "cookie"@, req);
            }
        }
    } else {
        if gate::held_back(name, req) && text::lowered(text::trim(k)) == text::lowered(name) {
            lemma_held_back_by_case(name, text::trim(k), req);
        }
        if gate::held_back(text::trim(k), req) && text::lowered(text::trim(k)) == text::lowered(
            name,
        ) {
            lemma_held_back_by_case(text::trim(k), name, req);
        }
    }
}

/// Whether a header is held back does not depend on letter case.
proof fn lemma_held_back_by_case(a: Seq<char>, b: Seq<char>, req: RequestView)
    ensures
        text::lowered(a) == text::lowered(b) ==> gate::held_back(a, req) == gate::held_back(b, req),
{
}

/// Two texts of different length differ, letter case aside.
pub proof fn lemma_other_length(a: Seq<char>, b: Seq<char>)
    requires
        a.len() != b.len(),
    ensures
        text::lowered(a) != text::lowered(b),
{
    assert(text::lowered(a).len() != text::lowered(b).len());
}

/// `Cookie` is not among the headers that are held back.
proof fn lemma_not_cookie_and_held_back(req: RequestView)
    ensures
        !gate::held_back("cookie"@, req),
{
    reveal_strlit("cookie");
    reveal_strlit("cf-connecting-ip");
    reveal_strlit("cf-connecting-ipv6");
    reveal_strlit("cf-ipcountry");
    reveal_strlit("cf-ray");
    reveal_strlit("cf-visitor");
    reveal_strlit("cf-warp-tag-id");
    reveal_strlit("cf-ew-via");
    reveal_strlit("cf-worker");
    reveal_strlit("cdn-loop");
    reveal_strlit("true-client-ip");
    reveal_strlit("x-forwarded-for");
    reveal_strlit("x-real-ip");
    reveal_strlit("forwarded");
    reveal_strlit("expect");
    reveal_strlit("connection");
    reveal_strlit("keep-alive");
    let c = text::lowered("cookie"@);
    assert(c[0] == 'c' && c[1] == 'o');
    assert(text::lowered("cf-ray"@)[1] == 'f');
    assert(text::lowered("expect"@)[0] == 'e');
    lemma_other_length("cookie"@, "cf-connecting-ip"@);
    lemma_other_length("cookie"@, "cf-connecting-ipv6"@);
    lemma_other_length("cookie"@, "cf-ipcountry"@);
    lemma_other_length("cookie"@, "cf-visitor"@);
    lemma_other_length("cookie"@, "cf-warp-tag-id"@);
    lemma_other_length("cookie"@, "cf-ew-via"@);
    lemma_other_length("cookie"@, "cf-worker"@);
    lemma_other_length("cookie"@, "cdn-loop"@);
    lemma_other_length("cookie"@, "true-client-ip"@);
    lemma_other_length("cookie"@, "x-forwarded-for"@);
    lemma_other_length("cookie"@, "x-real-ip"@);
    lemma_other_length("cookie"@, "forwarded"@);
    lemma_other_length("cookie"@, "connection"@);
    lemma_other_length("cookie"@, "keep-alive"@);
}

/// The lines behind the first that the head of a parsed request has.
proof fn lemma_rest_lines(head: Seq<char>)
    requires
        gate::head_is_plain(head),
    ensures
        forall|i: int|
            0 <= i < gate::head_lines(head).skip(1).len() ==> {
                let l = #[trigger] gate::head_lines(head).skip(1)[i];
                unbroken(l) && (l.len() > 0 ==> gate::unambiguous(l))
            },
{
    let ls = gate::head_lines(head).skip(1);
    let keep = |l: Seq<char>| l.len() > 0;
    lemma_lines_unbroken(head);
    assert forall|i: int| 0 <= i < ls.len() implies {
        let l = #[trigger] ls[i];
        unbroken(l) && (l.len() > 0 ==> gate::unambiguous(l))
    } by {
        let l = ls[i];
        assert(l == gate::head_lines(head)[i + 1]);
        if l.len() > 0 {
            ls.lemma_filter_contains(keep, i);
            let hs = gate::header_lines(head);
            assert(hs.contains(l));
            let m = choose|m: int| 0 <= m < hs.len() && hs[m] == l;
            assert(gate::unambiguous(hs[m]));
        }
    }
}

/// The values of an untouched header are the same before and after.
proof fn lemma_untouched_values(
    ls: Seq<Seq<char>>,
    req: RequestView,
    app: Option<Set<Seq<char>>>,
    name: Seq<char>,
)
    requires
        untouched(name, req),
        forall|i: int| 0 <= i < ls.len() ==> {
            let l = #[trigger] ls[i];
            unbroken(l) && (l.len() > 0 ==> gate::unambiguous(l))
        },
    ensures
        gate::values_named(
            ls.filter_map(|l: Seq<char>| gate::forwarded_line(l, req, app)),
            name,
        ) == gate::values_named(ls.filter(|l: Seq<char>| l.len() > 0), name),
    decreases ls.len(),
{
    let f = |l: Seq<char>| gate::forwarded_line(l, req, app);
    let keep = |l: Seq<char>| l.len() > 0;
    let g = |l: Seq<char>| gate::header_value(l, name);
    reveal(Seq::filter);
    if ls.len() > 0 {
        let front = ls.drop_last();
        let l = ls.last();
        assert(l == ls[ls.len() - 1]);
        assert forall|i: int| 0 <= i < front.len() implies {
            let l = #[trigger] front[i];
            unbroken(l) && (l.len() > 0 ==> gate::unambiguous(l))
        } by {
            assert(front[i] == ls[i]);
        }
        lemma_untouched_values(front, req, app, name);
        if l.len() > 0 {
            lemma_forwarded_line(l, req, app, name);
            let kept = front.filter(keep);
            assert(ls.filter(keep) == kept.push(l));
            assert(kept.push(l).drop_last() == kept);
            match f(l) {
                Some(m) => {
                    let sent = front.filter_map(f);
                    assert(ls.filter_map(f) == sent.push(m));
                    assert(sent.push(m).drop_last() == sent);
                },
                None => {},
            }
        }
    }
}

/// What is sent of the header lines of a parsed request: lines that read back,
/// with nothing that is held back, and only the cookies that may go.
proof fn lemma_sent_headers(
    head: Seq<char>,
    req: RequestView,
    app: Option<Set<Seq<char>>>,
    name: Seq<char>,
)
    requires
        gate::head_is_plain(head),
    ensures
        forall|i: int|
            0 <= i < sent_headers(head, req, app).len() ==> {
                let m = #[trigger] sent_headers(head, req, app)[i];
                &&& m.len() > 0
                &&& unbroken(m)
                &&& gate::unambiguous(m)
            },
        untouched(name, req) ==> gate::values_named(sent_headers(head, req, app), name)
            == gate::values_named(gate::header_lines(head), name),
        gate::held_back(name, req) && text::lowered(name) != text::lowered("connection"@)
            ==> gate::values_named(sent_headers(head, req, app), name).len() == 0,
        gate::values_named(gate::forwarded_lines(head, req, app), name).len() == 0
            || !gate::held_back(name, req),
        forall|i: int|
            0 <= i < gate::values_named(sent_headers(head, req, app), "cookie"@).len() ==> {
                let v = #[trigger] gate::values_named(sent_headers(head, req, app), "cookie"@)[i];
                only_goes_upstream(v, app)
            },
{
    let ls = gate::head_lines(head).skip(1);
    let f = |l: Seq<char>| gate::forwarded_line(l, req, app);
    let g = |l: Seq<char>| gate::header_value(l, name);
    let gc = |l: Seq<char>| gate::header_value(l, "cookie"@);
    let fl = gate::forwarded_lines(head, req, app);
    let sent = sent_headers(head, req, app);
    let close = if req.upgrade {
        Seq::empty()
    } else {
        seq![close_line()]
    };
    lemma_rest_lines(head);
    seqs::lemma_filter_map_holds(ls, f);
    lemma_close_line(name);
    lemma_close_line("cookie"@);
    assert forall|i: int| 0 <= i < fl.len() implies {
        let m = #[trigger] fl[i];
        &&& m.len() > 0
        &&& unbroken(m)
        &&& gate::unambiguous(m)
        &&& (gate::held_back(name, req) ==> g(m) is None)
        &&& match gc(m) {
            Some(v) => only_goes_upstream(v, app),
            None => true,
        }
    } by {
        let j = choose|j: int| 0 <= j < ls.len() && f(#[trigger] ls[j]) == Some(fl[i]);
        lemma_forwarded_line(ls[j], req, app, name);
    }
    assert forall|i: int| 0 <= i < sent.len() implies {
        let m = #[trigger] sent[i];
        &&& m.len() > 0
        &&& unbroken(m)
        &&& gate::unambiguous(m)
    } by {
        if i < fl.len() {
            assert(sent[i] == fl[i]);
        } else {
            assert(sent[i] == close_line());
        }
    }
    seqs::lemma_filter_map_concat(fl, close, g);
    seqs::lemma_filter_map_concat(fl, close, gc);
    Seq::<Seq<char>>::lemma_filter_map_singleton(close_line(), g);
    Seq::<Seq<char>>::lemma_filter_map_singleton(close_line(), gc);
    if untouched(name, req) {
        lemma_untouched_values(ls, req, app, name);
        assert(close.filter_map(g) == Seq::<Seq<char>>::empty());
        assert(fl.filter_map(g) + Seq::<Seq<char>>::empty() == fl.filter_map(g));
    }
    if gate::held_back(name, req) {
        seqs::lemma_filter_map_none(fl, g);
    }
    assert(text::lowered("cookie"@) != text::lowered("connection"@)) by {
        reveal_strlit("cookie");
        reveal_strlit("connection");
        lemma_other_length("cookie"@, "connection"@);
    }
    assert(close.filter_map(gc) == Seq::<Seq<char>>::empty());
    assert(sent.filter_map(gc) == fl.filter_map(gc));
    seqs::lemma_filter_map_holds(fl, gc);
    assert forall|i: int|
        0 <= i < gate::values_named(sent, "cookie"@).len() implies {
        let v = #[trigger] gate::values_named(sent, "cookie"@)[i];
        only_goes_upstream(v, app)
    } by {
        let v = fl.filter_map(gc)[i];
        let j = choose|j: int| 0 <= j < fl.len() && gc(#[trigger] fl[j]) == Some(v);
        assert(gc(fl[j]) == Some(v));
    }
}

/// Line endings that are whole stay so when a line is put in front.
proof fn lemma_ends_agree_line(l: Seq<char>, rest: Seq<char>)
    requires
        unbroken(l),
        gate::line_ends_agree(rest, '\r', '\n'),
    ensures
        gate::line_ends_agree(l + gate::crlf() + rest, '\r', '\n'),
{
    let s = l + gate::crlf() + rest;
    let n = l.len() as int;
    assert forall|i: int| 0 <= i < s.len() implies #[trigger] gate::no_half_line_end(
        s,
        '\r',
        '\n',
        i,
    ) by {
        if i < n {
            assert(s[i] == l[i]);
        } else if i < n + 2 {
            assert(s[n] == '\r' && s[n + 1] == '\n');
        } else {
            let j = i - n - 2;
            assert(s[i] == rest[j]);
            assert(gate::no_half_line_end(rest, '\r', '\n', j));
            if j > 0 {
                assert(s[i - 1] == rest[j - 1]);
            }
            if j + 1 < rest.len() {
                assert(s[i + 1] == rest[j + 1]);
            }
        }
    }
}

/// Line endings that are whole stay so when lines are put in front.
proof fn lemma_ends_agree(lines: Seq<Seq<char>>, rest: Seq<char>)
    requires
        forall|i: int| 0 <= i < lines.len() ==> unbroken(#[trigger] lines[i]),
        gate::line_ends_agree(rest, '\r', '\n'),
    ensures
        gate::line_ends_agree(gate::ended(lines) + rest, '\r', '\n'),
    decreases lines.len(),
{
    if lines.len() == 0 {
        assert(gate::ended(lines) + rest == rest);
    } else {
        let front = lines.drop_last();
        let last = lines.last();
        assert(last == lines[lines.len() - 1]);
        assert forall|i: int| 0 <= i < front.len() implies unbroken(#[trigger] front[i]) by {
            assert(front[i] == lines[i]);
        }
        assert(front.push(last) == lines);
        gate::lemma_ended_push(front, last);
        lemma_ends_agree_line(last, rest);
        assert(gate::ended(lines) + rest == gate::ended(front) + (last + gate::crlf() + rest));
        lemma_ends_agree(front, last + gate::crlf() + rest);
    }
}

/// The request line that goes to the box: one line, and three words but for a
/// target of which nothing is left.
proof fn lemma_sent_request_line(head: Seq<char>, req: RequestView)
    requires
        gate::head_is_plain(head),
        req.clean_target == gate::clean(text::words(gate::head_lines(head)[0])[1]),
    ensures
        ({
            let l = gate::forwarded_request_line(head, req);
            let parts = text::words(gate::head_lines(head)[0]);
            &&& unbroken(l)
            &&& req.clean_target.len() > 0 ==> text::words(l) == seq![
                parts[0],
                req.clean_target,
                parts[2],
            ]
        }),
{
    let first = gate::head_lines(head)[0];
    let parts = text::words(first);
    lemma_lines_unbroken(head);
    seqs::lemma_split_seq_len(head, gate::crlf());
    text::lemma_words(first);
    let target = parts[1];
    let clean = req.clean_target;
    assert forall|i: int| 0 <= i < clean.len() implies !text::is_white(#[trigger] clean[i]) by {
        assert(clean.contains(clean[i]));
        if clean[i] != '&' {
            law_cleaning_adds_nothing(target, clean[i]);
            let m = choose|m: int| 0 <= m < target.len() && target[m] == clean[i];
            assert(!text::is_white(target[m]));
        }
    }
    if clean.len() > 0 {
        text::lemma_three_words(parts[0], clean, parts[2]);
    }
    let l = gate::forwarded_request_line(head, req);
    assert forall|i: int| 0 <= i < l.len() implies l[i] != '\r' && l[i] != '\n' by {
        let a = parts[0];
        let c = parts[2];
        assert(a + seq![' '] + clean + seq![' '] + c == l);
        if i < a.len() {
            assert(l[i] == a[i]);
            assert(!text::is_white(a[i]));
        } else if i == a.len() {
            assert(l[i] == ' ');
        } else if i < a.len() + 1 + clean.len() {
            assert(l[i] == clean[i - a.len() - 1]);
            assert(!text::is_white(clean[i - a.len() - 1]));
        } else if i == a.len() + 1 + clean.len() {
            assert(l[i] == ' ');
        } else {
            assert(l[i] == c[i - a.len() - 2 - clean.len()]);
            assert(!text::is_white(c[i - a.len() - 2 - clean.len()]));
        }
    }
}

/// The blank line that ends a head, and what is behind it.
proof fn lemma_blank_line()
    ensures
        gate::head_lines(gate::crlf()) == seq![Seq::<char>::empty(), Seq::<char>::empty()],
        gate::line_ends_agree(gate::crlf(), '\r', '\n'),
{
    let none = Seq::<char>::empty();
    assert(gate::head_lines(none) == seq![none]) by {
        seqs::lemma_find_seq(none, gate::crlf(), 0);
    }
    lemma_split_line(none, none);
    assert(none + gate::crlf() + none == gate::crlf());
    assert(seq![none] + seq![none] == seq![none, none]);
    lemma_ends_agree_line(none, none);
}

/// The head that goes to the box is its lines and a blank line.
proof fn lemma_upstream_shape(head: Seq<char>, req: RequestView, app: Option<Set<Seq<char>>>)
    ensures
        gate::upstream_head(head, req, app) == gate::forwarded_request_line(head, req)
            + gate::crlf() + (gate::ended(sent_headers(head, req, app)) + gate::crlf()),
{
    let fl = gate::forwarded_lines(head, req, app);
    let sent = sent_headers(head, req, app);
    if req.upgrade {
        assert(sent == fl);
    } else {
        assert(sent == fl.push(close_line()));
        gate::lemma_ended_push(fl, close_line());
    }
    assert(gate::upstream_head(head, req, app) =~= gate::forwarded_request_line(head, req)
        + gate::crlf() + (gate::ended(sent) + gate::crlf()));
}

/// Lines that are not empty, a request line and a blank line read back as they
/// are.
pub proof fn lemma_read_back(first: Seq<char>, lines: Seq<Seq<char>>)
    requires
        unbroken(first),
        forall|i: int| 0 <= i < lines.len() ==> unbroken(#[trigger] lines[i]) && lines[i].len() > 0,
    ensures
        ({
            let out = first + gate::crlf() + (gate::ended(lines) + gate::crlf());
            &&& gate::line_ends_agree(out, '\r', '\n')
            &&& gate::head_lines(out)[0] == first
            &&& gate::header_lines(out) == lines
        }),
{
    let none = Seq::<char>::empty();
    let tail = seq![none, none];
    let body = gate::ended(lines) + gate::crlf();
    let out = first + gate::crlf() + body;
    lemma_blank_line();
    lemma_split_ended(lines, gate::crlf());
    lemma_ends_agree(lines, gate::crlf());
    lemma_split_line(first, body);
    lemma_ends_agree_line(first, body);
    let keep = |l: Seq<char>| l.len() > 0;
    assert(gate::head_lines(out) == seq![first] + (lines + tail));
    assert(gate::head_lines(out).skip(1) =~= lines + tail);
    Seq::filter_distributes_over_add(lines, tail, keep);
    assert forall|i: int| 0 <= i < lines.len() implies keep(#[trigger] lines[i]) by {}
    seqs::lemma_filter_all(lines, keep);
    seqs::lemma_filter_none(tail, keep);
    assert(lines + Seq::<Seq<char>>::empty() == lines);
}

/// The lines of the head that goes to the box.
pub proof fn lemma_sent_lines(head: Seq<char>, req: RequestView, app: Option<Set<Seq<char>>>)
    requires
        gate::head_is_plain(head),
        req.clean_target == gate::clean(text::words(gate::head_lines(head)[0])[1]),
    ensures
        ({
            let out = gate::upstream_head(head, req, app);
            &&& gate::line_ends_agree(out, '\r', '\n')
            &&& gate::head_lines(out)[0] == gate::forwarded_request_line(head, req)
            &&& gate::header_lines(out) == sent_headers(head, req, app)
        }),
{
    lemma_sent_request_line(head, req);
    lemma_sent_headers(head, req, app, Seq::empty());
    lemma_upstream_shape(head, req, app);
    lemma_read_back(gate::forwarded_request_line(head, req), sent_headers(head, req, app));
}

/// No cookie of the share is found among values whose segments may all go to
/// the box.
proof fn lemma_no_token(values: Seq<Seq<char>>, name: Seq<char>, app: Option<Set<Seq<char>>>)
    requires
        gate::share_cookie_name(name),
        forall|i: int| 0 <= i < values.len() ==> {
            let v = #[trigger] values[i];
            only_goes_upstream(v, app)
        },
    ensures
        gate::cookie_token(values, name) is None,
    decreases values.len(),
{
    if values.len() > 0 {
        let v = values[0];
        let take = |c: Seq<char>| gate::cookie_value(c, name);
        let segs = gate::cookie_segments(v);
        assert forall|j: int| 0 <= j < segs.len() implies take(#[trigger] segs[j]) is None by {
            assert(gate::goes_upstream(segs[j], app));
        }
        seqs::lemma_filter_map_none(segs, take);
        let rest = values.skip(1);
        assert forall|i: int| 0 <= i < rest.len() implies {
            let v = #[trigger] rest[i];
            only_goes_upstream(v, app)
        } by {
            assert(rest[i] == values[i + 1]);
        }
        lemma_no_token(rest, name, app);
    }
}

/// Two texts that differ at a place, letter case aside.
pub proof fn lemma_other_letter(a: Seq<char>, b: Seq<char>, i: int)
    requires
        0 <= i < a.len(),
        0 <= i < b.len(),
        text::lower(a[i]) != text::lower(b[i]),
    ensures
        text::lowered(a) != text::lowered(b),
{
    assert(text::lowered(a)[i] != text::lowered(b)[i]);
}

/// The name of a header that is dropped or rewritten begins like one of these.
proof fn lemma_untouched_by_letter(name: Seq<char>, req: RequestView)
    requires
        name.len() > 0,
        ({
            let c = text::lower(name[0]);
            c != 'c' && c != 't' && c != 'x' && c != 'f' && c != 'e' && c != 'k'
        }),
    ensures
        untouched(name, req),
{
    reveal_strlit("cookie");
    reveal_strlit("cf-connecting-ip");
    reveal_strlit("cf-connecting-ipv6");
    reveal_strlit("cf-ipcountry");
    reveal_strlit("cf-ray");
    reveal_strlit("cf-visitor");
    reveal_strlit("cf-warp-tag-id");
    reveal_strlit("cf-ew-via");
    reveal_strlit("cf-worker");
    reveal_strlit("cdn-loop");
    reveal_strlit("true-client-ip");
    reveal_strlit("x-forwarded-for");
    reveal_strlit("x-real-ip");
    reveal_strlit("forwarded");
    reveal_strlit("expect");
    reveal_strlit("connection");
    reveal_strlit("keep-alive");
    lemma_other_letter(name, "cookie"@, 0);
    lemma_other_letter(name, "cf-connecting-ip"@, 0);
    lemma_other_letter(name, "cf-connecting-ipv6"@, 0);
    lemma_other_letter(name, "cf-ipcountry"@, 0);
    lemma_other_letter(name, "cf-ray"@, 0);
    lemma_other_letter(name, "cf-visitor"@, 0);
    lemma_other_letter(name, "cf-warp-tag-id"@, 0);
    lemma_other_letter(name, "cf-ew-via"@, 0);
    lemma_other_letter(name, "cf-worker"@, 0);
    lemma_other_letter(name, "cdn-loop"@, 0);
    lemma_other_letter(name, "true-client-ip"@, 0);
    lemma_other_letter(name, "x-forwarded-for"@, 0);
    lemma_other_letter(name, "x-real-ip"@, 0);
    lemma_other_letter(name, "forwarded"@, 0);
    lemma_other_letter(name, "expect"@, 0);
    lemma_other_letter(name, "connection"@, 0);
    lemma_other_letter(name, "keep-alive"@, 0);
}

/// What says where a body ends is neither dropped nor rewritten.
proof fn lemma_framing_is_untouched(req: RequestView)
    ensures
        untouched("content-length"@, req),
        untouched("transfer-encoding"@, req),
{
    reveal_strlit("content-length");
    reveal_strlit("transfer-encoding");
    reveal_strlit("cookie");
    reveal_strlit("cf-connecting-ip");
    reveal_strlit("cf-connecting-ipv6");
    reveal_strlit("cf-ipcountry");
    reveal_strlit("cf-ray");
    reveal_strlit("cf-visitor");
    reveal_strlit("cf-warp-tag-id");
    reveal_strlit("cf-ew-via");
    reveal_strlit("cf-worker");
    reveal_strlit("cdn-loop");
    reveal_strlit("true-client-ip");
    reveal_strlit("x-forwarded-for");
    reveal_strlit("x-real-ip");
    reveal_strlit("forwarded");
    reveal_strlit("expect");
    reveal_strlit("connection");
    reveal_strlit("keep-alive");
    let l = "content-length"@;
    lemma_other_length(l, "cookie"@);
    lemma_other_length(l, "cf-connecting-ip"@);
    lemma_other_length(l, "cf-connecting-ipv6"@);
    lemma_other_length(l, "cf-ipcountry"@);
    lemma_other_length(l, "cf-ray"@);
    lemma_other_length(l, "cf-visitor"@);
    lemma_other_letter(l, "cf-warp-tag-id"@, 1);
    lemma_other_length(l, "cf-ew-via"@);
    lemma_other_length(l, "cf-worker"@);
    lemma_other_length(l, "cdn-loop"@);
    lemma_other_letter(l, "true-client-ip"@, 0);
    lemma_other_length(l, "x-forwarded-for"@);
    lemma_other_length(l, "x-real-ip"@);
    lemma_other_length(l, "forwarded"@);
    lemma_other_length(l, "expect"@);
    lemma_other_length(l, "connection"@);
    lemma_other_length(l, "keep-alive"@);
    let e = "transfer-encoding"@;
    lemma_other_length(e, "cookie"@);
    lemma_other_length(e, "cf-connecting-ip"@);
    lemma_other_length(e, "cf-connecting-ipv6"@);
    lemma_other_length(e, "cf-ipcountry"@);
    lemma_other_length(e, "cf-ray"@);
    lemma_other_length(e, "cf-visitor"@);
    lemma_other_length(e, "cf-warp-tag-id"@);
    lemma_other_length(e, "cf-ew-via"@);
    lemma_other_length(e, "cf-worker"@);
    lemma_other_length(e, "cdn-loop"@);
    lemma_other_length(e, "true-client-ip"@);
    lemma_other_length(e, "x-forwarded-for"@);
    lemma_other_length(e, "x-real-ip"@);
    lemma_other_length(e, "forwarded"@);
    lemma_other_length(e, "expect"@);
    lemma_other_length(e, "connection"@);
    lemma_other_length(e, "keep-alive"@);
}

/// On the head that goes to the box, every header that is neither dropped
/// nor rewritten has the values that it had.
pub proof fn law_other_headers_go_as_they_came(
    head: Seq<char>,
    cookie: Seq<char>,
    app: Option<Set<Seq<char>>>,
    name: Seq<char>,
)
    requires
        gate::parsed(head, cookie) is Some,
        untouched(name, gate::parsed(head, cookie)->0),
    ensures
        ({
            let out = gate::upstream_head(head, gate::parsed(head, cookie)->0, app);
            gate::values_named(gate::header_lines(out), name) == gate::values_named(
                gate::header_lines(head),
                name,
            )
        }),
{
    let req = gate::parsed(head, cookie)->0;
    lemma_sent_lines(head, req, app);
    lemma_sent_headers(head, req, app, name);
}

/// The box is not told who the visitor is: no header that says so is on the
/// head that goes to it.
pub proof fn law_the_visitor_is_not_named(
    head: Seq<char>,
    cookie: Seq<char>,
    app: Option<Set<Seq<char>>>,
    name: Seq<char>,
)
    requires
        gate::parsed(head, cookie) is Some,
        gate::hidden_from_box(name),
    ensures
        ({
            let out = gate::upstream_head(head, gate::parsed(head, cookie)->0, app);
            gate::values_named(gate::header_lines(out), name).len() == 0
        }),
{
    let req = gate::parsed(head, cookie)->0;
    lemma_sent_lines(head, req, app);
    lemma_sent_headers(head, req, app, name);
    assert(text::lowered(name) != text::lowered("connection"@)) by {
        reveal_strlit("connection");
        reveal_strlit("cf-connecting-ip");
        reveal_strlit("cf-connecting-ipv6");
        reveal_strlit("cf-ipcountry");
        reveal_strlit("cf-ray");
        reveal_strlit("cf-visitor");
        reveal_strlit("cf-warp-tag-id");
        reveal_strlit("cf-ew-via");
        reveal_strlit("cf-worker");
        reveal_strlit("cdn-loop");
        reveal_strlit("true-client-ip");
        reveal_strlit("x-forwarded-for");
        reveal_strlit("x-real-ip");
        reveal_strlit("forwarded");
        let c = "connection"@;
        lemma_other_length(c, "cf-connecting-ip"@);
        lemma_other_length(c, "cf-connecting-ipv6"@);
        lemma_other_length(c, "cf-ipcountry"@);
        lemma_other_length(c, "cf-ray"@);
        lemma_other_letter(c, "cf-visitor"@, 1);
        lemma_other_length(c, "cf-warp-tag-id"@);
        lemma_other_length(c, "cf-ew-via"@);
        lemma_other_length(c, "cf-worker"@);
        lemma_other_length(c, "cdn-loop"@);
        lemma_other_length(c, "true-client-ip"@);
        lemma_other_length(c, "x-forwarded-for"@);
        lemma_other_length(c, "x-real-ip"@);
        lemma_other_length(c, "forwarded"@);
    }
}

/// Every cookie that goes to the box may go: none is named like one of the
/// share's own, and on a shared jar each is one that the box itself set.
pub proof fn law_only_the_apps_cookies_go(
    head: Seq<char>,
    cookie: Seq<char>,
    app: Option<Set<Seq<char>>>,
    i: int,
)
    requires
        gate::parsed(head, cookie) is Some,
        0 <= i < gate::values_named(
            gate::header_lines(gate::upstream_head(head, gate::parsed(head, cookie)->0, app)),
            "cookie"@,
        ).len(),
    ensures
        only_goes_upstream(
            gate::values_named(
                gate::header_lines(gate::upstream_head(head, gate::parsed(head, cookie)->0, app)),
                "cookie"@,
            )[i],
            app,
        ),
{
    let req = gate::parsed(head, cookie)->0;
    lemma_sent_lines(head, req, app);
    lemma_sent_headers(head, req, app, Seq::empty());
}

/// A request that is not an upgrade tells the box to close the connection, in
/// one header, and says nothing of keeping it.
pub proof fn law_one_request_asks_for_the_close(
    head: Seq<char>,
    cookie: Seq<char>,
    app: Option<Set<Seq<char>>>,
)
    requires
        gate::parsed(head, cookie) is Some,
        !gate::parsed(head, cookie)->0.upgrade,
    ensures
        ({
            let out = gate::upstream_head(head, gate::parsed(head, cookie)->0, app);
            &&& gate::values_named(gate::header_lines(out), "connection"@) == seq!["close"@]
            &&& gate::values_named(gate::header_lines(out), "keep-alive"@).len() == 0
        }),
{
    let req = gate::parsed(head, cookie)->0;
    let g = |l: Seq<char>| gate::header_value(l, "connection"@);
    let fl = gate::forwarded_lines(head, req, app);
    lemma_sent_lines(head, req, app);
    lemma_sent_headers(head, req, app, "connection"@);
    lemma_sent_headers(head, req, app, "keep-alive"@);
    lemma_close_line("connection"@);
    seqs::lemma_filter_map_concat(fl, seq![close_line()], g);
    Seq::<Seq<char>>::lemma_filter_map_singleton(close_line(), g);
    assert(fl.filter_map(g) =~= Seq::<Seq<char>>::empty());
    assert(Seq::<Seq<char>>::empty() + seq!["close"@] =~= seq!["close"@]);
    assert(text::lowered("keep-alive"@) != text::lowered("connection"@)) by {
        reveal_strlit("keep-alive");
        reveal_strlit("connection");
        lemma_other_letter("keep-alive"@, "connection"@, 0);
    }
}

/// No credential goes to the box: the target that it gets carries none, and no
/// cookie of the head that it gets has a name that the share uses.
pub proof fn law_no_credential_goes_to_the_box(
    head: Seq<char>,
    cookie: Seq<char>,
    app: Option<Set<Seq<char>>>,
    any_share_cookie: Seq<char>,
)
    requires
        gate::parsed(head, cookie) is Some,
        gate::share_cookie_name(any_share_cookie),
    ensures
        ({
            let req = gate::parsed(head, cookie)->0;
            let out = gate::upstream_head(head, req, app);
            &&& gate::head_lines(out)[0] == gate::forwarded_request_line(head, req)
            &&& gate::query_token(req.clean_target) is None
            &&& gate::cookie_token(
                gate::values_named(gate::header_lines(out), "cookie"@),
                any_share_cookie,
            ) is None
        }),
{
    let req = gate::parsed(head, cookie)->0;
    let parts = text::words(gate::head_lines(head)[0]);
    law_cleaned_target_carries_no_credential(parts[1]);
    lemma_sent_lines(head, req, app);
    lemma_sent_headers(head, req, app, Seq::empty());
    lemma_no_token(
        gate::values_named(sent_headers(head, req, app), "cookie"@),
        any_share_cookie,
        app,
    );
}

/// The head that goes to the box reads back as the request it stands for, with
/// nothing of the share left on it: no credential under any name that the share
/// uses, the cleaned target, the same body, and no expectation that was already
/// answered. (A target that was nothing but the share's own parameter leaves a
/// request line without one, which is not read back.)
pub proof fn law_forwarded_head_reads_back(
    head: Seq<char>,
    cookie: Seq<char>,
    app: Option<Set<Seq<char>>>,
    any_share_cookie: Seq<char>,
)
    requires
        gate::parsed(head, cookie) is Some,
        gate::parsed(head, cookie)->0.clean_target.len() > 0,
        gate::share_cookie_name(any_share_cookie),
    ensures
        ({
            let req = gate::parsed(head, cookie)->0;
            let hs = gate::header_lines(head);
            gate::parsed(gate::upstream_head(head, req, app), any_share_cookie) == Some(
                RequestView {
                    target: req.clean_target,
                    from_query: false,
                    token: None,
                    expects_continue: false,
                    cross_origin: gate::comes_from_elsewhere(
                        hs,
                        gate::first_named(hs, "host"@),
                        false,
                    ),
                    ..req
                },
            )
        }),
{
    let req = gate::parsed(head, cookie)->0;
    let out = gate::upstream_head(head, req, app);
    let hs = gate::header_lines(head);
    let sent = sent_headers(head, req, app);
    let parts = text::words(gate::head_lines(head)[0]);
    lemma_sent_lines(head, req, app);
    lemma_sent_request_line(head, req);
    law_cleaned_target_carries_no_credential(parts[1]);
    lemma_framing_is_untouched(req);
    lemma_sent_headers(head, req, app, "content-length"@);
    lemma_sent_headers(head, req, app, "transfer-encoding"@);
    assert(gate::values_named(sent, "host"@) == gate::values_named(hs, "host"@)) by {
        reveal_strlit("host");
        lemma_untouched_by_letter("host"@, req);
        lemma_sent_headers(head, req, app, "host"@);
    }
    assert(gate::values_named(sent, "upgrade"@) == gate::values_named(hs, "upgrade"@)) by {
        reveal_strlit("upgrade");
        lemma_untouched_by_letter("upgrade"@, req);
        lemma_sent_headers(head, req, app, "upgrade"@);
    }
    assert(gate::values_named(sent, "service-worker"@) == gate::values_named(
        hs,
        "service-worker"@,
    )) by {
        reveal_strlit("service-worker");
        lemma_untouched_by_letter("service-worker"@, req);
        lemma_sent_headers(head, req, app, "service-worker"@);
    }
    assert(gate::values_named(sent, "sec-fetch-site"@) == gate::values_named(
        hs,
        "sec-fetch-site"@,
    )) by {
        reveal_strlit("sec-fetch-site");
        lemma_untouched_by_letter("sec-fetch-site"@, req);
        lemma_sent_headers(head, req, app, "sec-fetch-site"@);
    }
    assert(gate::values_named(sent, "sec-fetch-mode"@) == gate::values_named(
        hs,
        "sec-fetch-mode"@,
    )) by {
        reveal_strlit("sec-fetch-mode");
        lemma_untouched_by_letter("sec-fetch-mode"@, req);
        lemma_sent_headers(head, req, app, "sec-fetch-mode"@);
    }
    assert(gate::values_named(sent, "sec-fetch-dest"@) == gate::values_named(
        hs,
        "sec-fetch-dest"@,
    )) by {
        reveal_strlit("sec-fetch-dest");
        lemma_untouched_by_letter("sec-fetch-dest"@, req);
        lemma_sent_headers(head, req, app, "sec-fetch-dest"@);
    }
    assert(gate::values_named(sent, "origin"@) == gate::values_named(hs, "origin"@)) by {
        reveal_strlit("origin");
        lemma_untouched_by_letter("origin"@, req);
        lemma_sent_headers(head, req, app, "origin"@);
    }
    assert(gate::navigates(sent) == gate::navigates(hs));
    lemma_no_expectation(head, cookie, app);
    lemma_same_upgrade(head, cookie, app);
    lemma_sent_headers(head, req, app, "cookie"@);
    lemma_no_token(gate::values_named(sent, "cookie"@), any_share_cookie, app);
    assert(gate::header_lines(out) == sent);
    assert(text::words(gate::head_lines(out)[0]) == seq![parts[0], req.clean_target, parts[2]]);
    assert(gate::head_is_plain(out));
}

/// The box is not asked again for what the proxy has answered.
proof fn lemma_no_expectation(head: Seq<char>, cookie: Seq<char>, app: Option<Set<Seq<char>>>)
    requires
        gate::parsed(head, cookie) is Some,
    ensures
        !gate::some_lists(
            gate::values_named(
                sent_headers(head, gate::parsed(head, cookie)->0, app),
                "expect"@,
            ),
            "100-continue"@,
        ),
{
    let req = gate::parsed(head, cookie)->0;
    lemma_sent_headers(head, req, app, "expect"@);
    reveal_strlit("expect");
    reveal_strlit("connection");
    reveal_strlit("cookie");
    lemma_other_length("expect"@, "connection"@);
    if !req.expects_continue {
        lemma_other_letter("expect"@, "cookie"@, 0);
        lemma_expect_is_held_back_only_when_answered(req);
    }
}

/// `Expect` is held back for no reason but that it was answered.
proof fn lemma_expect_is_held_back_only_when_answered(req: RequestView)
    requires
        !req.expects_continue,
    ensures
        !gate::held_back("expect"@, req),
{
    reveal_strlit("expect");
    reveal_strlit("cf-connecting-ip");
    reveal_strlit("cf-connecting-ipv6");
    reveal_strlit("cf-ipcountry");
    reveal_strlit("cf-ray");
    reveal_strlit("cf-visitor");
    reveal_strlit("cf-warp-tag-id");
    reveal_strlit("cf-ew-via");
    reveal_strlit("cf-worker");
    reveal_strlit("cdn-loop");
    reveal_strlit("true-client-ip");
    reveal_strlit("x-forwarded-for");
    reveal_strlit("x-real-ip");
    reveal_strlit("forwarded");
    reveal_strlit("connection");
    reveal_strlit("keep-alive");
    let e = "expect"@;
    lemma_other_length(e, "cf-connecting-ip"@);
    lemma_other_length(e, "cf-connecting-ipv6"@);
    lemma_other_length(e, "cf-ipcountry"@);
    lemma_other_letter(e, "cf-ray"@, 0);
    lemma_other_length(e, "cf-visitor"@);
    lemma_other_length(e, "cf-warp-tag-id"@);
    lemma_other_length(e, "cf-ew-via"@);
    lemma_other_length(e, "cf-worker"@);
    lemma_other_length(e, "cdn-loop"@);
    lemma_other_length(e, "true-client-ip"@);
    lemma_other_length(e, "x-forwarded-for"@);
    lemma_other_length(e, "x-real-ip"@);
    lemma_other_length(e, "forwarded"@);
    lemma_other_length(e, "connection"@);
    lemma_other_length(e, "keep-alive"@);
}

/// `Connection` is held back for no reason but that the connection closes.
proof fn lemma_connection_is_held_back_only_to_close(req: RequestView)
    requires
        req.upgrade,
    ensures
        untouched("connection"@, req),
{
    reveal_strlit("cookie");
    reveal_strlit("expect");
    reveal_strlit("cf-connecting-ip");
    reveal_strlit("cf-connecting-ipv6");
    reveal_strlit("cf-ipcountry");
    reveal_strlit("cf-ray");
    reveal_strlit("cf-visitor");
    reveal_strlit("cf-warp-tag-id");
    reveal_strlit("cf-ew-via");
    reveal_strlit("cf-worker");
    reveal_strlit("cdn-loop");
    reveal_strlit("true-client-ip");
    reveal_strlit("x-forwarded-for");
    reveal_strlit("x-real-ip");
    reveal_strlit("forwarded");
    reveal_strlit("connection");
    let c = "connection"@;
    lemma_other_length(c, "cookie"@);
    lemma_other_length(c, "expect"@);
    lemma_other_length(c, "cf-connecting-ip"@);
    lemma_other_length(c, "cf-connecting-ipv6"@);
    lemma_other_length(c, "cf-ipcountry"@);
    lemma_other_length(c, "cf-ray"@);
    lemma_other_letter(c, "cf-visitor"@, 1);
    lemma_other_length(c, "cf-warp-tag-id"@);
    lemma_other_length(c, "cf-ew-via"@);
    lemma_other_length(c, "cf-worker"@);
    lemma_other_length(c, "cdn-loop"@);
    lemma_other_length(c, "true-client-ip"@);
    lemma_other_length(c, "x-forwarded-for"@);
    lemma_other_length(c, "x-real-ip"@);
    lemma_other_length(c, "forwarded"@);
}

/// The head that goes to the box asks for an upgrade exactly when the request
/// did.
proof fn lemma_same_upgrade(head: Seq<char>, cookie: Seq<char>, app: Option<Set<Seq<char>>>)
    requires
        gate::parsed(head, cookie) is Some,
    ensures
        ({
            let req = gate::parsed(head, cookie)->0;
            let lists = gate::some_lists(
                gate::values_named(sent_headers(head, req, app), "connection"@),
                "upgrade"@,
            );
            &&& req.upgrade ==> lists
            &&& !req.upgrade ==> !lists
        }),
{
    let req = gate::parsed(head, cookie)->0;
    if req.upgrade {
        lemma_connection_is_held_back_only_to_close(req);
        lemma_sent_headers(head, req, app, "connection"@);
    } else {
        lemma_sent_lines(head, req, app);
        law_one_request_asks_for_the_close(head, cookie, app);
        let vs = gate::values_named(sent_headers(head, req, app), "connection"@);
        assert(vs == seq!["close"@]);
        assert(!gate::lists("close"@, "upgrade"@)) by {
            reveal_strlit("close");
            reveal_strlit("upgrade");
            assert(seqs::lacks("close"@, ','));
            seqs::lemma_split_whole("close"@, ',');
            text::lemma_trim_same("close"@);
            lemma_other_length("close"@, "upgrade"@);
        }
    }
}

} // verus!
