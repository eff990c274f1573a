//! What goes on to the box of a request, line by line, and cookie by cookie.
use vstd::prelude::*;

use crate::gate::{self, AppCookies, Request};
use crate::gate_laws;
use crate::seqs;
use crate::text;

verus! {

/// Two names that are the same, letter case aside.
pub open spec fn same_name(a: Seq<char>, b: Seq<char>) -> bool {
    text::lowered(a) == text::lowered(b)
}

/// The name that a header line has: what stands before its first colon, without
/// the space around it.
pub open spec fn header_name(line: Seq<char>) -> Option<Seq<char>> {
    match seqs::split_once(line, ':') {
        Some((k, _)) => Some(text::trim(k)),
        None => None,
    }
}

/// One of the names by which a visitor could be told.
pub open spec fn tells_the_visitor(name: Seq<char>) -> bool {
    ||| same_name(name, "cf-connecting-ip"@)
    ||| same_name(name, "cf-connecting-ipv6"@)
    ||| same_name(name, "cf-ipcountry"@)
    ||| same_name(name, "cf-ray"@)
    ||| same_name(name, "cf-visitor"@)
    ||| same_name(name, "cf-warp-tag-id"@)
    ||| same_name(name, "cf-ew-via"@)
    ||| same_name(name, "cf-worker"@)
    ||| same_name(name, "cdn-loop"@)
    ||| same_name(name, "true-client-ip"@)
    ||| same_name(name, "x-forwarded-for"@)
    ||| same_name(name, "x-real-ip"@)
    ||| same_name(name, "forwarded"@)
}

/// A header line that is the app's business: it is not a cookie, it does not
/// tell who the visitor is, and it is about neither an expectation that was
/// answered nor a connection that is about to close.
pub open spec fn is_the_apps(line: Seq<char>, upgrade: bool, answered: bool) -> bool {
    match header_name(line) {
        Some(name) => {
            &&& !same_name(name, "cookie"@)
            &&& !tells_the_visitor(name)
            &&& answered ==> !same_name(name, "expect"@)
            &&& !upgrade ==> !same_name(name, "connection"@)
            &&& !upgrade ==> !same_name(name, "keep-alive"@)
        },
        None => false,
    }
}

/// A partial map that leaves what passes a test alone, and makes nothing that
/// passes it, leaves all that passes it.
pub proof fn lemma_left_alone<A>(s: Seq<A>, f: spec_fn(A) -> Option<A>, p: spec_fn(A) -> bool)
    requires
        forall|i: int| 0 <= i < s.len() && p(#[trigger] s[i]) ==> f(s[i]) == Some(s[i]),
        forall|i: int| 0 <= i < s.len() && !p(#[trigger] s[i]) ==> match f(s[i]) {
            Some(b) => !p(b),
            None => true,
        },
    ensures
        s.filter_map(f).filter(p) == s.filter(p),
    decreases s.len(),
{
    reveal(Seq::filter);
    if s.len() > 0 {
        let front = s.drop_last();
        let last = s.last();
        assert(last == s[s.len() - 1]);
        assert forall|i: int| 0 <= i < front.len() && p(#[trigger] front[i]) implies f(front[i])
            == Some(front[i]) by {
            assert(front[i] == s[i]);
        }
        assert forall|i: int| 0 <= i < front.len() && !p(#[trigger] front[i]) implies match f(
            front[i],
        ) {
            Some(b) => !p(b),
            None => true,
        } by {
            assert(front[i] == s[i]);
        }
        lemma_left_alone(front, f, p);
        match f(last) {
            Some(b) => {
                assert(s.filter_map(f) == front.filter_map(f) + seq![b]);
                assert(s.filter_map(f).drop_last() =~= front.filter_map(f));
                assert(s.filter_map(f).last() == b);
            },
            None => {},
        }
    }
}

/// What passes a narrower test passes it among those that pass a wider one.
pub proof fn lemma_narrower<A>(s: Seq<A>, wide: spec_fn(A) -> bool, narrow: spec_fn(A) -> bool)
    requires
        forall|a: A| #[trigger] narrow(a) ==> wide(a),
    ensures
        s.filter(wide).filter(narrow) == s.filter(narrow),
    decreases s.len(),
{
    reveal(Seq::filter);
    if s.len() > 0 {
        let front = s.drop_last();
        lemma_narrower(front, wide, narrow);
        if wide(s.last()) {
            assert(s.filter(wide).drop_last() =~= front.filter(wide));
        }
    }
}

/// The line that a `Cookie` line becomes is one.
proof fn lemma_still_a_cookie(value: Seq<char>, app: Option<Set<Seq<char>>>)
    requires
        gate::kept_cookies(value, app).len() > 0,
    ensures
        header_name("Cookie: "@ + gate::kept_cookies(value, app)) is Some,
        same_name(
            header_name("Cookie: "@ + gate::kept_cookies(value, app))->0,
            "cookie"@,
        ),
{
    gate_laws::lemma_cookie_line(value, app);
    gate_laws::lemma_cookie_name();
}

/// The line that forces a close is about the connection.
proof fn lemma_closing_line()
    ensures
        header_name(gate_laws::close_line()) is Some,
        same_name(header_name(gate_laws::close_line())->0, "connection"@),
        gate_laws::close_line() == "Connection: close"@,
{
    gate_laws::lemma_close_line("connection"@);
}

/// Everything that is the app's business goes to the box as it came: those
/// lines, and only those, each as it stood, in the order in which they stood.
/// What else goes is a cookie, or the one line that asks for the close.
pub proof fn law_the_apps_lines_go_as_they_came(
    head: Seq<char>,
    cookie: Seq<char>,
    app: Option<Set<Seq<char>>>,
)
    requires
        gate::parsed(head, cookie) is Some,
    ensures
        ({
            let req = gate::parsed(head, cookie)->0;
            let out = gate::upstream_head(head, req, app);
            let words = text::words(gate::head_lines(head)[0]);
            let sent = gate::header_lines(out);
            let the_apps = |l: Seq<char>| is_the_apps(l, req.upgrade, req.expects_continue);
            &&& words.len() == 3
            &&& gate::head_lines(out)[0] == words[0] + seq![' '] + req.clean_target + seq![' ']
                + words[2]
            &&& sent.filter(the_apps) == gate::header_lines(head).filter(the_apps)
            &&& forall|i: int| 0 <= i < sent.len() && !the_apps(#[trigger] sent[i]) ==> {
                ||| header_name(sent[i]) is Some && same_name(header_name(sent[i])->0, "cookie"@)
                ||| !req.upgrade && i == sent.len() - 1 && sent[i] == "Connection: close"@
            }
            &&& !req.upgrade ==> sent.len() > 0 && sent.last() == "Connection: close"@
        }),
{
    let req = gate::parsed(head, cookie)->0;
    let the_apps = |l: Seq<char>| is_the_apps(l, req.upgrade, req.expects_continue);
    let f = |l: Seq<char>| gate::forwarded_line(l, req, app);
    let full = |l: Seq<char>| l.len() > 0;
    let all = gate::head_lines(head).skip(1);
    let forwarded = gate::forwarded_lines(head, req, app);
    let sent = gate_laws::sent_headers(head, req, app);
    gate_laws::lemma_sent_lines(head, req, app);
    lemma_closing_line();
    assert forall|i: int| 0 <= i < all.len() && the_apps(#[trigger] all[i]) implies f(all[i])
        == Some(all[i]) by {
        lemma_one_line(all[i], req, app);
    }
    assert forall|i: int| 0 <= i < all.len() && !the_apps(#[trigger] all[i]) implies match f(
        all[i],
    ) {
        Some(b) => !the_apps(b),
        None => true,
    } by {
        lemma_one_line(all[i], req, app);
    }
    lemma_left_alone(all, f, the_apps);
    assert forall|l: Seq<char>| #[trigger] the_apps(l) implies full(l) by {
        seqs::lemma_find(l, ':');
    }
    lemma_narrower(all, full, the_apps);
    assert forall|i: int| 0 <= i < sent.len() && !the_apps(#[trigger] sent[i]) implies {
        ||| header_name(sent[i]) is Some && same_name(header_name(sent[i])->0, "cookie"@)
        ||| !req.upgrade && i == sent.len() - 1 && sent[i] == "Connection: close"@
    } by {
        if i < forwarded.len() {
            assert(sent[i] == forwarded[i]);
            seqs::lemma_filter_map_holds(all, f);
            let j = choose|j: int| 0 <= j < all.len() && f(#[trigger] all[j]) == Some(
                forwarded[i],
            );
            lemma_one_line(all[j], req, app);
            if all[j] == forwarded[i] && !(header_name(all[j]) is Some && same_name(
                header_name(all[j])->0,
                "cookie"@,
            )) {
                lemma_only_the_apps_are_unchanged(head, req, app, j);
            }
        }
    }
    if !req.upgrade {
        let tail = seq![gate_laws::close_line()];
        Seq::filter_distributes_over_add(forwarded, tail, the_apps);
        assert(!the_apps(tail[0]));
        seqs::lemma_filter_none(tail, the_apps);
        assert(forwarded.filter(the_apps) + Seq::<Seq<char>>::empty() =~= forwarded.filter(
            the_apps,
        ));
        assert(sent.last() == tail[0]);
    } else {
        assert(sent =~= forwarded);
    }
}

/// A line of a head that is read has a name.
proof fn lemma_only_the_apps_are_unchanged(
    head: Seq<char>,
    req: gate::RequestView,
    app: Option<Set<Seq<char>>>,
    j: int,
)
    requires
        gate::head_is_plain(head),
        0 <= j < gate::head_lines(head).skip(1).len(),
        ({
            let l = gate::head_lines(head).skip(1)[j];
            &&& gate::forwarded_line(l, req, app) == Some(l)
            &&& !(header_name(l) is Some && same_name(header_name(l)->0, "cookie"@))
        }),
    ensures
        is_the_apps(
            gate::head_lines(head).skip(1)[j],
            req.upgrade,
            req.expects_continue,
        ),
{
    let all = gate::head_lines(head).skip(1);
    let l = all[j];
    let full = |l: Seq<char>| l.len() > 0;
    all.lemma_filter_contains(full, j);
    let headers = gate::header_lines(head);
    assert(headers.contains(l));
    let k = choose|k: int| 0 <= k < headers.len() && headers[k] == l;
    assert(gate::unambiguous(headers[k]));
}

/// What becomes of one line.
proof fn lemma_one_line(l: Seq<char>, req: gate::RequestView, app: Option<Set<Seq<char>>>)
    ensures
        is_the_apps(l, req.upgrade, req.expects_continue) ==> gate::forwarded_line(l, req, app)
            == Some(l),
        !is_the_apps(l, req.upgrade, req.expects_continue) ==> match gate::forwarded_line(
            l,
            req,
            app,
        ) {
            Some(m) => !is_the_apps(m, req.upgrade, req.expects_continue) && (m == l || (
            header_name(m) is Some && same_name(header_name(m)->0, "cookie"@))),
            None => true,
        },
{
    seqs::lemma_find(l, ':');
    if let Some((k, v)) = seqs::split_once(l, ':') {
        if same_name(text::trim(k), "cookie"@) {
            if gate::kept_cookies(text::trim(v), app).len() > 0 {
                lemma_still_a_cookie(text::trim(v), app);
            }
        }
    }
}

/// The lines of this name, letter case aside.
pub open spec fn lines_named(lines: Seq<Seq<char>>, name: Seq<char>) -> Seq<Seq<char>> {
    lines.filter(|l: Seq<char>| header_name(l) is Some && same_name(header_name(l)->0, name))
}

/// The lines of a name go to the box as they came, whatever the name is, but for
/// cookies, for what tells who the visitor is, and for what is about an
/// expectation or a connection.
pub proof fn law_the_lines_of_a_name_go_as_they_came(
    head: Seq<char>,
    cookie: Seq<char>,
    app: Option<Set<Seq<char>>>,
    name: Seq<char>,
)
    requires
        gate::parsed(head, cookie) is Some,
        !same_name(name, "cookie"@),
        !tells_the_visitor(name),
        !same_name(name, "expect"@),
        !same_name(name, "connection"@),
        !same_name(name, "keep-alive"@),
    ensures
        ({
            let out = gate::upstream_head(head, gate::parsed(head, cookie)->0, app);
            lines_named(gate::header_lines(out), name) == lines_named(
                gate::header_lines(head),
                name,
            )
        }),
{
    let req = gate::parsed(head, cookie)->0;
    let out = gate::upstream_head(head, req, app);
    let the_apps = |l: Seq<char>| is_the_apps(l, req.upgrade, req.expects_continue);
    let named = |l: Seq<char>|
        header_name(l) is Some && same_name(header_name(l)->0, name);
    law_the_apps_lines_go_as_they_came(head, cookie, app);
    assert forall|l: Seq<char>| #[trigger] named(l) implies the_apps(l) by {}
    lemma_narrower(gate::header_lines(out), the_apps, named);
    lemma_narrower(gate::header_lines(head), the_apps, named);
}

/// The same of what is sent on: of a request that was read, the lines of any
/// other name are in the head that goes to the box as they were in the head that
/// came, and its first line is that of the request, without the invite.
pub proof fn law_a_rewritten_head_keeps_the_lines_of_a_name(
    head: &str,
    req: Request,
    cookie: &str,
    app: Option<&AppCookies>,
    r: String,
    name: Seq<char>,
)
    requires
        gate::parsed(head@, cookie@) == Some(req@),
        call_ensures(gate::rewrite_for_upstream, (head, &req, cookie, app), r),
        !same_name(name, "cookie"@),
        !tells_the_visitor(name),
        !same_name(name, "expect"@),
        !same_name(name, "connection"@),
        !same_name(name, "keep-alive"@),
    ensures
        lines_named(gate::header_lines(r@), name) == lines_named(gate::header_lines(head@), name),
        gate::head_lines(r@)[0] == req.method@ + seq![' '] + req.clean_target@ + seq![' ']
            + text::words(gate::head_lines(head@)[0])[2],
{
    law_the_lines_of_a_name_go_as_they_came(head@, cookie@, gate::jar(app), name);
    law_the_apps_lines_go_as_they_came(head@, cookie@, gate::jar(app));
}

/// None of the thirteen headers that tell who the visitor is goes to the box.
pub proof fn law_no_line_tells_the_visitor(
    head: Seq<char>,
    cookie: Seq<char>,
    app: Option<Set<Seq<char>>>,
    i: int,
)
    requires
        gate::parsed(head, cookie) is Some,
        0 <= i < gate::header_lines(
            gate::upstream_head(head, gate::parsed(head, cookie)->0, app),
        ).len(),
    ensures
        ({
            let req = gate::parsed(head, cookie)->0;
            let l = gate::header_lines(gate::upstream_head(head, req, app))[i];
            header_name(l) matches Some(name) ==> !tells_the_visitor(name)
        }),
{
    law_the_apps_lines_go_as_they_came(head, cookie, app);
    lemma_closing_line();
    let req = gate::parsed(head, cookie)->0;
    let l = gate::header_lines(gate::upstream_head(head, req, app))[i];
    if !is_the_apps(l, req.upgrade, req.expects_continue) {
        lemma_a_visitor_is_no_cookie(header_name(l)->0);
    }
}

/// What tells who the visitor is is neither a cookie nor about the connection.
proof fn lemma_a_visitor_is_no_cookie(name: Seq<char>)
    requires
        same_name(name, "cookie"@) || same_name(name, "connection"@),
    ensures
        !tells_the_visitor(name),
{
    reveal_strlit("cookie");
    reveal_strlit("connection");
    reveal_strlit("cf-connecting-ip");
    reveal_strlit("cf-connecting-ipv6");
    reveal_strlit("cf-ipcountry");
    reveal_strlit("cf-ray");
    reveal_strlit("cf-visitor");
    reveal_strlit("cf-warp-tag-id");
    reveal_strlit("cf-ew-via");
    reveal_strlit("cf-worker");
    reveal_strlit("cdn-loop");
    reveal_strlit("true-client-ip");
    reveal_strlit("x-forwarded-for");
    reveal_strlit("x-real-ip");
    reveal_strlit("forwarded");
    let l = text::lowered(name);
    assert(l.len() == name.len());
    if same_name(name, "cookie"@) {
        gate_laws::lemma_other_length(name, "cf-connecting-ip"@);
        gate_laws::lemma_other_length(name, "cf-connecting-ipv6"@);
        gate_laws::lemma_other_length(name, "cf-ipcountry"@);
        gate_laws::lemma_other_letter("cookie"@, "cf-ray"@, 1);
        gate_laws::lemma_other_length(name, "cf-visitor"@);
        gate_laws::lemma_other_length(name, "cf-warp-tag-id"@);
        gate_laws::lemma_other_length(name, "cf-ew-via"@);
        gate_laws::lemma_other_length(name, "cf-worker"@);
        gate_laws::lemma_other_length(name, "cdn-loop"@);
        gate_laws::lemma_other_length(name, "true-client-ip"@);
        gate_laws::lemma_other_length(name, "x-forwarded-for"@);
        gate_laws::lemma_other_length(name, "x-real-ip"@);
        gate_laws::lemma_other_length(name, "forwarded"@);
    } else {
        gate_laws::lemma_other_length(name, "cf-connecting-ip"@);
        gate_laws::lemma_other_length(name, "cf-connecting-ipv6"@);
        gate_laws::lemma_other_length(name, "cf-ipcountry"@);
        gate_laws::lemma_other_length(name, "cf-ray"@);
        gate_laws::lemma_other_letter("connection"@, "cf-visitor"@, 1);
        gate_laws::lemma_other_length(name, "cf-warp-tag-id"@);
        gate_laws::lemma_other_length(name, "cf-ew-via"@);
        gate_laws::lemma_other_length(name, "cf-worker"@);
        gate_laws::lemma_other_length(name, "cdn-loop"@);
        gate_laws::lemma_other_length(name, "true-client-ip"@);
        gate_laws::lemma_other_length(name, "x-forwarded-for"@);
        gate_laws::lemma_other_length(name, "x-real-ip"@);
        gate_laws::lemma_other_length(name, "forwarded"@);
    }
}

/// A cookie segment that is the app's: it is not named like one of the share's
/// own, and on a jar that is shared it is one that the box set.
pub open spec fn is_the_apps_cookie(segment: Seq<char>, app: Option<Set<Seq<char>>>) -> bool {
    match seqs::split_once(segment, '=') {
        Some((k, v)) => {
            &&& text::trim(k) != "h5i_share"@
            &&& forall|port: u16|
                port != 0 ==> text::trim(k) != "h5i_share_"@ + #[trigger] text::decimal(port as nat)
            &&& app matches Some(known) ==> known.contains(
                text::trim(k) + seq!['='] + text::trim(v),
            )
        },
        None => {
            &&& segment.len() > 0
            &&& segment != "h5i_share"@
            &&& forall|port: u16|
                port != 0 ==> segment != "h5i_share_"@ + #[trigger] text::decimal(port as nat)
            &&& app is None
        },
    }
}

/// A name of the share's own, spelled out.
pub proof fn lemma_own_names(name: Seq<char>)
    ensures
        gate::share_cookie_name(name) <==> name == "h5i_share"@ || exists|port: u16|
            port != 0 && name == "h5i_share_"@ + #[trigger] text::decimal(port as nat),
{
    reveal_strlit("h5i_share");
    reveal_strlit("h5i_share_");
    assert("h5i_share"@ + seq!['_'] =~= "h5i_share_"@);
    assert forall|port: u16| #[trigger] gate::port_cookie(port) == "h5i_share_"@ + text::decimal(
        port as nat,
    ) by {}
    if gate::share_cookie_name(name) && name != "h5i_share"@ {
        let port = choose|port: u16| port != 0 && name == #[trigger] gate::port_cookie(port);
        assert(name == "h5i_share_"@ + text::decimal(port as nat));
    }
    if exists|port: u16| port != 0 && name == "h5i_share_"@ + #[trigger] text::decimal(port as nat) {
        let port = choose|port: u16|
            port != 0 && name == "h5i_share_"@ + #[trigger] text::decimal(port as nat);
        assert(name == gate::port_cookie(port));
    }
}

/// The cookies of the app go to the box as they came: those segments of a
/// `Cookie` header, and no others, in the order in which they stood.
pub proof fn law_the_apps_cookies_go_as_they_came(value: Seq<char>, app: Option<Set<Seq<char>>>)
    ensures
        ({
            let kept = gate::kept_cookies(value, app);
            let apps = gate::cookie_segments(value).filter(
                |c: Seq<char>| is_the_apps_cookie(c, app),
            );
            &&& kept.len() == 0 <==> apps.len() == 0
            &&& kept.len() > 0 ==> gate::cookie_segments(kept) == apps
        }),
{
    let segs = gate::cookie_segments(value);
    let apps = |c: Seq<char>| is_the_apps_cookie(c, app);
    let goes = |c: Seq<char>| gate::goes_upstream(c, app);
    assert forall|c: Seq<char>| #[trigger] apps(c) == goes(c) by {
        match seqs::split_once(c, '=') {
            Some((k, _)) => {
                lemma_own_names(text::trim(k));
            },
            None => {
                lemma_own_names(c);
            },
        }
    }
    lemma_same_filter(segs, apps, goes);
    gate_laws::lemma_sent_segments(value, app);
    let kept = gate::kept_cookies(value, app);
    let sent = gate_laws::sent_segments(value, app);
    if kept.len() > 0 {
        gate_laws::lemma_cookie_line(value, app);
    } else if sent.len() > 0 {
        let last = sent.last();
        assert(last == sent[sent.len() - 1]);
        assert(last.len() > 0);
    }
}

/// What is read of what was rewritten is what was read, rewritten.
proof fn lemma_rewritten<A, B>(
    s: Seq<A>,
    f: spec_fn(A) -> Option<A>,
    g: spec_fn(A) -> Option<B>,
    h: spec_fn(B) -> B,
    p: spec_fn(B) -> bool,
)
    requires
        forall|i: int| 0 <= i < s.len() ==> match g(#[trigger] s[i]) {
            Some(v) => if p(h(v)) {
                f(s[i]) is Some && g(f(s[i])->0) == Some(h(v))
            } else {
                f(s[i]) is None
            },
            None => f(s[i]) is None || g(f(s[i])->0) is None,
        },
    ensures
        s.filter_map(f).filter_map(g) == s.filter_map(g).map_values(h).filter(p),
    decreases s.len(),
{
    reveal(Seq::filter);
    if s.len() > 0 {
        let front = s.drop_last();
        let last = s.last();
        assert(last == s[s.len() - 1]);
        assert forall|i: int| 0 <= i < front.len() implies match g(#[trigger] front[i]) {
            Some(v) => if p(h(v)) {
                f(front[i]) is Some && g(f(front[i])->0) == Some(h(v))
            } else {
                f(front[i]) is None
            },
            None => f(front[i]) is None || g(f(front[i])->0) is None,
        } by {
            assert(front[i] == s[i]);
        }
        lemma_rewritten(front, f, g, h, p);
        let a = front.filter_map(f);
        let b = front.filter_map(g);
        match f(last) {
            Some(x) => {
                assert(s.filter_map(f) == a + seq![x]);
                assert((a + seq![x]).drop_last() =~= a);
            },
            None => {},
        }
        match g(last) {
            Some(v) => {
                assert(s.filter_map(g) == b + seq![v]);
                assert(s.filter_map(g).map_values(h) =~= b.map_values(h).push(h(v)));
                assert(b.map_values(h).push(h(v)).drop_last() =~= b.map_values(h));
            },
            None => {},
        }
    }
}

/// Each `Cookie` header goes to the box with the cookies of the app that it
/// held, and not at all when it held none.
pub proof fn law_each_cookie_header_goes_with_the_apps_cookies(
    head: Seq<char>,
    cookie: Seq<char>,
    app: Option<Set<Seq<char>>>,
)
    requires
        gate::parsed(head, cookie) is Some,
    ensures
        ({
            let out = gate::upstream_head(head, gate::parsed(head, cookie)->0, app);
            gate::values_named(gate::header_lines(out), "cookie"@) == gate::values_named(
                gate::header_lines(head),
                "cookie"@,
            ).map_values(|v: Seq<char>| gate::kept_cookies(v, app)).filter(
                |v: Seq<char>| v.len() > 0,
            )
        }),
{
    let req = gate::parsed(head, cookie)->0;
    let f = |l: Seq<char>| gate::forwarded_line(l, req, app);
    let g = |l: Seq<char>| gate::header_value(l, "cookie"@);
    let h = |v: Seq<char>| gate::kept_cookies(v, app);
    let p = |v: Seq<char>| v.len() > 0;
    let full = |l: Seq<char>| l.len() > 0;
    let all = gate::head_lines(head).skip(1);
    gate_laws::lemma_sent_lines(head, req, app);
    assert forall|i: int| 0 <= i < all.len() implies match g(#[trigger] all[i]) {
        Some(v) => if p(h(v)) {
            f(all[i]) is Some && g(f(all[i])->0) == Some(h(v))
        } else {
            f(all[i]) is None
        },
        None => f(all[i]) is None || g(f(all[i])->0) is None,
    } by {
        let l = all[i];
        seqs::lemma_find(l, ':');
        if let Some((k, v)) = seqs::split_once(l, ':') {
            if same_name(text::trim(k), "cookie"@) && h(text::trim(v)).len() > 0 {
                gate_laws::lemma_cookie_line(text::trim(v), app);
                gate_laws::lemma_cookie_name();
            }
        }
    }
    lemma_rewritten(all, f, g, h, p);
    assert(all.filter_map(g) == all.filter(full).filter_map(g)) by {
        lemma_full_lines_tell_all(all, g, full);
    }
    let forwarded = gate::forwarded_lines(head, req, app);
    if !req.upgrade {
        let tail = seq![gate_laws::close_line()];
        seqs::lemma_filter_map_concat(forwarded, tail, g);
        gate_laws::lemma_close_line("cookie"@);
        reveal_strlit("cookie");
        reveal_strlit("connection");
        gate_laws::lemma_other_length("cookie"@, "connection"@);
        assert(g(tail[0]) is None);
        seqs::lemma_filter_map_none(tail, g);
        assert(forwarded.filter_map(g) + Seq::<Seq<char>>::empty() =~= forwarded.filter_map(g));
    } else {
        assert(gate_laws::sent_headers(head, req, app) =~= forwarded);
    }
}

/// Lines of which nothing is read may be left out.
proof fn lemma_full_lines_tell_all(
    s: Seq<Seq<char>>,
    g: spec_fn(Seq<char>) -> Option<Seq<char>>,
    full: spec_fn(Seq<char>) -> bool,
)
    requires
        full == (|l: Seq<char>| l.len() > 0),
        g == (|l: Seq<char>| gate::header_value(l, "cookie"@)),
    ensures
        s.filter_map(g) == s.filter(full).filter_map(g),
    decreases s.len(),
{
    reveal(Seq::filter);
    if s.len() > 0 {
        let front = s.drop_last();
        let last = s.last();
        lemma_full_lines_tell_all(front, g, full);
        if full(last) {
            assert(s.filter(full).drop_last() =~= front.filter(full));
        } else {
            seqs::lemma_find(last, ':');
            assert(g(last) is None);
        }
    }
}

/// Two tests that agree leave the same.
pub proof fn lemma_same_filter<A>(s: Seq<A>, p: spec_fn(A) -> bool, q: spec_fn(A) -> bool)
    requires
        forall|a: A| #[trigger] p(a) == q(a),
    ensures
        s.filter(p) == s.filter(q),
    decreases s.len(),
{
    reveal(Seq::filter);
    if s.len() > 0 {
        lemma_same_filter(s.drop_last(), p, q);
        assert(p(s.last()) == q(s.last()));
    }
}

} // verus!
