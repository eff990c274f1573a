//! What a visitor is answered, and from whose page a request came.
use vstd::prelude::*;
use vstd::string::*;

use crate::forwarding_laws::same_name;
use crate::gate::{self, AppCookies, Refusal, Request};
use crate::http_front::{self, Next};
use crate::request_laws::{self, said};
use crate::seqs;
use crate::text;

verus! {

/// Where a redirect may lead: a path of this origin, and otherwise its root.
pub proof fn law_a_redirect_leads_to_the_page_or_the_root(target: &str, r: String)
    requires
        call_ensures(gate::safe_location, (target,), r),
    ensures
        target@.len() == 1 && target@[0] == '/' ==> r@ == target@,
        target@.len() > 1 && target@[0] == '/' && target@[1] != '/' && target@[1] != '\\' ==> r@
            == target@,
        target@.len() == 0 || target@[0] != '/' ==> r@ == seq!['/'],
        target@.len() > 1 && (target@[1] == '/' || target@[1] == '\\') ==> r@ == seq!['/'],
{
}

/// What a redirect says: where to, and the credential as a cookie that a page
/// cannot read, for the whole share, and over a secure connection only where the
/// share has one.
pub proof fn law_a_redirect_sets_the_cookie(
    cookie: &str,
    token: &str,
    location: &str,
    secure: bool,
    r: String,
)
    requires
        call_ensures(gate::set_cookie_redirect, (cookie, token, location, secure), r),
    ensures
        secure ==> r@ == "HTTP/1.1 302 Found\r\nLocation: "@ + location@ + "\r\nSet-Cookie: "@
            + cookie@ + "="@ + token@ + "; Path=/; HttpOnly; SameSite=Lax"@ + "; Secure"@
            + "\r\nCache-Control: no-store\r\nContent-Length: 0\r\nConnection: close\r\n\r\n"@,
        !secure ==> r@ == "HTTP/1.1 302 Found\r\nLocation: "@ + location@ + "\r\nSet-Cookie: "@
            + cookie@ + "="@ + token@ + "; Path=/; HttpOnly; SameSite=Lax"@
            + "\r\nCache-Control: no-store\r\nContent-Length: 0\r\nConnection: close\r\n\r\n"@,
{
    let a = "HTTP/1.1 302 Found\r\nLocation: "@ + location@ + "\r\nSet-Cookie: "@ + cookie@ + "="@
        + token@ + "; Path=/; HttpOnly; SameSite=Lax"@;
    assert(a + Seq::empty() =~= a);
}

/// The status and the words of each refusal.
pub proof fn law_each_refusal_has_its_status(r: Refusal, s: (u16, &'static str))
    requires
        call_ensures(Refusal::status, (r,), s),
    ensures
        r is NotAuthorized ==> s.0 == 401 && s.1@ == "Unauthorized"@,
        r is Malformed ==> s.0 == 400 && s.1@ == "Bad Request"@,
        r is ServiceWorker || r is ForeignOrigin ==> s.0 == 403 && s.1@ == "Forbidden"@,
{
}

/// This answer refuses for this.
pub open spec fn refuses(r: Next, why: Refusal) -> bool {
    r matches Next::Respond(said, Some(given)) && given == why && said@ == gate::refusal_text(why)
}

/// Who gets in. A service worker and a foreign page never do, nor does a request
/// without a credential or with one that was found wanting. One that was found
/// good goes to the box if the credential came in the cookie, and is sent to the
/// page without it, with the cookie set, if it came in the address.
pub proof fn law_who_gets_in(
    head: &str,
    cookie: &str,
    req: Request,
    authorized: bool,
    secure: bool,
    app: Option<&AppCookies>,
    r: Next,
)
    requires
        gate::parsed(head@, cookie@) == Some(req@),
        call_ensures(
            http_front::decide_weighed,
            (head, cookie, req, authorized, secure, app),
            r,
        ),
    ensures
        req.service_worker ==> refuses(r, Refusal::ServiceWorker),
        !req.service_worker && req.cross_origin ==> refuses(r, Refusal::ForeignOrigin),
        !req.service_worker && !req.cross_origin && (req.token is None || !authorized) ==> refuses(
            r,
            Refusal::NotAuthorized,
        ),
        !req.service_worker && !req.cross_origin && req.token is Some && authorized
            && req.from_query ==> (r matches Next::Respond(said, None) && said@ == gate::redirect(
            cookie@,
            req.token->0@,
            if req.clean_target@.len() > 0 && req.clean_target@[0] == '/' && !(
            req.clean_target@.len() > 1 && (req.clean_target@[1] == '/' || req.clean_target@[1]
                == '\\')) {
                req.clean_target@
            } else {
                seq!['/']
            },
            secure,
        )),
        !req.service_worker && !req.cross_origin && req.token is Some && authorized
            && !req.from_query ==> (r matches Next::Proxy { head: out, req: kept } && kept@ == req@
            && out@ == gate::upstream_head(head@, req@, gate::jar(app))),
{
}

/// What is not a request is refused as that, and is not weighed.
pub proof fn law_what_is_not_a_request_is_refused(
    head: Seq<char>,
    cookie: Seq<char>,
    authorized: bool,
    secure: bool,
    app: Option<Set<Seq<char>>>,
)
    requires
        gate::parsed(head, cookie) is None,
    ensures
        http_front::decision(head, cookie, authorized, secure, app)
            == http_front::NextView::Respond(
            gate::refusal_text(Refusal::Malformed),
            Some(Refusal::Malformed),
        ),
        http_front::to_weigh(head, cookie) is None,
{
}

/// The header is there once, and says this.
pub open spec fn says_once(headers: Seq<Seq<char>>, name: Seq<char>, what: Seq<char>) -> bool {
    said(headers, name).len() == 1 && said(headers, name)[0] == what
}

/// A site that a browser names and that is not this share: it is neither the same
/// origin nor nobody's, nor another site from which the invite was followed.
pub open spec fn is_another_site(
    site: Seq<char>,
    headers: Seq<Seq<char>>,
    followed: bool,
) -> bool {
    &&& site != "same-origin"@
    &&& site != "none"@
    &&& !(site == "cross-site"@ && followed && says_once(headers, "sec-fetch-mode"@, "navigate"@)
        && says_once(headers, "sec-fetch-dest"@, "document"@))
}

proof fn lemma_said_is_trimmed(headers: Seq<Seq<char>>, name: Seq<char>)
    ensures
        forall|i: int|
            0 <= i < said(headers, name).len() ==> text::trim(#[trigger] said(headers, name)[i])
                == said(headers, name)[i],
{
    assert forall|i: int| 0 <= i < said(headers, name).len() implies text::trim(
        #[trigger] said(headers, name)[i],
    ) == said(headers, name)[i] by {
        let l = crate::forwarding_laws::lines_named(headers, name)[i];
        let behind = l.skip(seqs::find(l, ':') as int + 1);
        assert(said(headers, name)[i] == request_laws::value_of(l));
        text::lemma_trim(behind);
        text::lemma_trim_same(text::trim(behind));
    }
}

/// A request is a foreign page's if one of the sites that a browser names says
/// so; where none is named, if one of the origins is not this share's own; and
/// otherwise it is not.
pub proof fn law_a_foreign_page_is_told_by_its_site(head: &str, cookie: &str, r: Option<Request>)
    requires
        call_ensures(gate::parse, (head, cookie), r),
    ensures
        r matches Some(req) ==> {
            let headers = gate::header_lines(head@);
            let sites = said(headers, "sec-fetch-site"@);
            let origins = said(headers, "origin"@);
            &&& sites.len() > 0 ==> (req.cross_origin <==> exists|i: int|
                0 <= i < sites.len() && is_another_site(
                    #[trigger] sites[i],
                    headers,
                    req.from_query,
                ))
            &&& sites.len() == 0 && origins.len() == 0 ==> !req.cross_origin
            &&& sites.len() == 0 ==> (req.cross_origin <==> exists|i: int|
                0 <= i < origins.len() && gate::foreign_origin(
                    #[trigger] origins[i],
                    if said(headers, "host"@).len() > 0 {
                        Some(said(headers, "host"@)[0])
                    } else {
                        None
                    },
                ))
        },
{
    if let Some(req) = r {
        let headers = gate::header_lines(head@);
        let sites = said(headers, "sec-fetch-site"@);
        request_laws::lemma_said(headers, "sec-fetch-site"@);
        request_laws::lemma_said(headers, "sec-fetch-mode"@);
        request_laws::lemma_said(headers, "sec-fetch-dest"@);
        request_laws::lemma_said(headers, "origin"@);
        request_laws::lemma_said(headers, "host"@);
        lemma_said_is_trimmed(headers, "sec-fetch-site"@);
        lemma_said_is_trimmed(headers, "sec-fetch-mode"@);
        lemma_said_is_trimmed(headers, "sec-fetch-dest"@);
        assert forall|i: int| 0 <= i < sites.len() implies is_another_site(
            #[trigger] sites[i],
            headers,
            req.from_query,
        ) == gate::foreign_site(sites[i], headers, req.from_query) by {
            assert(text::trim(sites[i]) == sites[i]);
        }
        if exists|i: int|
            0 <= i < sites.len() && is_another_site(#[trigger] sites[i], headers, req.from_query) {
            let i = choose|i: int|
                0 <= i < sites.len() && is_another_site(
                    #[trigger] sites[i],
                    headers,
                    req.from_query,
                );
            assert(gate::foreign_site(sites[i], headers, req.from_query));
        }
        if sites.len() > 0 && req.cross_origin {
            let i = choose|i: int|
                0 <= i < sites.len() && gate::foreign_site(
                    #[trigger] sites[i],
                    headers,
                    req.from_query,
                );
            assert(is_another_site(sites[i], headers, req.from_query));
        }
    }
}

/// An origin is this share's own exactly if its host and port are those that the
/// request was sent to, letter case aside; without a scheme, or without a host to
/// hold it against, it is foreign.
pub proof fn law_an_origin_is_told_by_its_host(
    scheme: Seq<char>,
    host: Seq<char>,
    rest: Seq<char>,
    asked: Option<Seq<char>>,
)
    requires
        seqs::lacks(scheme, ':'),
        seqs::lacks(host, '/'),
        seqs::lacks(host, '?'),
        seqs::lacks(host, '#'),
        rest.len() > 0 ==> rest[0] == '/' || rest[0] == '?' || rest[0] == '#',
    ensures
        gate::foreign_origin(scheme + seq![':', '/', '/'] + (host + rest), asked) <==> (asked is None
            || !same_name(host, text::trim(asked->0))),
        gate::foreign_origin(scheme, asked),
{
    let sep = seq![':', '/', '/'];
    let tail = host + rest;
    let s = scheme + sep + tail;
    let n = scheme.len() as int;
    assert(s.subrange(n, n + 3) =~= sep);
    assert forall|j: int| 0 <= j < n implies !seqs::occurs_at(s, sep, j) by {
        if seqs::occurs_at(s, sep, j) {
            assert(s.subrange(j, j + 3)[0] == s[j]);
            assert(s[j] == scheme[j]);
        }
    }
    seqs::lemma_find_seq_is(s, sep, 0, Some(n));
    assert(s.skip(n + 3) =~= tail);
    lemma_authority(host, rest);
    assert(tail.take(host.len() as int) =~= host);
    assert forall|j: int| 0 <= j implies !seqs::occurs_at(scheme, sep, j) by {
        if seqs::occurs_at(scheme, sep, j) {
            assert(scheme.subrange(j, j + 3)[0] == scheme[j]);
        }
    }
    seqs::lemma_find_seq_is(scheme, sep, 0, None);
}

proof fn lemma_authority(host: Seq<char>, rest: Seq<char>)
    requires
        seqs::lacks(host, '/'),
        seqs::lacks(host, '?'),
        seqs::lacks(host, '#'),
        rest.len() > 0 ==> rest[0] == '/' || rest[0] == '?' || rest[0] == '#',
    ensures
        gate::authority_len(host + rest) == host.len(),
    decreases host.len(),
{
    let s = host + rest;
    if host.len() == 0 {
        assert(s =~= rest);
    } else {
        let more = host.skip(1);
        assert forall|j: int| 0 <= j < more.len() implies more[j] != '/' && more[j] != '?' && more[j]
            != '#' by {
            assert(more[j] == host[j + 1]);
        }
        assert(s[0] == host[0]);
        assert(s.skip(1) =~= more + rest);
        lemma_authority(more, rest);
    }
}

} // verus!
