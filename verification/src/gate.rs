//! The HTTP gate: reading a share credential off a request, and making sure it
//! never travels any further.
//!
//! Two surfaces speak HTTP to a browser, the quick tunnel on the sharer's side
//! and the loopback proxy on the joiner's side, and both need the same three
//! things:
//!
//! 1. Find the credential. The first request carries it in the query string,
//!    because a URL is the only thing you can hand someone who has no h5i.
//!    Every request after that carries it in a cookie.
//! 2. Get it out of the address bar. A token in the URL leaks into `Referer`
//!    on every outbound link, into screen shares, and into whatever the shared
//!    app logs. So the first request is answered with a redirect that sets the
//!    cookie and points at the same page without the token.
//! 3. Never let it reach the box. The shared app is agent-written code we are
//!    deliberately exposing to someone; handing it the credential that
//!    authorizes the share would be handing it the share.
//!
//! Parsing is deliberately small and refuses rather than repairs. Everything
//! here arrives from the open internet in tunnel mode.
use vstd::prelude::*;
use vstd::slice::slice_subrange;
use vstd::string::*;

use crate::seqs;
use crate::text;

verus! {

/// Where the credential travels between requests.
///
/// A *prefix*, not the whole name: the loopback proxy on the joining side
/// appends its port. Cookies are scoped to a host and ignore the port, so two
/// `h5i join` sessions on one machine would otherwise set the same cookie on
/// `127.0.0.1` and quietly log each other out.
pub const COOKIE: &'static str = "h5i_share";

/// How many cookies one box may teach this. A dev server has a handful; a box
/// that emits a new cookie per response is not a dev server.
pub const MAX_APP_COOKIES: usize = 64;

/// Where the credential travels on the first request, in the URL a human was
/// sent.
pub const QUERY_PARAM: &'static str = "h5i";

/// Headers past this are refused. Generous for cookies, far below anything a
/// browser sends.
pub const MAX_HEAD: usize = 32 * 1024;

/// The cookie name of a loopback proxy on this port.
pub open spec fn port_cookie(port: u16) -> Seq<char> {
    COOKIE@ + seq!['_'] + text::decimal(port as nat)
}

/// A name that h5i uses for its own cookie: the bare [`COOKIE`], or that of a
/// port, which is never zero. Every other name is the app's, however it begins.
pub open spec fn share_cookie_name(name: Seq<char>) -> bool {
    name == COOKIE@ || exists|port: u16| port != 0 && name == #[trigger] port_cookie(port)
}

/// Is this cookie name one of h5i's own?
///
/// The two names that exist are the bare [`COOKIE`] and `h5i_share_<port>`. An
/// app cookie called `h5i_shared_theme` merely begins like them and belongs to
/// the app. One predicate, used in both directions, so the two cannot drift.
pub fn is_share_cookie_name(name: &str) -> (r: bool)
    ensures
        r == share_cookie_name(name@),
{
    let n: Vec<char> = text::chars_of(name);
    names_share_cookie(n.as_slice())
}

/// [`is_share_cookie_name`] on the characters of a name.
pub fn names_share_cookie(name: &[char]) -> (r: bool)
    ensures
        r == share_cookie_name(name@),
{
    let cookie: Vec<char> = text::chars_of(COOKIE);
    if !seqs::begins_with(name, cookie.as_slice()) {
        assert forall|port: u16| name@ != #[trigger] port_cookie(port) by {
            assert(port_cookie(port).take(COOKIE@.len() as int) == COOKIE@);
        }
        return false;
    }
    let rest = slice_subrange(name, cookie.len(), name.len());
    assert(rest@ == name@.skip(COOKIE@.len() as int));
    assert(name@ == COOKIE@ + rest@);
    if rest.len() == 0 {
        assert(name@ == COOKIE@);
        return true;
    }
    assert forall|port: u16| name@ == #[trigger] port_cookie(port) implies rest@ == seq!['_']
        + text::decimal(port as nat) by {
        assert(rest@ == port_cookie(port).skip(COOKIE@.len() as int));
    }
    if rest[0] != '_' {
        return false;
    }
    let port = slice_subrange(rest, 1, rest.len());
    assert(port@ == rest@.skip(1));
    assert forall|p: u16| name@ == #[trigger] port_cookie(p) implies port@ == text::decimal(
        p as nat,
    ) by {
        assert(port@ == (seq!['_'] + text::decimal(p as nat)).skip(1));
    }
    match text::parse_number(port, u16::MAX as u64) {
        Some(p) => {
            // As a port is written, and not any text that reads as one.
            let written: Vec<char> = text::decimal_chars(p);
            let same: bool = p != 0 && seqs::same(port, written.as_slice());
            proof {
                if same {
                    assert(name@ == port_cookie(p as u16));
                }
                assert forall|q: u16| q != 0 && name@ == #[trigger] port_cookie(q) implies same by {
                    text::law_decimal_reads_back(q as nat);
                }
            }
            same
        },
        None => {
            assert forall|q: u16| name@ != #[trigger] port_cookie(q) by {
                text::law_decimal_reads_back(q as nat);
            }
            false
        },
    }
}

/// The cookie name a loopback proxy on `port` should use.
pub fn cookie_for_port(port: u16) -> (r: String)
    ensures
        r@ == port_cookie(port),
{
    let mut out: String = String::new();
    out.append(COOKIE);
    out.push('_');
    text::push_decimal(&mut out, port as u64);
    assert(COOKIE@ + seq!['_'] == COOKIE@.push('_'));
    out
}

/// A cookie as a jar holds it and a browser sends it: `name=value`.
pub open spec fn cookie_pair(name: Seq<char>, value: Seq<char>) -> Seq<char> {
    name + seq!['='] + value
}

/// The cookies the box has set for itself, learned from its own `Set-Cookie`
/// headers as its responses go past.
///
/// A cookie jar is scoped by host and ignores the port, so a proxy on
/// `127.0.0.1` receives every cookie every *other* local service on this machine
/// has set. On a jar of this share's own they may all go upstream. On the shared
/// `127.0.0.1` jar, and only there, a cookie goes upstream only if the box on
/// the other end set it.
///
/// Name *and* value, not name alone. Two cookies may share a name in one jar
/// when their paths differ, and the browser then sends both. The one thing a
/// box cannot do is set a cookie to a secret it has not been told.
#[derive(Debug)]
pub struct AppCookies {
    /// `name=value`, exactly as the box set it and exactly as the browser will
    /// send it back. No pair is held twice.
    pairs: Vec<String>,
}

impl View for AppCookies {
    type V = Set<Seq<char>>;

    closed spec fn view(&self) -> Set<Seq<char>> {
        self.pairs@.map_values(|p: String| p@).to_set()
    }
}

impl Default for AppCookies {
    fn default() -> (r: AppCookies)
        ensures
            r.wf(),
            r@ == Set::<Seq<char>>::empty(),
    {
        let r = AppCookies { pairs: Vec::new() };
        assert(r@ =~= Set::<Seq<char>>::empty());
        r
    }
}

impl AppCookies {
    /// No pair is held twice, and there are at most [`MAX_APP_COOKIES`].
    pub closed spec fn wf(&self) -> bool {
        self.pairs@.map_values(|p: String| p@).no_duplicates() && self.pairs@.len()
            <= MAX_APP_COOKIES
    }

    /// A box can teach this only so much.
    pub proof fn law_a_box_can_teach_only_so_much(&self)
        requires
            self.wf(),
        ensures
            self@.finite(),
            self@.len() <= MAX_APP_COOKIES,
    {
        self.pairs@.map_values(|p: String| p@).unique_seq_to_set();
    }

    /// Where a pair stands in the list, or the length of the list.
    fn position(&self, pair: &String) -> (i: usize)
        ensures
            i <= self.pairs@.len(),
            i < self.pairs@.len() <==> self@.contains(pair@),
    {
        let mut i: usize = 0;
        let ghost all = self.pairs@.map_values(|p: String| p@);
        while i < self.pairs.len()
            invariant
                i <= self.pairs@.len(),
                all == self.pairs@.map_values(|p: String| p@),
                forall|j: int| 0 <= j < i ==> all[j] != pair@,
            decreases self.pairs@.len() - i,
        {
            if self.pairs[i] == *pair {
                assert(all[i as int] == pair@);
                assert(self@.contains(pair@));
                return i;
            }
            i = i + 1;
        }
        assert(!self@.contains(pair@));
        i
    }

    /// Remember a cookie the box set. Ours are never learned: they are stripped
    /// from the box's responses on the way out, so a box cannot talk its own
    /// name onto the list and get the share credential forwarded back to it.
    pub fn learn(&mut self, name: &str, value: &str)
        requires
            old(self).wf(),
        ensures
            final(self).wf(),
            final(self)@ == learned(old(self)@, name@, value@),
    {
        if name.is_empty() || is_share_cookie_name(name) {
            return;
        }
        let pair: String = pair_of(name, value);
        let i: usize = self.position(&pair);
        proof {
            self.pairs@.map_values(|p: String| p@).unique_seq_to_set();
        }
        if i < self.pairs.len() {
            assert(self@.insert(pair@) =~= self@);
            return;
        }
        if self.pairs.len() >= MAX_APP_COOKIES {
            return;
        }
        let ghost before = self.pairs@.map_values(|p: String| p@);
        self.pairs.push(pair);
        proof {
            let after = self.pairs@.map_values(|p: String| p@);
            assert(after == before.push(pair@));
            assert forall|s: Seq<char>| after.to_set().contains(s) == before.to_set().insert(
                pair@,
            ).contains(s) by {
                if before.contains(s) {
                    let k = before.index_of(s);
                    assert(after[k] == s);
                }
                if s == pair@ {
                    assert(after[before.len() as int] == s);
                }
            }
            assert(after.to_set() =~= before.to_set().insert(pair@));
        }
    }

    /// Did the box set this cookie, to this value? Cookie names and values are
    /// both case-sensitive, so this is an exact match on both.
    pub fn knows(&self, name: &str, value: &str) -> (r: bool)
        ensures
            r == self@.contains(cookie_pair(name@, value@)),
    {
        let pair: String = pair_of(name, value);
        let i: usize = self.position(&pair);
        i < self.pairs.len()
    }
}

/// What a box that sets this cookie leaves the list with.
pub open spec fn learned(known: Set<Seq<char>>, name: Seq<char>, value: Seq<char>) -> Set<
    Seq<char>,
> {
    let pair = cookie_pair(name, value);
    if name.len() == 0 || share_cookie_name(name) || (known.len() >= MAX_APP_COOKIES
        && !known.contains(pair)) {
        known
    } else {
        known.insert(pair)
    }
}

/// `name=value`.
fn pair_of(name: &str, value: &str) -> (r: String)
    ensures
        r@ == cookie_pair(name@, value@),
{
    let mut out: String = String::new();
    out.append(name);
    out.push('=');
    out.append(value);
    assert(name@.push('=') == name@ + seq!['=']);
    out
}

/// What is needed from a request line and its headers.
#[derive(Debug, Clone, PartialEq, Eq)]
pub struct Request {
    pub method: String,
    /// The request target exactly as sent.
    pub target: String,
    /// The target with the share parameter removed. Where a browser should be
    /// sent once the cookie is set.
    pub clean_target: String,
    /// True when the credential came from the URL, which is what makes this
    /// request a redirect rather than a proxy.
    pub from_query: bool,
    /// The credential, from the query if present, otherwise from the cookie.
    pub token: Option<String>,
    /// A genuine upgrade: an `Upgrade` header *and* a `Connection` header
    /// that lists `upgrade`. Both are required, because this flag is what opts
    /// a connection out of the one-request rule, and a lone `Upgrade:` header
    /// is something any client can send on an ordinary request.
    pub upgrade: bool,
    /// How long this request's body is. `None` means there is none.
    pub content_length: Option<u64>,
    /// The body's length is not something this proxy can know in advance.
    pub chunked: bool,
    /// The client said `Expect: 100-continue` and is waiting for permission.
    pub expects_continue: bool,
    /// The browser is asking to register a service worker.
    pub service_worker: bool,
    /// The request carries an `Origin` that is not this share's own.
    pub cross_origin: bool,
}

/// A [`Request`] with its texts as sequences of characters.
pub struct RequestView {
    pub method: Seq<char>,
    pub target: Seq<char>,
    pub clean_target: Seq<char>,
    pub from_query: bool,
    pub token: Option<Seq<char>>,
    pub upgrade: bool,
    pub content_length: Option<u64>,
    pub chunked: bool,
    pub expects_continue: bool,
    pub service_worker: bool,
    pub cross_origin: bool,
}

impl View for Request {
    type V = RequestView;

    open spec fn view(&self) -> RequestView {
        RequestView {
            method: self.method@,
            target: self.target@,
            clean_target: self.clean_target@,
            from_query: self.from_query,
            token: match self.token {
                Some(t) => Some(t@),
                None => None,
            },
            upgrade: self.upgrade,
            content_length: self.content_length,
            chunked: self.chunked,
            expects_continue: self.expects_continue,
            service_worker: self.service_worker,
            cross_origin: self.cross_origin,
        }
    }
}

/// The two characters that end a line.
pub open spec fn crlf() -> Seq<char> {
    seq!['\r', '\n']
}

/// The lines of a head.
pub open spec fn head_lines(head: Seq<char>) -> Seq<Seq<char>> {
    seqs::split_seq(head, crlf())
}

/// The header lines of a head: every line behind the first that is not empty.
pub open spec fn header_lines(head: Seq<char>) -> Seq<Seq<char>> {
    head_lines(head).skip(1).filter(|l: Seq<char>| l.len() > 0)
}

/// The value of a header line that has this name, letter case aside.
pub open spec fn header_value(line: Seq<char>, name: Seq<char>) -> Option<Seq<char>> {
    match seqs::split_once(line, ':') {
        Some((k, v)) => if text::lowered(text::trim(k)) == text::lowered(name) {
            Some(text::trim(v))
        } else {
            None
        },
        None => None,
    }
}

/// Every value for a header name, in order.
pub open spec fn values_named(headers: Seq<Seq<char>>, name: Seq<char>) -> Seq<Seq<char>> {
    headers.filter_map(|l: Seq<char>| header_value(l, name))
}

/// What stands at this position is not half of a line ending.
pub open spec fn no_half_line_end<T>(s: Seq<T>, cr: T, lf: T, i: int) -> bool {
    (s[i] == lf ==> i > 0 && s[i - 1] == cr) && (s[i] == cr ==> i + 1 < s.len() && s[i + 1] == lf)
}

/// A line ending is a carriage return and a line feed, and neither stands
/// without the other.
pub open spec fn line_ends_agree<T>(s: Seq<T>, cr: T, lf: T) -> bool {
    forall|i: int| 0 <= i < s.len() ==> #[trigger] no_half_line_end(s, cr, lf, i)
}

/// A character RFC 7230 allows in a header field name.
pub open spec fn tchar(c: char) -> bool {
    text::is_alphanumeric(c) || seq![
        '!',
        '#',
        '$',
        '%',
        '&',
        '\'',
        '*',
        '+',
        '-',
        '.',
        '^',
        '_',
        '`',
        '|',
        '~',
    ].contains(c)
}

/// A header line that two parsers cannot read differently: it does not continue
/// the line before it, and its name is made of [`tchar`]s up to the colon.
pub open spec fn unambiguous(line: Seq<char>) -> bool {
    match seqs::split_once(line, ':') {
        Some((k, _)) => k.len() > 0 && forall|i: int| 0 <= i < k.len() ==> tchar(#[trigger] k[i]),
        None => false,
    }
}

/// Does a comma-separated list contain this token, letter case aside?
pub open spec fn lists(value: Seq<char>, token: Seq<char>) -> bool {
    exists|i: int|
        0 <= i < seqs::split(value, ',').len() && text::lowered(
            text::trim(#[trigger] seqs::split(value, ',')[i]),
        ) == text::lowered(token)
}

/// A credential worth comparing: one to 128 ASCII letters and digits.
pub open spec fn is_plausible(token: Seq<char>) -> bool {
    0 < token.len() <= 128 && forall|i: int|
        0 <= i < token.len() ==> text::is_alphanumeric(#[trigger] token[i])
}

/// Does `raw` spell `want` once its well-formed percent escapes are decoded?
pub open spec fn spells(raw: Seq<char>, want: Seq<char>) -> bool
    decreases raw.len(),
{
    if raw.len() == 0 {
        want.len() == 0
    } else if raw.len() >= 3 && raw[0] == '%' && text::hex_value(raw[1]) is Some
        && text::hex_value(raw[2]) is Some {
        want.len() > 0 && want[0] as int == text::hex_value(raw[1])->0 * 16 + text::hex_value(
            raw[2],
        )->0 && spells(raw.skip(3), want.skip(1))
    } else {
        want.len() > 0 && want[0] == raw[0] && spells(raw.skip(1), want.skip(1))
    }
}

/// The name and the value of one query pair; without a `=` it is all name.
pub open spec fn query_pair(pair: Seq<char>) -> (Seq<char>, Seq<char>) {
    match seqs::split_once(pair, '=') {
        Some((k, v)) => (k, v),
        None => (pair, Seq::empty()),
    }
}

/// A query pair that is the share's own.
pub open spec fn is_share_pair(pair: Seq<char>) -> bool {
    spells(query_pair(pair).0, QUERY_PARAM@)
}

/// The parts of a query that stay: all but the share's own, empty ones too.
pub open spec fn kept_pairs(query: Seq<char>) -> Seq<Seq<char>> {
    seqs::split(query, '&').filter(|p: Seq<char>| !is_share_pair(p))
}

/// The value of a query pair that is the share's own.
pub open spec fn share_value(pair: Seq<char>) -> Option<Seq<char>> {
    if is_share_pair(pair) {
        Some(query_pair(pair).1)
    } else {
        None
    }
}

/// The last of a list, when there is one.
pub open spec fn last_of<A>(s: Seq<A>) -> Option<A> {
    if s.len() > 0 {
        Some(s.last())
    } else {
        None
    }
}

/// A request target without the share parameter. The rest of it stays as it
/// stood, and a query that was nothing else leaves with its question mark.
pub open spec fn clean(target: Seq<char>) -> Seq<char> {
    match seqs::split_once(target, '?') {
        Some((path, query)) => if kept_pairs(query).len() == 0 {
            path
        } else {
            path + seq!['?'] + seqs::join(kept_pairs(query), seq!['&'])
        },
        None => target,
    }
}

/// The share parameter of a request target; the last one, where there are more.
pub open spec fn query_token(target: Seq<char>) -> Option<Seq<char>> {
    match seqs::split_once(target, '?') {
        Some((_, query)) => last_of(
            seqs::split(query, '&').filter_map(|p: Seq<char>| share_value(p)),
        ),
        None => None,
    }
}

/// The segments of a `Cookie` header value, without the space around them.
pub open spec fn cookie_segments(value: Seq<char>) -> Seq<Seq<char>> {
    seqs::split(value, ';').map_values(|c: Seq<char>| text::trim(c))
}

/// What a cookie segment gives the cookie of this name.
pub open spec fn cookie_value(segment: Seq<char>, name: Seq<char>) -> Option<Seq<char>> {
    match seqs::split_once(segment, '=') {
        Some((k, v)) => if text::trim(k) == name {
            Some(text::trim(v))
        } else {
            None
        },
        None => None,
    }
}

/// A cookie segment that may go to the box: not named like one of ours, and on
/// a shared jar one that the box itself set.
pub open spec fn goes_upstream(segment: Seq<char>, app: Option<Set<Seq<char>>>) -> bool {
    match seqs::split_once(segment, '=') {
        Some((k, v)) => !share_cookie_name(text::trim(k)) && (app is None || app->0.contains(
            cookie_pair(text::trim(k), text::trim(v)),
        )),
        None => segment.len() > 0 && !share_cookie_name(segment) && app is None,
    }
}

/// Our own cookie in a `Cookie` header value; the last one, where there are more.
pub open spec fn our_cookie(value: Seq<char>, name: Seq<char>) -> Option<Seq<char>> {
    last_of(cookie_segments(value).filter_map(|c: Seq<char>| cookie_value(c, name)))
}

/// A `Cookie` header value as it goes to the box.
pub open spec fn kept_cookies(value: Seq<char>, app: Option<Set<Seq<char>>>) -> Seq<char> {
    seqs::join(
        cookie_segments(value).filter(|c: Seq<char>| goes_upstream(c, app)),
        seq![';', ' '],
    )
}

/// The first of these `Cookie` header values that holds our own cookie.
pub open spec fn cookie_token(values: Seq<Seq<char>>, name: Seq<char>) -> Option<Seq<char>>
    decreases values.len(),
{
    if values.len() == 0 {
        None
    } else {
        match our_cookie(values[0], name) {
            Some(t) => Some(t),
            None => cookie_token(values.skip(1), name),
        }
    }
}

/// What a set of learned cookies stands for, where there is one.
pub open spec fn jar(app: Option<&AppCookies>) -> Option<Set<Seq<char>>> {
    match app {
        Some(a) => Some(a@),
        None => None,
    }
}

/// The first value of a header.
pub open spec fn first_named(headers: Seq<Seq<char>>, name: Seq<char>) -> Option<Seq<char>> {
    let vs = values_named(headers, name);
    if vs.len() > 0 {
        Some(vs[0])
    } else {
        None
    }
}

/// Exactly one value for this header, and it is this one.
pub open spec fn says_only(headers: Seq<Seq<char>>, name: Seq<char>, want: Seq<char>) -> bool {
    let vs = values_named(headers, name);
    vs.len() == 1 && text::trim(vs[0]) == want
}

/// A top-level navigation, as the fetch metadata describes it.
pub open spec fn navigates(headers: Seq<Seq<char>>) -> bool {
    says_only(headers, "sec-fetch-mode"@, "navigate"@) && says_only(
        headers,
        "sec-fetch-dest"@,
        "document"@,
    )
}

/// A `Sec-Fetch-Site` value that says the request is not this share's own: it
/// is neither the share's own page nor a load by the user, nor the invite
/// being followed from another site.
pub open spec fn foreign_site(site: Seq<char>, headers: Seq<Seq<char>>, invited: bool) -> bool {
    let s = text::trim(site);
    s != "same-origin"@ && s != "none"@ && !(s == "cross-site"@ && navigates(headers) && invited)
}

/// How many characters stand before the first of `/`, `?` and `#`.
pub open spec fn authority_len(s: Seq<char>) -> nat
    decreases s.len(),
{
    if s.len() == 0 || s[0] == '/' || s[0] == '?' || s[0] == '#' {
        0
    } else {
        1 + authority_len(s.skip(1))
    }
}

/// An `Origin` value that is not this share's own, by host and port.
pub open spec fn foreign_origin(origin: Seq<char>, host: Option<Seq<char>>) -> bool {
    match seqs::split_once_seq(origin, seq![':', '/', '/']) {
        Some((_, rest)) => host is None || text::lowered(rest.take(authority_len(rest) as int))
            != text::lowered(text::trim(host->0)),
        None => true,
    }
}

/// Does a request with these headers come from a page that is not this share?
/// Every value counts, and one that says so is enough.
pub open spec fn comes_from_elsewhere(
    headers: Seq<Seq<char>>,
    host: Option<Seq<char>>,
    invited: bool,
) -> bool {
    let sites = values_named(headers, "sec-fetch-site"@);
    let origins = values_named(headers, "origin"@);
    if sites.len() > 0 {
        exists|i: int| 0 <= i < sites.len() && foreign_site(#[trigger] sites[i], headers, invited)
    } else {
        exists|i: int| 0 <= i < origins.len() && foreign_origin(#[trigger] origins[i], host)
    }
}

/// Does one of these header values list this token?
pub open spec fn some_lists(values: Seq<Seq<char>>, token: Seq<char>) -> bool {
    exists|i: int| 0 <= i < values.len() && lists(#[trigger] values[i], token)
}

/// The transfer codings of one `Transfer-Encoding` value; `identity` is none.
pub open spec fn codings_of(value: Seq<char>) -> Seq<Seq<char>> {
    seqs::split(value, ',').map_values(|t: Seq<char>| text::lowered(text::trim(t))).filter(
        |t: Seq<char>| t.len() > 0 && t != "identity"@,
    )
}

/// The transfer codings of all these values, in order.
pub open spec fn codings(values: Seq<Seq<char>>) -> Seq<Seq<char>> {
    seqs::concat(values.map_values(|v: Seq<char>| codings_of(v)))
}

/// A declared length: digits and nothing else, and no more than fits.
pub open spec fn declared_length(value: Seq<char>) -> Option<u64> {
    let v = text::trim(value);
    if text::is_number(v) && text::number(v) <= u64::MAX {
        Some(text::number(v) as u64)
    } else {
        None
    }
}

/// Where the body of a request with these headers ends, when the headers leave
/// no room for two readings: a length and whether it is chunked.
pub open spec fn framing(headers: Seq<Seq<char>>) -> Option<(Option<u64>, bool)> {
    let lengths = values_named(headers, "content-length"@);
    let cs = codings(values_named(headers, "transfer-encoding"@));
    if lengths.len() > 1 || (cs.len() > 0 && lengths.len() > 0) {
        None
    } else if cs.len() > 0 {
        if cs.last() == "chunked"@ {
            Some((None, true))
        } else {
            None
        }
    } else if lengths.len() == 1 {
        match declared_length(lengths[0]) {
            Some(n) => Some((Some(n), false)),
            None => None,
        }
    } else {
        Some((None, false))
    }
}

/// The credential of a request: the URL's when it is plausible, else the
/// cookie's when that is.
pub open spec fn credential(
    target: Seq<char>,
    headers: Seq<Seq<char>>,
    cookie: Seq<char>,
) -> Option<Seq<char>> {
    let from_cookie = cookie_token(values_named(headers, "cookie"@), cookie);
    if invited(target) {
        query_token(target)
    } else if from_cookie is Some && is_plausible(from_cookie->0) {
        from_cookie
    } else {
        None
    }
}

/// Does the target carry a plausible credential?
pub open spec fn invited(target: Seq<char>) -> bool {
    query_token(target) is Some && is_plausible(query_token(target)->0)
}

/// A head whose lines can be read in one way only.
pub open spec fn head_is_plain(head: Seq<char>) -> bool {
    let headers = header_lines(head);
    let parts = text::words(head_lines(head)[0]);
    &&& line_ends_agree(head, '\r', '\n')
    &&& forall|i: int| 0 <= i < headers.len() ==> unambiguous(#[trigger] headers[i])
    &&& parts.len() == 3
    &&& "HTTP/"@.is_prefix_of(parts[2])
    &&& values_named(headers, "host"@).len() <= 1
}

/// What a head says, when it is a request head that this gate reads.
pub open spec fn parsed(head: Seq<char>, cookie: Seq<char>) -> Option<RequestView> {
    let headers = header_lines(head);
    let parts = text::words(head_lines(head)[0]);
    if !head_is_plain(head) {
        None
    } else {
        match framing(headers) {
            None => None,
            Some((content_length, chunked)) => Some(
                RequestView {
                    method: parts[0],
                    target: parts[1],
                    clean_target: clean(parts[1]),
                    from_query: invited(parts[1]),
                    token: credential(parts[1], headers, cookie),
                    upgrade: first_named(headers, "upgrade"@) is Some && text::trim(
                        first_named(headers, "upgrade"@)->0,
                    ).len() > 0 && some_lists(values_named(headers, "connection"@), "upgrade"@),
                    content_length,
                    chunked,
                    expects_continue: some_lists(values_named(headers, "expect"@), "100-continue"@),
                    service_worker: exists|i: int|
                        0 <= i < values_named(headers, "service-worker"@).len() && text::lowered(
                            #[trigger] values_named(headers, "service-worker"@)[i],
                        ) == text::lowered("script"@),
                    cross_origin: comes_from_elsewhere(
                        headers,
                        first_named(headers, "host"@),
                        invited(parts[1]),
                    ),
                },
            ),
        }
    }
}

/// A byte RFC 7230 allows in a header field name.
///
/// Checked as a whole rather than by trimming the white space anyone thinks of:
/// a trim strips the entire Unicode white space class, so a name like
/// `Content-Length` with a form feed behind it would match every lookup here
/// while being a malformed line to the box.
pub fn is_tchar(b: u8) -> (r: bool)
    ensures
        r == tchar(b as char),
{
    is_name_char(b as char)
}

/// [`is_tchar`] on a character.
fn is_name_char(c: char) -> (r: bool)
    ensures
        r == tchar(c),
{
    let r: bool = text::alphanumeric(c) || c == '!' || c == '#' || c == '$' || c == '%' || c == '&'
        || c == '\'' || c == '*' || c == '+' || c == '-' || c == '.' || c == '^' || c == '_' || c
        == '`' || c == '|' || c == '~';
    proof {
        let marks = seq![
            '!',
            '#',
            '$',
            '%',
            '&',
            '\'',
            '*',
            '+',
            '-',
            '.',
            '^',
            '_',
            '`',
            '|',
            '~',
        ];
        assert(marks[0] == '!' && marks[1] == '#' && marks[2] == '$' && marks[3] == '%' && marks[4]
            == '&' && marks[5] == '\'' && marks[6] == '*' && marks[7] == '+' && marks[8] == '-'
            && marks[9] == '.' && marks[10] == '^' && marks[11] == '_' && marks[12] == '`'
            && marks[13] == '|' && marks[14] == '~');
    }
    r
}

/// Is every line ending in this head a CRLF?
///
/// A bare LF inside a header line is one header to a parser that splits on
/// CRLF and two headers to almost everything else. There is no reason a real
/// client sends one, so this refuses rather than normalising.
pub fn line_ends_are_consistent<T: seqs::Symbol>(s: &[T], cr: T, lf: T) -> (r: bool)
    ensures
        r == line_ends_agree(s@, cr, lf),
{
    let mut i: usize = 0;
    while i < s.len()
        invariant
            0 <= i <= s@.len(),
            forall|j: int| 0 <= j < i ==> #[trigger] no_half_line_end(s@, cr, lf, j),
        decreases s@.len() - i,
    {
        assert(no_half_line_end(s@, cr, lf, i as int) == ((s@[i as int] == lf ==> i > 0 && s@[i - 1]
            == cr) && (s@[i as int] == cr ==> i + 1 < s@.len() && s@[i + 1] == lf)));
        if s[i].same(&lf) && (i == 0 || !s[i - 1].same(&cr)) {
            return false;
        }
        if s[i].same(&cr) && (i + 1 >= s.len() || !s[i + 1].same(&lf)) {
            return false;
        }
        i = i + 1;
    }
    true
}

/// The header lines among the lines of a head.
fn headers_of<'a>(lines: &Vec<&'a [char]>) -> (r: Vec<&'a [char]>)
    requires
        lines@.len() > 0,
    ensures
        seqs::views(r@) == seqs::views(lines@).skip(1).filter(|l: Seq<char>| l.len() > 0),
{
    let mut out: Vec<&'a [char]> = Vec::new();
    let ghost all = seqs::views(lines@).skip(1);
    let ghost keep = |l: Seq<char>| l.len() > 0;
    let mut i: usize = 1;
    assert(all.take(0).filter(keep) == Seq::<Seq<char>>::empty()) by {
        reveal(Seq::filter);
    }
    while i < lines.len()
        invariant
            1 <= i <= lines@.len(),
            all == seqs::views(lines@).skip(1),
            keep == (|l: Seq<char>| l.len() > 0),
            seqs::views(out@) == all.take(i - 1).filter(keep),
        decreases lines@.len() - i,
    {
        let l = lines[i];
        proof {
            assert(all[i - 1] == l@);
            seqs::lemma_filter_step(all, keep, i - 1);
        }
        let ghost before = out@;
        if l.len() > 0 {
            out.push(l);
            assert(seqs::views(out@) == seqs::views(before).push(l@));
        }
        i = i + 1;
    }
    assert(all.take(all.len() as int) == all);
    out
}

/// Every value for a header name, in order. A *second* copy is a disagreement
/// between us and the box about what the request says.
fn headers_named<'a>(headers: &Vec<&'a [char]>, name: &str) -> (r: Vec<&'a [char]>)
    ensures
        seqs::views(r@) == values_named(seqs::views(headers@), name@),
{
    let mut out: Vec<&'a [char]> = Vec::new();
    let ghost all = seqs::views(headers@);
    let ghost f = |l: Seq<char>| header_value(l, name@);
    let mut i: usize = 0;
    while i < headers.len()
        invariant
            0 <= i <= headers@.len(),
            all == seqs::views(headers@),
            f == (|l: Seq<char>| header_value(l, name@)),
            seqs::views(out@) == all.take(i as int).filter_map(f),
        decreases headers@.len() - i,
    {
        let l = headers[i];
        proof {
            assert(all[i as int] == l@);
            seqs::lemma_filter_map_step(all, f, i as int);
        }
        let ghost before = out@;
        match seqs::split_at_first(l, ':') {
            Some((k, v)) => {
                if text::is_text_ignoring_case(text::trimmed(k), name) {
                    let value = text::trimmed(v);
                    out.push(value);
                    assert(seqs::views(out@) == seqs::views(before).push(value@));
                }
            },
            None => {},
        }
        i = i + 1;
    }
    assert(all.take(all.len() as int) == all);
    out
}

/// Are all of these lines headers that cannot be read in two ways?
fn headers_are_unambiguous(headers: &Vec<&[char]>) -> (r: bool)
    ensures
        r == forall|i: int|
            0 <= i < headers@.len() ==> unambiguous(#[trigger] seqs::views(headers@)[i]),
{
    let ghost all = seqs::views(headers@);
    let mut i: usize = 0;
    while i < headers.len()
        invariant
            0 <= i <= headers@.len(),
            all == seqs::views(headers@),
            forall|j: int| 0 <= j < i ==> unambiguous(#[trigger] all[j]),
        decreases headers@.len() - i,
    {
        let l = headers[i];
        assert(all[i as int] == l@);
        match seqs::split_at_first(l, ':') {
            Some((k, _)) => {
                if !is_name(k) {
                    return false;
                }
            },
            None => {
                return false;
            },
        }
        i = i + 1;
    }
    true
}

/// Is this a header field name?
fn is_name(k: &[char]) -> (r: bool)
    ensures
        r == (k@.len() > 0 && forall|i: int| 0 <= i < k@.len() ==> tchar(#[trigger] k@[i])),
{
    let mut i: usize = 0;
    while i < k.len()
        invariant
            0 <= i <= k@.len(),
            forall|j: int| 0 <= j < i ==> tchar(#[trigger] k@[j]),
        decreases k@.len() - i,
    {
        if !is_name_char(k[i]) {
            return false;
        }
        i = i + 1;
    }
    k.len() > 0
}

/// Does a comma-separated header list contain this token?
fn lists_token(value: &[char], token: &str) -> (r: bool)
    ensures
        r == lists(value@, token@),
{
    let parts: Vec<&[char]> = seqs::split_at_each(value, ',');
    let ghost all = seqs::split(value@, ',');
    let mut i: usize = 0;
    while i < parts.len()
        invariant
            0 <= i <= parts@.len(),
            all == seqs::split(value@, ','),
            seqs::views(parts@) == all,
            forall|j: int|
                0 <= j < i ==> text::lowered(text::trim(#[trigger] all[j])) != text::lowered(token@),
        decreases parts@.len() - i,
    {
        assert(all[i as int] == parts@[i as int]@);
        if text::is_text_ignoring_case(text::trimmed(parts[i]), token) {
            return true;
        }
        i = i + 1;
    }
    assert(all.len() == parts@.len());
    false
}

/// Does one of these header values list this token?
fn any_lists(values: &Vec<&[char]>, token: &str) -> (r: bool)
    ensures
        r == some_lists(seqs::views(values@), token@),
{
    let ghost all = seqs::views(values@);
    let mut i: usize = 0;
    while i < values.len()
        invariant
            0 <= i <= values@.len(),
            all == seqs::views(values@),
            forall|j: int| 0 <= j < i ==> !lists(#[trigger] all[j], token@),
        decreases values@.len() - i,
    {
        assert(all[i as int] == values@[i as int]@);
        if lists_token(values[i], token) {
            return true;
        }
        i = i + 1;
    }
    false
}

/// Is this a credential we are willing to compare at all?
///
/// A share secret is fixed-width hex. Refusing anything else here means the
/// authorization path never sees a megabyte-long "token".
pub fn plausible(token: &[char]) -> (r: bool)
    ensures
        r == is_plausible(token@),
{
    if token.len() == 0 || token.len() > 128 {
        return false;
    }
    let mut i: usize = 0;
    while i < token.len()
        invariant
            0 <= i <= token@.len(),
            forall|j: int| 0 <= j < i ==> text::is_alphanumeric(#[trigger] token@[j]),
        decreases token@.len() - i,
    {
        if !text::alphanumeric(token[i]) {
            return false;
        }
        i = i + 1;
    }
    true
}

/// Is this query-parameter name ours, as the box will read it?
///
/// Compared after percent-decoding, because that is what the thing on the other
/// end does: `%68%35%69` is `h5i` to every web framework that decodes its
/// parameter names. Only a well-formed escape turns into its byte, a malformed
/// one stays as itself, and the comparison is case-sensitive because query
/// parameter names are.
pub fn is_share_param_name(raw: &[char]) -> (r: bool)
    ensures
        r == spells(raw@, QUERY_PARAM@),
{
    let want: Vec<char> = text::chars_of(QUERY_PARAM);
    let mut matched: usize = 0;
    let mut i: usize = 0;
    assert(raw@.skip(0) == raw@);
    assert(want@.skip(0) == want@);
    while i < raw.len()
        invariant
            0 <= i <= raw@.len(),
            0 <= matched <= want@.len(),
            want@ == QUERY_PARAM@,
            spells(raw@.skip(i as int), want@.skip(matched as int)) == spells(
                raw@,
                QUERY_PARAM@,
            ),
        decreases raw@.len() - i,
    {
        let ghost r = raw@.skip(i as int);
        let ghost w = want@.skip(matched as int);
        let n: usize = raw.len();
        let mut step: usize = 1;
        let mut byte: char = raw[i];
        if raw[i] == '%' && n - i >= 3 {
            match (text::hex_of(raw[i + 1]), text::hex_of(raw[i + 2])) {
                (Some(hi), Some(lo)) => {
                    byte = (hi * 16 + lo) as char;
                    step = 3;
                },
                _ => {},
            }
        }
        proof {
            assert(r[0] == raw@[i as int]);
            if r.len() >= 3 {
                assert(r[1] == raw@[i + 1] && r[2] == raw@[i + 2]);
            }
            if w.len() > 0 {
                assert(w[0] == want@[matched as int]);
            }
        }
        if matched >= want.len() || byte != want[matched] {
            return false;
        }
        proof {
            assert(w.skip(1) == want@.skip(matched + 1));
            assert(r.skip(step as int) == raw@.skip(i + step));
        }
        matched = matched + 1;
        i = i + step;
    }
    matched == want.len()
}

/// The name and the value of one query pair.
fn split_pair<'a>(pair: &'a [char]) -> (r: (&'a [char], &'a [char]))
    ensures
        query_pair(pair@) == (r.0@, r.1@),
{
    match seqs::split_at_first(pair, '=') {
        Some((k, v)) => (k, v),
        None => {
            let none = slice_subrange(pair, 0, 0);
            assert(none@ == Seq::<char>::empty());
            (pair, none)
        },
    }
}

/// Remove the share parameter from a request target, leaving the rest of the
/// query alone. The app's own parameters are its business.
///
/// Every occurrence, whatever the value: the box reads the query after
/// percent-decoding, so `?h5i=<secret>%20` is a value this module refuses as a
/// credential and the app resolves back into one. The removal is therefore a
/// superset of the read, and it has to stay that way.
fn strip_param<'a>(target: &'a [char]) -> (r: (Vec<char>, Option<&'a [char]>))
    ensures
        r.0@ == clean(target@),
        match r.1 {
            Some(t) => query_token(target@) == Some(t@),
            None => query_token(target@) is None,
        },
{
    match seqs::split_at_first(target, '?') {
        None => (seqs::copy_of(target), None),
        Some((path, query)) => {
            let pairs: Vec<&'a [char]> = seqs::split_at_each(query, '&');
            let ghost all = seqs::split(query@, '&');
            let ghost keep = |p: Seq<char>| !is_share_pair(p);
            let ghost take = |p: Seq<char>| share_value(p);
            let mut kept: Vec<&'a [char]> = Vec::new();
            let mut found: Option<&'a [char]> = None;
            let mut i: usize = 0;
            assert(all.take(0).filter(keep) == Seq::<Seq<char>>::empty()) by {
                reveal(Seq::filter);
            }
            while i < pairs.len()
                invariant
                    0 <= i <= pairs@.len(),
                    all == seqs::views(pairs@),
                    keep == (|p: Seq<char>| !is_share_pair(p)),
                    take == (|p: Seq<char>| share_value(p)),
                    seqs::views(kept@) == all.take(i as int).filter(keep),
                    match found {
                        Some(t) => last_of(all.take(i as int).filter_map(take)) == Some(t@),
                        None => last_of(all.take(i as int).filter_map(take)) is None,
                    },
                decreases pairs@.len() - i,
            {
                let pair = pairs[i];
                proof {
                    assert(all[i as int] == pair@);
                    seqs::lemma_filter_step(all, keep, i as int);
                    seqs::lemma_filter_map_step(all, take, i as int);
                }
                let (k, v) = split_pair(pair);
                let ghost before = kept@;
                if is_share_param_name(k) {
                    found = Some(v);
                } else {
                    kept.push(pair);
                    assert(seqs::views(kept@) == seqs::views(before).push(pair@));
                }
                i = i + 1;
            }
            assert(all.take(all.len() as int) == all);
            let mut out: Vec<char> = seqs::copy_of(path);
            if kept.len() > 0 {
                out.push('?');
                let amp: [char; 1] = ['&'];
                let query: Vec<char> = seqs::joined(&kept, &amp);
                assert(amp@ == seq!['&']);
                seqs::push_all(&mut out, query.as_slice());
                assert(path@.push('?') == path@ + seq!['?']);
            }
            (out, found)
        },
    }
}

/// Pull our cookie out of a `Cookie` header value, and hand back the segments
/// that may go upstream: none that is named like *any* h5i share cookie.
///
/// Reading our own by exact name and dropping every cookie that is named like
/// ours are two different rules on purpose. Cookies ignore the port, so two
/// `h5i join` sessions on one machine put *both* share credentials in every
/// request to either. Stripping only the exact name would leave one share
/// handing the other's credential to the code it is showing somebody.
///
/// `app` narrows what is kept from "everything that is not ours" to "what the
/// box itself set". See [`AppCookies`].
pub fn split_cookie<'a>(value: &'a [char], name: &str, app: Option<&AppCookies>) -> (r: (
    Option<&'a [char]>,
    Vec<char>,
))
    ensures
        match r.0 {
            Some(t) => our_cookie(value@, name@) == Some(t@),
            None => our_cookie(value@, name@) is None,
        },
        r.1@ == kept_cookies(value@, jar(app)),
{
    let parts: Vec<&'a [char]> = seqs::split_at_each(value, ';');
    let ghost all = cookie_segments(value@);
    let ghost keep = |c: Seq<char>| goes_upstream(c, jar(app));
    let ghost take = |c: Seq<char>| cookie_value(c, name@);
    let mut kept: Vec<&'a [char]> = Vec::new();
    let mut ours: Option<&'a [char]> = None;
    let mut i: usize = 0;
    assert(all.len() == parts@.len());
    assert(all.take(0).filter(keep) == Seq::<Seq<char>>::empty()) by {
        reveal(Seq::filter);
    }
    while i < parts.len()
        invariant
            0 <= i <= parts@.len(),
            all == cookie_segments(value@),
            seqs::views(parts@) == seqs::split(value@, ';'),
            all.len() == parts@.len(),
            keep == (|c: Seq<char>| goes_upstream(c, jar(app))),
            take == (|c: Seq<char>| cookie_value(c, name@)),
            seqs::views(kept@) == all.take(i as int).filter(keep),
            match ours {
                Some(t) => last_of(all.take(i as int).filter_map(take)) == Some(t@),
                None => last_of(all.take(i as int).filter_map(take)) is None,
            },
        decreases parts@.len() - i,
    {
        let c = text::trimmed(parts[i]);
        proof {
            assert(seqs::views(parts@)[i as int] == parts@[i as int]@);
            assert(all[i as int] == c@);
            seqs::lemma_filter_step(all, keep, i as int);
            seqs::lemma_filter_map_step(all, take, i as int);
        }
        let ghost before = kept@;
        let keeps: bool = match seqs::split_at_first(c, '=') {
            Some((k, v)) => {
                let k = text::trimmed(k);
                let v = text::trimmed(v);
                if text::is_text(k, name) {
                    ours = Some(v);
                }
                !names_share_cookie(k) && (match app {
                    Some(a) => a.knows(text::text_of(k).as_str(), text::text_of(v).as_str()),
                    None => true,
                })
            },
            None => c.len() > 0 && !names_share_cookie(c) && app.is_none(),
        };
        if keeps {
            kept.push(c);
            assert(seqs::views(kept@) == seqs::views(before).push(c@));
        }
        i = i + 1;
    }
    assert(all.take(all.len() as int) == all);
    let sep: [char; 2] = [';', ' '];
    assert(sep@ == seq![';', ' ']);
    (ours, seqs::joined(&kept, &sep))
}

/// Our own cookie, from the first `Cookie` header that holds it.
fn find_cookie<'a>(values: &Vec<&'a [char]>, name: &str) -> (r: Option<&'a [char]>)
    ensures
        match r {
            Some(t) => cookie_token(seqs::views(values@), name@) == Some(t@),
            None => cookie_token(seqs::views(values@), name@) is None,
        },
{
    let ghost all = seqs::views(values@);
    let mut i: usize = 0;
    assert(all.skip(0) == all);
    while i < values.len()
        invariant
            0 <= i <= values@.len(),
            all == seqs::views(values@),
            cookie_token(all.skip(i as int), name@) == cookie_token(all, name@),
        decreases values@.len() - i,
    {
        proof {
            assert(all.skip(i as int)[0] == values@[i as int]@);
            assert(all.skip(i as int).skip(1) == all.skip(i + 1));
        }
        let (ours, _) = split_cookie(values[i], name, None);
        if ours.is_some() {
            return ours;
        }
        i = i + 1;
    }
    assert(all.skip(i as int).len() == 0);
    None
}

/// Exactly one value for this header, and it is this one.
fn only_says(headers: &Vec<&[char]>, name: &str, want: &str) -> (r: bool)
    ensures
        r == says_only(seqs::views(headers@), name@, want@),
{
    let vs: Vec<&[char]> = headers_named(headers, name);
    let ghost all = seqs::views(vs@);
    if vs.len() != 1 {
        assert(all.len() != 1);
        return false;
    }
    assert(all[0] == vs@[0]@);
    text::is_text(text::trimmed(vs[0]), want)
}

/// A top-level navigation, as the fetch metadata describes it.
///
/// Both halves are required. `Sec-Fetch-Mode: navigate` alone is also sent for
/// an `<iframe>` and for a prefetch; pairing it with `Sec-Fetch-Dest: document`
/// narrows it to the address bar. Both are also required to be *unambiguous*: a
/// head that says two things about its own shape does not get to pick the
/// generous one.
fn is_a_navigation(headers: &Vec<&[char]>) -> (r: bool)
    ensures
        r == navigates(seqs::views(headers@)),
{
    only_says(headers, "sec-fetch-mode", "navigate") && only_says(
        headers,
        "sec-fetch-dest",
        "document",
    )
}

/// The front of a text up to the first of `/`, `?` and `#`.
fn authority<'a>(s: &'a [char]) -> (r: &'a [char])
    ensures
        r@ == s@.take(authority_len(s@) as int),
{
    let mut n: usize = 0;
    assert(s@.skip(0) == s@);
    while n < s.len() && s[n] != '/' && s[n] != '?' && s[n] != '#'
        invariant
            0 <= n <= s@.len(),
            authority_len(s@) == n + authority_len(s@.skip(n as int)),
        decreases s@.len() - n,
    {
        assert(s@.skip(n as int)[0] == s@[n as int]);
        assert(s@.skip(n as int).skip(1) == s@.skip(n + 1));
        n = n + 1;
    }
    proof {
        if n < s@.len() {
            assert(s@.skip(n as int)[0] == s@[n as int]);
        }
    }
    let r = slice_subrange(s, 0, n);
    assert(r@ == s@.take(n as int));
    r
}

/// Is this `Origin` somebody else's?
///
/// Compared by host and port only, not by scheme: a tunnel share arrives with
/// `Origin: https://...` and a bare `Host`, and requiring the schemes to agree
/// would refuse the app's own requests.
fn is_foreign_origin(origin: &[char], host: Option<&[char]>) -> (r: bool)
    ensures
        r == foreign_origin(
            origin@,
            match host {
                Some(h) => Some(h@),
                None => None,
            },
        ),
{
    let mark: [char; 3] = [':', '/', '/'];
    assert(mark@ == seq![':', '/', '/']);
    match seqs::position_of(origin, &mark) {
        // `null` is what a sandboxed context sends. It cannot be this share.
        None => true,
        Some(i) => {
            let n: usize = origin.len();
            let rest = slice_subrange(origin, i + 3, n);
            assert(rest@ == origin@.skip(i + 3));
            match host {
                Some(h) => !text::same_ignoring_case(authority(rest), text::trimmed(h)),
                // No `Host` to compare against is itself a request no browser
                // makes.
                None => true,
            }
        },
    }
}

/// Does this request come from a page that is not this share?
///
/// `Sec-Fetch-Site` first, because `Origin` is not sent at all on a subresource
/// GET. The share's own page and a load by the user are not foreign. A
/// navigation from another site is how every visitor arrives, but only the
/// invite: `SameSite=Lax` attaches a cookie to a cross-site navigation, so the
/// question is whether this request brought the capability with it.
///
/// Every value of these headers is read, not the first: a disagreement about
/// *where a request came from* is resolved against the request.
fn is_cross_origin(
    headers: &Vec<&[char]>,
    host: Option<&[char]>,
    carries_invite: bool,
) -> (r: bool)
    ensures
        r == comes_from_elsewhere(
            seqs::views(headers@),
            match host {
                Some(h) => Some(h@),
                None => None,
            },
            carries_invite,
        ),
{
    let sites: Vec<&[char]> = headers_named(headers, "sec-fetch-site");
    let ghost hs = seqs::views(headers@);
    let ghost all = seqs::views(sites@);
    assert(all.len() == sites@.len());
    if sites.len() > 0 {
        let mut i: usize = 0;
        while i < sites.len()
            invariant
                0 <= i <= sites@.len(),
                hs == seqs::views(headers@),
                all == seqs::views(sites@),
                all == values_named(hs, "sec-fetch-site"@),
                forall|j: int|
                    0 <= j < i ==> !foreign_site(#[trigger] all[j], hs, carries_invite),
            decreases sites@.len() - i,
        {
            assert(all[i as int] == sites@[i as int]@);
            let site = text::trimmed(sites[i]);
            if !text::is_text(site, "same-origin") && !text::is_text(site, "none") && !(
            text::is_text(site, "cross-site") && is_a_navigation(headers) && carries_invite) {
                return true;
            }
            i = i + 1;
        }
        return false;
    }
    let origins: Vec<&[char]> = headers_named(headers, "origin");
    let ghost from = seqs::views(origins@);
    assert(from.len() == origins@.len());
    let ghost at = match host {
        Some(h) => Some(h@),
        None => None,
    };
    let mut i: usize = 0;
    while i < origins.len()
        invariant
            0 <= i <= origins@.len(),
            from == seqs::views(origins@),
            from == values_named(seqs::views(headers@), "origin"@),
            values_named(seqs::views(headers@), "sec-fetch-site"@).len() == 0,
            at == (match host {
                Some(h) => Some(h@),
                None => None,
            }),
            forall|j: int| 0 <= j < i ==> !foreign_origin(#[trigger] from[j], at),
        decreases origins@.len() - i,
    {
        assert(from[i as int] == origins@[i as int]@);
        if is_foreign_origin(origins[i], host) {
            return true;
        }
        i = i + 1;
    }
    false
}

/// Is this request trying to register a service worker?
///
/// A page served over the joiner's loopback proxy is a secure context and may
/// register one, and what it registers outlives `h5i join`. A demo does not
/// need a service worker, so the registration request is refused by name;
/// browsers send `Service-Worker: script` on exactly that fetch.
fn registers_a_service_worker(headers: &Vec<&[char]>) -> (r: bool)
    ensures
        r == exists|i: int|
            0 <= i < values_named(seqs::views(headers@), "service-worker"@).len() && text::lowered(
                #[trigger] values_named(seqs::views(headers@), "service-worker"@)[i],
            ) == text::lowered("script"@),
{
    let vs: Vec<&[char]> = headers_named(headers, "service-worker");
    let ghost all = seqs::views(vs@);
    assert(all.len() == vs@.len());
    let mut i: usize = 0;
    while i < vs.len()
        invariant
            0 <= i <= vs@.len(),
            all == seqs::views(vs@),
            all == values_named(seqs::views(headers@), "service-worker"@),
            forall|j: int| 0 <= j < i ==> text::lowered(#[trigger] all[j]) != text::lowered("script"@),
        decreases vs@.len() - i,
    {
        assert(all[i as int] == vs@[i as int]@);
        if text::is_text_ignoring_case(vs[i], "script") {
            return true;
        }
        i = i + 1;
    }
    false
}

/// The transfer codings of all these values, in order, in lower case.
pub fn all_codings(values: &Vec<&[char]>) -> (r: Vec<Vec<char>>)
    ensures
        r@.map_values(|c: Vec<char>| c@) == codings(seqs::views(values@)),
{
    let mut out: Vec<Vec<char>> = Vec::new();
    let ghost view = |c: Vec<char>| c@;
    let ghost all = seqs::views(values@);
    let ghost of = |v: Seq<char>| codings_of(v);
    let ghost lists = all.map_values(of);
    let mut i: usize = 0;
    assert(out@.map_values(view) == Seq::<Seq<char>>::empty());
    while i < values.len()
        invariant
            0 <= i <= values@.len(),
            view == (|c: Vec<char>| c@),
            all == seqs::views(values@),
            of == (|v: Seq<char>| codings_of(v)),
            lists == all.map_values(of),
            out@.map_values(view) == seqs::concat(lists.take(i as int)),
        decreases values@.len() - i,
    {
        let more: Vec<Vec<char>> = value_codings(values[i]);
        proof {
            assert(lists[i as int] == codings_of(values@[i as int]@));
            assert(lists.take(i + 1).drop_last() == lists.take(i as int));
            assert(lists.take(i + 1).last() == more@.map_values(view));
        }
        let ghost before = out@;
        let mut more = more;
        let ghost added = more@;
        out.append(&mut more);
        assert(out@.map_values(view) == before.map_values(view) + added.map_values(view));
        i = i + 1;
    }
    assert(lists.take(lists.len() as int) == lists);
    out
}

/// The transfer codings of one value, in lower case.
fn value_codings(value: &[char]) -> (r: Vec<Vec<char>>)
    ensures
        r@.map_values(|c: Vec<char>| c@) == codings_of(value@),
{
    let parts: Vec<&[char]> = seqs::split_at_each(value, ',');
    let ghost view = |c: Vec<char>| c@;
    let ghost keep = |t: Seq<char>| t.len() > 0 && t != "identity"@;
    let ghost all = seqs::split(value@, ',').map_values(
        |t: Seq<char>| text::lowered(text::trim(t)),
    );
    let mut out: Vec<Vec<char>> = Vec::new();
    let mut i: usize = 0;
    assert(all.len() == seqs::views(parts@).len());
    assert(out@.map_values(view) == all.take(0).filter(keep)) by {
        reveal(Seq::filter);
    }
    while i < parts.len()
        invariant
            0 <= i <= parts@.len(),
            all.len() == parts@.len(),
            view == (|c: Vec<char>| c@),
            keep == (|t: Seq<char>| t.len() > 0 && t != "identity"@),
            seqs::views(parts@) == seqs::split(value@, ','),
            all == seqs::split(value@, ',').map_values(
                |t: Seq<char>| text::lowered(text::trim(t)),
            ),
            out@.map_values(view) == all.take(i as int).filter(keep),
        decreases parts@.len() - i,
    {
        let t: Vec<char> = text::lower_chars(text::trimmed(parts[i]));
        proof {
            assert(seqs::views(parts@)[i as int] == parts@[i as int]@);
            assert(all[i as int] == t@);
            seqs::lemma_filter_step(all, keep, i as int);
        }
        let ghost before = out@;
        if t.len() > 0 && !text::is_text(t.as_slice(), "identity") {
            out.push(t);
            assert(out@.map_values(view) == before.map_values(view).push(t@));
        }
        i = i + 1;
    }
    assert(all.take(all.len() as int) == all);
    out
}

/// Where the body of a request with these headers ends.
///
/// Framing has to be unambiguous, because the proxy forwards exactly one
/// request and needs to know where it ends. Two `Content-Length` headers, or a
/// `Content-Length` beside a transfer coding, let two parsers disagree about
/// that. A coding this proxy cannot follow is one it will not forward a body
/// under, and `chunked` has to be the last of them.
fn request_framing(headers: &Vec<&[char]>) -> (r: Option<(Option<u64>, bool)>)
    ensures
        r == framing(seqs::views(headers@)),
{
    let lengths: Vec<&[char]> = headers_named(headers, "content-length");
    let encodings: Vec<&[char]> = headers_named(headers, "transfer-encoding");
    let found: Vec<Vec<char>> = all_codings(&encodings);
    let ghost cs = codings(seqs::views(encodings@));
    assert(found@.map_values(|c: Vec<char>| c@).len() == cs.len());
    assert(seqs::views(lengths@).len() == lengths@.len());
    if lengths.len() > 1 || (found.len() > 0 && lengths.len() > 0) {
        return None;
    }
    if found.len() > 0 {
        let last = &found[found.len() - 1];
        assert(found@.map_values(|c: Vec<char>| c@)[cs.len() - 1] == last@);
        if text::is_text(last.as_slice(), "chunked") {
            return Some((None, true));
        }
        return None;
    }
    if lengths.len() == 1 {
        assert(seqs::views(lengths@)[0] == lengths@[0]@);
        // Digits and nothing else: a number may be read with a leading `+`, no
        // HTTP server does, and a value one side reads as a length and the other
        // reads as absent is the same disagreement.
        return match text::parse_number(text::trimmed(lengths[0]), u64::MAX) {
            Some(n) => Some((Some(n), false)),
            None => None,
        };
    }
    Some((None, false))
}

/// The first value of a header.
fn header<'a>(headers: &Vec<&'a [char]>, name: &str) -> (r: Option<&'a [char]>)
    ensures
        match r {
            Some(v) => first_named(seqs::views(headers@), name@) == Some(v@),
            None => first_named(seqs::views(headers@), name@) is None,
        },
{
    let vs: Vec<&'a [char]> = headers_named(headers, name);
    assert(seqs::views(vs@).len() == vs@.len());
    if vs.len() > 0 {
        assert(seqs::views(vs@)[0] == vs@[0]@);
        Some(vs[0])
    } else {
        None
    }
}

/// Read what is needed of a head. `None` when this is not an HTTP/1 request head, or
/// is one this proxy refuses to reason about.
pub fn parse(head: &str, cookie: &str) -> (r: Option<Request>)
    ensures
        match r {
            Some(req) => parsed(head@, cookie@) == Some(req@),
            None => parsed(head@, cookie@) is None,
        },
{
    let h: Vec<char> = text::chars_of(head);
    if !line_ends_are_consistent(h.as_slice(), '\r', '\n') {
        return None;
    }
    let end: [char; 2] = ['\r', '\n'];
    assert(end@ == crlf());
    let lines: Vec<&[char]> = seqs::split_at_each_of(h.as_slice(), &end);
    let ghost ls = head_lines(head@);
    proof {
        seqs::lemma_split_seq_len(head@, crlf());
        assert(seqs::views(lines@).len() == lines@.len());
        assert(ls[0] == lines@[0]@);
    }
    let headers: Vec<&[char]> = headers_of(&lines);
    let ghost hs = header_lines(head@);
    assert(seqs::views(headers@) == hs);
    assert(hs.len() == headers@.len());
    if !headers_are_unambiguous(&headers) {
        return None;
    }
    let parts: Vec<&[char]> = text::words_of(lines[0]);
    let ghost ws = text::words(ls[0]);
    assert(seqs::views(parts@) == ws);
    assert(ws.len() == parts@.len());
    if parts.len() != 3 {
        return None;
    }
    proof {
        assert(ws[0] == parts@[0]@);
        assert(ws[1] == parts@[1]@);
        assert(ws[2] == parts@[2]@);
    }
    let http: Vec<char> = text::chars_of("HTTP/");
    if !seqs::begins_with(parts[2], http.as_slice()) {
        return None;
    }
    // One `Host`, or none of this reasons about the right request: the origin
    // check compares against it, and the box picks its own from the same head.
    let hosts: Vec<&[char]> = headers_named(&headers, "host");
    assert(seqs::views(hosts@).len() == hosts@.len());
    if hosts.len() > 1 {
        return None;
    }
    let (content_length, chunked) = match request_framing(&headers) {
        Some(f) => f,
        None => {
            return None;
        },
    };
    let (clean_target, query) = strip_param(parts[1]);
    // Every `Cookie` header, not just the first: a client is allowed to send
    // more than one.
    let cookies: Vec<&[char]> = headers_named(&headers, "cookie");
    let ours: Option<&[char]> = find_cookie(&cookies, cookie);
    // The query only wins when it carries something usable: an app with its own
    // parameter called `h5i` must not shadow a perfectly good cookie.
    let from_query: bool = match query {
        Some(t) => plausible(t),
        None => false,
    };
    let token: Option<String> = if from_query {
        match query {
            Some(t) => Some(text::text_of(t)),
            None => None,
        }
    } else {
        match ours {
            Some(t) => if plausible(t) {
                Some(text::text_of(t))
            } else {
                None
            },
            None => None,
        }
    };
    let connections: Vec<&[char]> = headers_named(&headers, "connection");
    let upgrade: bool = match header(&headers, "upgrade") {
        Some(u) => text::trimmed(u).len() > 0 && any_lists(&connections, "upgrade"),
        None => false,
    };
    let expects: Vec<&[char]> = headers_named(&headers, "expect");
    Some(
        Request {
            method: text::text_of(parts[0]),
            target: text::text_of(parts[1]),
            clean_target: text::text_of(clean_target.as_slice()),
            from_query,
            token,
            upgrade,
            content_length,
            chunked,
            expects_continue: any_lists(&expects, "100-continue"),
            service_worker: registers_a_service_worker(&headers),
            cross_origin: is_cross_origin(&headers, header(&headers, "host"), from_query),
        },
    )
}

/// A target that stays on this origin.
pub open spec fn on_this_origin(target: Seq<char>) -> bool {
    target.len() > 0 && target[0] == '/' && !(target.len() > 1 && (target[1] == '/' || target[1]
        == '\\'))
}

/// Is this somewhere on *this* origin?
///
/// The redirect's `Location` comes from the request target, so a target of
/// `//evil.test/` would send an authorized visitor to another site with this
/// share's origin in the `Referer`. Only an origin-relative path is ever
/// echoed back; anything else goes to the root.
pub fn safe_location(target: &str) -> (r: String)
    ensures
        r@ == if on_this_origin(target@) {
            target@
        } else {
            seq!['/']
        },
{
    let t: Vec<char> = text::chars_of(target);
    if t.len() > 0 && t[0] == '/' && !(t.len() > 1 && (t[1] == '/' || t[1] == '\\')) {
        target.to_owned()
    } else {
        let mut root: String = String::new();
        root.push('/');
        assert(root@ == seq!['/']);
        root
    }
}

/// Headers that say who the visitor is, dropped before the box sees them.
///
/// Whoever clicked the link agreed to look at a page, not to identify
/// themselves to something running in somebody else's sandbox. `Host` and
/// `X-Forwarded-Proto` are deliberately *not* here: a dev server builds
/// absolute URLs out of them.
pub open spec fn hidden_from_box(name: Seq<char>) -> bool {
    ||| text::lowered(name) == text::lowered("cf-connecting-ip"@)
    ||| text::lowered(name) == text::lowered("cf-connecting-ipv6"@)
    ||| text::lowered(name) == text::lowered("cf-ipcountry"@)
    ||| text::lowered(name) == text::lowered("cf-ray"@)
    ||| text::lowered(name) == text::lowered("cf-visitor"@)
    ||| text::lowered(name) == text::lowered("cf-warp-tag-id"@)
    ||| text::lowered(name) == text::lowered("cf-ew-via"@)
    ||| text::lowered(name) == text::lowered("cf-worker"@)
    ||| text::lowered(name) == text::lowered("cdn-loop"@)
    ||| text::lowered(name) == text::lowered("true-client-ip"@)
    ||| text::lowered(name) == text::lowered("x-forwarded-for"@)
    ||| text::lowered(name) == text::lowered("x-real-ip"@)
    ||| text::lowered(name) == text::lowered("forwarded"@)
}

/// Is this a header that says who the visitor is?
fn is_hidden_from_box(name: &[char]) -> (r: bool)
    ensures
        r == hidden_from_box(name@),
{
    text::is_text_ignoring_case(name, "cf-connecting-ip") || text::is_text_ignoring_case(
        name,
        "cf-connecting-ipv6",
    ) || text::is_text_ignoring_case(name, "cf-ipcountry") || text::is_text_ignoring_case(
        name,
        "cf-ray",
    ) || text::is_text_ignoring_case(name, "cf-visitor") || text::is_text_ignoring_case(
        name,
        "cf-warp-tag-id",
    ) || text::is_text_ignoring_case(name, "cf-ew-via") || text::is_text_ignoring_case(
        name,
        "cf-worker",
    ) || text::is_text_ignoring_case(name, "cdn-loop") || text::is_text_ignoring_case(
        name,
        "true-client-ip",
    ) || text::is_text_ignoring_case(name, "x-forwarded-for") || text::is_text_ignoring_case(
        name,
        "x-real-ip",
    ) || text::is_text_ignoring_case(name, "forwarded")
}

/// A header name that does not go to the box in a line of its own: who the
/// visitor is, an expectation the proxy has answered, and, but for an upgrade,
/// what the connection's lifetime is.
pub open spec fn held_back(name: Seq<char>, req: RequestView) -> bool {
    ||| hidden_from_box(name)
    ||| (text::lowered(name) == text::lowered("expect"@) && req.expects_continue)
    ||| (text::lowered(name) == text::lowered("connection"@) && !req.upgrade)
    ||| (text::lowered(name) == text::lowered("keep-alive"@) && !req.upgrade)
}

/// A header line as it goes to the box, without its line ending; `None` when it
/// does not go.
pub open spec fn forwarded_line(
    line: Seq<char>,
    req: RequestView,
    app: Option<Set<Seq<char>>>,
) -> Option<Seq<char>> {
    if line.len() == 0 {
        None
    } else {
        match seqs::split_once(line, ':') {
            None => Some(line),
            Some((k, v)) => if text::lowered(text::trim(k)) == text::lowered("cookie"@) {
                let kept = kept_cookies(text::trim(v), app);
                if kept.len() > 0 {
                    Some("Cookie: "@ + kept)
                } else {
                    None
                }
            } else if held_back(text::trim(k), req) {
                None
            } else {
                Some(line)
            },
        }
    }
}

/// The lines with a line ending behind each.
pub open spec fn ended(lines: Seq<Seq<char>>) -> Seq<char> {
    seqs::concat(lines.map_values(|l: Seq<char>| l + crlf()))
}

/// The header lines that go to the box.
pub open spec fn forwarded_lines(
    head: Seq<char>,
    req: RequestView,
    app: Option<Set<Seq<char>>>,
) -> Seq<Seq<char>> {
    head_lines(head).skip(1).filter_map(|l: Seq<char>| forwarded_line(l, req, app))
}

/// The request line that goes to the box.
pub open spec fn forwarded_request_line(head: Seq<char>, req: RequestView) -> Seq<char> {
    let parts = text::words(head_lines(head)[0]);
    let method = if parts.len() > 0 {
        parts[0]
    } else {
        "GET"@
    };
    let version = if parts.len() > 2 {
        parts[2]
    } else {
        "HTTP/1.1"@
    };
    method + seq![' '] + req.clean_target + seq![' '] + version
}

/// The head that goes to the box.
pub open spec fn upstream_head(
    head: Seq<char>,
    req: RequestView,
    app: Option<Set<Seq<char>>>,
) -> Seq<char> {
    forwarded_request_line(head, req) + crlf() + ended(forwarded_lines(head, req, app)) + (
    if req.upgrade {
        Seq::empty()
    } else {
        "Connection: close"@ + crlf()
    }) + crlf()
}

/// The head to send to the box: the share credential removed from both places it
/// could be, `Connection: close` forced, everything else as it came.
///
/// The `Cookie` header is rewritten rather than dropped, because the shared app
/// may have set cookies of its own. `app` narrows that to the box's own cookies
/// on a jar this proxy does not hold; see [`AppCookies`].
///
/// `Connection: close` is an authorization control, not a performance choice. A
/// connection is authorized once, when its first request arrives, which is
/// equivalent to authorizing every request only if a connection carries exactly
/// one. An upgrade is the exception and must be, since `Connection` is how an
/// upgrade is negotiated.
pub fn rewrite_for_upstream(
    head: &str,
    req: &Request,
    cookie: &str,
    app: Option<&AppCookies>,
) -> (r: String)
    ensures
        r@ == upstream_head(head@, req@, jar(app)),
{
    let h: Vec<char> = text::chars_of(head);
    let end: [char; 2] = ['\r', '\n'];
    assert(end@ == crlf());
    let lines: Vec<&[char]> = seqs::split_at_each_of(h.as_slice(), &end);
    let ghost ls = head_lines(head@);
    proof {
        seqs::lemma_split_seq_len(head@, crlf());
        assert(seqs::views(lines@).len() == lines@.len());
        assert(ls[0] == lines@[0]@);
    }
    let mut out: String = String::new();
    // The target loses the share parameter; the method and version are copied.
    let parts: Vec<&[char]> = text::words_of(lines[0]);
    let ghost ws = text::words(ls[0]);
    assert(seqs::views(parts@) == ws && ws.len() == parts@.len());
    if parts.len() > 0 {
        assert(ws[0] == parts@[0]@);
        text::push_chars(&mut out, parts[0]);
    } else {
        out.append("GET");
    }
    let ghost method = out@;
    out.push(' ');
    out.append(req.clean_target.as_str());
    out.push(' ');
    if parts.len() > 2 {
        assert(ws[2] == parts@[2]@);
        text::push_chars(&mut out, parts[2]);
    } else {
        out.append("HTTP/1.1");
    }
    proof {
        assert(method.push(' ') == method + seq![' ']);
        assert((method + seq![' '] + req.clean_target@).push(' ') == method + seq![' ']
            + req.clean_target@ + seq![' ']);
        assert(out@ == forwarded_request_line(head@, req@));
    }
    text::push_chars(&mut out, &end);

    let ghost first = forwarded_request_line(head@, req@) + crlf();
    let ghost f = |l: Seq<char>| forwarded_line(l, req@, jar(app));
    let ghost with_end = |l: Seq<char>| l + crlf();
    let ghost all = ls.skip(1);
    let mut i: usize = 1;
    proof {
        assert(all.take(0).filter_map(f).map_values(with_end) == Seq::<Seq<char>>::empty());
        assert(out@ == first + ended(all.take(0).filter_map(f)));
    }
    while i < lines.len()
        invariant
            1 <= i <= lines@.len(),
            end@ == crlf(),
            ls == seqs::views(lines@),
            all == ls.skip(1),
            f == (|l: Seq<char>| forwarded_line(l, req@, jar(app))),
            with_end == (|l: Seq<char>| l + crlf()),
            out@ == first + ended(all.take(i - 1).filter_map(f)),
        decreases lines@.len() - i,
    {
        let line = lines[i];
        let ghost before = out@;
        let ghost sent = all.take(i - 1).filter_map(f);
        proof {
            assert(all[i - 1] == line@);
            seqs::lemma_filter_map_step(all, f, i - 1);
            match f(line@) {
                Some(l) => {
                    lemma_ended_push(sent, l);
                },
                None => {},
            }
        }
        i = i + 1;
        if line.len() == 0 {
            continue;
        }
        match seqs::split_at_first(line, ':') {
            Some((k, v)) => {
                let k = text::trimmed(k);
                if text::is_text_ignoring_case(k, "cookie") {
                    let (_, kept) = split_cookie(text::trimmed(v), cookie, app);
                    if kept.len() > 0 {
                        out.append("Cookie: ");
                        text::push_chars(&mut out, kept.as_slice());
                        text::push_chars(&mut out, &end);
                        assert(out@ == first + (ended(sent) + ("Cookie: "@ + kept@ + crlf())));
                    }
                    continue;
                }
                if is_hidden_from_box(k) {
                    continue;
                }
                // Answered by the proxy already; leaving it would make the box
                // send a second, useless `100` behind the body it was gating.
                if text::is_text_ignoring_case(k, "expect") && req.expects_continue {
                    continue;
                }
                // Replaced below, once, rather than passed through.
                if text::is_text_ignoring_case(k, "connection") && !req.upgrade {
                    continue;
                }
                // Only means anything beside a `Connection` that keeps the
                // connection alive, and this one does not.
                if text::is_text_ignoring_case(k, "keep-alive") && !req.upgrade {
                    continue;
                }
            },
            None => {},
        }
        text::push_chars(&mut out, line);
        text::push_chars(&mut out, &end);
        assert(out@ == first + (ended(sent) + (line@ + crlf())));
    }
    assert(all.take(all.len() as int) == all);
    if !req.upgrade {
        let ghost before = out@;
        out.append("Connection: close");
        text::push_chars(&mut out, &end);
        assert(out@ == before + ("Connection: close"@ + crlf()));
    }
    text::push_chars(&mut out, &end);
    out
}

/// One line more is its text and one line ending more.
pub proof fn lemma_ended_push(lines: Seq<Seq<char>>, l: Seq<char>)
    ensures
        ended(lines.push(l)) == ended(lines) + (l + crlf()),
{
    let f = |l: Seq<char>| l + crlf();
    assert(lines.push(l).map_values(f).drop_last() == lines.map_values(f));
    assert(lines.push(l).map_values(f).last() == l + crlf());
}

/// The redirect that sets the cookie.
pub open spec fn redirect(
    cookie: Seq<char>,
    token: Seq<char>,
    location: Seq<char>,
    secure: bool,
) -> Seq<char> {
    "HTTP/1.1 302 Found\r\nLocation: "@ + location + "\r\nSet-Cookie: "@ + cookie + "="@ + token
        + "; Path=/; HttpOnly; SameSite=Lax"@ + (if secure {
        "; Secure"@
    } else {
        Seq::empty()
    }) + "\r\nCache-Control: no-store\r\nContent-Length: 0\r\nConnection: close\r\n\r\n"@
}

/// The redirect that gets the token out of the URL and into a cookie.
///
/// `SameSite=Lax` because a share is followed from a chat message, which is a
/// top-level navigation; `HttpOnly` because the page on the other end is
/// agent-written code and has no business reading the credential that admitted
/// its visitor.
pub fn set_cookie_redirect(cookie: &str, token: &str, location: &str, secure: bool) -> (r: String)
    ensures
        r@ == redirect(cookie@, token@, location@, secure),
{
    let mut out: String = String::new();
    out.append("HTTP/1.1 302 Found\r\nLocation: ");
    out.append(location);
    out.append("\r\nSet-Cookie: ");
    out.append(cookie);
    out.append("=");
    out.append(token);
    out.append("; Path=/; HttpOnly; SameSite=Lax");
    if secure {
        out.append("; Secure");
    }
    out.append("\r\nCache-Control: no-store\r\nContent-Length: 0\r\nConnection: close\r\n\r\n");
    out
}

/// A short answer of this proxy's own: a status, and a line of text that is
/// declared as long as it is.
pub open spec fn plain_answer(status: Seq<char>, body: Seq<char>) -> Seq<char> {
    "HTTP/1.1 "@ + status + "\r\nContent-Type: text/plain; charset=utf-8\r\nContent-Length: "@
        + text::decimal(vstd::utf8::encode_utf8(body).len())
        + "\r\nCache-Control: no-store\r\nConnection: close\r\n\r\n"@ + body
}

/// A short answer of this proxy's own. Its length is taken from the body,
/// because a hand-counted length is a truncated page.
pub fn answer(status: &str, body: &str) -> (r: String)
    ensures
        r@ == plain_answer(status@, body@),
{
    let bytes: &[u8] = body.as_bytes();
    let mut out: String = String::new();
    out.append("HTTP/1.1 ");
    out.append(status);
    out.append("\r\nContent-Type: text/plain; charset=utf-8\r\nContent-Length: ");
    text::push_decimal(&mut out, bytes.len() as u64);
    out.append("\r\nCache-Control: no-store\r\nConnection: close\r\n\r\n");
    out.append(body);
    out
}

/// Why a request was refused.
#[derive(Debug, Clone, Copy, PartialEq, Eq, Structural)]
pub enum Refusal {
    /// No credential at all, or one that no grant matches.
    NotAuthorized,
    /// The request was not something we are willing to parse.
    Malformed,
    /// A service worker registration, which would outlive the share.
    ServiceWorker,
    /// The request came from a page that is not this share.
    ForeignOrigin,
}

impl Refusal {
    /// The status code and its reason phrase.
    pub open spec fn spec_status(self) -> (u16, Seq<char>) {
        match self {
            Refusal::NotAuthorized => (401, "Unauthorized"@),
            Refusal::Malformed => (400, "Bad Request"@),
            Refusal::ServiceWorker => (403, "Forbidden"@),
            Refusal::ForeignOrigin => (403, "Forbidden"@),
        }
    }

    pub fn status(self) -> (r: (u16, &'static str))
        ensures
            (r.0, r.1@) == self.spec_status(),
    {
        match self {
            Refusal::NotAuthorized => (401, "Unauthorized"),
            Refusal::Malformed => (400, "Bad Request"),
            Refusal::ServiceWorker => (403, "Forbidden"),
            Refusal::ForeignOrigin => (403, "Forbidden"),
        }
    }

    /// The text that goes with a refusal.
    pub open spec fn spec_body(self) -> Seq<char> {
        match self {
            Refusal::NotAuthorized => "This h5i share needs a valid invite link. Ask whoever shared it for a new one."@,
            Refusal::Malformed => "That is not a request this share can serve."@,
            Refusal::ServiceWorker => "This share will not register a service worker. One would keep control of this address after the share ends."@,
            Refusal::ForeignOrigin => "That request came from another page, not from this share."@,
        }
    }

    /// One body for every refusal a peer can trigger.
    ///
    /// Deliberately the same text whether the ticket is unknown, expired or
    /// revoked. Whoever is probing a tunnel URL learns nothing from it; the
    /// sharer's terminal and the receipt get the real reason.
    pub fn body(self) -> (r: &'static str)
        ensures
            r@ == self.spec_body(),
    {
        match self {
            Refusal::NotAuthorized => "This h5i share needs a valid invite link. Ask whoever shared it for a new one.",
            Refusal::Malformed => "That is not a request this share can serve.",
            Refusal::ServiceWorker => "This share will not register a service worker. One would keep control of this address after the share ends.",
            Refusal::ForeignOrigin => "That request came from another page, not from this share.",
        }
    }
}

/// A refusal on the wire.
pub open spec fn refusal_text(r: Refusal) -> Seq<char> {
    plain_answer(
        text::decimal(r.spec_status().0 as nat) + seq![' '] + r.spec_status().1,
        r.spec_body(),
    )
}

/// A refusal, as bytes on the wire.
pub fn refusal_response(r: Refusal) -> (s: String)
    ensures
        s@ == refusal_text(r),
{
    let (code, reason) = r.status();
    let mut status: String = String::new();
    text::push_decimal(&mut status, code as u64);
    status.push(' ');
    status.append(reason);
    assert(text::decimal(code as nat).push(' ') == text::decimal(code as nat) + seq![' ']);
    answer(status.as_str(), r.body())
}

} // verus!
