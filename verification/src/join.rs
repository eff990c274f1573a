//! The other side: joining a share.
//!
//! Turns a ticket into a URL on the joiner's own machine. Two things about this
//! side are worth being explicit about. **The local listener is gated**: a port
//! bound on loopback is reachable by every process on this machine and by every
//! page open in this browser, so it gets a token of its own, minted here.
//! **The address is the isolation**: cookies are scoped by *host* and ignore the
//! port, so an address that nothing else uses is a cookie jar that nothing else
//! reads.
use vstd::prelude::*;
use vstd::string::*;

use crate::address::Ipv4Addr;
use crate::tally::Path;
use crate::{display, gate, seqs, session, text};

verus! {

/// The flag that answers [`shared_jar_refusal`], named in one place so the
/// message and the command line cannot drift apart.
pub const SHARED_JAR_FLAG: &'static str = "--shared-jar";

/// The flag that picks the proxy's address outright.
pub const BIND_FLAG: &'static str = "--bind";

/// How many connections the local listener handles at once.
pub const MAX_LOCAL: usize = 256;

/// What the joiner needs to print before anything happens.
#[derive(Debug)]
pub struct Joined {
    /// The URL to open, token included.
    pub url: String,
    /// How the connection is carried, as observed at join time. `None` while
    /// the transport has not settled on a path yet.
    pub path: Option<Path>,
    /// The box on the far end, as the ticket names it.
    pub box_id: String,
    /// The ticket worked, but the share said something worth repeating.
    pub warning: Option<String>,
    /// This join is on `127.0.0.1`, so it shares a cookie jar with every other
    /// local service.
    pub shared_jar: bool,
}

/// What a joiner is told whose machine has only `127.0.0.1` to offer.
pub open spec fn refusal_text() -> Seq<char> {
    "this machine has no loopback address to spare, so this join would land on 127.0.0.1 and share one cookie jar with every other local service you run. Cookies are scoped by host and ignore the port, so the token this proxy sets would be sent to any local service you visit while you are joined, and that is enough for it to reach the box. (The other direction is narrowed, not closed: this proxy forwards only cookies the box itself set, so nothing of yours travels automatically — but the page is served on 127.0.0.1 and cookies ignore the port, so script on it can read any non-HttpOnly cookie in that jar and send it wherever it likes. The filter stops the proxy handing them over; it cannot stop the page.)\n\n    "@
            + SHARED_JAR_FLAG@
            + ": join anyway, ideally in a private window with nothing else open in it.\n    Or give h5i an address of its own first: `sudo ifconfig lo0 alias 127.0.0.2`, which is a macOS-only step and lasts until you reboot."@
}

/// What to say to a joiner whose machine has only `127.0.0.1` to offer: the one
/// fact is that this machine cannot give the share a cookie jar of its own.
pub fn shared_jar_refusal() -> (r: String)
    ensures
        r@ == refusal_text(),
{
    let mut out: String = "this machine has no loopback address to spare, so this join would land on 127.0.0.1 and share one cookie jar with every other local service you run. Cookies are scoped by host and ignore the port, so the token this proxy sets would be sent to any local service you visit while you are joined, and that is enough for it to reach the box. (The other direction is narrowed, not closed: this proxy forwards only cookies the box itself set, so nothing of yours travels automatically — but the page is served on 127.0.0.1 and cookies ignore the port, so script on it can read any non-HttpOnly cookie in that jar and send it wherever it likes. The filter stops the proxy handing them over; it cannot stop the page.)\n\n    ".to_owned();
    out.append(SHARED_JAR_FLAG);
    out.append(": join anyway, ideally in a private window with nothing else open in it.\n    Or give h5i an address of its own first: `sudo ifconfig lo0 alias 127.0.0.2`, which is a macOS-only step and lasts until you reboot.");
    out
}

/// What is said of a ticket that looks expired on this machine.
pub open spec fn expired_text(ago: int) -> Seq<char> {
    "this ticket expired "@
            + session::in_words(ago)
            + " ago, by this machine's clock. Ask whoever shared it for a new          one — and if they say it is still good, check the clocks: the two are compared here,          so a machine that is set wrong refuses good tickets and a new one will fail the same          way."@
}

fn put_expired_text(ago: i64) -> (r: String)
    requires
        ago >= 0,
    ensures
        r@ == expired_text(ago as int),
{
    let mut out: String = "this ticket expired ".to_owned();
    out.append(session::humanise(ago).as_str());
    out.append(" ago, by this machine's clock. Ask whoever shared it for a new          one — and if they say it is still good, check the clocks: the two are compared here,          so a machine that is set wrong refuses good tickets and a new one will fail the same          way.");
    out
}

/// Why an address beyond loopback is not bound.
pub open spec fn beyond_text(addr: Ipv4Addr) -> Seq<char> {
    BIND_FLAG@ + " "@ + addr.text()
        + " is not a loopback address. This proxy gives one browser on this machine a door; binding beyond loopback would republish somebody else's box to the network. Pick an address in 127.0.0.0/8."@
}

fn put_beyond_text(addr: Ipv4Addr) -> (r: String)
    ensures
        r@ == beyond_text(addr),
{
    let mut out: String = BIND_FLAG.to_owned();
    out.append(" ");
    out.append(addr.to_text().as_str());
    out.append(" is not a loopback address. This proxy gives one browser on this machine a door; binding beyond loopback would republish somebody else's box to the network. Pick an address in 127.0.0.0/8.");
    out
}

/// Why a chosen address was not bound.
pub open spec fn unbound_text(addr: Ipv4Addr, port: u16, error: Seq<char>) -> Seq<char> {
    "could not bind "@
            + addr.text()
            + ":"@
            + text::decimal(port as nat)
            + ": "@
            + error
}

fn put_unbound_text(addr: Ipv4Addr, port: u16, error: &str) -> (r: String)
    ensures
        r@ == unbound_text(addr, port, error@),
{
    let mut out: String = "could not bind ".to_owned();
    out.append(addr.to_text().as_str());
    out.append(":");
    text::push_decimal(&mut out, port as u64);
    out.append(": ");
    out.append(error);
    out
}

/// Why no address was bound.
pub open spec fn no_port_text(error: Seq<char>) -> Seq<char> {
    "could not bind a local port: "@
            + error
}

fn put_no_port_text(error: &str) -> (r: String)
    ensures
        r@ == no_port_text(error@),
{
    let mut out: String = "could not bind a local port: ".to_owned();
    out.append(error);
    out
}

/// What is said of a connection that failed.
pub open spec fn failed_text(said: Seq<char>) -> Seq<char> {
    "the connection to the sharer failed: "@
            + said
            + ". Their machine or the network went away rather than the share ending — the ticket is probably still good, so joining again may just work."@
}

fn put_failed_text(said: &str) -> (r: String)
    ensures
        r@ == failed_text(said@),
{
    let mut out: String = "the connection to the sharer failed: ".to_owned();
    out.append(said);
    out.append(". Their machine or the network went away rather than the share ending — the ticket is probably still good, so joining again may just work.");
    out
}

/// The address to open, with its token.
pub open spec fn url_text(addr: Ipv4Addr, port: u16, token: Seq<char>) -> Seq<char> {
    "http://"@
            + addr.text()
            + ":"@
            + text::decimal(port as nat)
            + "/?"@
            + gate::QUERY_PARAM@
            + "="@
            + token
}

fn put_url_text(addr: Ipv4Addr, port: u16, token: &str) -> (r: String)
    ensures
        r@ == url_text(addr, port, token@),
{
    let mut out: String = "http://".to_owned();
    out.append(addr.to_text().as_str());
    out.append(":");
    text::push_decimal(&mut out, port as u64);
    out.append("/?");
    out.append(gate::QUERY_PARAM);
    out.append("=");
    out.append(token);
    out
}

impl Joined {
    /// A join on this address, with a token that was minted for it.
    pub fn new(
        local: Ipv4Addr,
        port: u16,
        token: &str,
        path: Option<Path>,
        box_id: String,
        warning: Option<String>,
        shared_jar: bool,
    ) -> (r: Joined)
        ensures
            r.url@ == url_text(local, port, token@),
            r.path == path,
            r.box_id == box_id,
            r.warning == warning,
            r.shared_jar == shared_jar,
    {
        Joined { url: put_url_text(local, port, token), path, box_id, warning, shared_jar }
    }
}

/// What to say about a ticket that looks expired *on this machine*.
///
/// The check is local, and a local check against a wrong clock is an
/// accusation. So: how long ago, in this machine's opinion, and what that
/// opinion depends on.
pub fn expired_here(expires_at: i64, now: i64) -> (r: String)
    requires
        expires_at <= now,
    ensures
        r@ == expired_text(
            if now - expires_at <= i64::MAX {
                now - expires_at
            } else {
                i64::MAX as int
            },
        ),
{
    // A ticket from before the clock's reach is as old as can be told.
    let ago: i64 = if expires_at < 0 && now > i64::MAX + expires_at {
        i64::MAX
    } else {
        now - expires_at
    };
    put_expired_text(ago)
}

/// Is there any use in dialling with a ticket that holds until then?
pub fn check_ticket(expires_at: i64, now: i64) -> (r: Result<(), String>)
    ensures
        r is Ok <==> expires_at > now,
        r matches Err(why) ==> why@ == expired_text(
            if now - expires_at <= i64::MAX {
                now - expires_at
            } else {
                i64::MAX as int
            },
        ),
{
    if expires_at > now {
        Ok(())
    } else {
        Err(expired_here(expires_at, now))
    }
}

/// How many addresses of its own a join tries at random.
pub const RANDOM_TRIES: u8 = 8;

/// How many addresses a join tries in all: the random ones, the ones somebody
/// would have configured, and the one that every machine has.
pub const ALL_TRIES: u8 = 17;

/// A number kept away from both ends of its range.
pub open spec fn inner(n: u8) -> u8 {
    if n < 1 {
        1
    } else if n > 254 {
        254
    } else {
        n
    }
}

fn clamped(n: u8) -> (r: u8)
    ensures
        r == inner(n),
{
    if n < 1 {
        1
    } else if n > 254 {
        254
    } else {
        n
    }
}

/// The search for an address to listen on.
#[derive(Debug, Clone, Copy, PartialEq, Eq, Structural)]
pub struct Binder {
    /// The address the joiner chose, if they chose one.
    pub chosen: Option<Ipv4Addr>,
    pub port: u16,
    /// The joiner accepts a shared cookie jar.
    pub allow_shared_jar: bool,
    /// How many addresses have been tried.
    pub tries: u8,
}

/// What to do once an address was tried.
#[derive(Debug)]
pub enum Bound {
    /// Listen here; the flag says whether the cookie jar is shared.
    Listening(bool),
    /// Try the next one.
    Again,
    /// Give up, for this reason.
    Refused(String),
}

impl Binder {
    pub open spec fn wf(self) -> bool {
        self.tries < ALL_TRIES
    }

    /// The address to try next, from three random numbers.
    pub open spec fn candidate(self, x: u8, y: u8, z: u8) -> Ipv4Addr {
        match self.chosen {
            Some(addr) => addr,
            None => if self.tries < RANDOM_TRIES {
                Ipv4Addr { a: 127, b: inner(x), c: y, d: inner(z) }
            } else if self.tries < ALL_TRIES - 1 {
                Ipv4Addr { a: 127, b: 0, c: 0, d: (self.tries - 6) as u8 }
            } else {
                Ipv4Addr { a: 127, b: 0, c: 0, d: 1 }
            },
        }
    }

    /// A search that has tried nothing yet.
    pub fn new(chosen: Option<Ipv4Addr>, port: u16, allow_shared_jar: bool) -> (r: Binder)
        ensures
            r == (Binder { chosen, port, allow_shared_jar, tries: 0 }),
            r.wf(),
    {
        Binder { chosen, port, allow_shared_jar, tries: 0 }
    }

    /// The address to try next, from three random numbers, or why none is.
    ///
    /// Random first, so a local process cannot find this share's jar by
    /// guessing; then the addresses somebody would have *configured*; then the
    /// one that every machine has. An address that was chosen is bound
    /// exactly, and on loopback only: this proxy exists to give one browser on
    /// this machine a door, not to republish somebody else's box.
    pub fn bind_loopback(&self, x: u8, y: u8, z: u8) -> (r: Result<Ipv4Addr, String>)
        requires
            self.wf(),
        ensures
            match r {
                Ok(addr) => addr == self.candidate(x, y, z) && addr.loopback(),
                Err(why) => self.chosen matches Some(addr) && !addr.loopback() && why@
                    == beyond_text(addr),
            },
    {
        match self.chosen {
            Some(addr) => if addr.is_loopback() {
                Ok(addr)
            } else {
                Err(put_beyond_text(addr))
            },
            None => if self.tries < RANDOM_TRIES {
                Ok(Ipv4Addr::new(127, clamped(x), y, clamped(z)))
            } else if self.tries < ALL_TRIES - 1 {
                Ok(Ipv4Addr::new(127, 0, 0, self.tries - 6))
            } else {
                Ok(Ipv4Addr::new(127, 0, 0, 1))
            },
        }
    }

    /// What comes of having tried this address: it was bound, or it was not,
    /// for this reason.
    ///
    /// Naming `127.0.0.1` by hand *is* the consent to a shared jar; falling
    /// back to it is not.
    pub fn bind_for(&mut self, addr: Ipv4Addr, error: Option<String>) -> (r: Bound)
        requires
            old(self).wf(),
        ensures
            final(self).chosen == old(self).chosen,
            final(self).port == old(self).port,
            final(self).allow_shared_jar == old(self).allow_shared_jar,
            r is Again ==> final(self).wf() && final(self).tries == old(self).tries + 1,
            r !is Again ==> *final(self) == *old(self),
            match (old(self).chosen, error) {
                (Some(_), None) => r == Bound::Listening(addr.localhost()),
                (Some(_), Some(e)) => r matches Bound::Refused(why) && why@ == unbound_text(
                    addr,
                    old(self).port,
                    e@,
                ),
                (None, None) => if old(self).tries < ALL_TRIES - 1 {
                    r == Bound::Listening(false)
                } else if old(self).allow_shared_jar {
                    r == Bound::Listening(true)
                } else {
                    r matches Bound::Refused(why) && why@ == refusal_text()
                },
                (None, Some(e)) => if old(self).tries < ALL_TRIES - 1 {
                    r is Again
                } else {
                    r matches Bound::Refused(why) && why@ == no_port_text(e@)
                },
            },
    {
        if self.chosen.is_some() {
            return match error {
                None => Bound::Listening(addr.is_localhost()),
                Some(e) => Bound::Refused(put_unbound_text(addr, self.port, e.as_str())),
            };
        }
        let last: bool = self.tries == ALL_TRIES - 1;
        match error {
            None => if !last {
                Bound::Listening(false)
            } else if self.allow_shared_jar {
                Bound::Listening(true)
            } else {
                Bound::Refused(shared_jar_refusal())
            },
            Some(e) => if !last {
                self.tries = self.tries + 1;
                Bound::Again
            } else {
                Bound::Refused(put_no_port_text(e.as_str()))
            },
        }
    }
}

/// Whatever is tried of a join's own accord is on loopback, and it is
/// `127.0.0.1` only when nothing else was to be had.
pub proof fn law_a_join_keeps_to_an_address_of_its_own(b: Binder, x: u8, y: u8, z: u8)
    requires
        b.wf(),
        b.chosen is None,
    ensures
        b.candidate(x, y, z).loopback(),
        b.candidate(x, y, z).localhost() <==> b.tries == ALL_TRIES - 1,
{
}

/// Why a stream to the sharer could not be had.
#[derive(Debug, Clone)]
pub enum OpenError {
    /// The share is full.
    Busy,
    /// The ticket was refused.
    Refused,
    /// Nothing listens on the shared port.
    Unreachable,
    /// The sharer cannot reach into the box.
    RouteBroken,
    /// The share has ended.
    ShareOver,
    /// The sharer cannot read its own grant table.
    SharerFault,
    /// The connection itself failed.
    Transport(String),
}

impl OpenError {
    pub open spec fn spec_text(self) -> Seq<char> {
        match self {
            OpenError::Busy => "this share is carrying as many connections as it allows; wait a moment and reload"@,
            OpenError::Refused => "the sharer refused this ticket; ask for a new one"@,
            OpenError::Unreachable => "nothing is listening on the shared port inside the box; they may need to start their dev server"@,
            OpenError::RouteBroken => "the sharing machine cannot reach inside the box; the share has to be started again there"@,
            OpenError::ShareOver => "this share has ended"@,
            OpenError::SharerFault => "the sharing machine could not read its own record of this share, which is not a problem with your ticket; try again in a moment"@,
            OpenError::Transport(said) => "the connection to the sharer failed: "@ + said@,
        }
    }

    /// What a person is told. The wording is this library's own choice.
    pub fn text(&self) -> (r: String)
        ensures
            r@ == self.spec_text(),
    {
        match self {
            OpenError::Busy => "this share is carrying as many connections as it allows; wait a moment and reload".to_owned(),
            OpenError::Refused => "the sharer refused this ticket; ask for a new one".to_owned(),
            OpenError::Unreachable => "nothing is listening on the shared port inside the box; they may need to start their dev server".to_owned(),
            OpenError::RouteBroken => "the sharing machine cannot reach inside the box; the share has to be started again there".to_owned(),
            OpenError::ShareOver => "this share has ended".to_owned(),
            OpenError::SharerFault => "the sharing machine could not read its own record of this share, which is not a problem with your ticket; try again in a moment".to_owned(),
            OpenError::Transport(said) => {
                let mut out: String = "the connection to the sharer failed: ".to_owned();
                out.append(said.as_str());
                out
            },
        }
    }

    /// There is nothing to go on with: the ticket is bad, the share is over,
    /// or the connection is unusable.
    pub open spec fn is_fatal(self) -> bool {
        self is Refused || self is ShareOver || self is Transport
    }

    /// The status that a browser is answered with.
    pub open spec fn spec_status(self) -> Seq<char> {
        match self {
            OpenError::Busy => "503 Service Unavailable"@,
            OpenError::ShareOver => "410 Gone"@,
            OpenError::SharerFault => "503 Service Unavailable"@,
            _ => "502 Bad Gateway"@,
        }
    }
}

/// What the join-time ticket check means for the command: which of the answers
/// stops it, and which is only worth repeating.
pub fn check_outcome(r: Result<(), OpenError>) -> (o: Result<Option<String>, String>)
    ensures
        match r {
            Ok(_) => o == Ok::<Option<String>, String>(None),
            Err(e) => if e.is_fatal() {
                o matches Err(why) && why@ == e.spec_text()
            } else {
                o matches Ok(Some(warning)) && warning@ == e.spec_text()
            },
        },
{
    match r {
        Ok(_) => Ok(None),
        Err(e) => {
            let said = e.text();
            match e {
                // Refused is the only answer about the ticket itself.
                OpenError::Refused => Err(said),
                // Not "your ticket is bad" but "there is no share left".
                OpenError::ShareOver => Err(said),
                // The connection is unusable, so there is nothing to go on to.
                OpenError::Transport(_) => Err(said),
                // The rest are conditions that clear on their own.
                _ => Ok(Some(said)),
            }
        },
    }
}

/// Turn a failure to reach the sharer into something a browser renders.
///
/// `503` for busy, because reloading is the right move; `410` for a share that
/// is over; `502` for everything else. Never `401`: the joiner's own token was
/// fine.
pub fn upstream_failure(e: &OpenError) -> (r: String)
    ensures
        r@ == gate::plain_answer(e.spec_status(), e.spec_text()),
{
    let status: &'static str = match e {
        OpenError::Busy => "503 Service Unavailable",
        OpenError::ShareOver => "410 Gone",
        OpenError::SharerFault => "503 Service Unavailable",
        _ => "502 Bad Gateway",
    };
    gate::answer(status, e.text().as_str())
}

/// A text that holds another.
pub open spec fn holds(s: Seq<char>, part: Seq<char>) -> bool {
    seqs::find_seq(s, part, 0) is Some
}

fn contains(s: &[char], part: &str) -> (r: bool)
    ensures
        r == holds(s@, part@),
{
    let pattern = text::chars_of(part);
    seqs::position_of(s, pattern.as_slice()).is_some()
}

/// A text without any of these.
pub open spec fn without(s: Seq<char>, part: Seq<char>) -> Seq<char> {
    seqs::concat(seqs::split_seq(s, part))
}

/// The cause, in the joiner's words, when the sharer gave one.
pub open spec fn cause(said: Seq<char>) -> Seq<char> {
    if holds(said, "revoked"@) || holds(said, "expired"@) {
        " — that ticket was revoked or ran out"@
    } else if holds(said, "this share has ended"@) {
        " — they stopped sharing"@
    } else if holds(said, "direct path"@) {
        " — the direct connection was lost, and they shared with --direct-only"@
    } else if holds(said, "no ticket was presented"@) {
        " — nothing was opened, so the sharer hung up. Open the link next time before it does"@
    } else if holds(said, "h5i:"@) {
        " — "@ + without(said, "h5i: "@)
    } else {
        " — they stopped sharing, or the ticket ran out"@
    }
}

fn removed(s: &[char], part: &str) -> (r: String)
    requires
        part@.len() > 0,
    ensures
        r@ == without(s@, part@),
{
    let pattern = text::chars_of(part);
    let pieces = seqs::split_at_each_of(s, pattern.as_slice());
    let ghost all = seqs::split_seq(s@, part@);
    let mut out: Vec<char> = Vec::new();
    let mut i: usize = 0;
    while i < pieces.len()
        invariant
            0 <= i <= pieces@.len(),
            all == seqs::views(pieces@),
            out@ == seqs::concat(all.take(i as int)),
        decreases pieces@.len() - i,
    {
        assert(all.take(i + 1).drop_last() == all.take(i as int));
        assert(all.take(i + 1).last() == pieces@[i as int]@);
        seqs::push_all(&mut out, pieces[i]);
        i = i + 1;
    }
    assert(all.take(all.len() as int) == all);
    text::text_of(out.as_slice())
}

/// The cause, in the joiner's words, when the sharer gave one.
///
/// The wire reasons are written for the other end of a socket; this is the half
/// a person reads. Anything unrecognised becomes the honest hedge.
pub fn why_it_ended(said: &str) -> (r: String)
    ensures
        r@ == cause(said@),
{
    let s = text::chars_of(said);
    let s = s.as_slice();
    if contains(s, "revoked") || contains(s, "expired") {
        " — that ticket was revoked or ran out".to_owned()
    } else if contains(s, "this share has ended") {
        " — they stopped sharing".to_owned()
    } else if contains(s, "direct path") {
        " — the direct connection was lost, and they shared with --direct-only".to_owned()
    } else if contains(s, "no ticket was presented") {
        " — nothing was opened, so the sharer hung up. Open the link next time before it does".to_owned()
    } else if contains(s, "h5i:") {
        proof {
            reveal_strlit("h5i: ");
        }
        let mut out: String = " — ".to_owned();
        out.append(removed(s, "h5i: ").as_str());
        out
    } else {
        " — they stopped sharing, or the ticket ran out".to_owned()
    }
}

/// The whole sentence a joiner reads when its connection is closed.
pub open spec fn ending(said: Seq<char>) -> Seq<char> {
    if holds(said, "revoked"@) {
        "your access to this share ended"@ + cause(said)
    } else {
        "the share ended"@ + cause(said)
    }
}

/// The whole sentence a joiner reads when its connection is closed.
///
/// The headline is not always "the share ended": a revoke cuts *this peer* off
/// and leaves the share running for everyone else.
pub fn ending_line(said: &str) -> (r: String)
    ensures
        r@ == ending(said@),
{
    let s = text::chars_of(said);
    let mut out: String = if contains(s.as_slice(), "revoked") {
        "your access to this share ended".to_owned()
    } else {
        "the share ended".to_owned()
    };
    out.append(why_it_ended(said).as_str());
    out
}

/// How the connection to the sharer came to an end.
#[derive(Debug, Clone, Copy, PartialEq, Eq, Structural)]
pub enum Closed {
    /// The sharer closed it.
    ByPeer,
    /// This side closed it.
    Here,
    /// It failed.
    Failed,
}

/// What the command ends with once the connection is closed, for the reason
/// that was given.
///
/// A share *ending* is ordinary; a connection *failing* is not. The reason is
/// bytes the *sharer* chose, arriving on the joiner's terminal, and is cleaned
/// first.
pub fn closed(how: Closed, reason: &str) -> (r: Result<String, String>)
    ensures
        match how {
            Closed::Failed => r matches Err(why) && why@ == failed_text(display::shown(reason@)),
            _ => r matches Ok(said) && said@ == ending(display::shown(reason@)),
        },
{
    let said = display::sanitize_display(reason);
    match how {
        Closed::Failed => Err(put_failed_text(said.as_str())),
        _ => Ok(ending_line(said.as_str())),
    }
}

} // verus!
