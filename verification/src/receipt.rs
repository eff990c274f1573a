//! The ingress receipt: what a share's session is remembered by.
//!
//! Written for someone reading an export weeks later who has to decide whether
//! this patch was produced in a room they understand. So it answers, in order:
//! was this box shared, over what, with whom, for how long, how much moved, and
//! did anyone try who should not have.
use vstd::prelude::*;
use vstd::string::*;

use crate::clock::{self, Moment};
use crate::session::{Denied, Transport};
use crate::tally::{
    DeniedAttempt, Path, PeerRecord, PeerView, TurnedAway, TurnedAwayReason, MAX_CONNECTIONS,
    MAX_PEER_RECORDS,
};
use crate::{display, figures, plain, receipt_laws, seqs, tally, text};

verus! {

/// Everything the receipt body is rendered from.
#[derive(Debug)]
pub struct Summary {
    pub transport: Transport,
    pub endpoint: String,
    pub port: u16,
    pub started: Moment,
    pub ended: Moment,
    /// How long the session really lasted, measured on a clock nothing can
    /// move, and not the difference of the two moments above.
    pub seconds: i64,
    /// The wall-clock *steps* seen during the session, signed and summed:
    /// negative for a clock that jumped backwards. Zero on any ordinary run.
    pub clock_moved: i64,
    pub peers: Vec<PeerRecord>,
    /// Peers past what the record list holds.
    pub peers_overflow: u64,
    /// What those peers did, in aggregate: their connections and their bytes.
    pub overflow_connections: u64,
    pub overflow_bytes_to_peer: u64,
    pub overflow_bytes_from_peer: u64,
    pub denied: Vec<DeniedAttempt>,
    /// Refusals past what the list holds.
    pub denied_overflow: u64,
    /// Connections refused because the share was already at its limit.
    pub over_capacity: u64,
    /// Connections refused at the front door, before any credential.
    pub front_refused: u64,
    /// Authorized peers who found nothing listening inside the box.
    pub unreachable: u64,
    /// Dials that failed because the route into the box did.
    pub route_broken: u64,
    /// Every connection had finished before this was written.
    pub settled: bool,
    /// Turned away for something other than a credential.
    pub turned_away: Vec<TurnedAway>,
    pub turned_away_overflow: u64,
    /// Why the share ended badly, when it did.
    pub failed_because: Option<String>,
    /// Responses the box left unfinished.
    pub truncated: u64,
}

/// What a summary says.
pub struct SummaryView {
    pub transport: Transport,
    pub endpoint: Seq<char>,
    pub port: u16,
    pub started: Moment,
    pub ended: Moment,
    pub seconds: i64,
    pub clock_moved: i64,
    pub peers: Seq<PeerView>,
    pub peers_overflow: u64,
    pub overflow_connections: u64,
    pub overflow_bytes_to_peer: u64,
    pub overflow_bytes_from_peer: u64,
    pub denied: Seq<DeniedAttempt>,
    pub denied_overflow: u64,
    pub over_capacity: u64,
    pub front_refused: u64,
    pub unreachable: u64,
    pub route_broken: u64,
    pub settled: bool,
    pub turned_away: Seq<TurnedAway>,
    pub turned_away_overflow: u64,
    pub failed_because: Option<Seq<char>>,
    pub truncated: u64,
}

impl View for Summary {
    type V = SummaryView;

    open spec fn view(&self) -> SummaryView {
        SummaryView {
            transport: self.transport,
            endpoint: self.endpoint@,
            port: self.port,
            started: self.started,
            ended: self.ended,
            seconds: self.seconds,
            clock_moved: self.clock_moved,
            peers: tally::peer_views(self.peers@),
            peers_overflow: self.peers_overflow,
            overflow_connections: self.overflow_connections,
            overflow_bytes_to_peer: self.overflow_bytes_to_peer,
            overflow_bytes_from_peer: self.overflow_bytes_from_peer,
            denied: self.denied@,
            denied_overflow: self.denied_overflow,
            over_capacity: self.over_capacity,
            front_refused: self.front_refused,
            unreachable: self.unreachable,
            route_broken: self.route_broken,
            settled: self.settled,
            turned_away: self.turned_away@,
            turned_away_overflow: self.turned_away_overflow,
            failed_because: text::maybe(self.failed_because),
            truncated: self.truncated,
        }
    }
}

impl SummaryView {
    /// How long the session was, in seconds.
    pub open spec fn length(self) -> int {
        if self.seconds > 0 {
            self.seconds as int
        } else {
            0
        }
    }

    /// How far apart the two moments are, in seconds.
    pub open spec fn span(self) -> int {
        clock::whole_seconds(self.ended, self.started)
    }

    /// The distance of two lengths.
    pub open spec fn off(self) -> int {
        if self.span() >= self.length() {
            self.span() - self.length()
        } else {
            self.length() - self.span()
        }
    }

    /// The totals are within what is counted with.
    pub open spec fn countable(self) -> bool {
        &&& self.denied.len() + self.denied_overflow <= u64::MAX
        &&& self.turned_away.len() + self.turned_away_overflow <= u64::MAX
    }

    /// The moments are moments, and the figures are within what is counted
    /// with.
    pub open spec fn renderable(self) -> bool {
        &&& self.started.wf()
        &&& self.ended.wf()
        &&& self.clock_moved > i64::MIN
        &&& (self.clock_moved == 0 ==> self.off() * 50 <= i64::MAX)
        &&& self.countable()
        &&& forall|i: int| 0 <= i < self.peers.len() ==> (#[trigger] self.peers[i]).readable()
    }
}

impl Summary {
    fn length_of(&self) -> (r: u64)
        ensures
            r == self@.length(),
    {
        if self.seconds > 0 {
            self.seconds as u64
        } else {
            0
        }
    }
}

/// How long a peer was there: until it left, or was last seen, or the share
/// ended.
pub open spec fn held(p: PeerView, ended: Moment) -> int {
    let closed = match p.closed {
        Some(m) => m,
        None => match p.last_seen {
            Some(m) => m,
            None => ended,
        },
    };
    let seconds = clock::whole_seconds(closed, p.opened);
    if seconds > 0 {
        seconds
    } else {
        0
    }
}

fn held_of(p: &PeerRecord, ended: Moment) -> (r: u64)
    requires
        p@.readable(),
        ended.wf(),
    ensures
        r == held(p@, ended),
{
    let closed = match p.closed {
        Some(m) => m,
        None => match p.last_seen {
            Some(m) => m,
            None => ended,
        },
    };
    let seconds: i64 = clock::seconds_between(closed, p.opened);
    if seconds > 0 {
        seconds as u64
    } else {
        0
    }
}

/// How many were refused for this reason.
pub open spec fn refused_for(denied: Seq<DeniedAttempt>, reason: Denied) -> nat
    decreases denied.len(),
{
    if denied.len() == 0 {
        0
    } else if denied.last().reason == reason {
        refused_for(denied.drop_last(), reason) + 1
    } else {
        refused_for(denied.drop_last(), reason)
    }
}

fn count_refused(denied: &Vec<DeniedAttempt>, reason: Denied) -> (r: u64)
    ensures
        r == refused_for(denied@, reason),
{
    let mut n: u64 = 0;
    let mut i: usize = 0;
    while i < denied.len()
        invariant
            0 <= i <= denied@.len(),
            n <= i,
            n == refused_for(denied@.take(i as int), reason),
        decreases denied@.len() - i,
    {
        assert(denied@.take(i + 1).drop_last() == denied@.take(i as int));
        if denied[i].reason == reason {
            n = n + 1;
        }
        i = i + 1;
    }
    assert(denied@.take(denied@.len() as int) == denied@);
    n
}

/// How many were turned away for this reason.
pub open spec fn turned_for(turned: Seq<TurnedAway>, why: TurnedAwayReason) -> nat
    decreases turned.len(),
{
    if turned.len() == 0 {
        0
    } else if turned.last().why == why {
        turned_for(turned.drop_last(), why) + 1
    } else {
        turned_for(turned.drop_last(), why)
    }
}

fn count_turned(turned: &Vec<TurnedAway>, why: TurnedAwayReason) -> (r: u64)
    ensures
        r == turned_for(turned@, why),
{
    let mut n: u64 = 0;
    let mut i: usize = 0;
    while i < turned.len()
        invariant
            0 <= i <= turned@.len(),
            n <= i,
            n == turned_for(turned@.take(i as int), why),
        decreases turned@.len() - i,
    {
        assert(turned@.take(i + 1).drop_last() == turned@.take(i as int));
        if turned[i].why == why {
            n = n + 1;
        }
        i = i + 1;
    }
    assert(turned@.take(turned@.len() as int) == turned@);
    n
}

/// The reasons that occur, each once, in the order in which they first did.
pub open spec fn reasons(turned: Seq<TurnedAway>) -> Seq<TurnedAwayReason>
    decreases turned.len(),
{
    if turned.len() == 0 {
        Seq::empty()
    } else {
        let front = reasons(turned.drop_last());
        if front.contains(turned.last().why) {
            front
        } else {
            front.push(turned.last().why)
        }
    }
}

fn reasons_of(turned: &Vec<TurnedAway>) -> (r: Vec<TurnedAwayReason>)
    ensures
        r@ == reasons(turned@),
{
    let mut kinds: Vec<TurnedAwayReason> = Vec::new();
    let mut i: usize = 0;
    while i < turned.len()
        invariant
            0 <= i <= turned@.len(),
            kinds@ == reasons(turned@.take(i as int)),
        decreases turned@.len() - i,
    {
        assert(turned@.take(i + 1).drop_last() == turned@.take(i as int));
        let why = turned[i].why;
        let mut known: bool = false;
        let mut k: usize = 0;
        while k < kinds.len()
            invariant
                0 <= k <= kinds@.len(),
                known == exists|j: int| 0 <= j < k && kinds@[j] == why,
            decreases kinds@.len() - k,
        {
            if kinds[k] == why {
                known = true;
            }
            k = k + 1;
        }
        if !known {
            kinds.push(why);
        }
        i = i + 1;
    }
    assert(turned@.take(turned@.len() as int) == turned@);
    kinds
}

/// A reason and how many there were of it.
pub open spec fn reason_part(turned: Seq<TurnedAway>, why: TurnedAwayReason) -> Seq<char> {
    text::decimal(turned_for(turned, why)) + " "@ + why.spec_str()
}

/// The reasons with their counts, behind one another.
pub open spec fn reasons_listed(turned: Seq<TurnedAway>, kinds: Seq<TurnedAwayReason>) -> Seq<
    char,
>
    decreases kinds.len(),
{
    if kinds.len() == 0 {
        Seq::empty()
    } else if kinds.len() == 1 {
        reason_part(turned, kinds[0])
    } else {
        reasons_listed(turned, kinds.drop_last()) + ", "@ + reason_part(turned, kinds.last())
    }
}

/// The reasons for which connections were turned away.
pub open spec fn reasons_part(turned: Seq<TurnedAway>) -> Seq<char> {
    reasons_listed(turned, reasons(turned))
}

fn put_reason_part(turned: &Vec<TurnedAway>, why: TurnedAwayReason) -> (r: String)
    ensures
        r@ == reason_part(turned@, why),
{
    let mut out: String = String::new();
    text::push_decimal(&mut out, count_turned(turned, why));
    assert(out@ == text::decimal(turned_for(turned@, why)));
    out.append(" ");
    out.append(why.as_str());
    out
}

fn put_reasons_part(turned: &Vec<TurnedAway>) -> (r: String)
    ensures
        r@ == reasons_part(turned@),
{
    let kinds = reasons_of(turned);
    let mut out: String = String::new();
    let mut i: usize = 0;
    while i < kinds.len()
        invariant
            0 <= i <= kinds@.len(),
            out@ == reasons_listed(turned@, kinds@.take(i as int)),
        decreases kinds@.len() - i,
    {
        assert(kinds@.take(i + 1).drop_last() == kinds@.take(i as int));
        let part = put_reason_part(turned, kinds[i]);
        if i > 0 {
            out.append(", ");
            out.append(part.as_str());
        } else {
            out = part;
        }
        i = i + 1;
    }
    assert(kinds@.take(kinds@.len() as int) == kinds@);
    out
}

/// The order of strings: by the first character in which they differ.
pub open spec fn before(a: Seq<char>, b: Seq<char>) -> bool
    decreases a.len(),
{
    if b.len() == 0 {
        false
    } else if a.len() == 0 {
        true
    } else if a[0] == b[0] {
        before(a.drop_first(), b.drop_first())
    } else {
        a[0] < b[0]
    }
}

fn comes_before(a: &[char], b: &[char]) -> (r: bool)
    ensures
        r == before(a@, b@),
{
    let mut i: usize = 0;
    assert(a@.skip(0) == a@ && b@.skip(0) == b@);
    while i < a.len() && i < b.len()
        invariant
            0 <= i <= a@.len(),
            i <= b@.len(),
            before(a@, b@) == before(a@.skip(i as int), b@.skip(i as int)),
        decreases a@.len() - i,
    {
        if a[i] != b[i] {
            return a[i] < b[i];
        }
        assert(a@.skip(i as int).drop_first() == a@.skip(i + 1));
        assert(b@.skip(i as int).drop_first() == b@.skip(i + 1));
        i = i + 1;
    }
    i < b.len()
}

/// A list in order, with this in its place.
pub open spec fn placed(list: Seq<Seq<char>>, g: Seq<char>) -> Seq<Seq<char>>
    decreases list.len(),
{
    if list.len() == 0 {
        seq![g]
    } else if list[0] == g {
        list
    } else if before(g, list[0]) {
        seq![g] + list
    } else {
        seq![list[0]] + placed(list.drop_first(), g)
    }
}

/// The grants that peers came with, each once, in order.
pub open spec fn grants(peers: Seq<PeerView>) -> Seq<Seq<char>>
    decreases peers.len(),
{
    if peers.len() == 0 {
        Seq::empty()
    } else {
        placed(grants(peers.drop_last()), peers.last().grant)
    }
}

/// How many peers came with this grant.
pub open spec fn uses(peers: Seq<PeerView>, grant: Seq<char>) -> nat
    decreases peers.len(),
{
    if peers.len() == 0 {
        0
    } else if peers.last().grant == grant {
        uses(peers.drop_last(), grant) + 1
    } else {
        uses(peers.drop_last(), grant)
    }
}

/// The contents of lists of characters.
pub open spec fn texts(list: Seq<Vec<char>>) -> Seq<Seq<char>> {
    list.map_values(|v: Vec<char>| v@)
}

fn place(list: &mut Vec<Vec<char>>, g: Vec<char>)
    ensures
        texts(final(list)@) == placed(texts(old(list)@), g@),
{
    let ghost all = texts(list@);
    let n: usize = list.len();
    let mut i: usize = 0;
    assert(all.skip(0) == all && all.take(0) + placed(all, g@) == placed(all, g@));
    while i < n
        invariant
            0 <= i <= n,
            n == list@.len(),
            all == texts(list@),
            all == texts(old(list)@),
            placed(all, g@) == all.take(i as int) + placed(all.skip(i as int), g@),
        decreases n - i,
    {
        let ghost rest = all.skip(i as int);
        assert(rest[0] == list@[i as int]@);
        if seqs::same(list[i].as_slice(), g.as_slice()) {
            assert(all.take(i as int) + rest == all);
            return;
        }
        if comes_before(g.as_slice(), list[i].as_slice()) {
            let ghost g_view = g@;
            list.insert(i, g);
            assert(texts(list@) =~= all.take(i as int) + (seq![g_view] + rest));
            return;
        }
        assert(rest.drop_first() == all.skip(i + 1));
        assert(all.take(i as int) + (seq![rest[0]] + placed(all.skip(i + 1), g@)) =~= all.take(
            i + 1,
        ) + placed(all.skip(i + 1), g@));
        i = i + 1;
    }
    let ghost g_view = g@;
    assert(all.skip(n as int).len() == 0);
    list.push(g);
    assert(texts(list@) =~= all.take(n as int) + seq![g_view]);
}

fn grants_of(peers: &Vec<PeerRecord>) -> (r: Vec<Vec<char>>)
    ensures
        texts(r@) == grants(tally::peer_views(peers@)),
{
    let ghost all = tally::peer_views(peers@);
    let mut list: Vec<Vec<char>> = Vec::new();
    let mut i: usize = 0;
    assert(texts(list@) =~= grants(all.take(0)));
    while i < peers.len()
        invariant
            0 <= i <= peers@.len(),
            all == tally::peer_views(peers@),
            texts(list@) == grants(all.take(i as int)),
        decreases peers@.len() - i,
    {
        assert(all.take(i + 1).drop_last() == all.take(i as int));
        assert(all.take(i + 1).last() == peers@[i as int]@);
        place(&mut list, text::chars_of(peers[i].grant.as_str()));
        i = i + 1;
    }
    assert(all.take(all.len() as int) == all);
    list
}

fn count_uses(peers: &Vec<PeerRecord>, grant: &[char]) -> (r: u64)
    ensures
        r == uses(tally::peer_views(peers@), grant@),
{
    let ghost all = tally::peer_views(peers@);
    let mut n: u64 = 0;
    let mut i: usize = 0;
    while i < peers.len()
        invariant
            0 <= i <= peers@.len(),
            all == tally::peer_views(peers@),
            n <= i,
            n == uses(all.take(i as int), grant@),
        decreases peers@.len() - i,
    {
        assert(all.take(i + 1).drop_last() == all.take(i as int));
        assert(all.take(i + 1).last() == peers@[i as int]@);
        if text::is_text(grant, peers[i].grant.as_str()) {
            n = n + 1;
        }
        i = i + 1;
    }
    assert(all.take(all.len() as int) == all);
    n
}

/// How many peers used a relay.
pub open spec fn relayed(peers: Seq<PeerView>) -> nat
    decreases peers.len(),
{
    if peers.len() == 0 {
        0
    } else if peers.last().path == Some(Path::Relayed) {
        relayed(peers.drop_last()) + 1
    } else {
        relayed(peers.drop_last())
    }
}

fn count_relayed(peers: &Vec<PeerRecord>) -> (r: u64)
    ensures
        r == relayed(tally::peer_views(peers@)),
{
    let ghost all = tally::peer_views(peers@);
    let mut n: u64 = 0;
    let mut i: usize = 0;
    while i < peers.len()
        invariant
            0 <= i <= peers@.len(),
            all == tally::peer_views(peers@),
            n <= i,
            n == relayed(all.take(i as int)),
        decreases peers@.len() - i,
    {
        assert(all.take(i + 1).drop_last() == all.take(i as int));
        assert(all.take(i + 1).last() == peers@[i as int]@);
        if let Some(Path::Relayed) = peers[i].path {
            n = n + 1;
        }
        i = i + 1;
    }
    assert(all.take(all.len() as int) == all);
    n
}

/// What it was, for how long.
pub open spec fn head_line(s: SummaryView) -> Seq<char> {
    "share session, "@
            + text::decimal(s.length() as nat)
            + "s ("@
            + s.transport.spec_str()
            + " transport)\n"@
}

fn put_head_line(s: &Summary) -> (r: String)
    ensures
        r@ == head_line(s@),
{
    let mut out: String = "share session, ".to_owned();
    text::push_decimal(&mut out, s.length_of());
    out.append("s (");
    out.append(s.transport.as_str());
    out.append(" transport)\n");
    out
}

/// A line with a moment of the session.
pub open spec fn time_line(name: Seq<char>, at: Seq<char>) -> Seq<char> {
    name + at + "\n"@
}

fn put_time_line(name: &str, at: &str) -> (r: String)
    ensures
        r@ == time_line(name@, at@),
{
    let mut out: String = name.to_owned();
    out.append(at);
    out.append("\n");
    out
}

/// A clock that jumped, and by how much.
pub open spec fn jump_line(back: bool, by: int) -> Seq<char> {
    "clock    this machine's clock jumped "@
            + (if back { "back"@ } else { "forward"@ })
            + " "@
            + text::decimal(by as nat)
            + "s during the session — the length above is measured, but the two timestamps and each peer's held time are clock readings and are off by that much\n"@
}

fn put_jump_line(back: bool, by: u64) -> (r: String)
    ensures
        r@ == jump_line(back, by as int),
{
    let mut out: String = "clock    this machine's clock jumped ".to_owned();
    out.append(if back { "back" } else { "forward" });
    out.append(" ");
    text::push_decimal(&mut out, by);
    out.append("s during the session — the length above is measured, but the two timestamps and each peer's held time are clock readings and are off by that much\n");
    out
}

/// Two clocks that run at different rates.
pub open spec fn drift_line(span: int, length: int) -> Seq<char> {
    "clock    the timestamps above are "@
            + figures::signed(span)
            + "s apart and the session was measured at "@
            + text::decimal(length as nat)
            + "s — this machine's wall clock and its elapsed-time clock run at different rates. Nothing jumped; the length is the measured one\n"@
}

fn put_drift_line(span: i64, length: u64) -> (r: String)
    ensures
        r@ == drift_line(span as int, length as int),
{
    let mut out: String = "clock    the timestamps above are ".to_owned();
    out.append(figures::signed_text(span).as_str());
    out.append("s apart and the session was measured at ");
    text::push_decimal(&mut out, length);
    out.append("s — this machine's wall clock and its elapsed-time clock run at different rates. Nothing jumped; the length is the measured one\n");
    out
}

/// What was shared.
pub open spec fn port_line(s: SummaryView) -> Seq<char> {
    "shared   port "@
            + text::decimal(s.port as nat)
            + " inside the box, never published on the host\n"@
}

fn put_port_line(s: &Summary) -> (r: String)
    ensures
        r@ == port_line(s@),
{
    let mut out: String = "shared   port ".to_owned();
    text::push_decimal(&mut out, s.port as u64);
    out.append(" inside the box, never published on the host\n");
    out
}

/// Where it was shared.
pub open spec fn endpoint_line(s: SummaryView) -> Seq<char> {
    "endpoint "@
            + display::shown(s.endpoint)
            + "\n"@
}

fn put_endpoint_line(s: &Summary) -> (r: String)
    ensures
        r@ == endpoint_line(s@),
{
    let mut out: String = "endpoint ".to_owned();
    out.append(display::sanitize_display(&s.endpoint).as_str());
    out.append("\n");
    out
}

/// A tunnel's weaker claim, said where it is read.
pub open spec fn tunnel_line(s: SummaryView) -> Seq<char> {
    if s.transport == Transport::Tunnel {
        "note     a Cloudflare quick tunnel terminated TLS, so this traffic was not end-to-end encrypted\n"@
    } else {
        Seq::empty()
    }
}

fn put_tunnel_line(s: &Summary) -> (r: String)
    ensures
        r@ == tunnel_line(s@),
{
    if s.transport != Transport::Tunnel {
        return String::new();
    }
    let mut out: String = "note     a Cloudflare quick tunnel terminated TLS, so this traffic was not end-to-end encrypted\n".to_owned();
    out
}

/// Why the share ended badly, when it did.
pub open spec fn failure_line(s: SummaryView) -> Seq<char> {
    match s.failed_because {
        Some(why) => "ended    badly: "@ + display::shown(why) + "\n"@,
        None => Seq::empty(),
    }
}

fn put_failure_line(s: &Summary) -> (r: String)
    ensures
        r@ == failure_line(s@),
{
    match &s.failed_because {
        Some(why) => {
            let mut out: String = "ended    badly: ".to_owned();
            out.append(display::sanitize_display(why).as_str());
            out.append("\n");
            out
        },
        None => String::new(),
    }
}

/// Said before the numbers, because it changes how to read every one of them.
pub open spec fn partial_line(s: SummaryView) -> Seq<char> {
    if !s.settled {
        "partial  this was written before every connection had finished, so the byte counts below are short and a peer may read as still connected\n"@
    } else {
        Seq::empty()
    }
}

fn put_partial_line(s: &Summary) -> (r: String)
    ensures
        r@ == partial_line(s@),
{
    if s.settled {
        return String::new();
    }
    let mut out: String = "partial  this was written before every connection had finished, so the byte counts below are short and a peer may read as still connected\n".to_owned();
    out
}

/// The label of a peer, when it has one.
pub open spec fn label_part(label: Option<Seq<char>>) -> Seq<char> {
    match label {
        Some(l) => " ("@ + display::shown(l) + ")"@,
        None => Seq::empty(),
    }
}

fn put_label_part(label: &Option<String>) -> (r: String)
    ensures
        r@ == label_part(text::maybe(*label)),
{
    match label {
        Some(l) => {
            let mut out: String = " (".to_owned();
            out.append(display::sanitize_display(l).as_str());
            out.append(")");
            out
        },
        None => String::new(),
    }
}

/// How a peer's bytes travelled.
pub open spec fn path_part(path: Option<Path>) -> Seq<char> {
    match path {
        Some(p) => p.spec_str(),
        None => "a path nothing observed"@,
    }
}

fn put_path_part(path: Option<Path>) -> (r: &'static str)
    ensures
        r@ == path_part(path),
{
    match path {
        Some(p) => p.as_str(),
        None => "a path nothing observed",
    }
}

/// One peer's time on the share.
pub open spec fn peer_line(p: PeerView, ended: Moment) -> Seq<char> {
    "  "@
            + display::shown(p.peer)
            + " via "@
            + path_part(p.path)
            + " — grant "@
            + display::shown(p.grant)
            + label_part(p.label)
            + ", "@
            + text::decimal(held(p, ended) as nat)
            + "s, "@
            + figures::counted(p.connections as nat, "connection"@, "connections"@)
            + ", "@
            + figures::size(p.bytes_from_peer as nat)
            + " in / "@
            + figures::size(p.bytes_to_peer as nat)
            + " out\n"@
}

fn put_peer_line(p: &PeerRecord, ended: Moment) -> (r: String)
    requires
        p@.readable(),
        ended.wf(),
    ensures
        r@ == peer_line(p@, ended),
{
    let mut out: String = "  ".to_owned();
    out.append(display::sanitize_display(&p.peer).as_str());
    out.append(" via ");
    out.append(put_path_part(p.path));
    out.append(" — grant ");
    out.append(display::sanitize_display(&p.grant).as_str());
    out.append(put_label_part(&p.label).as_str());
    out.append(", ");
    text::push_decimal(&mut out, held_of(p, ended));
    out.append("s, ");
    out.append(figures::plural(p.connections, "connection", "connections").as_str());
    out.append(", ");
    out.append(figures::bytes(p.bytes_from_peer).as_str());
    out.append(" in / ");
    out.append(figures::bytes(p.bytes_to_peer).as_str());
    out.append(" out\n");
    out
}

/// The peers past the list, with their traffic.
pub open spec fn more_line(s: SummaryView) -> Seq<char> {
    if s.peers_overflow > 0 {
        "  and "@
            + text::decimal(s.peers_overflow as nat)
            + " more peer(s), past the "@
            + text::decimal(MAX_PEER_RECORDS as nat)
            + " this receipt lists individually — not shown above by peer, but counted: "@
            + text::decimal(s.overflow_connections as nat)
            + " connection(s), "@
            + figures::size(s.overflow_bytes_from_peer as nat)
            + " in / "@
            + figures::size(s.overflow_bytes_to_peer as nat)
            + " out\n"@
    } else {
        Seq::empty()
    }
}

fn put_more_line(s: &Summary) -> (r: String)
    ensures
        r@ == more_line(s@),
{
    if s.peers_overflow == 0 {
        return String::new();
    }
    let mut out: String = "  and ".to_owned();
    text::push_decimal(&mut out, s.peers_overflow);
    out.append(" more peer(s), past the ");
    text::push_decimal(&mut out, MAX_PEER_RECORDS as u64);
    out.append(" this receipt lists individually — not shown above by peer, but counted: ");
    text::push_decimal(&mut out, s.overflow_connections);
    out.append(" connection(s), ");
    out.append(figures::bytes(s.overflow_bytes_from_peer).as_str());
    out.append(" in / ");
    out.append(figures::bytes(s.overflow_bytes_to_peer).as_str());
    out.append(" out\n");
    out
}

/// A ticket that more than one peer came with.
pub open spec fn ticket_line(grant: Seq<char>, n: nat) -> Seq<char> {
    "ticket   grant "@
            + display::shown(grant)
            + " was used by "@
            + text::decimal(n as nat)
            + " separate peers — a ticket admits everyone it is forwarded to, and revoking it cuts off all of them\n"@
}

fn put_ticket_line(grant: &[char], n: u64) -> (r: String)
    ensures
        r@ == ticket_line(grant@, n as nat),
{
    let mut out: String = "ticket   grant ".to_owned();
    out.append(display::sanitize_display(text::text_of(grant).as_str()).as_str());
    out.append(" was used by ");
    text::push_decimal(&mut out, n);
    out.append(" separate peers — a ticket admits everyone it is forwarded to, and revoking it cuts off all of them\n");
    out
}

/// How many peers used a relay.
pub open spec fn relay_line(n: nat) -> Seq<char> {
    if n > 0 {
        "relay    "@
            + text::decimal(n as nat)
            + " peer(s) used a relay. It moved sealed packets and could not read them.\n"@
    } else {
        Seq::empty()
    }
}

fn put_relay_line(n: u64) -> (r: String)
    ensures
        r@ == relay_line(n as nat),
{
    if n == 0 {
        return String::new();
    }
    let mut out: String = "relay    ".to_owned();
    text::push_decimal(&mut out, n);
    out.append(" peer(s) used a relay. It moved sealed packets and could not read them.\n");
    out
}

/// Turned away for load, not for credentials.
pub open spec fn capacity_line(s: SummaryView) -> Seq<char> {
    if s.over_capacity > 0 {
        "capacity "@
            + text::decimal(s.over_capacity as nat)
            + " connection(s) refused because "@
            + text::decimal(MAX_CONNECTIONS as nat)
            + " were already reaching the box\n"@
    } else {
        Seq::empty()
    }
}

fn put_capacity_line(s: &Summary) -> (r: String)
    ensures
        r@ == capacity_line(s@),
{
    if s.over_capacity == 0 {
        return String::new();
    }
    let mut out: String = "capacity ".to_owned();
    text::push_decimal(&mut out, s.over_capacity);
    out.append(" connection(s) refused because ");
    text::push_decimal(&mut out, MAX_CONNECTIONS as u64);
    out.append(" were already reaching the box\n");
    out
}

/// Turned away before anything was asked.
pub open spec fn flooded_line(s: SummaryView) -> Seq<char> {
    if s.front_refused > 0 {
        "flooded  "@
            + text::decimal(s.front_refused as nat)
            + " connection(s) refused at the front door, before any credential was asked for\n"@
    } else {
        Seq::empty()
    }
}

fn put_flooded_line(s: &Summary) -> (r: String)
    ensures
        r@ == flooded_line(s@),
{
    if s.front_refused == 0 {
        return String::new();
    }
    let mut out: String = "flooded  ".to_owned();
    text::push_decimal(&mut out, s.front_refused);
    out.append(" connection(s) refused at the front door, before any credential was asked for\n");
    out
}

/// Responses that stopped in the middle.
pub open spec fn truncated_line(s: SummaryView) -> Seq<char> {
    if s.truncated > 0 {
        "truncated "@
            + text::decimal(s.truncated as nat)
            + " response(s) the box left unfinished, so what the visitor got was incomplete\n"@
    } else {
        Seq::empty()
    }
}

fn put_truncated_line(s: &Summary) -> (r: String)
    ensures
        r@ == truncated_line(s@),
{
    if s.truncated == 0 {
        return String::new();
    }
    let mut out: String = "truncated ".to_owned();
    text::push_decimal(&mut out, s.truncated);
    out.append(" response(s) the box left unfinished, so what the visitor got was incomplete\n");
    out
}

/// How many are on no list.
pub open spec fn overflow_part(n: nat) -> Seq<char> {
    if n > 0 {
        " ("@
            + text::decimal(n as nat)
            + " of them not recorded individually)"@
    } else {
        Seq::empty()
    }
}

fn put_overflow_part(n: u64) -> (r: String)
    ensures
        r@ == overflow_part(n as nat),
{
    if n == 0 {
        return String::new();
    }
    let mut out: String = " (".to_owned();
    text::push_decimal(&mut out, n);
    out.append(" of them not recorded individually)");
    out
}

/// Turned away for something other than a credential.
pub open spec fn turned_line(s: SummaryView) -> Seq<char> {
    if s.turned_away.len() > 0 {
        "turned   "@
            + text::decimal((s.turned_away.len() + s.turned_away_overflow) as nat)
            + " connection(s) away before any ticket was weighed"@
            + overflow_part(s.turned_away_overflow as nat)
            + ": of the "@
            + text::decimal(s.turned_away.len() as nat)
            + " recorded, "@
            + reasons_part(s.turned_away)
            + "\n"@
    } else {
        Seq::empty()
    }
}

fn put_turned_line(s: &Summary) -> (r: String)
    requires
        s@.countable(),
    ensures
        r@ == turned_line(s@),
{
    if s.turned_away.len() == 0 {
        return String::new();
    }
    let mut out: String = "turned   ".to_owned();
    text::push_decimal(&mut out, s.turned_away.len() as u64 + s.turned_away_overflow);
    out.append(" connection(s) away before any ticket was weighed");
    out.append(put_overflow_part(s.turned_away_overflow).as_str());
    out.append(": of the ");
    text::push_decimal(&mut out, s.turned_away.len() as u64);
    out.append(" recorded, ");
    out.append(put_reasons_part(&s.turned_away).as_str());
    out.append("\n");
    out
}

/// A broken route, which is not the user's dev server being down.
pub open spec fn route_line(s: SummaryView) -> Seq<char> {
    if s.route_broken > 0 {
        "route    "@
            + text::decimal(s.route_broken as nat)
            + " connection(s) were authorized and then h5i could not reach the box at all\n"@
    } else {
        Seq::empty()
    }
}

fn put_route_line(s: &Summary) -> (r: String)
    ensures
        r@ == route_line(s@),
{
    if s.route_broken == 0 {
        return String::new();
    }
    let mut out: String = "route    ".to_owned();
    text::push_decimal(&mut out, s.route_broken);
    out.append(" connection(s) were authorized and then h5i could not reach the box at all\n");
    out
}

/// A good ticket that found nothing listening.
pub open spec fn unreached_line(s: SummaryView) -> Seq<char> {
    if s.unreachable > 0 {
        "unreached "@
            + text::decimal(s.unreachable as nat)
            + " connection(s) were authorized but found nothing listening on port "@
            + text::decimal(s.port as nat)
            + "\n"@
    } else {
        Seq::empty()
    }
}

fn put_unreached_line(s: &Summary) -> (r: String)
    ensures
        r@ == unreached_line(s@),
{
    if s.unreachable == 0 {
        return String::new();
    }
    let mut out: String = "unreached ".to_owned();
    text::push_decimal(&mut out, s.unreachable);
    out.append(" connection(s) were authorized but found nothing listening on port ");
    text::push_decimal(&mut out, s.port as u64);
    out.append("\n");
    out
}

/// Refused because the grant table could not be read.
pub open spec fn unweighed_part(n: nat) -> Seq<char> {
    if n > 0 {
        "; and "@
            + text::decimal(n as nat)
            + " could not be weighed at all, because this share could not read its own grant table — a problem on the sharing machine"@
    } else {
        Seq::empty()
    }
}

fn put_unweighed_part(n: u64) -> (r: String)
    ensures
        r@ == unweighed_part(n as nat),
{
    if n == 0 {
        return String::new();
    }
    let mut out: String = "; and ".to_owned();
    text::push_decimal(&mut out, n);
    out.append(" could not be weighed at all, because this share could not read its own grant table — a problem on the sharing machine");
    out
}

/// Refused because the share was over.
pub open spec fn late_part(n: nat) -> Seq<char> {
    if n > 0 {
        "; and "@
            + text::decimal(n as nat)
            + " arrived after the share had been stopped"@
    } else {
        Seq::empty()
    }
}

fn put_late_part(n: u64) -> (r: String)
    ensures
        r@ == late_part(n as nat),
{
    if n == 0 {
        return String::new();
    }
    let mut out: String = "; and ".to_owned();
    text::push_decimal(&mut out, n);
    out.append(" arrived after the share had been stopped");
    out
}

/// Everybody who was refused, and why.
pub open spec fn refused_line(s: SummaryView) -> Seq<char> {
    if s.denied.len() > 0 {
        "refused  "@
            + text::decimal((s.denied.len() + s.denied_overflow) as nat)
            + " attempt(s)"@
            + overflow_part(s.denied_overflow as nat)
            + ": of the "@
            + text::decimal(s.denied.len() as nat)
            + " recorded, "@
            + text::decimal(refused_for(s.denied, Denied::NoCredential) as nat)
            + " presented no invite, "@
            + text::decimal(refused_for(s.denied, Denied::Unknown) as nat)
            + " an unknown ticket, "@
            + text::decimal(refused_for(s.denied, Denied::Expired) as nat)
            + " expired, "@
            + text::decimal(refused_for(s.denied, Denied::Revoked) as nat)
            + " revoked"@
            + unweighed_part(refused_for(s.denied, Denied::TableUnreadable))
            + late_part(refused_for(s.denied, Denied::ShareOver))
            + "\n"@
    } else {
        Seq::empty()
    }
}

fn put_refused_line(s: &Summary) -> (r: String)
    requires
        s@.countable(),
    ensures
        r@ == refused_line(s@),
{
    if s.denied.len() == 0 {
        return String::new();
    }
    let mut out: String = "refused  ".to_owned();
    text::push_decimal(&mut out, s.denied.len() as u64 + s.denied_overflow);
    out.append(" attempt(s)");
    out.append(put_overflow_part(s.denied_overflow).as_str());
    out.append(": of the ");
    text::push_decimal(&mut out, s.denied.len() as u64);
    out.append(" recorded, ");
    text::push_decimal(&mut out, count_refused(&s.denied, Denied::NoCredential));
    out.append(" presented no invite, ");
    text::push_decimal(&mut out, count_refused(&s.denied, Denied::Unknown));
    out.append(" an unknown ticket, ");
    text::push_decimal(&mut out, count_refused(&s.denied, Denied::Expired));
    out.append(" expired, ");
    text::push_decimal(&mut out, count_refused(&s.denied, Denied::Revoked));
    out.append(" revoked");
    out.append(put_unweighed_part(count_refused(&s.denied, Denied::TableUnreadable)).as_str());
    out.append(put_late_part(count_refused(&s.denied, Denied::ShareOver)).as_str());
    out.append("\n");
    out
}

/// What is said of the clock: that it jumped, or that the two clocks disagree
/// by more than five seconds and two per cent, or nothing.
pub open spec fn clock_part(s: SummaryView) -> Seq<char> {
    if s.clock_moved < 0 {
        jump_line(true, -s.clock_moved)
    } else if s.clock_moved > 0 {
        jump_line(false, s.clock_moved as int)
    } else if s.off() >= 5 && s.off() * 50 >= s.length() {
        drift_line(s.span(), s.length())
    } else {
        Seq::empty()
    }
}

fn put_clock_part(s: &Summary) -> (r: String)
    requires
        s@.renderable(),
    ensures
        r@ == clock_part(s@),
{
    if s.clock_moved < 0 {
        return put_jump_line(true, (-s.clock_moved) as u64);
    }
    if s.clock_moved > 0 {
        return put_jump_line(false, s.clock_moved as u64);
    }
    let length: u64 = s.length_of();
    let span: i64 = clock::seconds_between(s.ended, s.started);
    let off: i64 = if span >= length as i64 {
        span - length as i64
    } else {
        length as i64 - span
    };
    if off >= 5 && off * 50 >= length as i64 {
        put_drift_line(span, length)
    } else {
        String::new()
    }
}

/// The lines of these peers.
pub open spec fn peer_lines(peers: Seq<PeerView>, ended: Moment) -> Seq<char>
    decreases peers.len(),
{
    if peers.len() == 0 {
        Seq::empty()
    } else {
        peer_lines(peers.drop_last(), ended) + peer_line(peers.last(), ended)
    }
}

fn put_peer_lines(peers: &Vec<PeerRecord>, ended: Moment) -> (r: String)
    requires
        ended.wf(),
        forall|i: int| 0 <= i < peers@.len() ==> (#[trigger] peers@[i]@).readable(),
    ensures
        r@ == peer_lines(tally::peer_views(peers@), ended),
{
    let ghost all = tally::peer_views(peers@);
    let mut out: String = String::new();
    let mut i: usize = 0;
    while i < peers.len()
        invariant
            0 <= i <= peers@.len(),
            ended.wf(),
            forall|i: int| 0 <= i < peers@.len() ==> (#[trigger] peers@[i]@).readable(),
            all == tally::peer_views(peers@),
            out@ == peer_lines(all.take(i as int), ended),
        decreases peers@.len() - i,
    {
        assert(all.take(i + 1).drop_last() == all.take(i as int));
        assert(all.take(i + 1).last() == peers@[i as int]@);
        out.append(put_peer_line(&peers[i], ended).as_str());
        i = i + 1;
    }
    assert(all.take(all.len() as int) == all);
    out
}

/// The lines of those among these tickets that more than one peer came with.
pub open spec fn ticket_lines(tickets: Seq<Seq<char>>, peers: Seq<PeerView>) -> Seq<char>
    decreases tickets.len(),
{
    if tickets.len() == 0 {
        Seq::empty()
    } else if uses(peers, tickets.last()) > 1 {
        ticket_lines(tickets.drop_last(), peers) + ticket_line(
            tickets.last(),
            uses(peers, tickets.last()),
        )
    } else {
        ticket_lines(tickets.drop_last(), peers)
    }
}

fn put_ticket_lines(peers: &Vec<PeerRecord>) -> (r: String)
    ensures
        r@ == ticket_lines(
            grants(tally::peer_views(peers@)),
            tally::peer_views(peers@),
        ),
{
    let tickets = grants_of(peers);
    let ghost all = texts(tickets@);
    let mut out: String = String::new();
    let mut i: usize = 0;
    while i < tickets.len()
        invariant
            0 <= i <= tickets@.len(),
            all == texts(tickets@),
            out@ == ticket_lines(all.take(i as int), tally::peer_views(peers@)),
        decreases tickets@.len() - i,
    {
        assert(all.take(i + 1).drop_last() == all.take(i as int));
        assert(all.take(i + 1).last() == tickets@[i as int]@);
        let n: u64 = count_uses(peers, tickets[i].as_slice());
        if n > 1 {
            out.append(put_ticket_line(tickets[i].as_slice(), n).as_str());
        }
        i = i + 1;
    }
    assert(all.take(all.len() as int) == all);
    out
}

/// Who came.
pub open spec fn peers_part(s: SummaryView) -> Seq<char> {
    if s.peers.len() == 0 {
        "peers    none — the share was open but nobody connected\n"@
    } else {
        "peers    "@ + text::decimal(s.peers.len()) + "\n"@ + peer_lines(s.peers, s.ended)
            + more_line(s) + ticket_lines(grants(s.peers), s.peers) + relay_line(relayed(s.peers))
    }
}

fn put_peers_part(s: &Summary) -> (r: String)
    requires
        s@.renderable(),
    ensures
        r@ == peers_part(s@),
{
    if s.peers.len() == 0 {
        return "peers    none — the share was open but nobody connected\n".to_owned();
    }
    assert forall|i: int| 0 <= i < s.peers@.len() implies (#[trigger] s.peers@[i]@).readable() by {
        assert(s@.peers[i] == s.peers@[i]@);
    }
    let mut out: String = "peers    ".to_owned();
    text::push_decimal(&mut out, s.peers.len() as u64);
    out.append("\n");
    out.append(put_peer_lines(&s.peers, s.ended).as_str());
    out.append(put_more_line(s).as_str());
    out.append(put_ticket_lines(&s.peers).as_str());
    out.append(put_relay_line(count_relayed(&s.peers)).as_str());
    out
}

/// The receipt, with its two moments as they are written.
pub open spec fn receipt(s: SummaryView, opened: Seq<char>, closed: Seq<char>) -> Seq<char> {
    head_line(s)
        + time_line("opened   "@, opened)
        + time_line("closed   "@, closed)
        + clock_part(s)
        + port_line(s)
        + endpoint_line(s)
        + tunnel_line(s)
        + failure_line(s)
        + partial_line(s)
        + peers_part(s)
        + capacity_line(s)
        + flooded_line(s)
        + truncated_line(s)
        + turned_line(s)
        + route_line(s)
        + unreached_line(s)
        + refused_line(s)
}

/// Render the ingress receipt, with its two moments as they are written.
pub fn render_receipt_at(s: &Summary, opened: &str, closed: &str) -> (r: String)
    requires
        s@.renderable(),
    ensures
        r@ == receipt(s@, opened@, closed@),
{
    let mut out: String = put_head_line(s);
    out.append(put_time_line("opened   ", opened).as_str());
    out.append(put_time_line("closed   ", closed).as_str());
    out.append(put_clock_part(s).as_str());
    out.append(put_port_line(s).as_str());
    out.append(put_endpoint_line(s).as_str());
    out.append(put_tunnel_line(s).as_str());
    out.append(put_failure_line(s).as_str());
    out.append(put_partial_line(s).as_str());
    out.append(put_peers_part(s).as_str());
    out.append(put_capacity_line(s).as_str());
    out.append(put_flooded_line(s).as_str());
    out.append(put_truncated_line(s).as_str());
    out.append(put_turned_line(s).as_str());
    out.append(put_route_line(s).as_str());
    out.append(put_unreached_line(s).as_str());
    out.append(put_refused_line(s).as_str());
    out
}

/// Render the ingress receipt.
pub fn render_receipt(s: &Summary) -> (r: String)
    requires
        s@.renderable(),
    ensures
        r@ == receipt(
            s@,
            clock::rfc3339_text(s@.started.seconds, s@.started.nanos),
            clock::rfc3339_text(s@.ended.seconds, s@.ended.nanos),
        ),
        plain::printed(r@),
        s@.started.is_written(),
        s@.ended.is_written(),
{
    let opened = clock::rfc3339(s.started);
    let closed = clock::rfc3339(s.ended);
    proof {
        reveal(plain::printed);
        receipt_laws::law_a_receipt_is_plain_text(s@, opened@, closed@);
    }
    render_receipt_at(s, opened.as_str(), closed.as_str())
}

} // verus!
