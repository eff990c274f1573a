//! What a share has seen: who came, who was refused, and how much moved.
use vstd::prelude::*;
use vstd::string::*;

use crate::clock::Moment;
use crate::session::Denied;
use crate::text;

verus! {

/// How a peer's bytes actually travelled, as observed rather than as hoped.
#[derive(Debug, Clone, Copy, PartialEq, Eq, Structural)]
pub enum Path {
    /// A direct peer-to-peer path. Nothing but the two machines.
    Direct,
    /// Through a relay. Still end-to-end encrypted, the relay moves sealed
    /// packets and cannot read them, but a third party was on the wire and the
    /// receipt says so.
    Relayed,
    /// A Cloudflare quick tunnel. TLS terminates at Cloudflare, so unlike the
    /// two above this one is *not* end to end.
    Tunnel,
}

impl Path {
    pub open spec fn spec_str(self) -> Seq<char> {
        match self {
            Path::Direct => "direct"@,
            Path::Relayed => "relayed"@,
            Path::Tunnel => "tunnel"@,
        }
    }

    pub fn as_str(self) -> (r: &'static str)
        ensures
            r@ == self.spec_str(),
    {
        match self {
            Path::Direct => "direct",
            Path::Relayed => "relayed",
            Path::Tunnel => "tunnel",
        }
    }
}

/// One peer's time on the share.
#[derive(Debug, Clone)]
pub struct PeerRecord {
    /// Who, as far as the transport can say: an endpoint id for P2P, or a note
    /// that the tunnel cannot tell one browser from another.
    pub peer: String,
    pub grant: String,
    pub label: Option<String>,
    /// How this peer's bytes travelled, once something actually observed it.
    /// `None` until then, and rendered as such: a transport that has not
    /// selected a path yet is not evidence of either answer.
    pub path: Option<Path>,
    pub opened: Moment,
    pub closed: Option<Moment>,
    /// The last time this peer did anything, for a transport with no close to
    /// observe.
    pub last_seen: Option<Moment>,
    /// TCP connections into the box carried for this peer. One request each, so
    /// this is also the count of requests that reached the box, and *not* the
    /// count of requests made.
    pub connections: u64,
    pub bytes_to_peer: u64,
    pub bytes_from_peer: u64,
}

/// What a peer's record says.
pub struct PeerView {
    pub peer: Seq<char>,
    pub grant: Seq<char>,
    pub label: Option<Seq<char>>,
    pub path: Option<Path>,
    pub opened: Moment,
    pub closed: Option<Moment>,
    pub last_seen: Option<Moment>,
    pub connections: u64,
    pub bytes_to_peer: u64,
    pub bytes_from_peer: u64,
}

impl View for PeerRecord {
    type V = PeerView;

    open spec fn view(&self) -> PeerView {
        PeerView {
            peer: self.peer@,
            grant: self.grant@,
            label: text::maybe(self.label),
            path: self.path,
            opened: self.opened,
            closed: self.closed,
            last_seen: self.last_seen,
            connections: self.connections,
            bytes_to_peer: self.bytes_to_peer,
            bytes_from_peer: self.bytes_from_peer,
        }
    }
}

impl PeerView {
    /// The moments of this record are moments.
    pub open spec fn readable(self) -> bool {
        &&& self.opened.wf()
        &&& (self.closed matches Some(m) ==> m.wf())
        &&& (self.last_seen matches Some(m) ==> m.wf())
    }
}

impl PeerRecord {
    /// A record that says the same.
    pub fn copy(&self) -> (r: PeerRecord)
        ensures
            r@ == self@,
    {
        PeerRecord {
            peer: self.peer.clone(),
            grant: self.grant.clone(),
            label: text::copy_maybe(&self.label),
            path: self.path,
            opened: self.opened,
            closed: self.closed,
            last_seen: self.last_seen,
            connections: self.connections,
            bytes_to_peer: self.bytes_to_peer,
            bytes_from_peer: self.bytes_from_peer,
        }
    }
}

/// What these records say.
pub open spec fn peer_views(peers: Seq<PeerRecord>) -> Seq<PeerView> {
    peers.map_values(|p: PeerRecord| p@)
}

/// A connection turned away for something other than its credential.
#[derive(Debug, Clone, Copy, PartialEq, Eq, Structural)]
pub struct TurnedAway {
    pub at: Moment,
    pub why: TurnedAwayReason,
}

#[derive(Debug, Clone, Copy, PartialEq, Eq, Structural)]
pub enum TurnedAwayReason {
    /// `--direct-only`, and the connection was on a relay.
    NoDirectPath,
    /// Connected, then never presented a ticket.
    NeverGreeted,
    /// A request that would not parse: the smuggling shapes that are refused.
    Unparseable,
    /// A browser request that came from a page that is not this share, carrying
    /// the share cookie the browser attached on its own.
    ForeignOrigin,
    /// An attempt to register a service worker, which would keep control of
    /// the joiner's loopback origin after the share ended.
    ServiceWorker,
}

impl TurnedAwayReason {
    pub open spec fn spec_str(self) -> Seq<char> {
        match self {
            TurnedAwayReason::NoDirectPath => "no direct path was available"@,
            TurnedAwayReason::NeverGreeted => "connected but never presented a ticket"@,
            TurnedAwayReason::Unparseable => "sent something this share would not parse"@,
            TurnedAwayReason::ForeignOrigin => "came from another page, with this share's cookie attached"@,
            TurnedAwayReason::ServiceWorker => "tried to register a service worker, which would outlive the share"@,
        }
    }

    pub fn as_str(self) -> (r: &'static str)
        ensures
            r@ == self.spec_str(),
    {
        match self {
            TurnedAwayReason::NoDirectPath => "no direct path was available",
            TurnedAwayReason::NeverGreeted => "connected but never presented a ticket",
            TurnedAwayReason::Unparseable => "sent something this share would not parse",
            TurnedAwayReason::ForeignOrigin => "came from another page, with this share's cookie attached",
            TurnedAwayReason::ServiceWorker => "tried to register a service worker, which would outlive the share",
        }
    }
}

/// Someone knocked and was not let in. Worth recording: a share that was probed
/// is a fact about the session, and it is invisible everywhere else.
#[derive(Debug, Clone, Copy, PartialEq, Eq, Structural)]
pub struct DeniedAttempt {
    pub at: Moment,
    pub reason: Denied,
}

/// How many connections into the box a share will carry at once.
///
/// Sixty-four is chosen to be uninteresting: a browser opens about six
/// connections per origin, so this is roughly ten simultaneous viewers, and a
/// share is for one person. Reaching it is a signal, and it is recorded.
pub const MAX_CONNECTIONS: usize = 64;

/// Ceiling on accepted-but-not-yet-authorized handlers, across both transports.
/// It exists to be *waited on*, not to refuse anybody.
pub const MAX_FRONT: usize = 4096;

/// How many distinct peers the receipt will describe individually.
pub const MAX_PEER_RECORDS: usize = 256;

/// How many refusals, and how many connections turned away, are kept one by
/// one.
pub const MAX_KNOCKS: usize = 1024;

/// A handle to one peer's entry in the tally.
#[derive(Debug, Clone, Copy)]
pub struct PeerId(pub(crate) usize);

impl PeerId {
    /// The position of the record that this names; past the end of the list it
    /// names none.
    pub open(crate) spec fn index(self) -> nat {
        self.0 as nat
    }
}

/// What a share has seen.
#[derive(Debug)]
pub struct Tally {
    /// Did every connection finish before the receipt was written? Starts
    /// false: defaulting the other way would make silence look like a clean
    /// ending.
    pub settled: bool,
    /// Dials that failed because the route into the box did.
    pub route_broken: u64,
    pub turned_away: Vec<TurnedAway>,
    /// Turned-away connections past what the list holds.
    pub turned_away_overflow: u64,
    /// Why the share ended badly, when it did.
    pub failed_because: Option<String>,
    pub peers: Vec<PeerRecord>,
    pub denied: Vec<DeniedAttempt>,
    /// Attempts past what the list will hold.
    pub denied_overflow: u64,
    /// Connections turned away because the share was already carrying its
    /// limit into the box.
    pub over_capacity: u64,
    /// Connections turned away at the front door, before a credential was ever
    /// asked for.
    pub front_refused: u64,
    /// Peers past what the record list holds.
    pub peers_overflow: u64,
    /// Connections and bytes belonging to peers past the record cap.
    pub overflow_connections: u64,
    pub overflow_bytes_to_peer: u64,
    pub overflow_bytes_from_peer: u64,
    /// Peers who presented a good ticket and found nothing listening inside the
    /// box.
    pub unreachable: u64,
    /// Responses the box left unfinished.
    pub truncated: u64,
}

/// What a tally says.
pub struct TallyView {
    pub settled: bool,
    pub route_broken: u64,
    pub turned_away: Seq<TurnedAway>,
    pub turned_away_overflow: u64,
    pub failed_because: Option<Seq<char>>,
    pub peers: Seq<PeerView>,
    pub denied: Seq<DeniedAttempt>,
    pub denied_overflow: u64,
    pub over_capacity: u64,
    pub front_refused: u64,
    pub peers_overflow: u64,
    pub overflow_connections: u64,
    pub overflow_bytes_to_peer: u64,
    pub overflow_bytes_from_peer: u64,
    pub unreachable: u64,
    pub truncated: u64,
}

impl View for Tally {
    type V = TallyView;

    open spec fn view(&self) -> TallyView {
        TallyView {
            settled: self.settled,
            route_broken: self.route_broken,
            turned_away: self.turned_away@,
            turned_away_overflow: self.turned_away_overflow,
            failed_because: text::maybe(self.failed_because),
            peers: peer_views(self.peers@),
            denied: self.denied@,
            denied_overflow: self.denied_overflow,
            over_capacity: self.over_capacity,
            front_refused: self.front_refused,
            peers_overflow: self.peers_overflow,
            overflow_connections: self.overflow_connections,
            overflow_bytes_to_peer: self.overflow_bytes_to_peer,
            overflow_bytes_from_peer: self.overflow_bytes_from_peer,
            unreachable: self.unreachable,
            truncated: self.truncated,
        }
    }
}

impl Default for Tally {
    fn default() -> (r: Tally)
        ensures
            r@ == TallyView::nothing(),
    {
        let r = Tally {
            settled: false,
            route_broken: 0,
            turned_away: Vec::new(),
            turned_away_overflow: 0,
            failed_because: None,
            peers: Vec::new(),
            denied: Vec::new(),
            denied_overflow: 0,
            over_capacity: 0,
            front_refused: 0,
            peers_overflow: 0,
            overflow_connections: 0,
            overflow_bytes_to_peer: 0,
            overflow_bytes_from_peer: 0,
            unreachable: 0,
            truncated: 0,
        };
        assert(r@.peers =~= Seq::<PeerView>::empty());
        assert(r@.denied =~= Seq::<DeniedAttempt>::empty());
        assert(r@.turned_away =~= Seq::<TurnedAway>::empty());
        r
    }
}

/// The same records once more.
pub fn copy_peers(peers: &Vec<PeerRecord>) -> (r: Vec<PeerRecord>)
    ensures
        peer_views(r@) == peer_views(peers@),
{
    let mut out: Vec<PeerRecord> = Vec::new();
    let mut i: usize = 0;
    while i < peers.len()
        invariant
            0 <= i <= peers@.len(),
            peer_views(out@) == peer_views(peers@).take(i as int),
        decreases peers@.len() - i,
    {
        let ghost before = out@;
        let one = peers[i].copy();
        let ghost what = one@;
        out.push(one);
        assert(peer_views(out@) =~= peer_views(before).push(what));
        assert(peer_views(peers@).take(i + 1) =~= peer_views(peers@).take(i as int).push(what));
        i = i + 1;
    }
    assert(peer_views(peers@).take(peers@.len() as int) == peer_views(peers@));
    out
}

/// The same list once more.
pub fn copy_list<T: Copy>(list: &Vec<T>) -> (r: Vec<T>)
    ensures
        r@ == list@,
{
    let mut out: Vec<T> = Vec::new();
    let mut i: usize = 0;
    while i < list.len()
        invariant
            0 <= i <= list@.len(),
            out@ == list@.take(i as int),
        decreases list@.len() - i,
    {
        out.push(list[i]);
        i = i + 1;
    }
    out
}

/// The connections of all these peers together.
pub open spec fn connections_of(peers: Seq<PeerView>) -> nat
    decreases peers.len(),
{
    if peers.len() == 0 {
        0
    } else {
        connections_of(peers.drop_last()) + peers.last().connections as nat
    }
}

/// The bytes that all these peers were sent.
pub open spec fn sent_to(peers: Seq<PeerView>) -> nat
    decreases peers.len(),
{
    if peers.len() == 0 {
        0
    } else {
        sent_to(peers.drop_last()) + peers.last().bytes_to_peer as nat
    }
}

/// The bytes that all these peers sent.
pub open spec fn received_from(peers: Seq<PeerView>) -> nat
    decreases peers.len(),
{
    if peers.len() == 0 {
        0
    } else {
        received_from(peers.drop_last()) + peers.last().bytes_from_peer as nat
    }
}

impl TallyView {
    /// Nothing seen yet.
    pub open spec fn nothing() -> TallyView {
        TallyView {
            settled: false,
            route_broken: 0,
            turned_away: Seq::empty(),
            turned_away_overflow: 0,
            failed_because: None,
            peers: Seq::empty(),
            denied: Seq::empty(),
            denied_overflow: 0,
            over_capacity: 0,
            front_refused: 0,
            peers_overflow: 0,
            overflow_connections: 0,
            overflow_bytes_to_peer: 0,
            overflow_bytes_from_peer: 0,
            unreachable: 0,
            truncated: 0,
        }
    }

    /// No list is longer than it may be, and nothing is counted past a list
    /// before it is full. The moments are moments.
    pub open spec fn wf(self) -> bool {
        &&& forall|i: int| 0 <= i < self.peers.len() ==> (#[trigger] self.peers[i]).readable()
        &&& self.peers.len() <= MAX_PEER_RECORDS
        &&& self.denied.len() <= MAX_KNOCKS
        &&& self.turned_away.len() <= MAX_KNOCKS
        &&& (self.peers_overflow > 0 ==> self.peers.len() == MAX_PEER_RECORDS)
        &&& (self.denied_overflow > 0 ==> self.denied.len() == MAX_KNOCKS)
        &&& (self.turned_away_overflow > 0 ==> self.turned_away.len() == MAX_KNOCKS)
    }

    /// One more refusal: on the list while the list has room, counted then.
    pub open spec fn refusing(self, attempt: DeniedAttempt) -> TallyView {
        if self.denied.len() < MAX_KNOCKS {
            TallyView { denied: self.denied.push(attempt), ..self }
        } else {
            TallyView { denied_overflow: (self.denied_overflow + 1) as u64, ..self }
        }
    }

    /// One more turned away: on the list while the list has room, counted
    /// then.
    pub open spec fn turning_away(self, one: TurnedAway) -> TallyView {
        if self.turned_away.len() < MAX_KNOCKS {
            TallyView { turned_away: self.turned_away.push(one), ..self }
        } else {
            TallyView { turned_away_overflow: (self.turned_away_overflow + 1) as u64, ..self }
        }
    }

    /// One more peer: with a record while the list has room, counted then.
    pub open spec fn joined(self, peer: PeerView) -> TallyView {
        if self.peers.len() < MAX_PEER_RECORDS {
            TallyView { peers: self.peers.push(peer), ..self }
        } else {
            TallyView { peers_overflow: (self.peers_overflow + 1) as u64, ..self }
        }
    }

    /// A change to the record at this place; past the list it is nobody's.
    pub open spec fn changing(self, i: nat, to: spec_fn(PeerView) -> PeerView) -> TallyView {
        if i < self.peers.len() {
            TallyView { peers: self.peers.update(i as int, to(self.peers[i as int])), ..self }
        } else {
            self
        }
    }

    /// The path of a peer was seen: the first sighting stands, and only a
    /// relay is held against a direct one.
    pub open spec fn travelling(self, i: nat, path: Path) -> TallyView {
        self.changing(
            i,
            |p: PeerView|
                match p.path {
                    None => PeerView { path: Some(path), ..p },
                    Some(Path::Direct) => if path == Path::Relayed {
                        PeerView { path: Some(Path::Relayed), ..p }
                    } else {
                        p
                    },
                    Some(_) => p,
                },
        )
    }

    /// Another connection can still be counted.
    pub open spec fn can_connect(self, i: nat) -> bool {
        if i < self.peers.len() {
            self.peers[i as int].connections < u64::MAX
        } else {
            self.overflow_connections < u64::MAX
        }
    }

    /// One more connection, of the peer at this place or of nobody listed.
    pub open spec fn connecting(self, i: nat) -> TallyView {
        if i < self.peers.len() {
            self.changing(
                i,
                |p: PeerView| PeerView { connections: (p.connections + 1) as u64, ..p },
            )
        } else {
            TallyView { overflow_connections: (self.overflow_connections + 1) as u64, ..self }
        }
    }

    /// That many bytes can still be counted.
    pub open spec fn can_move(self, i: nat, to_peer: u64, from_peer: u64) -> bool {
        if i < self.peers.len() {
            &&& self.peers[i as int].bytes_to_peer + to_peer <= u64::MAX
            &&& self.peers[i as int].bytes_from_peer + from_peer <= u64::MAX
        } else {
            &&& self.overflow_bytes_to_peer + to_peer <= u64::MAX
            &&& self.overflow_bytes_from_peer + from_peer <= u64::MAX
        }
    }

    /// Bytes moved, of the peer at this place or of nobody listed.
    pub open spec fn moving(self, i: nat, to_peer: u64, from_peer: u64) -> TallyView {
        if i < self.peers.len() {
            self.changing(
                i,
                |p: PeerView|
                    PeerView {
                        bytes_to_peer: (p.bytes_to_peer + to_peer) as u64,
                        bytes_from_peer: (p.bytes_from_peer + from_peer) as u64,
                        ..p
                    },
            )
        } else {
            TallyView {
                overflow_bytes_to_peer: (self.overflow_bytes_to_peer + to_peer) as u64,
                overflow_bytes_from_peer: (self.overflow_bytes_from_peer + from_peer) as u64,
                ..self
            }
        }
    }

    /// Every connection into the box, whoever's it was.
    pub open spec fn total_connections(self) -> nat {
        connections_of(self.peers) + self.overflow_connections as nat
    }

    /// Every byte to a peer, whoever's it was.
    pub open spec fn total_to_peers(self) -> nat {
        sent_to(self.peers) + self.overflow_bytes_to_peer as nat
    }

    /// Every byte from a peer, whoever's it was.
    pub open spec fn total_from_peers(self) -> nat {
        received_from(self.peers) + self.overflow_bytes_from_peer as nat
    }

    /// Everybody who joined.
    pub open spec fn total_peers(self) -> nat {
        self.peers.len() + self.peers_overflow as nat
    }

    /// Everybody who was refused.
    pub open spec fn total_denied(self) -> nat {
        self.denied.len() + self.denied_overflow as nat
    }

    /// Everybody who was turned away.
    pub open spec fn total_turned_away(self) -> nat {
        self.turned_away.len() + self.turned_away_overflow as nat
    }
}

/// The bytes that the first of these peers were sent are no more than all were.
proof fn lemma_sent_to_take(peers: Seq<PeerView>, n: int)
    requires
        0 <= n <= peers.len(),
    ensures
        sent_to(peers.take(n)) <= sent_to(peers),
    decreases peers.len(),
{
    if n < peers.len() {
        lemma_sent_to_take(peers.drop_last(), n);
        assert(peers.drop_last().take(n) == peers.take(n));
    } else {
        assert(peers.take(n) == peers);
    }
}

/// The bytes that all these peers were sent.
pub fn total_sent(peers: &Vec<PeerRecord>) -> (r: u64)
    requires
        sent_to(peer_views(peers@)) <= u64::MAX,
    ensures
        r == sent_to(peer_views(peers@)),
{
    let ghost all = peer_views(peers@);
    let mut n: u64 = 0;
    let mut i: usize = 0;
    while i < peers.len()
        invariant
            0 <= i <= peers@.len(),
            all == peer_views(peers@),
            sent_to(all) <= u64::MAX,
            n == sent_to(all.take(i as int)),
        decreases peers@.len() - i,
    {
        assert(all.take(i + 1).drop_last() == all.take(i as int));
        assert(all.take(i + 1).last() == peers@[i as int]@);
        proof {
            lemma_sent_to_take(all, i + 1);
        }
        n = n + peers[i].bytes_to_peer;
        i = i + 1;
    }
    assert(all.take(all.len() as int) == all);
    n
}

/// One record's change is the change of the sum.
proof fn lemma_sums_update(peers: Seq<PeerView>, i: int, p: PeerView)
    requires
        0 <= i < peers.len(),
    ensures
        connections_of(peers.update(i, p)) == connections_of(peers) + p.connections
            - peers[i].connections,
        sent_to(peers.update(i, p)) == sent_to(peers) + p.bytes_to_peer - peers[i].bytes_to_peer,
        received_from(peers.update(i, p)) == received_from(peers) + p.bytes_from_peer
            - peers[i].bytes_from_peer,
    decreases peers.len(),
{
    let after = peers.update(i, p);
    if i == peers.len() - 1 {
        assert(after.drop_last() == peers.drop_last());
    } else {
        assert(after.drop_last() == peers.drop_last().update(i, p));
        lemma_sums_update(peers.drop_last(), i, p);
    }
}

/// Every connection into the box lands in the totals, whether or not its peer
/// has a record.
pub proof fn law_every_connection_is_counted(t: TallyView, i: nat)
    requires
        t.can_connect(i),
    ensures
        t.connecting(i).total_connections() == t.total_connections() + 1,
        t.connecting(i).total_to_peers() == t.total_to_peers(),
        t.connecting(i).total_from_peers() == t.total_from_peers(),
{
    if i < t.peers.len() {
        lemma_sums_update(t.peers, i as int, t.connecting(i).peers[i as int]);
    }
}

/// Every byte moved lands in the totals, whether or not its peer has a record.
pub proof fn law_every_byte_is_counted(t: TallyView, i: nat, to_peer: u64, from_peer: u64)
    requires
        t.can_move(i, to_peer, from_peer),
    ensures
        t.moving(i, to_peer, from_peer).total_to_peers() == t.total_to_peers() + to_peer,
        t.moving(i, to_peer, from_peer).total_from_peers() == t.total_from_peers() + from_peer,
        t.moving(i, to_peer, from_peer).total_connections() == t.total_connections(),
{
    if i < t.peers.len() {
        lemma_sums_update(t.peers, i as int, t.moving(i, to_peer, from_peer).peers[i as int]);
    }
}

/// Everybody who joins is counted, and joining moves nothing.
pub proof fn law_every_peer_is_counted(t: TallyView, peer: PeerView)
    requires
        t.peers_overflow < u64::MAX,
        peer.connections == 0,
        peer.bytes_to_peer == 0,
        peer.bytes_from_peer == 0,
    ensures
        t.joined(peer).total_peers() == t.total_peers() + 1,
        t.joined(peer).total_connections() == t.total_connections(),
        t.joined(peer).total_to_peers() == t.total_to_peers(),
        t.joined(peer).total_from_peers() == t.total_from_peers(),
{
    assert(t.peers.push(peer).drop_last() == t.peers);
}

/// Every refusal is counted, however many there are.
pub proof fn law_every_refusal_is_counted(t: TallyView, attempt: DeniedAttempt)
    requires
        t.denied_overflow < u64::MAX,
    ensures
        t.refusing(attempt).total_denied() == t.total_denied() + 1,
{
}

/// Everybody turned away is counted, however many there are.
pub proof fn law_everybody_turned_away_is_counted(t: TallyView, one: TurnedAway)
    requires
        t.turned_away_overflow < u64::MAX,
    ensures
        t.turning_away(one).total_turned_away() == t.total_turned_away() + 1,
{
}

/// A peer past the record cap changes no record, in particular not the last.
pub proof fn law_a_peer_past_the_cap_changes_no_record(
    t: TallyView,
    i: nat,
    path: Path,
    to: spec_fn(PeerView) -> PeerView,
    to_peer: u64,
    from_peer: u64,
)
    requires
        i >= t.peers.len(),
    ensures
        t.changing(i, to) == t,
        t.travelling(i, path) == t,
        t.connecting(i).peers == t.peers,
        t.moving(i, to_peer, from_peer).peers == t.peers,
{
}

/// What is noted of one peer is noted of no other.
pub proof fn law_a_note_reaches_only_its_own_record(
    t: TallyView,
    i: nat,
    j: nat,
    to: spec_fn(PeerView) -> PeerView,
)
    requires
        i != j,
        j < t.peers.len(),
    ensures
        t.changing(i, to).peers.len() == t.peers.len(),
        t.changing(i, to).peers[j as int] == t.peers[j as int],
{
}

/// A connection that spent any time on a relay is one that used a relay: once
/// noted, no later sighting takes it back, and it is noted over a direct path.
pub proof fn law_a_relay_is_never_rounded_up(t: TallyView, i: nat, path: Path)
    requires
        i < t.peers.len(),
    ensures
        t.peers[i as int].path == Some(Path::Relayed) ==> t.travelling(i, path).peers[i as int].path
            == Some(Path::Relayed),
        t.peers[i as int].path == Some(Path::Direct) || t.peers[i as int].path is None
            ==> t.travelling(i, Path::Relayed).peers[i as int].path == Some(Path::Relayed),
{
}

/// The first sighting of a path stands as it was made.
pub proof fn law_the_first_sighting_stands(t: TallyView, i: nat, path: Path)
    requires
        i < t.peers.len(),
        t.peers[i as int].path is None,
    ensures
        t.travelling(i, path).peers[i as int].path == Some(path),
{
}

} // verus!
