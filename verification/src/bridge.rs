//! The bridge: everything a share does that is not about how the bytes travel.
//!
//! Both transports sit on this. It holds the capability, by resolving a
//! presented secret against the grant table on *every* connection, so a revoke
//! takes effect on the next one, and it keeps the account that the ingress
//! receipt is written from: who connected, when, over what path, how much, and
//! who was turned away.
//!
//! Nothing here reads a clock or a disk: what was read is handed in.
use vstd::prelude::*;
use vstd::string::*;

use crate::clock::{Moment, SeenClock};
use crate::dialer::{DialError, DialKind};
use crate::receipt::{render_receipt, Summary, SummaryView};
use crate::session::{Denied, ReadState, ShareSession, Transport};
use crate::tally::{
    DeniedAttempt, Path, PeerId, PeerRecord, PeerView, Tally, TallyView, TurnedAway,
    TurnedAwayReason, MAX_CONNECTIONS, MAX_FRONT, MAX_KNOCKS, MAX_PEER_RECORDS,
};
use crate::{clock, figures, receipt, tally, text};

verus! {

/// Which record a serving process is the server of.
///
/// Identity is the pid plus the recorded start: a pid alone is reusable, and
/// two shares of one box a second apart are exactly the case that has to be
/// told apart.
#[derive(Debug, Clone, PartialEq, Eq)]
pub struct ClaimedRecord {
    pub pid: u32,
    /// `None` where nothing was claimed: no record is that one.
    pub started_at: Option<String>,
}

impl ClaimedRecord {
    /// This is the record that was claimed.
    pub open spec fn is_of(self, s: ShareSession) -> bool {
        s.pid == self.pid && text::maybe(self.started_at) == Some(s.started_at@)
    }

    /// Is this the record we claimed?
    pub fn matches(&self, s: &ShareSession) -> (r: bool)
        ensures
            r == self.is_of(*s),
    {
        match &self.started_at {
            Some(started_at) => s.pid == self.pid && s.started_at == *started_at,
            None => false,
        }
    }

    /// The identity of a record this process is about to serve.
    pub fn of(s: &ShareSession) -> (r: ClaimedRecord)
        ensures
            r.is_of(*s),
            r.pid == s.pid,
            text::maybe(r.started_at) == Some(s.started_at@),
    {
        ClaimedRecord { pid: s.pid, started_at: Some(s.started_at.clone()) }
    }

    /// The identity of whatever record was found on disk.
    ///
    /// No record, or one that could not be read, yields an identity that
    /// matches nothing, which is the correct answer for a bridge with no share
    /// behind it.
    pub fn on_disk(found: &ReadState) -> (r: ClaimedRecord)
        ensures
            match *found {
                ReadState::Present(s) => r.pid == s.pid && text::maybe(r.started_at) == Some(
                    s.started_at@,
                ),
                _ => r.pid == 0 && r.started_at is None,
            },
            *found matches ReadState::Present(s) ==> r.is_of(s),
            !(*found is Present) ==> forall|s: ShareSession| !r.is_of(s),
    {
        match found {
            ReadState::Present(s) => ClaimedRecord::of(s),
            _ => ClaimedRecord { pid: 0, started_at: None },
        }
    }
}

/// The grant a peer presented, resolved.
#[derive(Debug, Clone)]
pub struct AuthorizedGrant {
    pub id: String,
    pub label: Option<String>,
    /// Seconds since the Unix epoch.
    pub expires_at: i64,
}

/// The share that a bridge serves, which nothing about it changes.
pub struct ShareView {
    pub env_id: Seq<char>,
    pub policy_digest: Seq<char>,
    pub box_name: Seq<char>,
    pub transport: Transport,
    pub endpoint: Seq<char>,
    pub port: u16,
    pub pid: u32,
    pub started_at: Option<Seq<char>>,
    pub started: Moment,
}

/// A bridge, as its methods speak of it.
pub struct BridgeView {
    pub share: ShareView,
    pub clock: SeenClock,
    pub tally: TallyView,
    pub slots: usize,
    pub front: usize,
    pub winding_up: bool,
}

/// A place among the connections that reach the box, to be given back.
#[derive(Debug)]
pub struct Permit(());

/// A place among the connections that are being handled, to be given back.
#[derive(Debug)]
pub struct FrontPermit(());

/// One share, as long as it is served.
#[derive(Debug)]
pub struct Bridge {
    pub env_id: String,
    pub policy_digest: String,
    pub box_name: String,
    pub transport: Transport,
    pub endpoint: String,
    /// The port inside the box.
    pub port: u16,
    pub claimed: ClaimedRecord,
    pub started: Moment,
    pub clock: SeenClock,
    pub tally: Tally,
    /// How many more connections may reach into the box.
    pub slots: usize,
    /// How many more connections may be handled at all.
    pub front: usize,
    /// The share is winding up.
    pub winding_up: bool,
}

impl View for Bridge {
    type V = BridgeView;

    open spec fn view(&self) -> BridgeView {
        BridgeView {
            share: ShareView {
                env_id: self.env_id@,
                policy_digest: self.policy_digest@,
                box_name: self.box_name@,
                transport: self.transport,
                endpoint: self.endpoint@,
                port: self.port,
                pid: self.claimed.pid,
                started_at: text::maybe(self.claimed.started_at),
                started: self.started,
            },
            clock: self.clock,
            tally: self.tally@,
            slots: self.slots,
            front: self.front,
            winding_up: self.winding_up,
        }
    }
}

impl BridgeView {
    pub open spec fn wf(self) -> bool {
        &&& self.share.started.wf()
        &&& self.clock.wf()
        &&& self.tally.wf()
        &&& self.slots <= MAX_CONNECTIONS
        &&& self.front <= MAX_FRONT
    }

    /// This bridge with that tally.
    pub open spec fn counting(self, tally: TallyView) -> BridgeView {
        BridgeView { tally, ..self }
    }

    /// This bridge once it has seen the clock.
    pub open spec fn having_seen(self, wall: Moment, elapsed: i64) -> BridgeView {
        BridgeView { clock: self.clock.after(wall, elapsed), ..self }
    }

    /// The time by which this bridge judges expiry, in seconds.
    pub open spec fn now(self, wall: Moment, elapsed: i64) -> i64 {
        self.clock.reading(wall, elapsed).seconds
    }

    /// What the receipt of this share is rendered from.
    pub open spec fn summary(self, ended: Moment, seconds: i64) -> SummaryView {
        SummaryView {
            transport: self.share.transport,
            endpoint: self.share.endpoint,
            port: self.share.port,
            started: self.share.started,
            ended,
            seconds,
            clock_moved: self.clock.stepped,
            peers: self.tally.peers,
            peers_overflow: self.tally.peers_overflow,
            overflow_connections: self.tally.overflow_connections,
            overflow_bytes_to_peer: self.tally.overflow_bytes_to_peer,
            overflow_bytes_from_peer: self.tally.overflow_bytes_from_peer,
            denied: self.tally.denied,
            denied_overflow: self.tally.denied_overflow,
            over_capacity: self.tally.over_capacity,
            front_refused: self.tally.front_refused,
            unreachable: self.tally.unreachable,
            route_broken: self.tally.route_broken,
            settled: self.tally.settled,
            turned_away: self.tally.turned_away,
            turned_away_overflow: self.tally.turned_away_overflow,
            failed_because: self.tally.failed_because,
            truncated: self.tally.truncated,
        }
    }

    /// The figures of a receipt are within what is counted with.
    pub open spec fn can_write(self, ended: Moment, seconds: i64) -> bool {
        &&& self.summary(ended, seconds).renderable()
        &&& self.tally.total_peers() <= u64::MAX
        &&& i64::MIN <= seconds * 1000 <= i64::MAX
    }

    /// The command line that a receipt is listed under.
    pub open spec fn command(self, seconds: i64) -> Seq<char> {
        "h5i box share "@ + self.share.box_name + (match self.share.transport {
            Transport::P2p => ""@,
            Transport::Tunnel => " --tunnel"@,
        }) + " (port "@ + text::decimal(self.share.port as nat) + ", "@ + text::decimal(
            self.tally.total_peers(),
        ) + " peer(s), "@ + figures::signed(seconds as int) + "s)"@
    }

    /// Whether this is what a share that ended hands to the receipt log: its
    /// record while the box stands, and a line of explanation when it was
    /// removed.
    pub open spec fn recorded(
        self,
        ended: Moment,
        seconds: i64,
        exit_code: i32,
        box_stands: bool,
        r: Result<Record, String>,
    ) -> bool {
        match r {
            Ok(record) => box_stands && record@ == self.record(ended, seconds, exit_code),
            Err(said) => {
                &&& !box_stands
                &&& said@
                    == "share: the box was removed while this share was running, so there is nowhere to write the receipt"@
            },
        }
    }

    /// The record of this share.
    pub open spec fn record(self, ended: Moment, seconds: i64, exit_code: i32) -> RecordView {
        RecordView {
            env_id: self.share.env_id,
            policy_digest: self.share.policy_digest,
            source: "share"@,
            cmd: self.command(seconds),
            share: EvidenceView {
                transport: self.share.transport.spec_str(),
                port: self.share.port,
                peers: self.tally.total_peers() as u64,
                seconds,
                turned_away: self.tally.total_turned_away() as u64,
            },
            wall_ms: if seconds >= 0 {
                Some((seconds * 1000) as u64)
            } else {
                None
            },
            exit_code,
            body: receipt::receipt(
                self.summary(ended, seconds),
                clock::rfc3339_text(self.share.started.seconds, self.share.started.nanos),
                clock::rfc3339_text(ended.seconds, ended.nanos),
            ),
        }
    }

    /// The machine's clocks read something that can be reckoned with.
    pub open spec fn can_read(self, wall: Moment, elapsed: i64) -> bool {
        wall.wf() && self.clock.can_observe(wall.seconds as int, elapsed)
    }
}

/// The facts of a share's command line, as fields.
#[derive(Debug, Clone)]
pub struct ShareEvidence {
    pub transport: String,
    pub port: u16,
    /// The ones past the record cap as well.
    pub peers: u64,
    pub seconds: i64,
    pub turned_away: u64,
}

/// What is written into the box's receipt log.
#[derive(Debug, Clone)]
pub struct Record {
    pub env_id: String,
    pub policy_digest: String,
    /// Its own lane: something that was done to the box's front door.
    pub source: String,
    pub cmd: String,
    pub share: ShareEvidence,
    pub wall_ms: Option<u64>,
    pub exit_code: i32,
    pub body: String,
}

/// What the evidence says.
pub struct EvidenceView {
    pub transport: Seq<char>,
    pub port: u16,
    pub peers: u64,
    pub seconds: i64,
    pub turned_away: u64,
}

/// What a record says.
pub struct RecordView {
    pub env_id: Seq<char>,
    pub policy_digest: Seq<char>,
    pub source: Seq<char>,
    pub cmd: Seq<char>,
    pub share: EvidenceView,
    pub wall_ms: Option<u64>,
    pub exit_code: i32,
    pub body: Seq<char>,
}

impl View for Record {
    type V = RecordView;

    open spec fn view(&self) -> RecordView {
        RecordView {
            env_id: self.env_id@,
            policy_digest: self.policy_digest@,
            source: self.source@,
            cmd: self.cmd@,
            share: EvidenceView {
                transport: self.share.transport@,
                port: self.share.port,
                peers: self.share.peers,
                seconds: self.share.seconds,
                turned_away: self.share.turned_away,
            },
            wall_ms: self.wall_ms,
            exit_code: self.exit_code,
            body: self.body@,
        }
    }
}

/// What was found, as far as it is this share's own: a replacement is as good
/// as no record.
pub open spec fn ours(claimed: ClaimedRecord, found: ReadState) -> ReadState {
    match found {
        ReadState::Present(s) => if claimed.is_of(s) {
            found
        } else {
            ReadState::Gone
        },
        _ => found,
    }
}

/// A record that replaced the claimed one ends the share: no ticket of it is
/// weighed, none of its grants is alive here.
pub proof fn law_a_replaced_record_is_not_adopted(claimed: ClaimedRecord, s: ShareSession)
    requires
        !claimed.is_of(s),
    ensures
        ours(claimed, ReadState::Present(s)) == ReadState::Gone,
{
}

impl Bridge {
    /// A bridge of a share that nobody has used yet.
    pub fn new(
        env_id: String,
        policy_digest: String,
        box_name: String,
        transport: Transport,
        endpoint: String,
        port: u16,
        claimed: ClaimedRecord,
        started: Moment,
    ) -> (r: Bridge)
        ensures
            started.wf() ==> r@.wf(),
            r@ == (BridgeView {
                share: ShareView {
                    env_id: env_id@,
                    policy_digest: policy_digest@,
                    box_name: box_name@,
                    transport,
                    endpoint: endpoint@,
                    port,
                    pid: claimed.pid,
                    started_at: text::maybe(claimed.started_at),
                    started,
                },
                clock: SeenClock {
                    last_wall: 0,
                    last_mono: 0,
                    correction: 0,
                    stepped: 0,
                    seen_any: false,
                },
                tally: TallyView::nothing(),
                slots: MAX_CONNECTIONS,
                front: MAX_FRONT,
                winding_up: false,
            }),
    {
        Bridge {
            env_id,
            policy_digest,
            box_name,
            transport,
            endpoint,
            port,
            claimed,
            started,
            clock: SeenClock::default(),
            tally: Tally::default(),
            slots: MAX_CONNECTIONS,
            front: MAX_FRONT,
            winding_up: false,
        }
    }

    /// A connection turned away at the front door, before it was ever asked
    /// for a credential.
    pub fn record_front_refusal(&mut self)
        requires
            old(self)@.tally.front_refused < u64::MAX,
        ensures
            final(self)@ == old(self)@.counting(
                TallyView {
                    front_refused: (old(self)@.tally.front_refused + 1) as u64,
                    ..old(self)@.tally
                },
            ),
    {
        self.tally.front_refused = self.tally.front_refused + 1;
    }

    /// Now, but never earlier than an earlier reading plus the time that has
    /// actually passed.
    pub fn now(&mut self, wall: Moment, elapsed: i64) -> (r: i64)
        requires
            old(self)@.wf(),
            old(self)@.can_read(wall, elapsed),
        ensures
            r == old(self)@.now(wall, elapsed),
            final(self)@ == old(self)@.having_seen(wall, elapsed),
            final(self)@.wf(),
            final(self).claimed == old(self).claimed,
    {
        self.clock.observe(wall, elapsed).seconds
    }

    /// How many of the share's connection slots are free.
    pub fn free_slots(&self) -> (r: usize)
        ensures
            r == self@.slots,
    {
        self.slots
    }

    /// Take a slot for one connection into the box, or `None` if the share is
    /// already carrying its limit.
    ///
    /// Refuses rather than queues on purpose. A queue would turn a flood into
    /// latency for the person who is legitimately using the share, and hide
    /// the fact that anything unusual happened.
    pub fn admit_one(&mut self) -> (r: Option<Permit>)
        requires
            old(self)@.slots == 0 ==> old(self)@.tally.over_capacity < u64::MAX,
        ensures
            r is Some <==> old(self)@.slots > 0,
            final(self)@ == (if old(self)@.slots > 0 {
                BridgeView { slots: (old(self)@.slots - 1) as usize, ..old(self)@ }
            } else {
                old(self)@.counting(
                    TallyView {
                        over_capacity: (old(self)@.tally.over_capacity + 1) as u64,
                        ..old(self)@.tally
                    },
                )
            }),
            old(self)@.wf() ==> final(self)@.wf(),
    {
        if self.slots > 0 {
            self.slots = self.slots - 1;
            Some(Permit(()))
        } else {
            self.tally.over_capacity = self.tally.over_capacity + 1;
            None
        }
    }

    /// A connection into the box is done.
    pub fn release(&mut self, permit: Permit)
        requires
            old(self)@.slots < MAX_CONNECTIONS,
        ensures
            final(self)@ == (BridgeView { slots: (old(self)@.slots + 1) as usize, ..old(self)@ }),
            old(self)@.wf() ==> final(self)@.wf(),
    {
        self.slots = self.slots + 1;
    }

    /// The port inside the box.
    pub fn port(&self) -> (r: u16)
        ensures
            r == self@.share.port,
    {
        self.port
    }

    /// The name of the box.
    pub fn box_name(&self) -> (r: &str)
        ensures
            r@ == self@.share.box_name,
    {
        self.box_name.as_str()
    }

    /// The identity this bridge claimed, for the teardown to check before it
    /// mutates anything.
    pub fn claimed(&self) -> (r: &ClaimedRecord)
        ensures
            *r == self.claimed,
    {
        &self.claimed
    }

    /// The record that was found, if it is still the one this process claimed.
    ///
    /// A replacement reads as gone, which is the honest answer to every
    /// question a bridge asks: *this* share is over.
    pub fn our_record(&self, found: ReadState) -> (r: ReadState)
        ensures
            r == ours(self.claimed, found),
    {
        match found {
            ReadState::Present(s) => if self.claimed.matches(&s) {
                ReadState::Present(s)
            } else {
                ReadState::Gone
            },
            other => other,
        }
    }

    /// Resolve a presented secret against the grant table as it was found
    /// right now.
    ///
    /// The table is read anew for each connection, and that is the whole
    /// mechanism behind revocation. `weigh` resolves the secret in a table, at
    /// a time. Closed as soon as the share begins to wind up, whatever the
    /// record says.
    pub fn authorize<F: FnOnce(&ShareSession, &str, i64) -> Result<AuthorizedGrant, Denied>>(
        &mut self,
        secret: &str,
        found: ReadState,
        wall: Moment,
        elapsed: i64,
        weigh: F,
    ) -> (r: Result<AuthorizedGrant, Denied>)
        requires
            old(self)@.wf(),
            old(self)@.can_read(wall, elapsed),
            old(self)@.tally.denied_overflow < u64::MAX,
            ours(old(self).claimed, found) matches ReadState::Present(s) ==> call_requires(
                weigh,
                (&s, secret, old(self)@.now(wall, elapsed)),
            ),
        ensures
            final(self)@.wf(),
            old(self)@.winding_up ==> r == Err::<AuthorizedGrant, Denied>(Denied::ShareOver)
                && final(self)@ == old(self)@.counting(
                old(self)@.tally.refusing(DeniedAttempt { at: wall, reason: Denied::ShareOver }),
            ),
            !old(self)@.winding_up ==> {
                &&& match ours(old(self).claimed, found) {
                    ReadState::Present(s) => call_ensures(
                        weigh,
                        (&s, secret, old(self)@.now(wall, elapsed)),
                        r,
                    ),
                    ReadState::Gone => r == Err::<AuthorizedGrant, Denied>(Denied::ShareOver),
                    ReadState::Unreadable => r == Err::<AuthorizedGrant, Denied>(
                        Denied::TableUnreadable,
                    ),
                }
                &&& final(self)@ == match r {
                    Ok(_) => old(self)@.having_seen(wall, elapsed),
                    Err(reason) => old(self)@.having_seen(wall, elapsed).counting(
                        old(self)@.tally.refusing(DeniedAttempt { at: wall, reason }),
                    ),
                }
            },
    {
        if self.winding_up {
            self.record_denied(Denied::ShareOver, wall);
            return Err(Denied::ShareOver);
        }
        let now: i64 = self.now(wall, elapsed);
        let found = self.our_record(found);
        let answer = match found {
            ReadState::Present(s) => weigh(&s, secret, now),
            // Gone, not broken: stopping a share removes the record.
            ReadState::Gone => Err(Denied::ShareOver),
            // The sharer's problem, not the visitor's.
            ReadState::Unreadable => Err(Denied::TableUnreadable),
        };
        match answer {
            Ok(g) => Ok(g),
            Err(reason) => {
                self.record_denied(reason, wall);
                Err(reason)
            },
        }
    }

    /// Is this particular grant still able to admit anyone?
    ///
    /// Asked of the one grant rather than of the share, so that revoking one
    /// peer closes that peer's connections while another is still admitted.
    pub fn grant_is_live(
        &mut self,
        grant_id: &str,
        found: ReadState,
        wall: Moment,
        elapsed: i64,
    ) -> (r: bool)
        requires
            old(self)@.wf(),
            old(self)@.can_read(wall, elapsed),
        ensures
            final(self)@.wf(),
            final(self)@ == old(self)@.having_seen(wall, elapsed),
            r == match ours(old(self).claimed, found) {
                ReadState::Present(s) => s.has_live(grant_id@, old(self)@.now(wall, elapsed)),
                _ => false,
            },
    {
        let now: i64 = self.now(wall, elapsed);
        match self.our_record(found) {
            ReadState::Present(s) => s.has_live_grant(grant_id, now),
            _ => false,
        }
    }

    /// Has the share itself been told to stop?
    ///
    /// No record at all is the *most* ended a share gets. A table that cannot
    /// be read says nothing about it.
    pub fn share_is_ending(&self, found: ReadState) -> (r: bool)
        ensures
            r == match ours(self.claimed, found) {
                ReadState::Present(s) => s.winding_up,
                ReadState::Gone => true,
                ReadState::Unreadable => false,
            },
    {
        match self.our_record(found) {
            ReadState::Present(s) => s.winding_up,
            ReadState::Gone => true,
            ReadState::Unreadable => false,
        }
    }

    /// True once no grant can admit anyone: everything revoked, or everything
    /// expired, or nothing left to serve.
    pub fn is_spent(&mut self, found: ReadState, wall: Moment, elapsed: i64) -> (r: bool)
        requires
            old(self)@.wf(),
            old(self)@.can_read(wall, elapsed),
        ensures
            final(self)@.wf(),
            final(self)@ == old(self)@.having_seen(wall, elapsed),
            r == match ours(old(self).claimed, found) {
                ReadState::Present(s) => s.spent(old(self)@.now(wall, elapsed)),
                _ => true,
            },
    {
        let now: i64 = self.now(wall, elapsed);
        match self.our_record(found) {
            ReadState::Present(s) => s.is_spent(now),
            _ => true,
        }
    }

    /// A socket into the box, and the accounting that goes with failing to get
    /// one.
    ///
    /// The two failures are recorded apart because the receipt says different
    /// things about them: nothing listening is a sentence about the user's dev
    /// server, and a broken route is not.
    pub fn open_upstream<T>(&mut self, dialled: Result<T, DialError>) -> (r: Result<T, String>)
        requires
            dialled matches Err(e) ==> (if e@.0 == DialKind::NothingListening {
                old(self)@.tally.unreachable < u64::MAX
            } else {
                old(self)@.tally.route_broken < u64::MAX
            }),
        ensures
            match dialled {
                Ok(s) => r == Ok::<T, String>(s) && final(self)@ == old(self)@,
                Err(e) => {
                    &&& r is Err
                    &&& r->Err_0@ == e@.1
                    &&& final(self)@ == old(self)@.counting(
                        if e@.0 == DialKind::NothingListening {
                            TallyView {
                                unreachable: (old(self)@.tally.unreachable + 1) as u64,
                                ..old(self)@.tally
                            }
                        } else {
                            TallyView {
                                route_broken: (old(self)@.tally.route_broken + 1) as u64,
                                ..old(self)@.tally
                            }
                        },
                    )
                },
            },
    {
        match dialled {
            Ok(s) => Ok(s),
            Err(e) => {
                if e.nothing_listening() {
                    self.tally.unreachable = self.tally.unreachable + 1;
                } else {
                    self.tally.route_broken = self.tally.route_broken + 1;
                }
                Err(e.into_inner())
            },
        }
    }

    fn record_denied(&mut self, reason: Denied, at: Moment)
        requires
            old(self)@.tally.denied_overflow < u64::MAX,
        ensures
            final(self)@ == old(self)@.counting(
                old(self)@.tally.refusing(DeniedAttempt { at, reason }),
            ),
            old(self)@.wf() ==> final(self)@.wf(),
    {
        // Bounded: a share left open on the internet can be knocked on all day.
        if self.tally.denied.len() < MAX_KNOCKS {
            self.tally.denied.push(DeniedAttempt { at, reason });
        } else {
            self.tally.denied_overflow = self.tally.denied_overflow + 1;
        }
    }

    /// Note that a peer has arrived. Returns the handle its traffic is counted
    /// against.
    ///
    /// Bounded. Past the cap the connection is still served, and its handle
    /// names no record: its traffic is counted in the aggregate.
    pub fn peer_joined(
        &mut self,
        peer: String,
        grant: &AuthorizedGrant,
        path: Option<Path>,
        opened: Moment,
    ) -> (r: PeerId)
        requires
            old(self)@.tally.peers_overflow < u64::MAX,
        ensures
            old(self)@.wf() && opened.wf() ==> final(self)@.wf(),
            final(self)@ == old(self)@.counting(
                old(self)@.tally.joined(
                    PeerView {
                        peer: peer@,
                        grant: grant.id@,
                        label: text::maybe(grant.label),
                        path,
                        opened,
                        closed: None,
                        last_seen: None,
                        connections: 0,
                        bytes_to_peer: 0,
                        bytes_from_peer: 0,
                    },
                ),
            ),
            old(self)@.tally.peers.len() < MAX_PEER_RECORDS ==> r.index()
                == old(self)@.tally.peers.len(),
            old(self)@.tally.peers.len() >= MAX_PEER_RECORDS ==> r.index() == usize::MAX,
    {
        if self.tally.peers.len() >= MAX_PEER_RECORDS {
            self.tally.peers_overflow = self.tally.peers_overflow + 1;
            return PeerId(usize::MAX);
        }
        let ghost before = self.tally.peers@;
        let record = PeerRecord {
            peer,
            grant: grant.id.clone(),
            label: text::copy_maybe(&grant.label),
            path,
            opened,
            closed: None,
            last_seen: None,
            connections: 0,
            bytes_to_peer: 0,
            bytes_from_peer: 0,
        };
        let ghost what = record@;
        self.tally.peers.push(record);
        assert(tally::peer_views(self.tally.peers@) =~= tally::peer_views(before).push(what));
        PeerId(self.tally.peers.len() - 1)
    }

    /// Record an actual observation of how a peer's bytes are travelling.
    ///
    /// Only ever called with something a transport really saw. The first one
    /// wins outright; after that only the weaker claim sticks, because a
    /// connection that spent any time on a relay is a connection that used
    /// one.
    pub fn peer_path(&mut self, id: PeerId, path: Path)
        ensures
            final(self)@ == old(self)@.counting(old(self)@.tally.travelling(id.index(), path)),
            old(self)@.wf() ==> final(self)@.wf(),
    {
        if id.0 < self.tally.peers.len() {
            let ghost before = self.tally.peers@;
            let p = &mut self.tally.peers[id.0];
            match p.path {
                None => {
                    p.path = Some(path);
                },
                Some(Path::Direct) => {
                    if path == Path::Relayed {
                        p.path = Some(Path::Relayed);
                    }
                },
                Some(_) => {},
            }
            assert(tally::peer_views(self.tally.peers@) =~= tally::peer_views(before).update(
                id.0 as int,
                self.tally.peers@[id.0 as int]@,
            ));
        }
    }

    /// Somebody was turned away for a reason that has nothing to do with their
    /// ticket.
    pub fn record_turned_away(&mut self, why: TurnedAwayReason, at: Moment)
        requires
            old(self)@.tally.turned_away_overflow < u64::MAX,
        ensures
            final(self)@ == old(self)@.counting(
                old(self)@.tally.turning_away(TurnedAway { at, why }),
            ),
            old(self)@.wf() ==> final(self)@.wf(),
    {
        // Bounded like the denial list, and counting what it drops.
        if self.tally.turned_away.len() < MAX_KNOCKS {
            self.tally.turned_away.push(TurnedAway { at, why });
        } else {
            self.tally.turned_away_overflow = self.tally.turned_away_overflow + 1;
        }
    }

    /// The last moment this peer was seen doing anything, for a transport that
    /// has no connection lifecycle to tell.
    pub fn peer_seen(&mut self, id: PeerId, at: Moment)
        ensures
            final(self)@ == old(self)@.counting(
                old(self)@.tally.changing(
                    id.index(),
                    |p: PeerView| PeerView { last_seen: Some(at), ..p },
                ),
            ),
            old(self)@.wf() && at.wf() ==> final(self)@.wf(),
    {
        if id.0 < self.tally.peers.len() {
            let ghost before = self.tally.peers@;
            let p = &mut self.tally.peers[id.0];
            p.last_seen = Some(at);
            assert(tally::peer_views(self.tally.peers@) =~= tally::peer_views(before).update(
                id.0 as int,
                self.tally.peers@[id.0 as int]@,
            ));
        }
    }

    /// One more connection into the box, counted against a peer's record, or,
    /// for a peer past the record cap, against the aggregate.
    pub fn peer_connection(&mut self, id: PeerId)
        requires
            old(self)@.tally.can_connect(id.index()),
        ensures
            final(self)@ == old(self)@.counting(old(self)@.tally.connecting(id.index())),
            old(self)@.wf() ==> final(self)@.wf(),
    {
        if id.0 < self.tally.peers.len() {
            let ghost before = self.tally.peers@;
            assert(tally::peer_views(before)[id.0 as int] == before[id.0 as int]@);
            let p = &mut self.tally.peers[id.0];
            p.connections = p.connections + 1;
            assert(tally::peer_views(self.tally.peers@) =~= tally::peer_views(before).update(
                id.0 as int,
                self.tally.peers@[id.0 as int]@,
            ));
        } else {
            self.tally.overflow_connections = self.tally.overflow_connections + 1;
        }
    }

    /// Bytes moved, counted against a peer's record, or, for a peer past the
    /// record cap, against the aggregate.
    pub fn peer_bytes(&mut self, id: PeerId, to_peer: u64, from_peer: u64)
        requires
            old(self)@.tally.can_move(id.index(), to_peer, from_peer),
        ensures
            final(self)@ == old(self)@.counting(
                old(self)@.tally.moving(id.index(), to_peer, from_peer),
            ),
            old(self)@.wf() ==> final(self)@.wf(),
    {
        if id.0 < self.tally.peers.len() {
            let ghost before = self.tally.peers@;
            assert(tally::peer_views(before)[id.0 as int] == before[id.0 as int]@);
            let p = &mut self.tally.peers[id.0];
            p.bytes_to_peer = p.bytes_to_peer + to_peer;
            p.bytes_from_peer = p.bytes_from_peer + from_peer;
            assert(tally::peer_views(self.tally.peers@) =~= tally::peer_views(before).update(
                id.0 as int,
                self.tally.peers@[id.0 as int]@,
            ));
        } else {
            self.tally.overflow_bytes_to_peer = self.tally.overflow_bytes_to_peer + to_peer;
            self.tally.overflow_bytes_from_peer = self.tally.overflow_bytes_from_peer + from_peer;
        }
    }

    /// A peer's last connection closed.
    pub fn peer_left(&mut self, id: PeerId, at: Moment)
        ensures
            final(self)@ == old(self)@.counting(
                old(self)@.tally.changing(
                    id.index(),
                    |p: PeerView| PeerView { closed: Some(at), ..p },
                ),
            ),
            old(self)@.wf() && at.wf() ==> final(self)@.wf(),
    {
        if id.0 < self.tally.peers.len() {
            let ghost before = self.tally.peers@;
            let p = &mut self.tally.peers[id.0];
            p.closed = Some(at);
            assert(tally::peer_views(self.tally.peers@) =~= tally::peer_views(before).update(
                id.0 as int,
                self.tally.peers@[id.0 as int]@,
            ));
        }
    }

    /// Someone knocked with no credential at all.
    pub fn record_refused(&mut self, at: Moment)
        requires
            old(self)@.tally.denied_overflow < u64::MAX,
        ensures
            final(self)@ == old(self)@.counting(
                old(self)@.tally.refusing(DeniedAttempt { at, reason: Denied::NoCredential }),
            ),
            old(self)@.wf() ==> final(self)@.wf(),
    {
        self.record_denied(Denied::NoCredential, at);
    }

    /// A response the box left unfinished.
    pub fn record_truncated(&mut self)
        requires
            old(self)@.tally.truncated < u64::MAX,
        ensures
            final(self)@ == old(self)@.counting(
                TallyView {
                    truncated: (old(self)@.tally.truncated + 1) as u64,
                    ..old(self)@.tally
                },
            ),
    {
        self.tally.truncated = self.tally.truncated + 1;
    }

    /// Tell every connection the share is winding up.
    ///
    /// Separate from [`Self::quiesce`], because the order is the whole point:
    /// anything that wants to close a connection with an *explanation* has to
    /// have done it before the transport is torn down.
    pub fn begin_shutdown(&mut self)
        ensures
            final(self)@ == (BridgeView { winding_up: true, ..old(self)@ }),
    {
        self.winding_up = true;
    }

    /// Mark a connection as accepted and being handled, until the permit is
    /// given back.
    ///
    /// `None` once the share is winding up: a connection accepted after that
    /// point is not owed a handler, and refusing it here is what makes
    /// quiescence a barrier rather than a hope.
    pub fn enter_front(&mut self) -> (r: Option<FrontPermit>)
        ensures
            r is Some <==> !old(self)@.winding_up && old(self)@.front > 0,
            final(self)@ == (if r is Some {
                BridgeView { front: (old(self)@.front - 1) as usize, ..old(self)@ }
            } else {
                old(self)@
            }),
            old(self)@.wf() ==> final(self)@.wf(),
    {
        if self.winding_up || self.front == 0 {
            return None;
        }
        self.front = self.front - 1;
        Some(FrontPermit(()))
    }

    /// A connection has been handled.
    pub fn leave_front(&mut self, permit: FrontPermit)
        requires
            old(self)@.front < MAX_FRONT,
        ensures
            final(self)@ == (BridgeView { front: (old(self)@.front + 1) as usize, ..old(self)@ }),
            old(self)@.wf() ==> final(self)@.wf(),
    {
        self.front = self.front + 1;
    }

    /// Wait for every connection to finish, or give up: asked once to begin
    /// with, again whenever a permit is given back, and a last time when it
    /// has been long enough (`late`).
    ///
    /// Winds the share up first. `None` is to go on waiting. The answer is
    /// kept, because a receipt written with connections still mid-copy has to
    /// say so itself.
    pub fn quiesce(&mut self, late: bool) -> (r: Option<bool>)
        requires
            old(self)@.wf(),
        ensures
            final(self)@.wf(),
            r == (if old(self)@.front == MAX_FRONT && old(self)@.slots == MAX_CONNECTIONS {
                Some(true)
            } else if late {
                Some(false)
            } else {
                None
            }),
            final(self)@ == (BridgeView {
                winding_up: true,
                tally: match r {
                    Some(settled) => TallyView { settled, ..old(self)@.tally },
                    None => old(self)@.tally,
                },
                ..old(self)@
            }),
    {
        self.winding_up = true;
        if self.front == MAX_FRONT && self.slots == MAX_CONNECTIONS {
            self.tally.settled = true;
            Some(true)
        } else if late {
            self.tally.settled = false;
            Some(false)
        } else {
            None
        }
    }

    /// Is the share winding up?
    pub fn shutting_down(&self) -> (r: bool)
        ensures
            r == self@.winding_up,
    {
        self.winding_up
    }

    /// How many peers have a record.
    pub fn peer_count(&self) -> (r: usize)
        ensures
            r == self@.tally.peers.len(),
    {
        self.tally.peers.len()
    }

    /// One place the tally becomes a `Summary`, so a snapshot and a receipt
    /// cannot drift into describing the same share differently.
    pub fn summarise(&self, ended: Moment, seconds: i64) -> (r: Summary)
        ensures
            r@ == self@.summary(ended, seconds),
    {
        Summary {
            transport: self.transport,
            endpoint: self.endpoint.clone(),
            port: self.port,
            started: self.started,
            ended,
            seconds,
            clock_moved: self.clock.stepped,
            peers: tally::copy_peers(&self.tally.peers),
            peers_overflow: self.tally.peers_overflow,
            overflow_connections: self.tally.overflow_connections,
            overflow_bytes_to_peer: self.tally.overflow_bytes_to_peer,
            overflow_bytes_from_peer: self.tally.overflow_bytes_from_peer,
            denied: tally::copy_list(&self.tally.denied),
            denied_overflow: self.tally.denied_overflow,
            over_capacity: self.tally.over_capacity,
            front_refused: self.tally.front_refused,
            unreachable: self.tally.unreachable,
            route_broken: self.tally.route_broken,
            settled: self.tally.settled,
            turned_away: tally::copy_list(&self.tally.turned_away),
            turned_away_overflow: self.tally.turned_away_overflow,
            failed_because: text::copy_maybe(&self.tally.failed_because),
            truncated: self.tally.truncated,
        }
    }

    /// The tally as it stands at this moment.
    pub fn snapshot(&self, at: Moment, seconds: i64) -> (r: Summary)
        ensures
            r@ == self@.summary(at, seconds),
    {
        self.summarise(at, seconds)
    }

    /// Are the figures of a receipt within what is counted with?
    pub fn is_writable(&self, ended: Moment, seconds: i64) -> (r: bool)
        requires
            self@.wf(),
        ensures
            r == self@.can_write(ended, seconds),
    {
        if !ended.is_valid() || self.clock.stepped == i64::MIN || seconds > i64::MAX / 1000
            || seconds < i64::MIN / 1000 {
            return false;
        }
        if self.tally.peers_overflow > u64::MAX - self.tally.peers.len() as u64
            || self.tally.denied_overflow > u64::MAX - self.tally.denied.len() as u64
            || self.tally.turned_away_overflow > u64::MAX - self.tally.turned_away.len() as u64 {
            return false;
        }
        if self.clock.stepped != 0 {
            return true;
        }
        let length: i64 = if seconds > 0 {
            seconds
        } else {
            0
        };
        let span: i64 = clock::seconds_between(ended, self.started);
        let off: i64 = if span >= length {
            span - length
        } else {
            length - span
        };
        off <= i64::MAX / 50
    }

    /// The record of this session for the box's receipt log, once the share
    /// has ended after so many seconds, or what is said instead when the box was
    /// removed meanwhile: appending a record would bring its directory back.
    pub fn write_receipt(&self, ended: Moment, seconds: i64, box_stands: bool) -> (r: Result<
        Record,
        String,
    >)
        requires
            self@.can_write(ended, seconds),
        ensures
            self@.recorded(ended, seconds, 0, box_stands, r),
            r is Ok ==> self@.share.started.is_written() && ended.is_written(),
    {
        self.write_receipt_with(ended, seconds, 0, box_stands)
    }

    /// The same, for a share that ended badly.
    pub fn write_receipt_failed(
        &mut self,
        why: &str,
        ended: Moment,
        seconds: i64,
        box_stands: bool,
    ) -> (r: Result<Record, String>)
        requires
            old(self)@.can_write(ended, seconds),
        ensures
            final(self)@ == old(self)@.counting(
                TallyView { failed_because: Some(why@), ..old(self)@.tally },
            ),
            final(self)@.recorded(ended, seconds, 1, box_stands, r),
            r is Ok ==> final(self)@.share.started.is_written() && ended.is_written(),
    {
        self.tally.failed_because = Some(why.to_owned());
        proof {
            let before = old(self)@.summary(ended, seconds);
            let after = self@.summary(ended, seconds);
            assert(after.peers == before.peers && after.span() == before.span() && after.length()
                == before.length());
        }
        self.write_receipt_with(ended, seconds, 1, box_stands)
    }

    fn command_of(&self, seconds: i64, peers_seen: u64) -> (r: String)
        requires
            peers_seen == self@.tally.total_peers(),
        ensures
            r@ == self@.command(seconds),
    {
        let mut out: String = "h5i box share ".to_owned();
        out.append(self.box_name.as_str());
        out.append(
            match self.transport {
                Transport::P2p => "",
                Transport::Tunnel => " --tunnel",
            },
        );
        out.append(" (port ");
        text::push_decimal(&mut out, self.port as u64);
        out.append(", ");
        text::push_decimal(&mut out, peers_seen);
        out.append(" peer(s), ");
        out.append(figures::signed_text(seconds).as_str());
        out.append("s)");
        out
    }

    fn write_receipt_with(
        &self,
        ended: Moment,
        seconds: i64,
        exit_code: i32,
        box_stands: bool,
    ) -> (r: Result<Record, String>)
        requires
            self@.can_write(ended, seconds),
        ensures
            self@.recorded(ended, seconds, exit_code, box_stands, r),
            r is Ok ==> self@.share.started.is_written() && ended.is_written(),
    {
        if !box_stands {
            return Err(
                "share: the box was removed while this share was running, so there is nowhere to write the receipt".to_owned(),
            );
        }
        let summary = self.summarise(ended, seconds);
        let peers_seen: u64 = self.tally.peers.len() as u64 + self.tally.peers_overflow;
        let turned_away: u64 = self.tally.turned_away.len() as u64
            + self.tally.turned_away_overflow;
        let body = render_receipt(&summary);
        let record = Record {
            env_id: self.env_id.clone(),
            policy_digest: self.policy_digest.clone(),
            source: "share".to_owned(),
            cmd: self.command_of(seconds, peers_seen),
            share: ShareEvidence {
                transport: self.transport.as_str().to_owned(),
                port: self.port,
                peers: peers_seen,
                seconds,
                turned_away,
            },
            wall_ms: if seconds >= 0 {
                Some((seconds * 1000) as u64)
            } else {
                None
            },
            exit_code,
            body,
        };
        Ok(record)
    }

    /// The line that names the receipt on the way out.
    pub fn recorded_line(&self, id: &str, seconds: i64) -> (r: String)
        requires
            self@.tally.total_peers() <= u64::MAX,
            tally::sent_to(self@.tally.peers) <= u64::MAX,
        ensures
            r@ == "◈  receipt "@ + id@ + " · "@ + text::decimal(self@.tally.total_peers())
                + " peer(s), "@ + figures::signed(seconds as int) + "s, "@ + figures::size(
                tally::sent_to(self@.tally.peers),
            ) + " to visitors · h5i box inspect "@ + self@.share.box_name + " --capture "@ + id@,
    {
        let peers_seen: u64 = self.tally.peers.len() as u64 + self.tally.peers_overflow;
        let moved: u64 = tally::total_sent(&self.tally.peers);
        let mut out: String = "◈  receipt ".to_owned();
        out.append(id);
        out.append(" · ");
        text::push_decimal(&mut out, peers_seen);
        out.append(" peer(s), ");
        out.append(figures::signed_text(seconds).as_str());
        out.append("s, ");
        out.append(figures::bytes(moved).as_str());
        out.append(" to visitors · h5i box inspect ");
        out.append(self.box_name.as_str());
        out.append(" --capture ");
        out.append(id);
        out
    }

    /// The line that says that the session could not be recorded.
    pub fn unrecorded_line(why: &str) -> (r: String)
        ensures
            r@ == "share: could not record the session: "@ + why@,
    {
        let mut out: String = "share: could not record the session: ".to_owned();
        out.append(why);
        out
    }
}

} // verus!
