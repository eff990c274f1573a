//! What a share counts, from each thing that happens to the receipt that is read.
use vstd::prelude::*;
use vstd::string::*;

use crate::account_laws;
use crate::bridge::{AuthorizedGrant, Bridge, BridgeView, ClaimedRecord, FrontPermit, Permit, Record};
use crate::clock::{self, Moment};
use crate::dialer::DialError;
use crate::lines;
use crate::receipt::{self, Summary};
use crate::seqs;
use crate::session::{Denied, ReadState, ShareSession, Transport};
use crate::tally::{
    self, DeniedAttempt, Path, PeerId, PeerView, TallyView, TurnedAway, TurnedAwayReason,
};
use crate::text;

verus! {

/// Nothing was counted.
pub open spec fn nothing_counted(t: TallyView) -> bool {
    &&& !t.settled
    &&& t.failed_because is None
    &&& t.peers.len() == 0
    &&& t.denied.len() == 0
    &&& t.turned_away.len() == 0
    &&& t.peers_overflow == 0
    &&& t.denied_overflow == 0
    &&& t.turned_away_overflow == 0
    &&& t.over_capacity == 0
    &&& t.front_refused == 0
    &&& t.overflow_connections == 0
    &&& t.overflow_bytes_to_peer == 0
    &&& t.overflow_bytes_from_peer == 0
    &&& t.unreachable == 0
    &&& t.route_broken == 0
    &&& t.truncated == 0
}

/// A new share has counted nothing, carries nothing and is not ending, and is the
/// share that it was opened as.
pub proof fn law_a_new_share_has_counted_nothing(
    env_id: String,
    policy_digest: String,
    box_name: String,
    transport: Transport,
    endpoint: String,
    port: u16,
    claimed: ClaimedRecord,
    started: Moment,
    b: Bridge,
)
    requires
        call_ensures(
            Bridge::new,
            (env_id, policy_digest, box_name, transport, endpoint, port, claimed, started),
            b,
        ),
    ensures
        nothing_counted(b@.tally),
        b.slots == 64,
        b.front == 4096,
        !b.winding_up,
        b.clock.stepped == 0,
        b.env_id@ == env_id@,
        b.policy_digest@ == policy_digest@,
        b.box_name@ == box_name@,
        b.transport == transport,
        b.endpoint@ == endpoint@,
        b.port == port,
        b.claimed.pid == claimed.pid,
        text::maybe(b.claimed.started_at) == text::maybe(claimed.started_at),
        b.started == started,
{
    assert(b@.share.env_id == env_id@);
}

/// Only what was counted may have changed.
pub open spec fn same_share(a: BridgeView, b: BridgeView) -> bool {
    &&& a.share == b.share
    &&& a.clock == b.clock
    &&& a.slots == b.slots
    &&& a.front == b.front
    &&& a.winding_up == b.winding_up
}

/// The lists and what is past them are the same.
pub open spec fn same_lists(a: TallyView, b: TallyView) -> bool {
    &&& a.settled == b.settled
    &&& a.failed_because == b.failed_because
    &&& a.peers == b.peers
    &&& a.denied == b.denied
    &&& a.turned_away == b.turned_away
    &&& a.peers_overflow == b.peers_overflow
    &&& a.denied_overflow == b.denied_overflow
    &&& a.turned_away_overflow == b.turned_away_overflow
    &&& a.overflow_connections == b.overflow_connections
    &&& a.overflow_bytes_to_peer == b.overflow_bytes_to_peer
    &&& a.overflow_bytes_from_peer == b.overflow_bytes_from_peer
}

/// So many more of each of the things that are only counted.
pub open spec fn counted_on(
    a: TallyView,
    b: TallyView,
    unreachable: nat,
    route_broken: nat,
    truncated: nat,
    front_refused: nat,
    over_capacity: nat,
) -> bool {
    &&& b.unreachable == a.unreachable + unreachable
    &&& b.route_broken == a.route_broken + route_broken
    &&& b.truncated == a.truncated + truncated
    &&& b.front_refused == a.front_refused + front_refused
    &&& b.over_capacity == a.over_capacity + over_capacity
}

/// How a dial into the box came out.
pub enum Dial {
    /// There is a socket.
    Open,
    /// The box was reached, and nothing listens on the port.
    NobodyThere,
    /// The box was not reached.
    NoWay,
}

/// How this dial came out.
pub open spec fn dial_of<T>(dialled: Result<T, DialError>) -> Dial {
    match dialled {
        Ok(_) => Dial::Open,
        Err(DialError::NothingListening(_)) => Dial::NobodyThere,
        Err(_) => Dial::NoWay,
    }
}

/// One dial, and what was counted for it: a dial that found nothing listening is
/// one more unreachable, any other that failed is one more broken route, and
/// nothing else changes.
pub open spec fn dial_counted(a: BridgeView, dial: Dial, b: BridgeView) -> bool {
    &&& same_share(a, b)
    &&& same_lists(a.tally, b.tally)
    &&& match dial {
        Dial::Open => counted_on(a.tally, b.tally, 0, 0, 0, 0, 0),
        Dial::NobodyThere => counted_on(a.tally, b.tally, 1, 0, 0, 0, 0),
        Dial::NoWay => counted_on(a.tally, b.tally, 0, 1, 0, 0, 0),
    }
}

/// A dial is counted as what it was, and what it gave is handed on.
pub proof fn law_a_dial_is_counted_as_what_it_was<T>(
    b: &mut Bridge,
    dialled: Result<T, DialError>,
    r: Result<T, String>,
)
    requires
        old(b).tally.unreachable < u64::MAX,
        old(b).tally.route_broken < u64::MAX,
        call_ensures(Bridge::open_upstream::<T>, (b, dialled), r),
    ensures
        dial_counted(old(b)@, dial_of(dialled), final(b)@),
        final(b).tally.unreachable == old(b).tally.unreachable + (if dial_of(
            dialled,
        ) is NobodyThere {
            1int
        } else {
            0
        }),
        final(b).tally.route_broken == old(b).tally.route_broken + (if dial_of(dialled) is NoWay {
            1int
        } else {
            0
        }),
        r is Ok <==> dialled is Ok,
        dialled matches Ok(s) ==> r == Ok::<T, String>(s),
{
    assert(final(b)@.tally.unreachable == final(b).tally.unreachable);
    assert(final(b)@.tally.route_broken == final(b).tally.route_broken);
}

/// A course of dials: the share as it stood before each of them and after the
/// last.
pub open spec fn is_course(states: Seq<BridgeView>, dials: Seq<Dial>) -> bool {
    &&& states.len() == dials.len() + 1
    &&& forall|i: int|
        0 <= i < dials.len() ==> dial_counted(
            #[trigger] states[i],
            dials[i],
            states[i + 1],
        )
}

/// How many of these dials found nothing listening.
pub open spec fn nobody_there(dials: Seq<Dial>) -> nat {
    dials.filter(|d: Dial| d is NobodyThere).len()
}

/// How many of these dials did not reach the box.
pub open spec fn no_way(dials: Seq<Dial>) -> nat {
    dials.filter(|d: Dial| d is NoWay).len()
}

/// After any course of dials the share has counted as many of each kind as there
/// were, and is the share that it was.
pub proof fn law_a_course_of_dials_is_counted(states: Seq<BridgeView>, dials: Seq<Dial>)
    requires
        is_course(states, dials),
    ensures
        same_share(states[0], states.last()),
        same_lists(states[0].tally, states.last().tally),
        counted_on(
            states[0].tally,
            states.last().tally,
            nobody_there(dials),
            no_way(dials),
            0,
            0,
            0,
        ),
    decreases dials.len(),
{
    reveal(Seq::filter);
    if dials.len() > 0 {
        let before = states.drop_last();
        assert forall|i: int| 0 <= i < dials.drop_last().len() implies dial_counted(
            #[trigger] before[i],
            dials.drop_last()[i],
            before[i + 1],
        ) by {
            assert(before[i] == states[i]);
        }
        law_a_course_of_dials_is_counted(before, dials.drop_last());
        assert(before[0] == states[0]);
        assert(dial_counted(states[dials.len() - 1], dials[dials.len() - 1], states[dials.len() as int]));
    }
}

/// A line of this text begins with this.
pub open spec fn has_line(said: Seq<char>, start: Seq<char>) -> bool {
    exists|i: int|
        0 <= i < lines::lines(said).len() && account_laws::begins(
            #[trigger] lines::lines(said)[i],
            start,
        )
}

/// A text with this line under a label and no other has it, whatever of it is
/// asked for.
proof fn lemma_has_line(said: Seq<char>, label: Seq<char>, rest: Seq<char>, there: bool, l: Seq<char>)
    requires
        account_laws::under(said, label) == account_laws::one(there, l),
        there ==> account_laws::begins(l, label + rest),
    ensures
        there ==> has_line(said, label + rest),
        !there ==> !has_line(said, label),
{
    let all = lines::lines(said);
    let with = |l: Seq<char>| account_laws::begins(l, label);
    if there {
        seqs::lemma_filter_holds(all, with);
        assert(all.filter(with)[0] == l);
        assert(all.contains(l));
        let i = choose|i: int| 0 <= i < all.len() && all[i] == l;
        assert(account_laws::begins(lines::lines(said)[i], label + rest));
    } else if has_line(said, label) {
        let i = choose|i: int|
            0 <= i < lines::lines(said).len() && account_laws::begins(
                #[trigger] lines::lines(said)[i],
                label,
            );
        all.lemma_filter_contains(with, i);
        assert(all.filter(with).contains(all[i]));
    }
}

/// The two counts of dials that failed, on a receipt: the line that begins
/// `unreached` and then the one number stands there exactly where that number is
/// not zero, and so does the line that begins `route` and the other.
pub open spec fn tells_of_dials(said: Seq<char>, nobody: nat, lost: nat) -> bool {
    &&& nobody > 0 ==> has_line(said, "unreached "@ + text::decimal(nobody) + " "@)
    &&& nobody == 0 ==> !has_line(said, "unreached"@)
    &&& lost > 0 ==> has_line(said, "route    "@ + text::decimal(lost) + " "@)
    &&& lost == 0 ==> !has_line(said, "route    "@)
}

/// A line that starts with a label and a number.
proof fn lemma_starts(label: Seq<char>, n: Seq<char>, word: Seq<char>, rest: Seq<char>)
    requires
        word.len() > 0,
        word[0] == ' ',
    ensures
        account_laws::begins(label + n + word + rest, label + n + seq![' ']),
{
    let start = label + n + seq![' '];
    let k = start.len() as int;
    assert((label + n + word + rest).take(k) =~= start);
}

proof fn lemma_space()
    ensures
        " "@ == seq![' '],
        "unreached "@ == "unreached"@ + seq![' '],
        " connection(s) were authorized but found nothing listening on port "@.len() > 0,
        " connection(s) were authorized but found nothing listening on port "@[0] == ' ',
        " connection(s) were authorized and then h5i could not reach the box at all"@.len() > 0,
        " connection(s) were authorized and then h5i could not reach the box at all"@[0] == ' ',
{
    reveal_strlit("unreached");
    reveal_strlit("unreached ");
    reveal_strlit(" ");
    reveal_strlit(" connection(s) were authorized but found nothing listening on port ");
    reveal_strlit(" connection(s) were authorized and then h5i could not reach the box at all");
    assert(" "@ =~= seq![' ']);
    assert("unreached "@ =~= "unreached"@ + seq![' ']);
}

proof fn lemma_tells_of_dials(s: receipt::SummaryView, opened: Seq<char>, closed: Seq<char>)
    requires
        seqs::lacks(opened, '\n'),
        seqs::lacks(closed, '\n'),
    ensures
        tells_of_dials(
            receipt::receipt(s, opened, closed),
            s.unreachable as nat,
            s.route_broken as nat,
        ),
{
    account_laws::law_the_receipt_tells_what_was_not_reached(s, opened, closed);
    lemma_told(receipt::receipt(s, opened, closed), s);
}

proof fn lemma_told(said: Seq<char>, s: receipt::SummaryView)
    requires
        account_laws::under(said, "unreached"@) == account_laws::one(
            s.unreachable > 0,
            account_laws::unreached_line(s),
        ),
        account_laws::under(said, "route    "@) == account_laws::one(
            s.route_broken > 0,
            account_laws::route_line(s),
        ),
    ensures
        tells_of_dials(said, s.unreachable as nat, s.route_broken as nat),
{
    lemma_space();
    let n = text::decimal(s.unreachable as nat);
    let m = text::decimal(s.route_broken as nat);
    lemma_told_of(
        said,
        "unreached"@,
        "unreached "@,
        seq![' '],
        n,
        " connection(s) were authorized but found nothing listening on port "@,
        s.unreachable > 0,
        account_laws::unreached_line(s),
        text::decimal(s.port as nat),
    );
    let none = Seq::<char>::empty();
    let word = " connection(s) were authorized and then h5i could not reach the box at all"@;
    assert("route    "@ + none =~= "route    "@);
    assert("route    "@ + m + word + none =~= "route    "@ + m + word);
    lemma_told_of(
        said,
        "route    "@,
        "route    "@,
        none,
        m,
        word,
        s.route_broken > 0,
        account_laws::route_line(s),
        none,
    );
}

proof fn lemma_told_of(
    said: Seq<char>,
    label: Seq<char>,
    full: Seq<char>,
    gap: Seq<char>,
    n: Seq<char>,
    word: Seq<char>,
    there: bool,
    l: Seq<char>,
    rest: Seq<char>,
)
    requires
        account_laws::under(said, label) == account_laws::one(there, l),
        full == label + gap,
        l == full + n + word + rest,
        word.len() > 0,
        word[0] == ' ',
    ensures
        there ==> has_line(said, full + n + seq![' ']),
        !there ==> !has_line(said, label),
{
    let more = gap + n + seq![' '];
    lemma_starts(full, n, word, rest);
    assert(label + more =~= full + n + seq![' ']);
    lemma_has_line(said, label, more, there, l);
}

/// From the dials to the receipt: after any course of dials on a new share, the
/// record that is written for it tells how many found nothing listening under
/// `unreached`, and how many did not reach the box under `route`, and leaves out
/// the one of which there were none.
pub proof fn law_failed_dials_are_told_apart(
    states: Seq<BridgeView>,
    dials: Seq<Dial>,
    b: Bridge,
    ended: Moment,
    seconds: i64,
    record: Record,
)
    requires
        is_course(states, dials),
        nothing_counted(states[0].tally),
        b@ == states.last(),
        call_ensures(
            Bridge::write_receipt,
            (&b, ended, seconds, true),
            Ok::<Record, String>(record),
        ),
    ensures
        tells_of_dials(record.body@, nobody_there(dials), no_way(dials)),
{
    law_a_course_of_dials_is_counted(states, dials);
    lemma_tells_of_dials(
        b@.summary(ended, seconds),
        clock::rfc3339_text(b.started.seconds, b.started.nanos),
        clock::rfc3339_text(ended.seconds, ended.nanos),
    );
}

/// The same of a share that ended badly.
pub proof fn law_failed_dials_are_told_apart_when_a_share_fails(
    states: Seq<BridgeView>,
    dials: Seq<Dial>,
    b: &mut Bridge,
    why: &str,
    ended: Moment,
    seconds: i64,
    record: Record,
)
    requires
        is_course(states, dials),
        nothing_counted(states[0].tally),
        b@ == states.last(),
        call_ensures(
            Bridge::write_receipt_failed,
            (b, why, ended, seconds, true),
            Ok::<Record, String>(record),
        ),
    ensures
        tells_of_dials(record.body@, nobody_there(dials), no_way(dials)),
{
    law_a_course_of_dials_is_counted(states, dials);
    let after = final(b)@;
    lemma_tells_of_dials(
        after.summary(ended, seconds),
        clock::rfc3339_text(after.share.started.seconds, after.share.started.nanos),
        clock::rfc3339_text(ended.seconds, ended.nanos),
    );
}

/// A summary says what was counted, each thing under its own name, of the share
/// that was opened and for the time that it is asked for.
pub open spec fn says_what_was_counted(b: Bridge, at: Moment, seconds: i64, r: Summary) -> bool {
    &&& r.transport == b.transport
    &&& r.endpoint@ == b.endpoint@
    &&& r.port == b.port
    &&& r.started == b.started
    &&& r.ended == at
    &&& r.seconds == seconds
    &&& r.clock_moved == b.clock.stepped
    &&& r.peers@.len() == b.tally.peers@.len()
    &&& forall|i: int| 0 <= i < r.peers@.len() ==> (#[trigger] r.peers@[i])@ == b.tally.peers@[i]@
    &&& r.peers_overflow == b.tally.peers_overflow
    &&& r.overflow_connections == b.tally.overflow_connections
    &&& r.overflow_bytes_to_peer == b.tally.overflow_bytes_to_peer
    &&& r.overflow_bytes_from_peer == b.tally.overflow_bytes_from_peer
    &&& r.denied@ == b.tally.denied@
    &&& r.denied_overflow == b.tally.denied_overflow
    &&& r.over_capacity == b.tally.over_capacity
    &&& r.front_refused == b.tally.front_refused
    &&& r.unreachable == b.tally.unreachable
    &&& r.route_broken == b.tally.route_broken
    &&& r.settled == b.tally.settled
    &&& r.turned_away@ == b.tally.turned_away@
    &&& r.turned_away_overflow == b.tally.turned_away_overflow
    &&& text::maybe(r.failed_because) == text::maybe(b.tally.failed_because)
    &&& r.truncated == b.tally.truncated
}

proof fn lemma_says_what_was_counted(b: Bridge, at: Moment, seconds: i64, r: Summary)
    requires
        r@ == b@.summary(at, seconds),
    ensures
        says_what_was_counted(b, at, seconds, r),
{
    assert(r@.peers == b@.tally.peers);
    assert(r.peers@.len() == r@.peers.len() && b.tally.peers@.len() == b@.tally.peers.len());
    assert forall|i: int| 0 <= i < r.peers@.len() implies (#[trigger] r.peers@[i])@
        == b.tally.peers@[i]@ by {
        assert(r@.peers[i] == r.peers@[i]@ && b@.tally.peers[i] == b.tally.peers@[i]@);
    }
}

/// The summary of a share says what the share counted.
pub proof fn law_a_summary_says_what_was_counted(b: Bridge, at: Moment, seconds: i64, r: Summary)
    requires
        call_ensures(Bridge::summarise, (&b, at, seconds), r),
    ensures
        says_what_was_counted(b, at, seconds, r),
{
    lemma_says_what_was_counted(b, at, seconds, r);
}

/// And so does a look at it while it is open.
pub proof fn law_a_snapshot_says_what_was_counted(b: Bridge, at: Moment, seconds: i64, r: Summary)
    requires
        call_ensures(Bridge::snapshot, (&b, at, seconds), r),
    ensures
        says_what_was_counted(b, at, seconds, r),
{
    lemma_says_what_was_counted(b, at, seconds, r);
}

/// A receipt that is rendered has the line of each count, with that count, if it
/// is not zero, and only then.
pub proof fn law_a_rendered_receipt_has_the_line_of_each_count(s: Summary, r: String)
    requires
        call_ensures(receipt::render_receipt, (&s,), r),
    ensures
        account_laws::under(r@, "unreached"@) == account_laws::one(
            s.unreachable > 0,
            "unreached "@ + text::decimal(s.unreachable as nat)
                + " connection(s) were authorized but found nothing listening on port "@
                + text::decimal(s.port as nat),
        ),
        account_laws::under(r@, "route    "@) == account_laws::one(
            s.route_broken > 0,
            "route    "@ + text::decimal(s.route_broken as nat)
                + " connection(s) were authorized and then h5i could not reach the box at all"@,
        ),
        account_laws::under(r@, "capacity "@) == account_laws::one(
            s.over_capacity > 0,
            "capacity "@ + text::decimal(s.over_capacity as nat)
                + " connection(s) refused because "@ + text::decimal(64)
                + " were already reaching the box"@,
        ),
        account_laws::under(r@, "flooded  "@) == account_laws::one(
            s.front_refused > 0,
            "flooded  "@ + text::decimal(s.front_refused as nat)
                + " connection(s) refused at the front door, before any credential was asked for"@,
        ),
        account_laws::under(r@, "truncated"@) == account_laws::one(
            s.truncated > 0,
            "truncated "@ + text::decimal(s.truncated as nat)
                + " response(s) the box left unfinished, so what the visitor got was incomplete"@,
        ),
{
    let opened = clock::rfc3339_text(s.started.seconds, s.started.nanos);
    let closed = clock::rfc3339_text(s.ended.seconds, s.ended.nanos);
    account_laws::law_the_receipt_tells_what_was_not_reached(s@, opened, closed);
    account_laws::law_the_receipt_tells_who_was_kept_out(s@, opened, closed);
    account_laws::law_the_receipt_tells_how_it_ended(s@, opened, closed);
}

/// A response that was cut short is one more, and changes nothing else.
pub proof fn law_a_response_cut_short_is_one_more(b: &mut Bridge)
    requires
        old(b).tally.truncated < u64::MAX,
        call_ensures(Bridge::record_truncated, (b,), ()),
    ensures
        same_share(old(b)@, final(b)@),
        same_lists(old(b)@.tally, final(b)@.tally),
        counted_on(old(b)@.tally, final(b)@.tally, 0, 0, 1, 0, 0),
{
}

/// A connection that was refused at the front door is one more, and changes
/// nothing else.
pub proof fn law_a_refusal_at_the_door_is_one_more(b: &mut Bridge)
    requires
        old(b).tally.front_refused < u64::MAX,
        call_ensures(Bridge::record_front_refusal, (b,), ()),
    ensures
        same_share(old(b)@, final(b)@),
        same_lists(old(b)@.tally, final(b)@.tally),
        counted_on(old(b)@.tally, final(b)@.tally, 0, 0, 0, 1, 0),
{
}

/// A connection takes one place of the share, and one for which there is no
/// place is refused and counted, and takes none.
pub proof fn law_a_place_is_taken_or_the_refusal_counted(b: &mut Bridge, r: Option<Permit>)
    requires
        old(b).tally.over_capacity < u64::MAX,
        call_ensures(Bridge::admit_one, (b,), r),
    ensures
        r is Some <==> old(b).slots > 0,
        r is Some ==> final(b).slots == old(b).slots - 1 && final(b)@.tally == old(b)@.tally,
        r is None ==> final(b).slots == 0 && same_lists(old(b)@.tally, final(b)@.tally)
            && counted_on(old(b)@.tally, final(b)@.tally, 0, 0, 0, 0, 1),
        final(b)@.share == old(b)@.share,
        final(b)@.clock == old(b)@.clock,
        final(b).front == old(b).front,
        final(b).winding_up == old(b).winding_up,
{
    assert(final(b)@.slots == final(b).slots);
}

/// A place that is given back is the place that was taken.
pub proof fn law_a_place_given_back_is_free_again(b: &mut Bridge, permit: Permit)
    requires
        old(b).slots < 64,
        call_ensures(Bridge::release, (b, permit), ()),
    ensures
        final(b).slots == old(b).slots + 1,
        final(b)@.tally == old(b)@.tally,
        final(b)@.share == old(b)@.share,
        final(b)@.clock == old(b)@.clock,
        final(b).front == old(b).front,
        final(b).winding_up == old(b).winding_up,
{
    assert(final(b)@.slots == final(b).slots);
}

/// Nobody comes through the front door of a share that is winding up, nor past
/// the number that it handles at once; everybody else does, and takes one place.
pub proof fn law_the_front_door_closes(b: &mut Bridge, r: Option<FrontPermit>)
    requires
        call_ensures(Bridge::enter_front, (b,), r),
    ensures
        old(b).winding_up ==> r is None,
        old(b).front == 0 ==> r is None,
        !old(b).winding_up && old(b).front > 0 ==> r is Some,
        final(b).front + (if r is Some {
            1int
        } else {
            0
        }) == old(b).front,
        final(b)@.tally == old(b)@.tally,
        final(b)@.share == old(b)@.share,
        final(b)@.clock == old(b)@.clock,
        final(b).slots == old(b).slots,
        final(b).winding_up == old(b).winding_up,
{
    assert(final(b)@.front == final(b).front);
}

/// A place at the front door that is given back is free again.
pub proof fn law_the_front_door_is_left(b: &mut Bridge, permit: FrontPermit)
    requires
        old(b).front < 4096,
        call_ensures(Bridge::leave_front, (b, permit), ()),
    ensures
        final(b).front == old(b).front + 1,
        final(b)@.tally == old(b)@.tally,
        final(b)@.share == old(b)@.share,
        final(b)@.clock == old(b)@.clock,
        final(b).slots == old(b).slots,
        final(b).winding_up == old(b).winding_up,
{
    assert(final(b)@.front == final(b).front);
}

/// Quiet is every place given back. It is waited for until it is late, it is the
/// one thing that a receipt calls settled, and waiting closes the front door.
pub proof fn law_quiet_is_every_place_given_back(b: &mut Bridge, late: bool, r: Option<bool>)
    requires
        call_ensures(Bridge::quiesce, (b, late), r),
    ensures
        r == Some(true) <==> old(b).front == 4096 && old(b).slots == 64,
        r is None ==> !late,
        r is Some && !late ==> r == Some(true),
        r matches Some(settled) ==> final(b).tally.settled == settled,
        r is None ==> final(b).tally.settled == old(b).tally.settled,
        final(b).winding_up,
        final(b).front == old(b).front,
        final(b).slots == old(b).slots,
        final(b)@.share == old(b)@.share,
        final(b)@.clock == old(b)@.clock,
        same_lists(
            TallyView { settled: final(b).tally.settled, ..old(b)@.tally },
            final(b)@.tally,
        ),
        counted_on(old(b)@.tally, final(b)@.tally, 0, 0, 0, 0, 0),
{
    assert(final(b)@.front == final(b).front && final(b)@.slots == final(b).slots
        && final(b)@.winding_up == final(b).winding_up);
}

/// One more of a list that holds so many, or one more past it.
pub open spec fn listed<A>(
    before: Seq<A>,
    before_past: u64,
    after: Seq<A>,
    after_past: u64,
    most: int,
    one: A,
) -> bool {
    if before.len() < most {
        &&& after.len() == before.len() + 1
        &&& after.last() == one
        &&& forall|i: int| 0 <= i < before.len() ==> after[i] == before[i]
        &&& after_past == before_past
    } else {
        after == before && after_past == before_past + 1
    }
}

/// Somebody without a ticket is one more refusal, with its moment and its
/// reason, and nothing else changes.
pub proof fn law_a_knock_without_a_ticket_is_listed(b: &mut Bridge, at: Moment)
    requires
        old(b).tally.denied_overflow < u64::MAX,
        call_ensures(Bridge::record_refused, (b, at), ()),
    ensures
        listed(
            old(b)@.tally.denied,
            old(b)@.tally.denied_overflow,
            final(b)@.tally.denied,
            final(b)@.tally.denied_overflow,
            1024,
            DeniedAttempt { at, reason: Denied::NoCredential },
        ),
        same_share(old(b)@, final(b)@),
        same_lists(
            TallyView {
                denied: final(b)@.tally.denied,
                denied_overflow: final(b)@.tally.denied_overflow,
                ..old(b)@.tally
            },
            final(b)@.tally,
        ),
        counted_on(old(b)@.tally, final(b)@.tally, 0, 0, 0, 0, 0),
{
}

/// Somebody who was turned away is one more of those, with the moment and the
/// reason, and nothing else changes.
pub proof fn law_everybody_turned_away_is_listed(b: &mut Bridge, why: TurnedAwayReason, at: Moment)
    requires
        old(b).tally.turned_away_overflow < u64::MAX,
        call_ensures(Bridge::record_turned_away, (b, why, at), ()),
    ensures
        listed(
            old(b)@.tally.turned_away,
            old(b)@.tally.turned_away_overflow,
            final(b)@.tally.turned_away,
            final(b)@.tally.turned_away_overflow,
            1024,
            TurnedAway { at, why },
        ),
        same_share(old(b)@, final(b)@),
        same_lists(
            TallyView {
                turned_away: final(b)@.tally.turned_away,
                turned_away_overflow: final(b)@.tally.turned_away_overflow,
                ..old(b)@.tally
            },
            final(b)@.tally,
        ),
        counted_on(old(b)@.tally, final(b)@.tally, 0, 0, 0, 0, 0),
{
}

/// Whoever joins is one more peer, under the ticket that let it in, with nothing
/// carried for it yet, and what it is handed names its own record.
pub proof fn law_whoever_joins_is_listed(
    b: &mut Bridge,
    peer: String,
    grant: &AuthorizedGrant,
    path: Option<Path>,
    opened: Moment,
    r: PeerId,
)
    requires
        old(b).tally.peers_overflow < u64::MAX,
        call_ensures(Bridge::peer_joined, (b, peer, grant, path, opened), r),
    ensures
        listed(
            old(b)@.tally.peers,
            old(b)@.tally.peers_overflow,
            final(b)@.tally.peers,
            final(b)@.tally.peers_overflow,
            256,
            PeerView {
                peer: peer@,
                grant: grant.id@,
                label: text::maybe(grant.label),
                path,
                opened,
                closed: None,
                last_seen: None,
                connections: 0,
                bytes_to_peer: 0,
                bytes_from_peer: 0,
            },
        ),
        old(b)@.tally.peers.len() < 256 ==> r.index() == old(b)@.tally.peers.len(),
        old(b)@.wf() && old(b)@.tally.peers.len() >= 256 ==> r.index()
            >= final(b)@.tally.peers.len(),
        same_share(old(b)@, final(b)@),
        same_lists(
            TallyView {
                peers: final(b)@.tally.peers,
                peers_overflow: final(b)@.tally.peers_overflow,
                ..old(b)@.tally
            },
            final(b)@.tally,
        ),
        counted_on(old(b)@.tally, final(b)@.tally, 0, 0, 0, 0, 0),
{
}

/// Only the record at this place may differ.
pub open spec fn others_kept(before: Seq<PeerView>, after: Seq<PeerView>, i: nat) -> bool {
    &&& after.len() == before.len()
    &&& forall|j: int| 0 <= j < before.len() && j != i ==> #[trigger] after[j] == before[j]
}

/// A connection of a peer is one more of its own, or one more of those past the
/// list, and changes nothing else.
pub proof fn law_a_connection_is_one_more_of_its_peer(b: &mut Bridge, id: PeerId)
    requires
        old(b)@.tally.can_connect(id.index()),
        call_ensures(Bridge::peer_connection, (b, id), ()),
    ensures
        others_kept(old(b)@.tally.peers, final(b)@.tally.peers, id.index()),
        id.index() < old(b)@.tally.peers.len() ==> {
            let p = old(b)@.tally.peers[id.index() as int];
            let n = final(b)@.tally.peers[id.index() as int];
            &&& n.connections == p.connections + 1
            &&& n == (PeerView { connections: n.connections, ..p })
            &&& final(b)@.tally.overflow_connections == old(b)@.tally.overflow_connections
        },
        id.index() >= old(b)@.tally.peers.len() ==> final(b)@.tally.overflow_connections == old(
            b,
        )@.tally.overflow_connections + 1,
        same_share(old(b)@, final(b)@),
        same_lists(
            TallyView {
                peers: final(b)@.tally.peers,
                overflow_connections: final(b)@.tally.overflow_connections,
                ..old(b)@.tally
            },
            final(b)@.tally,
        ),
        counted_on(old(b)@.tally, final(b)@.tally, 0, 0, 0, 0, 0),
{
}

/// Bytes that went to a peer and came from it are added to its own, each to its
/// side, or to those past the list, and change nothing else.
pub proof fn law_bytes_are_added_to_their_peer(
    b: &mut Bridge,
    id: PeerId,
    to_peer: u64,
    from_peer: u64,
)
    requires
        old(b)@.tally.can_move(id.index(), to_peer, from_peer),
        call_ensures(Bridge::peer_bytes, (b, id, to_peer, from_peer), ()),
    ensures
        others_kept(old(b)@.tally.peers, final(b)@.tally.peers, id.index()),
        id.index() < old(b)@.tally.peers.len() ==> {
            let p = old(b)@.tally.peers[id.index() as int];
            let n = final(b)@.tally.peers[id.index() as int];
            &&& n.bytes_to_peer == p.bytes_to_peer + to_peer
            &&& n.bytes_from_peer == p.bytes_from_peer + from_peer
            &&& n == (PeerView {
                bytes_to_peer: n.bytes_to_peer,
                bytes_from_peer: n.bytes_from_peer,
                ..p
            })
            &&& final(b)@.tally.overflow_bytes_to_peer == old(b)@.tally.overflow_bytes_to_peer
            &&& final(b)@.tally.overflow_bytes_from_peer == old(b)@.tally.overflow_bytes_from_peer
        },
        id.index() >= old(b)@.tally.peers.len() ==> {
            &&& final(b)@.tally.overflow_bytes_to_peer == old(b)@.tally.overflow_bytes_to_peer
                + to_peer
            &&& final(b)@.tally.overflow_bytes_from_peer == old(b)@.tally.overflow_bytes_from_peer
                + from_peer
        },
        same_share(old(b)@, final(b)@),
        same_lists(
            TallyView {
                peers: final(b)@.tally.peers,
                overflow_bytes_to_peer: final(b)@.tally.overflow_bytes_to_peer,
                overflow_bytes_from_peer: final(b)@.tally.overflow_bytes_from_peer,
                ..old(b)@.tally
            },
            final(b)@.tally,
        ),
        counted_on(old(b)@.tally, final(b)@.tally, 0, 0, 0, 0, 0),
{
}

/// The last sign of a peer, its leaving and the way its bytes go are each noted
/// on its own record, and on no other.
pub proof fn law_a_sign_of_a_peer_is_noted(b: &mut Bridge, id: PeerId, at: Moment)
    requires
        call_ensures(Bridge::peer_seen, (b, id, at), ()),
    ensures
        others_kept(old(b)@.tally.peers, final(b)@.tally.peers, id.index()),
        id.index() < old(b)@.tally.peers.len() ==> final(b)@.tally.peers[id.index() as int] == (
        PeerView { last_seen: Some(at), ..old(b)@.tally.peers[id.index() as int] }),
        same_share(old(b)@, final(b)@),
        same_lists(TallyView { peers: final(b)@.tally.peers, ..old(b)@.tally }, final(b)@.tally),
        counted_on(old(b)@.tally, final(b)@.tally, 0, 0, 0, 0, 0),
{
}

/// A peer that left has its moment on its own record.
pub proof fn law_a_peer_that_left_is_noted(b: &mut Bridge, id: PeerId, at: Moment)
    requires
        call_ensures(Bridge::peer_left, (b, id, at), ()),
    ensures
        others_kept(old(b)@.tally.peers, final(b)@.tally.peers, id.index()),
        id.index() < old(b)@.tally.peers.len() ==> final(b)@.tally.peers[id.index() as int] == (
        PeerView { closed: Some(at), ..old(b)@.tally.peers[id.index() as int] }),
        same_share(old(b)@, final(b)@),
        same_lists(TallyView { peers: final(b)@.tally.peers, ..old(b)@.tally }, final(b)@.tally),
        counted_on(old(b)@.tally, final(b)@.tally, 0, 0, 0, 0, 0),
{
}

/// The way of a peer is the first that was seen, but for a relay, which is
/// never taken back and always believed over a direct way.
pub proof fn law_a_relay_is_never_taken_back(b: &mut Bridge, id: PeerId, path: Path)
    requires
        call_ensures(Bridge::peer_path, (b, id, path), ()),
    ensures
        others_kept(old(b)@.tally.peers, final(b)@.tally.peers, id.index()),
        id.index() < old(b)@.tally.peers.len() ==> {
            let p = old(b)@.tally.peers[id.index() as int];
            let n = final(b)@.tally.peers[id.index() as int];
            &&& p.path is None ==> n.path == Some(path)
            &&& p.path == Some(Path::Relayed) ==> n.path == Some(Path::Relayed)
            &&& p.path == Some(Path::Tunnel) ==> n.path == Some(Path::Tunnel)
            &&& p.path == Some(Path::Direct) && path == Path::Relayed ==> n.path == Some(
                Path::Relayed,
            )
            &&& p.path == Some(Path::Direct) && path != Path::Relayed ==> n.path == Some(
                Path::Direct,
            )
            &&& n == (PeerView { path: n.path, ..p })
        },
        same_share(old(b)@, final(b)@),
        same_lists(TallyView { peers: final(b)@.tally.peers, ..old(b)@.tally }, final(b)@.tally),
        counted_on(old(b)@.tally, final(b)@.tally, 0, 0, 0, 0, 0),
{
}

/// A share that winds up says so, and does nothing else.
pub proof fn law_winding_up_changes_nothing_else(b: &mut Bridge)
    requires
        call_ensures(Bridge::begin_shutdown, (b,), ()),
    ensures
        final(b).winding_up,
        final(b)@ == (BridgeView { winding_up: true, ..old(b)@ }),
{
    assert(final(b)@.winding_up == final(b).winding_up);
}

/// The same record: the process that serves it, and when that began.
pub open spec fn is_this_share(c: ClaimedRecord, s: ShareSession) -> bool {
    c.pid == s.pid && c.started_at is Some && c.started_at->Some_0@ == s.started_at@
}

/// A ticket of this record lets somebody in now: it was not taken back, and its
/// time is not up.
pub open spec fn has_open_ticket(s: ShareSession, id: Seq<char>, now: int) -> bool {
    exists|i: int|
        0 <= i < s.grants@.len() && (#[trigger] s.grants@[i]).id@ == id && !s.grants@[i].revoked
            && now < s.grants@[i].expires_at
}

/// A ticket lives exactly while the record is the one that was claimed and holds
/// a ticket of that name that was not taken back and has not run out.
pub proof fn law_a_ticket_lives_until_it_is_taken_back(
    b: &mut Bridge,
    id: &str,
    found: ReadState,
    wall: Moment,
    elapsed: i64,
    r: bool,
)
    requires
        call_ensures(Bridge::grant_is_live, (b, id, found, wall, elapsed), r),
    ensures
        r <==> (found matches ReadState::Present(s) && is_this_share(old(b).claimed, s)
            && has_open_ticket(s, id@, old(b)@.now(wall, elapsed) as int)),
        final(b)@.tally == old(b)@.tally,
{
    if let ReadState::Present(s) = found {
        let now = old(b)@.now(wall, elapsed);
        if is_this_share(old(b).claimed, s) {
            if s.has_live(id@, now) {
                let i = choose|i: int|
                    0 <= i < s.grants@.len() && (#[trigger] s.grants@[i]).admits(now)
                        && s.grants@[i].id@ == id@;
                assert(s.grants@[i].id@ == id@);
            }
            if has_open_ticket(s, id@, now as int) {
                let i = choose|i: int|
                    0 <= i < s.grants@.len() && (#[trigger] s.grants@[i]).id@ == id@
                        && !s.grants@[i].revoked && (now as int) < s.grants@[i].expires_at;
                assert(s.grants@[i].admits(now));
            }
        }
    }
}

/// A share is spent exactly when no ticket of its own record lets anybody in.
pub proof fn law_a_share_is_spent_when_no_ticket_is_left(
    b: &mut Bridge,
    found: ReadState,
    wall: Moment,
    elapsed: i64,
    r: bool,
)
    requires
        call_ensures(Bridge::is_spent, (b, found, wall, elapsed), r),
    ensures
        !r <==> (found matches ReadState::Present(s) && is_this_share(old(b).claimed, s) && exists|
            id: Seq<char>,
        | #[trigger] has_open_ticket(s, id, old(b)@.now(wall, elapsed) as int)),
        final(b)@.tally == old(b)@.tally,
{
    if let ReadState::Present(s) = found {
        let now = old(b)@.now(wall, elapsed);
        if is_this_share(old(b).claimed, s) {
            if !s.spent(now) {
                let i = choose|i: int|
                    0 <= i < s.grants@.len() && (#[trigger] s.grants@[i]).admits(now);
                assert(s.grants@[i].id@ == s.grants@[i].id@);
                assert(has_open_ticket(s, s.grants@[i].id@, now as int));
            }
            if exists|id: Seq<char>| #[trigger] has_open_ticket(s, id, now as int) {
                let id = choose|id: Seq<char>| #[trigger] has_open_ticket(s, id, now as int);
                let i = choose|i: int|
                    0 <= i < s.grants@.len() && (#[trigger] s.grants@[i]).id@ == id
                        && !s.grants@[i].revoked && (now as int) < s.grants@[i].expires_at;
                assert(s.grants@[i].admits(now));
            }
        }
    }
}

/// A share has ended when its record says so, is gone, or is another's, and not
/// because its record cannot be read.
pub proof fn law_a_share_ends_with_its_record(b: Bridge, found: ReadState, r: bool)
    requires
        call_ensures(Bridge::share_is_ending, (&b, found), r),
    ensures
        found is Gone ==> r,
        found is Unreadable ==> !r,
        found matches ReadState::Present(s) ==> r == (s.winding_up || !is_this_share(b.claimed, s)),
{
}

/// Nobody is let into a share that winds up, nor by a record that is gone,
/// another's or unreadable; everybody else is let in exactly as the weighing of
/// the ticket says. Whoever is not let in is one more refusal, for the reason
/// that is given.
pub proof fn law_only_the_claimed_record_lets_anybody_in<
    F: FnOnce(&ShareSession, &str, i64) -> Result<AuthorizedGrant, Denied>,
>(
    b: &mut Bridge,
    secret: &str,
    found: ReadState,
    wall: Moment,
    elapsed: i64,
    weigh: F,
    r: Result<AuthorizedGrant, Denied>,
)
    requires
        old(b).tally.denied_overflow < u64::MAX,
        call_ensures(Bridge::authorize::<F>, (b, secret, found, wall, elapsed, weigh), r),
    ensures
        r is Ok ==> !old(b).winding_up && (found matches ReadState::Present(s) && is_this_share(
            old(b).claimed,
            s,
        ) && call_ensures(weigh, (&s, secret, old(b)@.now(wall, elapsed)), r)),
        !old(b).winding_up ==> (found matches ReadState::Present(s) ==> is_this_share(
            old(b).claimed,
            s,
        ) ==> call_ensures(weigh, (&s, secret, old(b)@.now(wall, elapsed)), r)),
        old(b).winding_up || found is Gone ==> r == Err::<AuthorizedGrant, Denied>(
            Denied::ShareOver,
        ),
        !old(b).winding_up && found is Unreadable ==> r == Err::<AuthorizedGrant, Denied>(
            Denied::TableUnreadable,
        ),
        r is Ok ==> final(b)@.tally == old(b)@.tally,
        r matches Err(reason) ==> listed(
            old(b)@.tally.denied,
            old(b)@.tally.denied_overflow,
            final(b)@.tally.denied,
            final(b)@.tally.denied_overflow,
            1024,
            DeniedAttempt { at: wall, reason },
        ) && same_lists(
            TallyView {
                denied: final(b)@.tally.denied,
                denied_overflow: final(b)@.tally.denied_overflow,
                ..old(b)@.tally
            },
            final(b)@.tally,
        ) && counted_on(old(b)@.tally, final(b)@.tally, 0, 0, 0, 0, 0),
        final(b).winding_up == old(b).winding_up,
        final(b).slots == old(b).slots,
        final(b).front == old(b).front,
{
    assert(final(b)@.winding_up == final(b).winding_up && final(b)@.slots == final(b).slots
        && final(b)@.front == final(b).front);
}

} // verus!
