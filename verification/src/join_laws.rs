//! What a joiner is told, and which address a join listens on.
use vstd::prelude::*;
use vstd::string::*;

use crate::address::Ipv4Addr;
use crate::display;
use crate::gate;
use crate::join::{self, Binder, Bound, Closed, OpenError};
use crate::joining::{JoinAction, JoinEvent, Joining, Stage, Terms};
use crate::seqs;
use crate::text;

verus! {

/// This stands somewhere in that.
pub open spec fn stands_in(part: Seq<char>, s: Seq<char>) -> bool {
    exists|before: Seq<char>, behind: Seq<char>| s == #[trigger] (before + part + behind)
}

proof fn lemma_holds(s: Seq<char>, part: Seq<char>)
    ensures
        join::holds(s, part) <==> stands_in(part, s),
{
    seqs::lemma_find_seq(s, part, 0);
    if join::holds(s, part) {
        let i = seqs::find_seq(s, part, 0)->Some_0;
        let before = s.take(i);
        let behind = s.skip(i + part.len());
        assert(s =~= before + part + behind);
    }
    if stands_in(part, s) {
        let (before, behind) = choose|before: Seq<char>, behind: Seq<char>|
            s == #[trigger] (before + part + behind);
        let n = before.len() as int;
        assert(s.subrange(n, n + part.len()) =~= part);
        assert(seqs::occurs_at(s, part, n));
    }
}

/// The cause, in the joiner's words: a reason that tells of a revoked or an
/// expired ticket is about the ticket, one that tells that the share has ended is
/// about the share, one about a direct path or about no ticket is about that, one
/// that this program worded is handed on without its mark, and any other is not
/// known.
pub proof fn law_the_cause_is_what_was_said(said: &str, r: String)
    requires
        call_ensures(join::why_it_ended, (said,), r),
    ensures
        ({
            let ticket = stands_in("revoked"@, said@) || stands_in("expired"@, said@);
            let over = stands_in("this share has ended"@, said@);
            let direct = stands_in("direct path"@, said@);
            let silent = stands_in("no ticket was presented"@, said@);
            let ours = stands_in("h5i:"@, said@);
            &&& ticket ==> r@ == " — that ticket was revoked or ran out"@
            &&& !ticket && over ==> r@ == " — they stopped sharing"@
            &&& !ticket && !over && direct ==> r@
                == " — the direct connection was lost, and they shared with --direct-only"@
            &&& !ticket && !over && !direct && silent ==> r@
                == " — nothing was opened, so the sharer hung up. Open the link next time before it does"@
            &&& !ticket && !over && !direct && !silent && ours ==> r@ == " — "@ + seqs::concat(
                seqs::split_seq(said@, "h5i: "@),
            )
            &&& !ticket && !over && !direct && !silent && !ours ==> r@
                == " — they stopped sharing, or the ticket ran out"@
        }),
{
    lemma_holds(said@, "revoked"@);
    lemma_holds(said@, "expired"@);
    lemma_holds(said@, "this share has ended"@);
    lemma_holds(said@, "direct path"@);
    lemma_holds(said@, "no ticket was presented"@);
    lemma_holds(said@, "h5i:"@);
}

/// Only a revoked ticket ends one joiner's access and not the share.
pub proof fn law_only_a_revoke_ends_one_joiners_access(said: &str, r: String, why: String)
    requires
        call_ensures(join::ending_line, (said,), r),
        call_ensures(join::why_it_ended, (said,), why),
    ensures
        stands_in("revoked"@, said@) ==> r@ == "your access to this share ended"@ + why@,
        !stands_in("revoked"@, said@) ==> r@ == "the share ended"@ + why@,
{
    lemma_holds(said@, "revoked"@);
}

/// A connection that failed is an error; one that was closed is not, whoever
/// closed it. What the sharer said is shown without what a terminal would obey.
pub proof fn law_an_ending_is_no_failure(how: Closed, reason: &str, r: Result<String, String>)
    requires
        call_ensures(join::closed, (how, reason), r),
    ensures
        how is Failed <==> r is Err,
        r matches Ok(said) ==> said@ == join::ending(display::shown(reason@)),
        r matches Err(said) ==> said@ == join::failed_text(display::shown(reason@)),
{
}

/// A join goes on unless the ticket was refused, the share is over or the
/// connection cannot be used; what clears by itself is repeated to the joiner.
pub proof fn law_what_clears_by_itself_does_not_stop_a_join(
    r: Result<(), OpenError>,
    o: Result<Option<String>, String>,
)
    requires
        call_ensures(join::check_outcome, (r,), o),
    ensures
        r is Ok ==> o == Ok::<Option<String>, String>(None),
        r matches Err(e) ==> (e is Refused || e is ShareOver || e is Transport ==> o is Err),
        r matches Err(e) ==> (e is Busy || e is Unreachable || e is RouteBroken || e is SharerFault
            ==> (o matches Ok(Some(said)) && said@ == e.spec_text())),
{
}

/// A full share, and a sharer that cannot read its own record, ask to try again;
/// a share that is over is gone; everything else is the way there. None of them
/// is the joiner's own credential.
pub proof fn law_a_browser_is_told_what_to_do(e: OpenError, r: String)
    requires
        call_ensures(join::upstream_failure, (&e,), r),
    ensures
        e is Busy || e is SharerFault ==> r@ == gate::plain_answer(
            "503 Service Unavailable"@,
            e.spec_text(),
        ),
        e is ShareOver ==> r@ == gate::plain_answer("410 Gone"@, e.spec_text()),
        e is Refused || e is Unreachable || e is RouteBroken || e is Transport ==> r@
            == gate::plain_answer("502 Bad Gateway"@, e.spec_text()),
{
}

/// A ticket is good up to, and not at, the moment at which it ends.
pub proof fn law_a_ticket_is_good_until_it_ends(
    expires_at: i64,
    now: i64,
    r: Result<(), String>,
)
    requires
        call_ensures(join::check_ticket, (expires_at, now), r),
    ensures
        now < expires_at ==> r is Ok,
        now >= expires_at ==> r is Err,
{
}

/// The address that is tried next is on loopback. It is the one that was chosen,
/// if one was; else one at random eight times, of which neither the second nor
/// the last number is at an end of its range; then 127.0.0.2 to 127.0.0.9; and
/// last 127.0.0.1.
pub proof fn law_the_address_that_is_tried_next(
    b: Binder,
    x: u8,
    y: u8,
    z: u8,
    r: Result<Ipv4Addr, String>,
)
    requires
        call_ensures(Binder::bind_loopback, (&b, x, y, z), r),
        b.tries < 17,
    ensures
        b.chosen matches Some(addr) ==> (addr.a == 127 ==> r == Ok::<Ipv4Addr, String>(addr)),
        b.chosen matches Some(addr) ==> (addr.a != 127 ==> r is Err),
        b.chosen is None ==> (r matches Ok(addr) && addr.a == 127),
        b.chosen is None && b.tries < 8 ==> (r matches Ok(addr) && 1 <= addr.b <= 254 && addr.c
            == y && 1 <= addr.d <= 254),
        b.chosen is None && b.tries < 8 && 1 <= x <= 254 && 1 <= z <= 254 ==> (r matches Ok(addr)
            && addr.b == x && addr.d == z),
        b.chosen is None && b.tries >= 8 && b.tries < 16 ==> (r matches Ok(addr) && addr.b == 0
            && addr.c == 0 && addr.d == b.tries - 6),
        b.chosen is None && b.tries == 16 ==> (r matches Ok(addr) && addr.b == 0 && addr.c == 0
            && addr.d == 1),
{
}

/// An address that was bound is listened on; the cookie jar is shared on
/// 127.0.0.1 only, and there only by a joiner who chose it or said that it may
/// be. An address that was not bound is passed over, unless it was chosen or
/// was the last.
pub proof fn law_a_shared_jar_takes_consent(
    b: &mut Binder,
    addr: Ipv4Addr,
    error: Option<String>,
    r: Bound,
)
    requires
        call_ensures(Binder::bind_for, (b, addr, error), r),
        old(b).tries < 17,
    ensures
        old(b).chosen is Some && error is None ==> (r matches Bound::Listening(shared) && (shared
            <==> addr.a == 127 && addr.b == 0 && addr.c == 0 && addr.d == 1)),
        old(b).chosen is Some && error is Some ==> r is Refused,
        old(b).chosen is None && old(b).tries < 16 && error is None ==> r == Bound::Listening(
            false,
        ),
        old(b).chosen is None && old(b).tries < 16 && error is Some ==> r is Again && final(b).tries
            == old(b).tries + 1,
        old(b).chosen is None && old(b).tries == 16 && error is None ==> if old(b).allow_shared_jar {
            r == Bound::Listening(true)
        } else {
            r is Refused
        },
        old(b).chosen is None && old(b).tries == 16 && error is Some ==> r is Refused,
        final(b).chosen == old(b).chosen,
        final(b).port == old(b).port,
        final(b).allow_shared_jar == old(b).allow_shared_jar,
{
}

/// A join begins with an address to listen on, of its own or the one that was
/// chosen, and not at all with a ticket that has run out or an address beyond
/// loopback.
pub proof fn law_a_join_begins_with_an_address(terms: Terms, now: i64, r: (Joining, JoinAction))
    requires
        call_ensures(Joining::begin, (terms, now), r),
    ensures
        terms.expires_at <= now ==> (r.1 matches JoinAction::Stop(Err(why))),
        terms.expires_at > now && terms.bind is None ==> r.1 is Pick,
        terms.expires_at > now ==> (terms.bind matches Some(addr) ==> if addr.a == 127 {
            r.1 == JoinAction::Bind(addr, terms.port)
        } else {
            r.1 matches JoinAction::Stop(Err(why))
        }),
        r.0.box_id@ == terms.box_id@,
        r.0.binder.chosen == terms.bind,
        r.0.binder.port == terms.port,
        r.0.binder.allow_shared_jar == terms.allow_shared_jar,
        r.0.binder.tries == 0,
{
    assert(r.0@.box_id == r.0.box_id@ && r.0@.binder == r.0.binder);
    let a = r.1@;
}

/// A join that goes well: the address is bound, the sharer dialled, the ticket
/// weighed, a token minted and announced, and then it is served. What is
/// announced is where the box is found, how it is reached and what was said of
/// it; what is served is under the cookie of its own port.
pub proof fn law_a_join_that_goes_well(j: &mut Joining, event: JoinEvent, r: JoinAction)
    requires
        call_ensures(Joining::next, (j, event), r),
        old(j)@.wf(),
        old(j)@.expects(event),
    ensures
        event matches JoinEvent::Picked(x, y, z) ==> (r matches JoinAction::Bind(addr, port)
            ==> port == old(j).binder.port && final(j).stage == (Stage::Binding { addr })),
        old(j).stage matches Stage::Binding { addr } ==> (event matches JoinEvent::Bound { port }
            ==> (old(j).binder.chosen is Some || old(j).binder.tries < 16 || old(j).binder.allow_shared_jar ==> r is Dial && final(j).stage is Dialling && final(j).local
            == addr && final(j).local_port == port && (final(j).shared_jar <==> (if old(j).binder.chosen is Some {
            addr.a == 127 && addr.b == 0 && addr.c == 0 && addr.d == 1
        } else {
            old(j).binder.tries >= 16
        })))),
        event matches JoinEvent::Dialled(path) ==> r is Verify && final(j).stage is Verifying
            && final(j).path == path,
        event matches JoinEvent::Verified(Ok(_)) ==> r is Mint && final(j).stage is Minting
            && final(j).warning is None,
        event matches JoinEvent::Verified(Err(e)) ==> (if e is Refused || e is ShareOver
            || e is Transport {
            r matches JoinAction::Stop(Err(why)) && why@ == e.spec_text()
        } else {
            r is Mint && final(j).stage is Minting && text::maybe(final(j).warning) == Some(
                e.spec_text(),
            )
        }),
        event matches JoinEvent::Minted(token) ==> (r matches JoinAction::Announce(told)
            && final(j).stage is Announcing && told.path == old(j).path && told.box_id@ == old(j).box_id@ && text::maybe(told.warning) == text::maybe(old(j).warning) && told.shared_jar
            == old(j).shared_jar && told.url@ == "http://"@ + old(j).local.text() + ":"@
            + text::decimal(old(j).local_port as nat) + "/?"@ + "h5i"@ + "="@ + token@),
        event is Announced ==> (r matches JoinAction::Serve { cookie, shared_jar }
            && final(j).stage is Serving && shared_jar == old(j).shared_jar && cookie@
            == "h5i_share"@ + seq!['_'] + text::decimal(old(j).local_port as nat)),
        event matches JoinEvent::Failed(why) ==> (r matches JoinAction::Stop(Err(said)) && said@
            == why@ && final(j).stage is Over),
        event matches JoinEvent::Closed(how, reason) ==> final(j).stage is Over && (how is Failed
            <==> (r matches JoinAction::Stop(Err(said)))),
{
    let a = r@;
    assert(final(j)@.stage == final(j).stage && final(j)@.local == final(j).local && final(j)@.local_port == final(j).local_port && final(j)@.shared_jar == final(j).shared_jar && final(j)@.path == final(j).path && final(j)@.warning == text::maybe(final(j).warning));
    assert(old(j)@.stage == old(j).stage);
    if let JoinAction::Announce(told) = r {
        assert(told@.url == told.url@ && told@.box_id == told.box_id@ && told@.warning
            == text::maybe(told.warning));
    }
}

} // verus!
