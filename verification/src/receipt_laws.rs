//! What holds of every receipt and of every status.
use vstd::prelude::*;
use vstd::string::*;

use crate::clock::{self, Moment};
use crate::plain::{self, printed};
use crate::receipt::{self, SummaryView};
use crate::session::{self, Denied, Grant, ShareSession};
use crate::tally::{DeniedAttempt, PeerView, TurnedAway, TurnedAwayReason};
use crate::{figures, status};

verus! {

broadcast use plain::group_printed;

proof fn lemma_figures(n: nat, seconds: int)
    ensures
        printed(figures::size(n)),
        printed(figures::signed(seconds)),
        printed(session::in_words(seconds)),
{
    plain::lemma_words();
}

proof fn lemma_reasons(turned: Seq<TurnedAway>, kinds: Seq<TurnedAwayReason>)
    ensures
        printed(receipt::reasons_listed(turned, kinds)),
    decreases kinds.len(),
{
    plain::lemma_words();
    if kinds.len() > 0 {
        lemma_reasons(turned, kinds.drop_last());
    }
}

proof fn lemma_peer_line(p: PeerView, ended: Moment)
    ensures
        printed(receipt::peer_line(p, ended)),
{
    plain::lemma_words();
    lemma_figures(p.bytes_to_peer as nat, 0);
    lemma_figures(p.bytes_from_peer as nat, 0);
}

proof fn lemma_peer_lines(peers: Seq<PeerView>, ended: Moment)
    ensures
        printed(receipt::peer_lines(peers, ended)),
    decreases peers.len(),
{
    if peers.len() > 0 {
        lemma_peer_lines(peers.drop_last(), ended);
        lemma_peer_line(peers.last(), ended);
    }
}

proof fn lemma_ticket_lines(tickets: Seq<Seq<char>>, peers: Seq<PeerView>)
    ensures
        printed(receipt::ticket_lines(tickets, peers)),
    decreases tickets.len(),
{
    if tickets.len() > 0 {
        plain::lemma_words();
        lemma_ticket_lines(tickets.drop_last(), peers);
    }
}

proof fn lemma_top(s: SummaryView)
    ensures
        printed(receipt::head_line(s)),
        printed(receipt::clock_part(s)),
        printed(receipt::port_line(s)),
        printed(receipt::endpoint_line(s)),
        printed(receipt::tunnel_line(s)),
        printed(receipt::failure_line(s)),
        printed(receipt::partial_line(s)),
{
    plain::lemma_words();
    lemma_figures(0, s.span());
}

proof fn lemma_peers(s: SummaryView)
    ensures
        printed(receipt::peers_part(s)),
{
    plain::lemma_words();
    lemma_peer_lines(s.peers, s.ended);
    lemma_ticket_lines(receipt::grants(s.peers), s.peers);
    lemma_figures(s.overflow_bytes_to_peer as nat, 0);
    lemma_figures(s.overflow_bytes_from_peer as nat, 0);
}

proof fn lemma_bottom(s: SummaryView)
    ensures
        printed(receipt::capacity_line(s)),
        printed(receipt::flooded_line(s)),
        printed(receipt::truncated_line(s)),
        printed(receipt::turned_line(s)),
        printed(receipt::route_line(s)),
        printed(receipt::unreached_line(s)),
        printed(receipt::refused_line(s)),
{
    plain::lemma_words();
    lemma_reasons(s.turned_away, receipt::reasons(s.turned_away));
}

/// Whatever the names in it are, a receipt puts no control character on a
/// terminal but the ends of its lines, and turns no text around.
pub proof fn law_a_receipt_is_plain_text(s: SummaryView, opened: Seq<char>, closed: Seq<char>)
    requires
        printed(opened),
        printed(closed),
    ensures
        printed(receipt::receipt(s, opened, closed)),
{
    plain::lemma_words();
    lemma_top(s);
    lemma_peers(s);
    lemma_bottom(s);
}

proof fn lemma_grant_lines(grants: Seq<Grant>, now: i64)
    ensures
        printed(status::grant_lines(grants, now)),
    decreases grants.len(),
{
    if grants.len() > 0 {
        lemma_grant_lines(grants.drop_last(), now);
        plain::lemma_words();
        let g = grants.last();
        lemma_figures(0, g.expires_at - now);
        lemma_padded(status::state(g, now), 10);
    }
}

proof fn lemma_padded(s: Seq<char>, width: nat)
    requires
        printed(s),
    ensures
        printed(status::padded(s, width)),
    decreases width - s.len(),
{
    if s.len() < width {
        assert(printed(s.push(' '))) by {
            reveal(printed);
        }
        lemma_padded(s.push(' '), width);
    }
}

/// Whatever the names in it are, a status puts no control character on a
/// terminal but the ends of its lines, and turns no text around.
pub proof fn law_a_status_is_plain_text(s: ShareSession, now: i64, live: bool, ahead: Option<i64>)
    ensures
        printed(status::status(s, now, live, ahead)),
{
    plain::lemma_words();
    lemma_grant_lines(s.grants@, now);
    if let Some(seconds) = ahead {
        lemma_figures(0, seconds as int);
    }
}

/// Everybody refused on the list is counted once, under one reason.
pub proof fn law_the_refusals_add_up(denied: Seq<DeniedAttempt>)
    ensures
        receipt::refused_for(denied, Denied::Unknown) + receipt::refused_for(
            denied,
            Denied::Expired,
        ) + receipt::refused_for(denied, Denied::Revoked) + receipt::refused_for(
            denied,
            Denied::NoCredential,
        ) + receipt::refused_for(denied, Denied::TableUnreadable) + receipt::refused_for(
            denied,
            Denied::ShareOver,
        ) == denied.len(),
    decreases denied.len(),
{
    if denied.len() > 0 {
        law_the_refusals_add_up(denied.drop_last());
    }
}

/// Everybody turned away on the list is counted once, under one reason.
pub proof fn law_the_turned_away_add_up(turned: Seq<TurnedAway>)
    ensures
        receipt::turned_for(turned, TurnedAwayReason::NoDirectPath) + receipt::turned_for(
            turned,
            TurnedAwayReason::NeverGreeted,
        ) + receipt::turned_for(turned, TurnedAwayReason::Unparseable) + receipt::turned_for(
            turned,
            TurnedAwayReason::ForeignOrigin,
        ) + receipt::turned_for(turned, TurnedAwayReason::ServiceWorker) == turned.len(),
    decreases turned.len(),
{
    if turned.len() > 0 {
        law_the_turned_away_add_up(turned.drop_last());
    }
}

/// A reason is listed when, and only when, somebody was turned away for it,
/// and then once.
pub proof fn law_every_reason_is_listed_once(turned: Seq<TurnedAway>, why: TurnedAwayReason)
    ensures
        receipt::reasons(turned).contains(why) <==> receipt::turned_for(turned, why) > 0,
        receipt::reasons(turned).no_duplicates(),
    decreases turned.len(),
{
    if turned.len() > 0 {
        let last = turned.last().why;
        let front = receipt::reasons(turned.drop_last());
        law_every_reason_is_listed_once(turned.drop_last(), why);
        if !front.contains(last) {
            let all = front.push(last);
            assert(all[front.len() as int] == last);
            assert forall|i: int, j: int|
                0 <= i < all.len() && 0 <= j < all.len() && i != j implies all[i] != all[j] by {
                if i == front.len() {
                    assert(front.contains(all[j]));
                } else if j == front.len() {
                    assert(front.contains(all[i]));
                }
            }
            if front.contains(why) {
                let k = choose|k: int| 0 <= k < front.len() && front[k] == why;
                assert(all[k] == why);
            }
            if all.contains(why) && why != last {
                let k = choose|k: int| 0 <= k < all.len() && all[k] == why;
                assert(front[k] == why);
            }
        }
    }
}

/// Nobody who came after the share began, and left before it ended, was there
/// for longer than the share.
pub proof fn law_nobody_is_held_longer_than_the_share(p: PeerView, started: Moment, ended: Moment)
    requires
        started.total_nanos() <= p.opened.total_nanos(),
        started.total_nanos() <= ended.total_nanos(),
        p.closed matches Some(m) ==> m.total_nanos() <= ended.total_nanos(),
        p.last_seen matches Some(m) ==> m.total_nanos() <= ended.total_nanos(),
    ensures
        receipt::held(p, ended) <= clock::whole_seconds(ended, started),
{
}

/// The order of strings compares any two of them, one way.
pub proof fn law_strings_are_in_order(a: Seq<char>, b: Seq<char>, c: Seq<char>)
    ensures
        !receipt::before(a, a),
        a != b ==> receipt::before(a, b) || receipt::before(b, a),
        receipt::before(a, b) && receipt::before(b, c) ==> receipt::before(a, c),
    decreases a.len() + b.len() + c.len(),
{
    if a.len() > 0 && b.len() > 0 && c.len() > 0 {
        law_strings_are_in_order(a.drop_first(), b.drop_first(), c.drop_first());
    } else if a.len() > 0 && b.len() > 0 {
        law_strings_are_in_order(a.drop_first(), b.drop_first(), c);
    } else if a.len() > 0 {
        law_strings_are_in_order(a.drop_first(), b, c);
    }
    if a.len() > 0 && b.len() > 0 && a[0] == b[0] && a.drop_first() == b.drop_first() {
        assert(a == seq![a[0]] + a.drop_first());
        assert(b == seq![b[0]] + b.drop_first());
    }
    if a.len() == 0 && b.len() == 0 {
        assert(a == b);
    }
}

/// A list in order, nothing twice.
pub open spec fn ascending(list: Seq<Seq<char>>) -> bool {
    forall|i: int, j: int|
        0 <= i < j < list.len() ==> receipt::before(#[trigger] list[i], #[trigger] list[j])
}

proof fn lemma_placed(list: Seq<Seq<char>>, g: Seq<char>, x: Seq<char>)
    requires
        ascending(list),
    ensures
        ascending(receipt::placed(list, g)),
        receipt::placed(list, g).contains(x) <==> list.contains(x) || x == g,
    decreases list.len(),
{
    let after = receipt::placed(list, g);
    if list.len() == 0 {
        assert(after == seq![g]);
        assert(after[0] == g);
    } else if list[0] == g {
        assert(list.contains(g));
    } else if receipt::before(g, list[0]) {
        assert(after == seq![g] + list);
        assert(after[0] == g);
        assert forall|i: int, j: int| 0 <= i < j < after.len() implies receipt::before(
            #[trigger] after[i],
            #[trigger] after[j],
        ) by {
            assert(after[j] == list[j - 1]);
            if i == 0 {
                law_strings_are_in_order(g, list[0], list[j - 1]);
            } else {
                assert(after[i] == list[i - 1]);
            }
        }
        if list.contains(x) {
            let k = choose|k: int| 0 <= k < list.len() && list[k] == x;
            assert(after[k + 1] == x);
        }
        if after.contains(x) && x != g {
            let k = choose|k: int| 0 <= k < after.len() && after[k] == x;
            assert(list[k - 1] == x);
        }
    } else {
        let rest = list.drop_first();
        assert(ascending(rest)) by {
            assert forall|i: int, j: int| 0 <= i < j < rest.len() implies receipt::before(
                #[trigger] rest[i],
                #[trigger] rest[j],
            ) by {
                assert(rest[i] == list[i + 1] && rest[j] == list[j + 1]);
            }
        }
        let more = receipt::placed(rest, g);
        lemma_placed(rest, g, x);
        assert(after == seq![list[0]] + more);
        law_strings_are_in_order(list[0], g, g);
        assert forall|i: int, j: int| 0 <= i < j < after.len() implies receipt::before(
            #[trigger] after[i],
            #[trigger] after[j],
        ) by {
            assert(after[j] == more[j - 1]);
            if i == 0 {
                let y = more[j - 1];
                assert(more.contains(y));
                lemma_placed(rest, g, y);
                if y != g {
                    let k = choose|k: int| 0 <= k < rest.len() && rest[k] == y;
                    assert(list[k + 1] == y);
                }
            } else {
                assert(after[i] == more[i - 1]);
            }
        }
        if list.contains(x) {
            let k = choose|k: int| 0 <= k < list.len() && list[k] == x;
            if k == 0 {
                assert(after[0] == x);
            } else {
                assert(rest[k - 1] == x);
            }
        }
        if more.contains(x) {
            let k = choose|k: int| 0 <= k < more.len() && more[k] == x;
            assert(after[k + 1] == x);
        }
        if after.contains(x) {
            let k = choose|k: int| 0 <= k < after.len() && after[k] == x;
            if k == 0 {
                assert(list[0] == x);
            } else {
                assert(more[k - 1] == x);
            }
        }
        if rest.contains(x) {
            let k = choose|k: int| 0 <= k < rest.len() && rest[k] == x;
            assert(list[k + 1] == x);
        }
    }
}

/// The tickets of a receipt are in order, each once, and they are those that
/// somebody came with.
pub proof fn law_every_ticket_is_listed_once(peers: Seq<PeerView>, grant: Seq<char>)
    ensures
        ascending(receipt::grants(peers)),
        receipt::grants(peers).contains(grant) <==> receipt::uses(peers, grant) > 0,
    decreases peers.len(),
{
    if peers.len() > 0 {
        law_every_ticket_is_listed_once(peers.drop_last(), grant);
        lemma_placed(receipt::grants(peers.drop_last()), peers.last().grant, grant);
    }
}

} // verus!
