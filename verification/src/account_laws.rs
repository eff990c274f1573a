//! What a receipt says, from what a share counted to the lines that are read.
use vstd::prelude::*;
use vstd::string::*;

use crate::clock::{self, Moment};
use crate::display;
use crate::figures;
use crate::lines;
use crate::receipt::{self, SummaryView};
use crate::seqs;
use crate::session::{Denied, Transport};
use crate::tally::{DeniedAttempt, Path, PeerView, TurnedAway, TurnedAwayReason};
use crate::text;

verus! {

/// A line that begins with this.
pub open spec fn begins(l: Seq<char>, label: Seq<char>) -> bool {
    l.len() >= label.len() && l.take(label.len() as int) == label
}

/// The lines of a text that begin with this, in their order.
pub open spec fn under(said: Seq<char>, label: Seq<char>) -> Seq<Seq<char>> {
    lines::lines(said).filter(|l: Seq<char>| begins(l, label))
}

/// This line, or none.
pub open spec fn one(there: bool, l: Seq<char>) -> Seq<Seq<char>> {
    if there {
        seq![l]
    } else {
        Seq::empty()
    }
}

/// A transport in words.
pub open spec fn transport_word(t: Transport) -> Seq<char> {
    if t == Transport::P2p {
        "p2p"@
    } else {
        "tunnel"@
    }
}

/// How many peers a relay carried.
pub open spec fn relays(peers: Seq<PeerView>) -> nat {
    peers.filter(|p: PeerView| p.path == Some(Path::Relayed)).len()
}

/// How many attempts were refused for this.
pub open spec fn denials(denied: Seq<DeniedAttempt>, reason: Denied) -> nat {
    denied.filter(|d: DeniedAttempt| d.reason == reason).len()
}

proof fn lemma_relays(peers: Seq<PeerView>)
    ensures
        receipt::relayed(peers) == relays(peers),
    decreases peers.len(),
{
    reveal(Seq::filter);
    if peers.len() > 0 {
        lemma_relays(peers.drop_last());
    }
}

proof fn lemma_denials(denied: Seq<DeniedAttempt>, reason: Denied)
    ensures
        receipt::refused_for(denied, reason) == denials(denied, reason),
    decreases denied.len(),
{
    reveal(Seq::filter);
    if denied.len() > 0 {
        lemma_denials(denied.drop_last(), reason);
    }
}

/// What is shown of a text is in one line.
broadcast proof fn lemma_shown_clear(s: Seq<char>)
    ensures
        #[trigger] seqs::lacks(display::shown(s), '\n'),
{
    assert forall|i: int| 0 <= i < display::shown(s).len() implies display::shown(s)[i] != '\n' by {
        display::law_what_is_shown_is_plain(s, i);
    }
}

/// Lines of one text, all with one label.
spec fn is_part(said: Seq<char>, list: Seq<Seq<char>>, label: Seq<char>) -> bool {
    &&& said == lines::ended(list)
    &&& lines::are_lines(list)
    &&& forall|i: int| 0 <= i < list.len() ==> begins(#[trigger] list[i], label)
}

proof fn lemma_part(said: Seq<char>, there: bool, l: Seq<char>, label: Seq<char>)
    requires
        said == (if there {
            l + seq!['\n']
        } else {
            Seq::empty()
        }),
        there ==> seqs::lacks(l, '\n') && l.len() >= label.len() && l.take(label.len() as int) == label,
    ensures
        is_part(said, one(there, l), label),
{
    lines::lemma_none();
    lines::lemma_one(l);
}

/// A text of lines, of which these are under the label.
#[verifier::opaque]
spec fn is_text(said: Seq<char>, t: Seq<char>, f: Seq<Seq<char>>) -> bool {
    exists|list: Seq<Seq<char>>|
        said == #[trigger] lines::ended(list) && lines::are_lines(list) && list.filter(
            |l: Seq<char>| begins(l, t),
        ) == f
}

/// The lines of a part, where they are asked for.
spec fn found(t: Seq<char>, label: Seq<char>, list: Seq<Seq<char>>) -> Seq<Seq<char>> {
    if t == label {
        list
    } else {
        Seq::empty()
    }
}

proof fn lemma_is(said: Seq<char>, list: Seq<Seq<char>>, label: Seq<char>, t: Seq<char>)
    requires
        is_part(said, list, label),
        t.len() > 0,
        label.len() > 0,
        t.len() == label.len() || t[0] != label[0],
    ensures
        is_text(said, t, found(t, label, list)),
{
    reveal(is_text);
    let with = |l: Seq<char>| begins(l, t);
    if t == label {
        seqs::lemma_filter_all(list, with);
    } else {
        assert forall|i: int| 0 <= i < list.len() implies !with(#[trigger] list[i]) by {
            let l = list[i];
            assert(begins(l, label));
            if with(l) {
                assert(l.take(t.len() as int)[0] == l[0] && l.take(label.len() as int)[0] == l[0]);
            }
        }
        seqs::lemma_filter_none(list, with);
    }
    assert(said == lines::ended(list));
}

proof fn lemma_both(
    x: Seq<char>,
    f: Seq<Seq<char>>,
    y: Seq<char>,
    g: Seq<Seq<char>>,
    t: Seq<char>,
)
    requires
        is_text(x, t, f),
        is_text(y, t, g),
    ensures
        is_text(x + y, t, f + g),
{
    reveal(is_text);
    let with = |l: Seq<char>| begins(l, t);
    let a = choose|list: Seq<Seq<char>>|
        x == #[trigger] lines::ended(list) && lines::are_lines(list) && list.filter(
            |l: Seq<char>| begins(l, t),
        ) == f;
    let b = choose|list: Seq<Seq<char>>|
        y == #[trigger] lines::ended(list) && lines::are_lines(list) && list.filter(
            |l: Seq<char>| begins(l, t),
        ) == g;
    lines::lemma_ended_concat(a, b);
    Seq::filter_distributes_over_add(a, b, with);
    assert(x + y == lines::ended(a + b));
}

proof fn lemma_seen(x: Seq<char>, f: Seq<Seq<char>>, t: Seq<char>)
    requires
        is_text(x, t, f),
        t.len() > 0,
    ensures
        under(x, t) == f,
{
    reveal(is_text);
    let with = |l: Seq<char>| begins(l, t);
    let a = choose|list: Seq<Seq<char>>|
        x == #[trigger] lines::ended(list) && lines::are_lines(list) && list.filter(
            |l: Seq<char>| begins(l, t),
        ) == f;
    lines::lemma_lines(a, Seq::empty());
    a.lemma_filter_push(Seq::<char>::empty(), with);
}

/// Why a connection was turned away, in words.
pub open spec fn why_words(why: TurnedAwayReason) -> Seq<char> {
    match why {
        TurnedAwayReason::NoDirectPath => "no direct path was available"@,
        TurnedAwayReason::NeverGreeted => "connected but never presented a ticket"@,
        TurnedAwayReason::Unparseable => "sent something this share would not parse"@,
        TurnedAwayReason::ForeignOrigin => "came from another page, with this share's cookie attached"@,
        TurnedAwayReason::ServiceWorker => "tried to register a service worker, which would outlive the share"@,
    }
}

proof fn lemma_why_clear(why: TurnedAwayReason)
    ensures
        seqs::lacks(why.spec_str(), '\n'),
        why.spec_str() == why_words(why),
{
    assert(seqs::lacks("no direct path was available"@, '\n')) by {
        reveal_strlit("no direct path was available");
        reveal_with_fuel(lines::clear_from, 42);
        lines::lemma_clear_from("no direct path was available"@, 0);
    }
    assert(seqs::lacks("connected but never presented a ticket"@, '\n')) by {
        reveal_strlit("connected but never presented a ticket");
        reveal_with_fuel(lines::clear_from, 42);
        lines::lemma_clear_from("connected but never presented a ticket"@, 0);
    }
    assert(seqs::lacks("sent something this share would not parse"@, '\n')) by {
        reveal_strlit("sent something this share would not parse");
        reveal_with_fuel(lines::clear_from, 42);
        assert(lines::clear_from("sent something this share would not parse"@, 40));
        lines::lemma_clear_from("sent something this share would not parse"@, 0);
    }
    assert(seqs::lacks("came from another page, with this share's cookie attached"@, '\n')) by {
        reveal_strlit("came from another page, with this share's cookie attached");
        reveal_with_fuel(lines::clear_from, 42);
        assert(lines::clear_from("came from another page, with this share's cookie attached"@, 40));
        lines::lemma_clear_from("came from another page, with this share's cookie attached"@, 0);
    }
    assert(seqs::lacks("tried to register a service worker, which would outlive the share"@, '\n')) by {
        reveal_strlit("tried to register a service worker, which would outlive the share");
        reveal_with_fuel(lines::clear_from, 42);
        assert(lines::clear_from("tried to register a service worker, which would outlive the share"@, 40));
        lines::lemma_clear_from("tried to register a service worker, which would outlive the share"@, 0);
    }
}

/// How many were turned away for this.
pub open spec fn sent_off(turned: Seq<TurnedAway>, why: TurnedAwayReason) -> nat {
    turned.filter(|t: TurnedAway| t.why == why).len()
}

proof fn lemma_sent_off(turned: Seq<TurnedAway>, why: TurnedAwayReason)
    ensures
        receipt::turned_for(turned, why) == sent_off(turned, why),
    decreases turned.len(),
{
    reveal(Seq::filter);
    if turned.len() > 0 {
        lemma_sent_off(turned.drop_last(), why);
    }
}

proof fn lemma_reasons_clear(turned: Seq<TurnedAway>, kinds: Seq<TurnedAwayReason>)
    ensures
        seqs::lacks(receipt::reasons_listed(turned, kinds), '\n'),
    decreases kinds.len(),
{
    broadcast use lines::group_one_line;

    assert(seqs::lacks(" "@, '\n')) by {
        reveal_strlit(" ");
        reveal_with_fuel(lines::clear_from, 42);
        lines::lemma_clear_from(" "@, 0);
    }
    assert(seqs::lacks(", "@, '\n')) by {
        reveal_strlit(", ");
        reveal_with_fuel(lines::clear_from, 42);
        lines::lemma_clear_from(", "@, 0);
    }
    if kinds.len() > 0 {
        lemma_why_clear(kinds[0]);
        lemma_why_clear(kinds.last());
        lemma_reasons_clear(turned, kinds.drop_last());
    }
}

/// The reasons for which connections were turned away are listed with a comma
/// between them, each with the number of those that it was the reason for.
pub proof fn law_each_reason_has_its_count(turned: Seq<TurnedAway>)
    ensures
        receipt::reasons_part(turned) == seqs::join(
            receipt::reasons(turned).map_values(
                |why: TurnedAwayReason| text::decimal(sent_off(turned, why)) + " "@ + why_words(why),
            ),
            ", "@,
        ),
{
    lemma_each_reason(turned, receipt::reasons(turned));
}

proof fn lemma_each_reason(turned: Seq<TurnedAway>, kinds: Seq<TurnedAwayReason>)
    ensures
        receipt::reasons_listed(turned, kinds) == seqs::join(
            kinds.map_values(
                |why: TurnedAwayReason| text::decimal(sent_off(turned, why)) + " "@ + why_words(why),
            ),
            ", "@,
        ),
    decreases kinds.len(),
{
    let row = |why: TurnedAwayReason| text::decimal(sent_off(turned, why)) + " "@ + why_words(why);
    if kinds.len() > 0 {
        lemma_sent_off(turned, kinds[0]);
        lemma_sent_off(turned, kinds.last());
        lemma_why_clear(kinds[0]);
        lemma_why_clear(kinds.last());
        lemma_each_reason(turned, kinds.drop_last());
        assert(kinds.map_values(row).drop_last() =~= kinds.drop_last().map_values(row));
    }
}

/// The line of a receipt that begins with `share ses`.
pub open spec fn head_line(s: SummaryView) -> Seq<char> {
    "share session, "@ + text::decimal(s.length() as nat) + "s ("@ + transport_word(s.transport) + " transport)"@
}

proof fn lemma_head(s: SummaryView)
    ensures
        is_part(receipt::head_line(s), one(true, head_line(s)), "share ses"@),
{
    broadcast use lines::group_one_line;
    broadcast use lemma_shown_clear;

    assert(seqs::lacks("share session, "@, '\n')) by {
        reveal_strlit("share session, ");
        reveal_with_fuel(lines::clear_from, 42);
        lines::lemma_clear_from("share session, "@, 0);
    }
    assert(seqs::lacks("s ("@, '\n')) by {
        reveal_strlit("s (");
        reveal_with_fuel(lines::clear_from, 42);
        lines::lemma_clear_from("s ("@, 0);
    }
    assert(seqs::lacks(" transport)"@, '\n')) by {
        reveal_strlit(" transport)");
        reveal_with_fuel(lines::clear_from, 42);
        lines::lemma_clear_from(" transport)"@, 0);
    }
    assert(" transport)\n"@ =~= " transport)"@ + seq!['\n']) by {
        reveal_strlit(" transport)\n");
        reveal_strlit(" transport)");
    }
    assert(seqs::lacks(transport_word(s.transport), '\n')) by {
        reveal_strlit("p2p");
        reveal_strlit("tunnel");
    }
    let l = head_line(s);
    assert(l.len() >= 9 && l.take(9) =~= "share ses"@) by {
        reveal_strlit("share ses");
        reveal_strlit("share session, ");
    }
    assert(receipt::head_line(s) =~= l + seq!['\n']);
    lemma_part(receipt::head_line(s), true, l, "share ses"@);
}

/// The line of a receipt that begins with `opened`.
pub open spec fn opened_line(at: Seq<char>) -> Seq<char> {
    "opened   "@ + at
}

proof fn lemma_opened(at: Seq<char>)
    requires
        seqs::lacks(at, '\n'),
    ensures
        is_part(receipt::time_line("opened   "@, at), one(true, opened_line(at)), "opened   "@),
{
    broadcast use lines::group_one_line;
    broadcast use lemma_shown_clear;

    assert(seqs::lacks("opened   "@, '\n')) by {
        reveal_strlit("opened   ");
        reveal_with_fuel(lines::clear_from, 42);
        lines::lemma_clear_from("opened   "@, 0);
    }
    assert("\n"@ =~= seq!['\n']) by {
        reveal_strlit("\n");
    }
    let l = opened_line(at);
    assert(l.len() >= 9 && l.take(9) =~= "opened   "@) by {
        reveal_strlit("opened   ");
    }
    assert(receipt::time_line("opened   "@, at) =~= l + seq!['\n']);
    lemma_part(receipt::time_line("opened   "@, at), true, l, "opened   "@);
}

/// The line of a receipt that begins with `closed`.
pub open spec fn closed_line(at: Seq<char>) -> Seq<char> {
    "closed   "@ + at
}

proof fn lemma_closed(at: Seq<char>)
    requires
        seqs::lacks(at, '\n'),
    ensures
        is_part(receipt::time_line("closed   "@, at), one(true, closed_line(at)), "closed   "@),
{
    broadcast use lines::group_one_line;
    broadcast use lemma_shown_clear;

    assert(seqs::lacks("closed   "@, '\n')) by {
        reveal_strlit("closed   ");
        reveal_with_fuel(lines::clear_from, 42);
        lines::lemma_clear_from("closed   "@, 0);
    }
    assert("\n"@ =~= seq!['\n']) by {
        reveal_strlit("\n");
    }
    let l = closed_line(at);
    assert(l.len() >= 9 && l.take(9) =~= "closed   "@) by {
        reveal_strlit("closed   ");
    }
    assert(receipt::time_line("closed   "@, at) =~= l + seq!['\n']);
    lemma_part(receipt::time_line("closed   "@, at), true, l, "closed   "@);
}

/// The line of a receipt that begins with `shared`.
pub open spec fn port_line(s: SummaryView) -> Seq<char> {
    "shared   port "@ + text::decimal(s.port as nat) + " inside the box, never published on the host"@
}

proof fn lemma_port(s: SummaryView)
    ensures
        is_part(receipt::port_line(s), one(true, port_line(s)), "shared   "@),
{
    broadcast use lines::group_one_line;
    broadcast use lemma_shown_clear;

    assert(seqs::lacks("shared   port "@, '\n')) by {
        reveal_strlit("shared   port ");
        reveal_with_fuel(lines::clear_from, 42);
        lines::lemma_clear_from("shared   port "@, 0);
    }
    assert(seqs::lacks(" inside the box, never published on the host"@, '\n')) by {
        reveal_strlit(" inside the box, never published on the host");
        reveal_with_fuel(lines::clear_from, 42);
        assert(lines::clear_from(" inside the box, never published on the host"@, 40));
        lines::lemma_clear_from(" inside the box, never published on the host"@, 0);
    }
    assert(" inside the box, never published on the host\n"@ =~= " inside the box, never published on the host"@ + seq!['\n']) by {
        reveal_strlit(" inside the box, never published on the host\n");
        reveal_strlit(" inside the box, never published on the host");
    }
    let l = port_line(s);
    assert(l.len() >= 9 && l.take(9) =~= "shared   "@) by {
        reveal_strlit("shared   ");
        reveal_strlit("shared   port ");
    }
    assert(receipt::port_line(s) =~= l + seq!['\n']);
    lemma_part(receipt::port_line(s), true, l, "shared   "@);
}

/// The line of a receipt that begins with `endpoint`.
pub open spec fn endpoint_line(s: SummaryView) -> Seq<char> {
    "endpoint "@ + display::shown(s.endpoint)
}

proof fn lemma_endpoint(s: SummaryView)
    ensures
        is_part(receipt::endpoint_line(s), one(true, endpoint_line(s)), "endpoint "@),
{
    broadcast use lines::group_one_line;
    broadcast use lemma_shown_clear;

    assert(seqs::lacks("endpoint "@, '\n')) by {
        reveal_strlit("endpoint ");
        reveal_with_fuel(lines::clear_from, 42);
        lines::lemma_clear_from("endpoint "@, 0);
    }
    assert("\n"@ =~= seq!['\n']) by {
        reveal_strlit("\n");
    }
    let l = endpoint_line(s);
    assert(l.len() >= 9 && l.take(9) =~= "endpoint "@) by {
        reveal_strlit("endpoint ");
    }
    assert(receipt::endpoint_line(s) =~= l + seq!['\n']);
    lemma_part(receipt::endpoint_line(s), true, l, "endpoint "@);
}

/// The line of a receipt that begins with `note`.
pub open spec fn note_line(s: SummaryView) -> Seq<char> {
    "note     a Cloudflare quick tunnel terminated TLS, so this traffic was not end-to-end encrypted"@
}

proof fn lemma_note(s: SummaryView)
    ensures
        is_part(receipt::tunnel_line(s), one(s.transport == Transport::Tunnel, note_line(s)), "note     "@),
{
    broadcast use lines::group_one_line;
    broadcast use lemma_shown_clear;

    assert(seqs::lacks("note     a Cloudflare quick tunnel terminated TLS, so this traffic was not end-to-end encrypted"@, '\n')) by {
        reveal_strlit("note     a Cloudflare quick tunnel terminated TLS, so this traffic was not end-to-end encrypted");
        reveal_with_fuel(lines::clear_from, 42);
        assert(lines::clear_from("note     a Cloudflare quick tunnel terminated TLS, so this traffic was not end-to-end encrypted"@, 80));
        assert(lines::clear_from("note     a Cloudflare quick tunnel terminated TLS, so this traffic was not end-to-end encrypted"@, 40));
        lines::lemma_clear_from("note     a Cloudflare quick tunnel terminated TLS, so this traffic was not end-to-end encrypted"@, 0);
    }
    assert("note     a Cloudflare quick tunnel terminated TLS, so this traffic was not end-to-end encrypted\n"@ =~= "note     a Cloudflare quick tunnel terminated TLS, so this traffic was not end-to-end encrypted"@ + seq!['\n']) by {
        reveal_strlit("note     a Cloudflare quick tunnel terminated TLS, so this traffic was not end-to-end encrypted\n");
        reveal_strlit("note     a Cloudflare quick tunnel terminated TLS, so this traffic was not end-to-end encrypted");
    }
    let l = note_line(s);
    assert(l.len() >= 9 && l.take(9) =~= "note     "@) by {
        reveal_strlit("note     ");
        reveal_strlit("note     a Cloudflare quick tunnel terminated TLS, so this traffic was not end-to-end encrypted");
    }
    if s.transport == Transport::Tunnel {
        assert(receipt::tunnel_line(s) =~= l + seq!['\n']);
    }
    lemma_part(receipt::tunnel_line(s), s.transport == Transport::Tunnel, l, "note     "@);
}

/// The line of a receipt that begins with `ended`.
pub open spec fn failure_line(s: SummaryView) -> Seq<char> {
    "ended    badly: "@ + display::shown(s.failed_because->Some_0)
}

proof fn lemma_failure(s: SummaryView)
    ensures
        is_part(receipt::failure_line(s), one(s.failed_because is Some, failure_line(s)), "ended    "@),
{
    broadcast use lines::group_one_line;
    broadcast use lemma_shown_clear;

    assert(seqs::lacks("ended    badly: "@, '\n')) by {
        reveal_strlit("ended    badly: ");
        reveal_with_fuel(lines::clear_from, 42);
        lines::lemma_clear_from("ended    badly: "@, 0);
    }
    assert("\n"@ =~= seq!['\n']) by {
        reveal_strlit("\n");
    }
    let l = failure_line(s);
    assert(l.len() >= 9 && l.take(9) =~= "ended    "@) by {
        reveal_strlit("ended    ");
        reveal_strlit("ended    badly: ");
    }
    if s.failed_because is Some {
        assert(receipt::failure_line(s) =~= l + seq!['\n']);
    }
    lemma_part(receipt::failure_line(s), s.failed_because is Some, l, "ended    "@);
}

/// The line of a receipt that begins with `partial`.
pub open spec fn partial_line(s: SummaryView) -> Seq<char> {
    "partial  this was written before every connection had finished, so the byte counts below are short and a peer may read as still connected"@
}

proof fn lemma_partial(s: SummaryView)
    ensures
        is_part(receipt::partial_line(s), one(!s.settled, partial_line(s)), "partial  "@),
{
    broadcast use lines::group_one_line;
    broadcast use lemma_shown_clear;

    assert(seqs::lacks("partial  this was written before every connection had finished, so the byte counts below are short and a peer may read as still connected"@, '\n')) by {
        reveal_strlit("partial  this was written before every connection had finished, so the byte counts below are short and a peer may read as still connected");
        reveal_with_fuel(lines::clear_from, 42);
        assert(lines::clear_from("partial  this was written before every connection had finished, so the byte counts below are short and a peer may read as still connected"@, 120));
        assert(lines::clear_from("partial  this was written before every connection had finished, so the byte counts below are short and a peer may read as still connected"@, 80));
        assert(lines::clear_from("partial  this was written before every connection had finished, so the byte counts below are short and a peer may read as still connected"@, 40));
        lines::lemma_clear_from("partial  this was written before every connection had finished, so the byte counts below are short and a peer may read as still connected"@, 0);
    }
    assert("partial  this was written before every connection had finished, so the byte counts below are short and a peer may read as still connected\n"@ =~= "partial  this was written before every connection had finished, so the byte counts below are short and a peer may read as still connected"@ + seq!['\n']) by {
        reveal_strlit("partial  this was written before every connection had finished, so the byte counts below are short and a peer may read as still connected\n");
        reveal_strlit("partial  this was written before every connection had finished, so the byte counts below are short and a peer may read as still connected");
    }
    let l = partial_line(s);
    assert(l.len() >= 9 && l.take(9) =~= "partial  "@) by {
        reveal_strlit("partial  ");
        reveal_strlit("partial  this was written before every connection had finished, so the byte counts below are short and a peer may read as still connected");
    }
    if !s.settled {
        assert(receipt::partial_line(s) =~= l + seq!['\n']);
    }
    lemma_part(receipt::partial_line(s), !s.settled, l, "partial  "@);
}

/// The line of a receipt that begins with `relay`.
pub open spec fn relay_line(s: SummaryView) -> Seq<char> {
    "relay    "@ + text::decimal(relays(s.peers)) + " peer(s) used a relay. It moved sealed packets and could not read them."@
}

proof fn lemma_relay(s: SummaryView)
    ensures
        is_part(receipt::relay_line(receipt::relayed(s.peers)), one(relays(s.peers) > 0, relay_line(s)), "relay    "@),
{
    broadcast use lines::group_one_line;
    broadcast use lemma_shown_clear;

    assert(seqs::lacks("relay    "@, '\n')) by {
        reveal_strlit("relay    ");
        reveal_with_fuel(lines::clear_from, 42);
        lines::lemma_clear_from("relay    "@, 0);
    }
    assert(seqs::lacks(" peer(s) used a relay. It moved sealed packets and could not read them."@, '\n')) by {
        reveal_strlit(" peer(s) used a relay. It moved sealed packets and could not read them.");
        reveal_with_fuel(lines::clear_from, 42);
        assert(lines::clear_from(" peer(s) used a relay. It moved sealed packets and could not read them."@, 40));
        lines::lemma_clear_from(" peer(s) used a relay. It moved sealed packets and could not read them."@, 0);
    }
    assert(" peer(s) used a relay. It moved sealed packets and could not read them.\n"@ =~= " peer(s) used a relay. It moved sealed packets and could not read them."@ + seq!['\n']) by {
        reveal_strlit(" peer(s) used a relay. It moved sealed packets and could not read them.\n");
        reveal_strlit(" peer(s) used a relay. It moved sealed packets and could not read them.");
    }
    lemma_relays(s.peers);
    let l = relay_line(s);
    assert(l.len() >= 9 && l.take(9) =~= "relay    "@) by {
        reveal_strlit("relay    ");
    }
    if relays(s.peers) > 0 {
        assert(receipt::relay_line(receipt::relayed(s.peers)) =~= l + seq!['\n']);
    }
    lemma_part(receipt::relay_line(receipt::relayed(s.peers)), relays(s.peers) > 0, l, "relay    "@);
}

/// The line of a receipt that begins with `capacity`.
pub open spec fn capacity_line(s: SummaryView) -> Seq<char> {
    "capacity "@ + text::decimal(s.over_capacity as nat) + " connection(s) refused because "@ + text::decimal(64) + " were already reaching the box"@
}

proof fn lemma_capacity(s: SummaryView)
    ensures
        is_part(receipt::capacity_line(s), one(s.over_capacity > 0, capacity_line(s)), "capacity "@),
{
    broadcast use lines::group_one_line;
    broadcast use lemma_shown_clear;

    assert(seqs::lacks("capacity "@, '\n')) by {
        reveal_strlit("capacity ");
        reveal_with_fuel(lines::clear_from, 42);
        lines::lemma_clear_from("capacity "@, 0);
    }
    assert(seqs::lacks(" connection(s) refused because "@, '\n')) by {
        reveal_strlit(" connection(s) refused because ");
        reveal_with_fuel(lines::clear_from, 42);
        lines::lemma_clear_from(" connection(s) refused because "@, 0);
    }
    assert(seqs::lacks(" were already reaching the box"@, '\n')) by {
        reveal_strlit(" were already reaching the box");
        reveal_with_fuel(lines::clear_from, 42);
        lines::lemma_clear_from(" were already reaching the box"@, 0);
    }
    assert(" were already reaching the box\n"@ =~= " were already reaching the box"@ + seq!['\n']) by {
        reveal_strlit(" were already reaching the box\n");
        reveal_strlit(" were already reaching the box");
    }
    let l = capacity_line(s);
    assert(l.len() >= 9 && l.take(9) =~= "capacity "@) by {
        reveal_strlit("capacity ");
    }
    if s.over_capacity > 0 {
        assert(receipt::capacity_line(s) =~= l + seq!['\n']);
    }
    lemma_part(receipt::capacity_line(s), s.over_capacity > 0, l, "capacity "@);
}

/// The line of a receipt that begins with `flooded`.
pub open spec fn flooded_line(s: SummaryView) -> Seq<char> {
    "flooded  "@ + text::decimal(s.front_refused as nat) + " connection(s) refused at the front door, before any credential was asked for"@
}

proof fn lemma_flooded(s: SummaryView)
    ensures
        is_part(receipt::flooded_line(s), one(s.front_refused > 0, flooded_line(s)), "flooded  "@),
{
    broadcast use lines::group_one_line;
    broadcast use lemma_shown_clear;

    assert(seqs::lacks("flooded  "@, '\n')) by {
        reveal_strlit("flooded  ");
        reveal_with_fuel(lines::clear_from, 42);
        lines::lemma_clear_from("flooded  "@, 0);
    }
    assert(seqs::lacks(" connection(s) refused at the front door, before any credential was asked for"@, '\n')) by {
        reveal_strlit(" connection(s) refused at the front door, before any credential was asked for");
        reveal_with_fuel(lines::clear_from, 42);
        assert(lines::clear_from(" connection(s) refused at the front door, before any credential was asked for"@, 40));
        lines::lemma_clear_from(" connection(s) refused at the front door, before any credential was asked for"@, 0);
    }
    assert(" connection(s) refused at the front door, before any credential was asked for\n"@ =~= " connection(s) refused at the front door, before any credential was asked for"@ + seq!['\n']) by {
        reveal_strlit(" connection(s) refused at the front door, before any credential was asked for\n");
        reveal_strlit(" connection(s) refused at the front door, before any credential was asked for");
    }
    let l = flooded_line(s);
    assert(l.len() >= 9 && l.take(9) =~= "flooded  "@) by {
        reveal_strlit("flooded  ");
    }
    if s.front_refused > 0 {
        assert(receipt::flooded_line(s) =~= l + seq!['\n']);
    }
    lemma_part(receipt::flooded_line(s), s.front_refused > 0, l, "flooded  "@);
}

/// The line of a receipt that begins with `truncated`.
pub open spec fn truncated_line(s: SummaryView) -> Seq<char> {
    "truncated "@ + text::decimal(s.truncated as nat) + " response(s) the box left unfinished, so what the visitor got was incomplete"@
}

proof fn lemma_truncated(s: SummaryView)
    ensures
        is_part(receipt::truncated_line(s), one(s.truncated > 0, truncated_line(s)), "truncated"@),
{
    broadcast use lines::group_one_line;
    broadcast use lemma_shown_clear;

    assert(seqs::lacks("truncated "@, '\n')) by {
        reveal_strlit("truncated ");
        reveal_with_fuel(lines::clear_from, 42);
        lines::lemma_clear_from("truncated "@, 0);
    }
    assert(seqs::lacks(" response(s) the box left unfinished, so what the visitor got was incomplete"@, '\n')) by {
        reveal_strlit(" response(s) the box left unfinished, so what the visitor got was incomplete");
        reveal_with_fuel(lines::clear_from, 42);
        assert(lines::clear_from(" response(s) the box left unfinished, so what the visitor got was incomplete"@, 40));
        lines::lemma_clear_from(" response(s) the box left unfinished, so what the visitor got was incomplete"@, 0);
    }
    assert(" response(s) the box left unfinished, so what the visitor got was incomplete\n"@ =~= " response(s) the box left unfinished, so what the visitor got was incomplete"@ + seq!['\n']) by {
        reveal_strlit(" response(s) the box left unfinished, so what the visitor got was incomplete\n");
        reveal_strlit(" response(s) the box left unfinished, so what the visitor got was incomplete");
    }
    let l = truncated_line(s);
    assert(l.len() >= 9 && l.take(9) =~= "truncated"@) by {
        reveal_strlit("truncated");
        reveal_strlit("truncated ");
    }
    if s.truncated > 0 {
        assert(receipt::truncated_line(s) =~= l + seq!['\n']);
    }
    lemma_part(receipt::truncated_line(s), s.truncated > 0, l, "truncated"@);
}

/// The line of a receipt that begins with `turned`.
pub open spec fn turned_line(s: SummaryView) -> Seq<char> {
    "turned   "@ + text::decimal(s.turned_away.len() + s.turned_away_overflow as nat) + " connection(s) away before any ticket was weighed"@ + unlisted(s.turned_away_overflow as nat) + ": of the "@ + text::decimal(s.turned_away.len()) + " recorded, "@ + receipt::reasons_part(s.turned_away)
}

proof fn lemma_turned(s: SummaryView)
    ensures
        is_part(receipt::turned_line(s), one(s.turned_away.len() > 0, turned_line(s)), "turned   "@),
{
    broadcast use lines::group_one_line;
    broadcast use lemma_shown_clear;

    assert(seqs::lacks("turned   "@, '\n')) by {
        reveal_strlit("turned   ");
        reveal_with_fuel(lines::clear_from, 42);
        lines::lemma_clear_from("turned   "@, 0);
    }
    assert(seqs::lacks(" connection(s) away before any ticket was weighed"@, '\n')) by {
        reveal_strlit(" connection(s) away before any ticket was weighed");
        reveal_with_fuel(lines::clear_from, 42);
        assert(lines::clear_from(" connection(s) away before any ticket was weighed"@, 40));
        lines::lemma_clear_from(" connection(s) away before any ticket was weighed"@, 0);
    }
    assert(seqs::lacks(": of the "@, '\n')) by {
        reveal_strlit(": of the ");
        reveal_with_fuel(lines::clear_from, 42);
        lines::lemma_clear_from(": of the "@, 0);
    }
    assert(seqs::lacks(" recorded, "@, '\n')) by {
        reveal_strlit(" recorded, ");
        reveal_with_fuel(lines::clear_from, 42);
        lines::lemma_clear_from(" recorded, "@, 0);
    }
    assert("\n"@ =~= seq!['\n']) by {
        reveal_strlit("\n");
    }
    lemma_reasons_clear(s.turned_away, receipt::reasons(s.turned_away));
    lemma_unlisted(s.turned_away_overflow as nat);
    let l = turned_line(s);
    assert(l.len() >= 9 && l.take(9) =~= "turned   "@) by {
        reveal_strlit("turned   ");
    }
    if s.turned_away.len() > 0 {
        assert(receipt::turned_line(s) =~= l + seq!['\n']);
    }
    lemma_part(receipt::turned_line(s), s.turned_away.len() > 0, l, "turned   "@);
}

/// The line of a receipt that begins with `route`.
pub open spec fn route_line(s: SummaryView) -> Seq<char> {
    "route    "@ + text::decimal(s.route_broken as nat) + " connection(s) were authorized and then h5i could not reach the box at all"@
}

proof fn lemma_route(s: SummaryView)
    ensures
        is_part(receipt::route_line(s), one(s.route_broken > 0, route_line(s)), "route    "@),
{
    broadcast use lines::group_one_line;
    broadcast use lemma_shown_clear;

    assert(seqs::lacks("route    "@, '\n')) by {
        reveal_strlit("route    ");
        reveal_with_fuel(lines::clear_from, 42);
        lines::lemma_clear_from("route    "@, 0);
    }
    assert(seqs::lacks(" connection(s) were authorized and then h5i could not reach the box at all"@, '\n')) by {
        reveal_strlit(" connection(s) were authorized and then h5i could not reach the box at all");
        reveal_with_fuel(lines::clear_from, 42);
        assert(lines::clear_from(" connection(s) were authorized and then h5i could not reach the box at all"@, 40));
        lines::lemma_clear_from(" connection(s) were authorized and then h5i could not reach the box at all"@, 0);
    }
    assert(" connection(s) were authorized and then h5i could not reach the box at all\n"@ =~= " connection(s) were authorized and then h5i could not reach the box at all"@ + seq!['\n']) by {
        reveal_strlit(" connection(s) were authorized and then h5i could not reach the box at all\n");
        reveal_strlit(" connection(s) were authorized and then h5i could not reach the box at all");
    }
    let l = route_line(s);
    assert(l.len() >= 9 && l.take(9) =~= "route    "@) by {
        reveal_strlit("route    ");
    }
    if s.route_broken > 0 {
        assert(receipt::route_line(s) =~= l + seq!['\n']);
    }
    lemma_part(receipt::route_line(s), s.route_broken > 0, l, "route    "@);
}

/// The line of a receipt that begins with `unreached`.
pub open spec fn unreached_line(s: SummaryView) -> Seq<char> {
    "unreached "@ + text::decimal(s.unreachable as nat) + " connection(s) were authorized but found nothing listening on port "@ + text::decimal(s.port as nat)
}

proof fn lemma_unreached(s: SummaryView)
    ensures
        is_part(receipt::unreached_line(s), one(s.unreachable > 0, unreached_line(s)), "unreached"@),
{
    broadcast use lines::group_one_line;
    broadcast use lemma_shown_clear;

    assert(seqs::lacks("unreached "@, '\n')) by {
        reveal_strlit("unreached ");
        reveal_with_fuel(lines::clear_from, 42);
        lines::lemma_clear_from("unreached "@, 0);
    }
    assert(seqs::lacks(" connection(s) were authorized but found nothing listening on port "@, '\n')) by {
        reveal_strlit(" connection(s) were authorized but found nothing listening on port ");
        reveal_with_fuel(lines::clear_from, 42);
        assert(lines::clear_from(" connection(s) were authorized but found nothing listening on port "@, 40));
        lines::lemma_clear_from(" connection(s) were authorized but found nothing listening on port "@, 0);
    }
    assert("\n"@ =~= seq!['\n']) by {
        reveal_strlit("\n");
    }
    let l = unreached_line(s);
    assert(l.len() >= 9 && l.take(9) =~= "unreached"@) by {
        reveal_strlit("unreached");
        reveal_strlit("unreached ");
    }
    if s.unreachable > 0 {
        assert(receipt::unreached_line(s) =~= l + seq!['\n']);
    }
    lemma_part(receipt::unreached_line(s), s.unreachable > 0, l, "unreached"@);
}

/// The line of a receipt that begins with `refused`.
pub open spec fn refused_line(s: SummaryView) -> Seq<char> {
    "refused  "@ + text::decimal(s.denied.len() + s.denied_overflow as nat) + " attempt(s)"@ + unlisted(s.denied_overflow as nat) + ": of the "@ + text::decimal(s.denied.len()) + " recorded, "@ + text::decimal(denials(s.denied, Denied::NoCredential)) + " presented no invite, "@ + text::decimal(denials(s.denied, Denied::Unknown)) + " an unknown ticket, "@ + text::decimal(denials(s.denied, Denied::Expired)) + " expired, "@ + text::decimal(denials(s.denied, Denied::Revoked)) + " revoked"@ + unweighed(denials(s.denied, Denied::TableUnreadable)) + late(denials(s.denied, Denied::ShareOver))
}

proof fn lemma_refused(s: SummaryView)
    ensures
        is_part(receipt::refused_line(s), one(s.denied.len() > 0, refused_line(s)), "refused  "@),
{
    broadcast use lines::group_one_line;
    broadcast use lemma_shown_clear;

    assert(seqs::lacks("refused  "@, '\n')) by {
        reveal_strlit("refused  ");
        reveal_with_fuel(lines::clear_from, 42);
        lines::lemma_clear_from("refused  "@, 0);
    }
    assert(seqs::lacks(" attempt(s)"@, '\n')) by {
        reveal_strlit(" attempt(s)");
        reveal_with_fuel(lines::clear_from, 42);
        lines::lemma_clear_from(" attempt(s)"@, 0);
    }
    assert(seqs::lacks(": of the "@, '\n')) by {
        reveal_strlit(": of the ");
        reveal_with_fuel(lines::clear_from, 42);
        lines::lemma_clear_from(": of the "@, 0);
    }
    assert(seqs::lacks(" recorded, "@, '\n')) by {
        reveal_strlit(" recorded, ");
        reveal_with_fuel(lines::clear_from, 42);
        lines::lemma_clear_from(" recorded, "@, 0);
    }
    assert(seqs::lacks(" presented no invite, "@, '\n')) by {
        reveal_strlit(" presented no invite, ");
        reveal_with_fuel(lines::clear_from, 42);
        lines::lemma_clear_from(" presented no invite, "@, 0);
    }
    assert(seqs::lacks(" an unknown ticket, "@, '\n')) by {
        reveal_strlit(" an unknown ticket, ");
        reveal_with_fuel(lines::clear_from, 42);
        lines::lemma_clear_from(" an unknown ticket, "@, 0);
    }
    assert(seqs::lacks(" expired, "@, '\n')) by {
        reveal_strlit(" expired, ");
        reveal_with_fuel(lines::clear_from, 42);
        lines::lemma_clear_from(" expired, "@, 0);
    }
    assert(seqs::lacks(" revoked"@, '\n')) by {
        reveal_strlit(" revoked");
        reveal_with_fuel(lines::clear_from, 42);
        lines::lemma_clear_from(" revoked"@, 0);
    }
    assert("\n"@ =~= seq!['\n']) by {
        reveal_strlit("\n");
    }
    lemma_denials(s.denied, Denied::NoCredential);
    lemma_denials(s.denied, Denied::Unknown);
    lemma_denials(s.denied, Denied::Expired);
    lemma_denials(s.denied, Denied::Revoked);
    lemma_denials(s.denied, Denied::TableUnreadable);
    lemma_denials(s.denied, Denied::ShareOver);
    lemma_unlisted(s.denied_overflow as nat);
    lemma_unweighed(denials(s.denied, Denied::TableUnreadable));
    lemma_late(denials(s.denied, Denied::ShareOver));
    let l = refused_line(s);
    assert(l.len() >= 9 && l.take(9) =~= "refused  "@) by {
        reveal_strlit("refused  ");
    }
    if s.denied.len() > 0 {
        assert(receipt::refused_line(s) =~= l + seq!['\n']);
    }
    lemma_part(receipt::refused_line(s), s.denied.len() > 0, l, "refused  "@);
}

/// The line of a receipt that tells of a clock.
pub open spec fn clock_line(s: SummaryView) -> Seq<char> {
    if s.clock_moved != 0 {
        "clock    this machine's clock jumped "@ + (if s.clock_moved < 0 {
            "back"@
        } else {
            "forward"@
        }) + " "@ + text::decimal(if s.clock_moved < 0 {
            (-s.clock_moved) as nat
        } else {
            s.clock_moved as nat
        }) + "s during the session — the length above is measured, but the two timestamps and each peer's held time are clock readings and are off by that much"@
    } else {
        "clock    the timestamps above are "@ + figures::signed(clock::whole_seconds(s.ended, s.started)) + "s apart and the session was measured at "@ + text::decimal(s.length() as nat) + "s — this machine's wall clock and its elapsed-time clock run at different rates. Nothing jumped; the length is the measured one"@
    }
}

/// There is something to tell of a clock: it jumped, or it and the length that
/// was measured are five seconds and two in a hundred apart.
pub open spec fn clock_tells(s: SummaryView) -> bool {
    let span = clock::whole_seconds(s.ended, s.started);
    s.clock_moved != 0 || ((span - s.length() >= 5 || s.length() - span >= 5) && (50 * (span
        - s.length()) >= s.length() || 50 * (s.length() - span) >= s.length()))
}

proof fn lemma_clock(s: SummaryView)
    ensures
        is_part(receipt::clock_part(s), one(clock_tells(s), clock_line(s)), "clock    "@),
{
    broadcast use lines::group_one_line;

    assert(seqs::lacks("clock    this machine's clock jumped "@, '\n')) by {
        reveal_strlit("clock    this machine's clock jumped ");
        reveal_with_fuel(lines::clear_from, 42);
        lines::lemma_clear_from("clock    this machine's clock jumped "@, 0);
    }
    assert(seqs::lacks("back"@, '\n')) by {
        reveal_strlit("back");
        reveal_with_fuel(lines::clear_from, 42);
        lines::lemma_clear_from("back"@, 0);
    }
    assert(seqs::lacks("forward"@, '\n')) by {
        reveal_strlit("forward");
        reveal_with_fuel(lines::clear_from, 42);
        lines::lemma_clear_from("forward"@, 0);
    }
    assert(seqs::lacks(" "@, '\n')) by {
        reveal_strlit(" ");
        reveal_with_fuel(lines::clear_from, 42);
        lines::lemma_clear_from(" "@, 0);
    }
    assert(seqs::lacks("s during the session — the length above is measured, but the two timestamps and each peer's held time are clock readings and are off by that much"@, '\n')) by {
        reveal_strlit("s during the session — the length above is measured, but the two timestamps and each peer's held time are clock readings and are off by that much");
        reveal_with_fuel(lines::clear_from, 42);
        assert(lines::clear_from("s during the session — the length above is measured, but the two timestamps and each peer's held time are clock readings and are off by that much"@, 120));
        assert(lines::clear_from("s during the session — the length above is measured, but the two timestamps and each peer's held time are clock readings and are off by that much"@, 80));
        assert(lines::clear_from("s during the session — the length above is measured, but the two timestamps and each peer's held time are clock readings and are off by that much"@, 40));
        lines::lemma_clear_from("s during the session — the length above is measured, but the two timestamps and each peer's held time are clock readings and are off by that much"@, 0);
    }
    assert(seqs::lacks("clock    the timestamps above are "@, '\n')) by {
        reveal_strlit("clock    the timestamps above are ");
        reveal_with_fuel(lines::clear_from, 42);
        lines::lemma_clear_from("clock    the timestamps above are "@, 0);
    }
    assert(seqs::lacks("s apart and the session was measured at "@, '\n')) by {
        reveal_strlit("s apart and the session was measured at ");
        reveal_with_fuel(lines::clear_from, 42);
        lines::lemma_clear_from("s apart and the session was measured at "@, 0);
    }
    assert(seqs::lacks("s — this machine's wall clock and its elapsed-time clock run at different rates. Nothing jumped; the length is the measured one"@, '\n')) by {
        reveal_strlit("s — this machine's wall clock and its elapsed-time clock run at different rates. Nothing jumped; the length is the measured one");
        reveal_with_fuel(lines::clear_from, 42);
        assert(lines::clear_from("s — this machine's wall clock and its elapsed-time clock run at different rates. Nothing jumped; the length is the measured one"@, 120));
        assert(lines::clear_from("s — this machine's wall clock and its elapsed-time clock run at different rates. Nothing jumped; the length is the measured one"@, 80));
        assert(lines::clear_from("s — this machine's wall clock and its elapsed-time clock run at different rates. Nothing jumped; the length is the measured one"@, 40));
        lines::lemma_clear_from("s — this machine's wall clock and its elapsed-time clock run at different rates. Nothing jumped; the length is the measured one"@, 0);
    }
    assert(seqs::lacks("-"@, '\n')) by {
        reveal_strlit("-");
        reveal_with_fuel(lines::clear_from, 42);
        lines::lemma_clear_from("-"@, 0);
    }
    assert("s during the session — the length above is measured, but the two timestamps and each peer's held time are clock readings and are off by that much\n"@ =~= "s during the session — the length above is measured, but the two timestamps and each peer's held time are clock readings and are off by that much"@ + seq!['\n']) by {
        reveal_strlit("s during the session — the length above is measured, but the two timestamps and each peer's held time are clock readings and are off by that much\n");
        reveal_strlit("s during the session — the length above is measured, but the two timestamps and each peer's held time are clock readings and are off by that much");
    }
    assert("s — this machine's wall clock and its elapsed-time clock run at different rates. Nothing jumped; the length is the measured one\n"@ =~= "s — this machine's wall clock and its elapsed-time clock run at different rates. Nothing jumped; the length is the measured one"@ + seq!['\n']) by {
        reveal_strlit("s — this machine's wall clock and its elapsed-time clock run at different rates. Nothing jumped; the length is the measured one\n");
        reveal_strlit("s — this machine's wall clock and its elapsed-time clock run at different rates. Nothing jumped; the length is the measured one");
    }
    let l = clock_line(s);
    assert(l.len() >= 9 && l.take(9) =~= "clock    "@) by {
        reveal_strlit("clock    ");
        reveal_strlit("clock    this machine's clock jumped ");
        reveal_strlit("clock    the timestamps above are ");
    }
    if clock_tells(s) {
        assert(receipt::clock_part(s) =~= l + seq!['\n']);
    }
    lemma_part(receipt::clock_part(s), clock_tells(s), l, "clock    "@);
}

/// How many are on no list.
pub open spec fn unlisted(n: nat) -> Seq<char> {
    if n > 0 {
        " ("@ + text::decimal(n) + " of them not recorded individually)"@
    } else {
        Seq::empty()
    }
}

proof fn lemma_unlisted(n: nat)
    ensures
        receipt::overflow_part(n) == unlisted(n),
        seqs::lacks(unlisted(n), '\n'),
{
    broadcast use lines::group_one_line;

    assert(seqs::lacks(" ("@, '\n')) by {
        reveal_strlit(" (");
        reveal_with_fuel(lines::clear_from, 42);
        lines::lemma_clear_from(" ("@, 0);
    }
    assert(seqs::lacks(" of them not recorded individually)"@, '\n')) by {
        reveal_strlit(" of them not recorded individually)");
        reveal_with_fuel(lines::clear_from, 42);
        lines::lemma_clear_from(" of them not recorded individually)"@, 0);
    }
}

/// How many could not be weighed.
pub open spec fn unweighed(n: nat) -> Seq<char> {
    if n > 0 {
        "; and "@ + text::decimal(n) + " could not be weighed at all, because this share could not read its own grant table — a problem on the sharing machine"@
    } else {
        Seq::empty()
    }
}

proof fn lemma_unweighed(n: nat)
    ensures
        receipt::unweighed_part(n) == unweighed(n),
        seqs::lacks(unweighed(n), '\n'),
{
    broadcast use lines::group_one_line;

    assert(seqs::lacks("; and "@, '\n')) by {
        reveal_strlit("; and ");
        reveal_with_fuel(lines::clear_from, 42);
        lines::lemma_clear_from("; and "@, 0);
    }
    assert(seqs::lacks(" could not be weighed at all, because this share could not read its own grant table — a problem on the sharing machine"@, '\n')) by {
        reveal_strlit(" could not be weighed at all, because this share could not read its own grant table — a problem on the sharing machine");
        reveal_with_fuel(lines::clear_from, 42);
        assert(lines::clear_from(" could not be weighed at all, because this share could not read its own grant table — a problem on the sharing machine"@, 80));
        assert(lines::clear_from(" could not be weighed at all, because this share could not read its own grant table — a problem on the sharing machine"@, 40));
        lines::lemma_clear_from(" could not be weighed at all, because this share could not read its own grant table — a problem on the sharing machine"@, 0);
    }
}

/// How many came too late.
pub open spec fn late(n: nat) -> Seq<char> {
    if n > 0 {
        "; and "@ + text::decimal(n) + " arrived after the share had been stopped"@
    } else {
        Seq::empty()
    }
}

proof fn lemma_late(n: nat)
    ensures
        receipt::late_part(n) == late(n),
        seqs::lacks(late(n), '\n'),
{
    broadcast use lines::group_one_line;

    assert(seqs::lacks("; and "@, '\n')) by {
        reveal_strlit("; and ");
        reveal_with_fuel(lines::clear_from, 42);
        lines::lemma_clear_from("; and "@, 0);
    }
    assert(seqs::lacks(" arrived after the share had been stopped"@, '\n')) by {
        reveal_strlit(" arrived after the share had been stopped");
        reveal_with_fuel(lines::clear_from, 42);
        assert(lines::clear_from(" arrived after the share had been stopped"@, 40));
        lines::lemma_clear_from(" arrived after the share had been stopped"@, 0);
    }
}

/// The line of a receipt that counts the peers.
pub open spec fn peers_line(s: SummaryView) -> Seq<char> {
    if s.peers.len() == 0 {
        "peers    none — the share was open but nobody connected"@
    } else {
        "peers    "@ + text::decimal(s.peers.len())
    }
}

/// How long a peer was there.
pub open spec fn time_there(p: PeerView, ended: Moment) -> nat {
    let until = if p.closed is Some {
        p.closed->Some_0
    } else if p.last_seen is Some {
        p.last_seen->Some_0
    } else {
        ended
    };
    let n = clock::whole_seconds(until, p.opened);
    if n < 0 {
        0
    } else {
        n as nat
    }
}

/// How a peer's bytes went, in words.
pub open spec fn way(p: PeerView) -> Seq<char> {
    if p.path == Some(Path::Direct) {
        "direct"@
    } else if p.path == Some(Path::Relayed) {
        "relayed"@
    } else if p.path == Some(Path::Tunnel) {
        "tunnel"@
    } else {
        "a path nothing observed"@
    }
}

/// The line of a receipt for one peer.
pub open spec fn peer_row(p: PeerView, ended: Moment) -> Seq<char> {
    "  "@ + display::shown(p.peer) + " via "@ + way(p) + " — grant "@ + display::shown(p.grant)
        + (if p.label is Some {
        " ("@ + display::shown(p.label->Some_0) + ")"@
    } else {
        Seq::empty()
    }) + ", "@ + text::decimal(time_there(p, ended)) + "s, "@ + text::decimal(
        p.connections as nat,
    ) + (if p.connections == 1 {
        " connection"@
    } else {
        " connections"@
    }) + ", "@ + figures::size(p.bytes_from_peer as nat) + " in / "@ + figures::size(
        p.bytes_to_peer as nat,
    ) + " out"@
}

proof fn lemma_size_clear(n: nat)
    ensures
        seqs::lacks(figures::size(n), '\n'),
{
    broadcast use lines::group_one_line;

    assert(seqs::lacks("."@, '\n')) by {
        reveal_strlit(".");
        reveal_with_fuel(lines::clear_from, 42);
        lines::lemma_clear_from("."@, 0);
    }
    assert(seqs::lacks(" TiB"@, '\n')) by {
        reveal_strlit(" TiB");
        reveal_with_fuel(lines::clear_from, 42);
        lines::lemma_clear_from(" TiB"@, 0);
    }
    assert(seqs::lacks(" GiB"@, '\n')) by {
        reveal_strlit(" GiB");
        reveal_with_fuel(lines::clear_from, 42);
        lines::lemma_clear_from(" GiB"@, 0);
    }
    assert(seqs::lacks(" MiB"@, '\n')) by {
        reveal_strlit(" MiB");
        reveal_with_fuel(lines::clear_from, 42);
        lines::lemma_clear_from(" MiB"@, 0);
    }
    assert(seqs::lacks(" KiB"@, '\n')) by {
        reveal_strlit(" KiB");
        reveal_with_fuel(lines::clear_from, 42);
        lines::lemma_clear_from(" KiB"@, 0);
    }
    assert(seqs::lacks(" B"@, '\n')) by {
        reveal_strlit(" B");
        reveal_with_fuel(lines::clear_from, 42);
        lines::lemma_clear_from(" B"@, 0);
    }
}

proof fn lemma_peer_row(p: PeerView, ended: Moment)
    ensures
        receipt::peer_line(p, ended) == peer_row(p, ended) + seq!['\n'],
        seqs::lacks(peer_row(p, ended), '\n'),
        begins(peer_row(p, ended), "  "@),
{
    lemma_peer_row_clear(p, ended);
    lemma_peer_row_same(p, ended);
    assert("  "@.len() == 2) by {
        reveal_strlit("  ");
    }
    assert(peer_row(p, ended).take(2) =~= "  "@);
}

/// What comes before the numbers in a peer's line.
spec fn row_start(p: PeerView) -> Seq<char> {
    "  "@ + display::shown(p.peer) + " via "@ + way(p) + " — grant "@ + display::shown(p.grant)
        + (if p.label is Some {
        " ("@ + display::shown(p.label->Some_0) + ")"@
    } else {
        Seq::empty()
    })
}

proof fn lemma_row_start_clear(p: PeerView)
    ensures
        seqs::lacks(row_start(p), '\n'),
{
    broadcast use lines::group_one_line;
    broadcast use lemma_shown_clear;

    assert(seqs::lacks("  "@, '\n')) by {
        reveal_strlit("  ");
        reveal_with_fuel(lines::clear_from, 42);
        lines::lemma_clear_from("  "@, 0);
    }
    assert(seqs::lacks(" via "@, '\n')) by {
        reveal_strlit(" via ");
        reveal_with_fuel(lines::clear_from, 42);
        lines::lemma_clear_from(" via "@, 0);
    }
    assert(seqs::lacks(" — grant "@, '\n')) by {
        reveal_strlit(" — grant ");
        reveal_with_fuel(lines::clear_from, 42);
        lines::lemma_clear_from(" — grant "@, 0);
    }
    assert(seqs::lacks(" ("@, '\n')) by {
        reveal_strlit(" (");
        reveal_with_fuel(lines::clear_from, 42);
        lines::lemma_clear_from(" ("@, 0);
    }
    assert(seqs::lacks(")"@, '\n')) by {
        reveal_strlit(")");
        reveal_with_fuel(lines::clear_from, 42);
        lines::lemma_clear_from(")"@, 0);
    }
    assert(seqs::lacks("direct"@, '\n')) by {
        reveal_strlit("direct");
        reveal_with_fuel(lines::clear_from, 42);
        lines::lemma_clear_from("direct"@, 0);
    }
    assert(seqs::lacks("relayed"@, '\n')) by {
        reveal_strlit("relayed");
        reveal_with_fuel(lines::clear_from, 42);
        lines::lemma_clear_from("relayed"@, 0);
    }
    assert(seqs::lacks("tunnel"@, '\n')) by {
        reveal_strlit("tunnel");
        reveal_with_fuel(lines::clear_from, 42);
        lines::lemma_clear_from("tunnel"@, 0);
    }
    assert(seqs::lacks("a path nothing observed"@, '\n')) by {
        reveal_strlit("a path nothing observed");
        reveal_with_fuel(lines::clear_from, 42);
        lines::lemma_clear_from("a path nothing observed"@, 0);
    }
}

proof fn lemma_peer_row_clear(p: PeerView, ended: Moment)
    ensures
        seqs::lacks(peer_row(p, ended), '\n'),
{
    broadcast use lines::group_one_line;

    lemma_size_clear(p.bytes_from_peer as nat);
    lemma_size_clear(p.bytes_to_peer as nat);
    lemma_row_start_clear(p);
    assert(seqs::lacks(", "@, '\n')) by {
        reveal_strlit(", ");
        reveal_with_fuel(lines::clear_from, 42);
        lines::lemma_clear_from(", "@, 0);
    }
    assert(seqs::lacks("s, "@, '\n')) by {
        reveal_strlit("s, ");
        reveal_with_fuel(lines::clear_from, 42);
        lines::lemma_clear_from("s, "@, 0);
    }
    assert(seqs::lacks(" connection"@, '\n')) by {
        reveal_strlit(" connection");
        reveal_with_fuel(lines::clear_from, 42);
        lines::lemma_clear_from(" connection"@, 0);
    }
    assert(seqs::lacks(" connections"@, '\n')) by {
        reveal_strlit(" connections");
        reveal_with_fuel(lines::clear_from, 42);
        lines::lemma_clear_from(" connections"@, 0);
    }
    assert(seqs::lacks(" in / "@, '\n')) by {
        reveal_strlit(" in / ");
        reveal_with_fuel(lines::clear_from, 42);
        lines::lemma_clear_from(" in / "@, 0);
    }
    assert(seqs::lacks(" out"@, '\n')) by {
        reveal_strlit(" out");
        reveal_with_fuel(lines::clear_from, 42);
        lines::lemma_clear_from(" out"@, 0);
    }
    let start = row_start(p);
    let x = start + ", "@ + text::decimal(time_there(p, ended)) + "s, "@ + text::decimal(
        p.connections as nat,
    ) + (if p.connections == 1 {
        " connection"@
    } else {
        " connections"@
    }) + ", "@ + figures::size(p.bytes_from_peer as nat) + " in / "@ + figures::size(
        p.bytes_to_peer as nat,
    ) + " out"@;
    assert(seqs::lacks(x, '\n'));
    assert(x == peer_row(p, ended));
}

proof fn lemma_peer_row_same(p: PeerView, ended: Moment)
    ensures
        receipt::peer_line(p, ended) == peer_row(p, ended) + seq!['\n'],
{
    assert(" out\n"@ =~= " out"@ + seq!['\n']) by {
        reveal_strlit(" out\n");
        reveal_strlit(" out");
    }
    assert(" "@ + "connection"@ =~= " connection"@) by {
        reveal_strlit(" ");
        reveal_strlit("connection");
        reveal_strlit(" connection");
    }
    assert(" "@ + "connections"@ =~= " connections"@) by {
        reveal_strlit(" ");
        reveal_strlit("connections");
        reveal_strlit(" connections");
    }
    let n = text::decimal(p.connections as nat);
    let word = if p.connections == 1 {
        " connection"@
    } else {
        " connections"@
    };
    assert(figures::counted(p.connections as nat, "connection"@, "connections"@) =~= n + word);
    let a = row_start(p) + ", "@ + text::decimal(time_there(p, ended)) + "s, "@;
    let b = ", "@;
    let c = figures::size(p.bytes_from_peer as nat);
    let d = figures::size(p.bytes_to_peer as nat);
    assert(receipt::label_part(p.label) == (if p.label is Some {
        " ("@ + display::shown(p.label->Some_0) + ")"@
    } else {
        Seq::empty()
    }));
    assert(receipt::path_part(p.path) == way(p));
    assert(receipt::held(p, ended) == time_there(p, ended));
    assert(receipt::peer_line(p, ended) == a + (n + word) + b + c + " in / "@ + d + " out\n"@);
    assert(peer_row(p, ended) == a + n + word + b + c + " in / "@ + d + " out"@);
    lemma_row_end(a, n, word, b + c + " in / "@ + d, " out"@, " out\n"@);
    let m = n + word;
    let e = " in / "@;
    assert(a + m + b + c + e + d =~= a + m + (b + c + e + d));
    assert(a + n + word + b + c + e + d =~= a + n + word + (b + c + e + d));
}

proof fn lemma_row_end(
    a: Seq<char>,
    n: Seq<char>,
    word: Seq<char>,
    rest: Seq<char>,
    out: Seq<char>,
    ended: Seq<char>,
)
    requires
        ended == out + seq!['\n'],
    ensures
        a + (n + word) + rest + ended == a + n + word + rest + out + seq!['\n'],
{
    assert(a + (n + word) + rest + ended =~= a + n + word + rest + out + seq!['\n']);
}

/// The lines of a receipt for the peers on its list, in their order.
pub open spec fn peer_rows(s: SummaryView) -> Seq<Seq<char>> {
    s.peers.map_values(|p: PeerView| peer_row(p, s.ended))
}

proof fn lemma_peer_rows(peers: Seq<PeerView>, ended: Moment)
    ensures
        is_part(
            receipt::peer_lines(peers, ended),
            peers.map_values(|p: PeerView| peer_row(p, ended)),
            "  "@,
        ),
    decreases peers.len(),
{
    let row = |p: PeerView| peer_row(p, ended);
    if peers.len() == 0 {
        assert(peers.map_values(row) =~= Seq::empty());
        lines::lemma_none();
    } else {
        let front = peers.drop_last();
        let p = peers.last();
        lemma_peer_rows(front, ended);
        lemma_peer_row(p, ended);
        lines::lemma_one(row(p));
        lines::lemma_ended_concat(front.map_values(row), seq![row(p)]);
        assert(peers.map_values(row) =~= front.map_values(row) + seq![row(p)]);
    }
}

/// The line of a receipt for the peers past its list.
pub open spec fn more_row(s: SummaryView) -> Seq<char> {
    "  and "@ + text::decimal(s.peers_overflow as nat) + " more peer(s), past the "@ + text::decimal(
        256,
    ) + " this receipt lists individually — not shown above by peer, but counted: "@ + text::decimal(s.overflow_connections as nat)
        + " connection(s), "@ + figures::size(s.overflow_bytes_from_peer as nat) + " in / "@
        + figures::size(s.overflow_bytes_to_peer as nat) + " out"@
}

proof fn lemma_more(s: SummaryView)
    ensures
        is_part(receipt::more_line(s), one(s.peers_overflow > 0, more_row(s)), "  "@),
{
    broadcast use lines::group_one_line;

    lemma_size_clear(s.overflow_bytes_from_peer as nat);
    lemma_size_clear(s.overflow_bytes_to_peer as nat);
    assert(seqs::lacks("  and "@, '\n')) by {
        reveal_strlit("  and ");
        reveal_with_fuel(lines::clear_from, 42);
        lines::lemma_clear_from("  and "@, 0);
    }
    assert(seqs::lacks(" more peer(s), past the "@, '\n')) by {
        reveal_strlit(" more peer(s), past the ");
        reveal_with_fuel(lines::clear_from, 42);
        lines::lemma_clear_from(" more peer(s), past the "@, 0);
    }
    assert(seqs::lacks(" this receipt lists individually — not shown above by peer, but counted: "@, '\n')) by {
        reveal_strlit(" this receipt lists individually — not shown above by peer, but counted: ");
        reveal_with_fuel(lines::clear_from, 42);
        assert(lines::clear_from(" this receipt lists individually — not shown above by peer, but counted: "@, 40));
        lines::lemma_clear_from(" this receipt lists individually — not shown above by peer, but counted: "@, 0);
    }
    assert(seqs::lacks(" connection(s), "@, '\n')) by {
        reveal_strlit(" connection(s), ");
        reveal_with_fuel(lines::clear_from, 42);
        lines::lemma_clear_from(" connection(s), "@, 0);
    }
    assert(seqs::lacks(" in / "@, '\n')) by {
        reveal_strlit(" in / ");
        reveal_with_fuel(lines::clear_from, 42);
        lines::lemma_clear_from(" in / "@, 0);
    }
    assert(seqs::lacks(" out"@, '\n')) by {
        reveal_strlit(" out");
        reveal_with_fuel(lines::clear_from, 42);
        lines::lemma_clear_from(" out"@, 0);
    }
    assert(" out\n"@ =~= " out"@ + seq!['\n']) by {
        reveal_strlit(" out\n");
        reveal_strlit(" out");
    }
    let l = more_row(s);
    assert("  "@.len() == 2 && l.len() >= 2 && l.take(2) =~= "  "@) by {
        reveal_strlit("  ");
        reveal_strlit("  and ");
    }
    if s.peers_overflow > 0 {
        assert(receipt::more_line(s) =~= l + seq!['\n']);
    }
    lemma_part(receipt::more_line(s), s.peers_overflow > 0, l, "  "@);
}

/// How many peers came with this ticket.
pub open spec fn holders(peers: Seq<PeerView>, grant: Seq<char>) -> nat {
    peers.filter(|p: PeerView| p.grant == grant).len()
}

proof fn lemma_holders(peers: Seq<PeerView>, grant: Seq<char>)
    ensures
        receipt::uses(peers, grant) == holders(peers, grant),
    decreases peers.len(),
{
    reveal(Seq::filter);
    if peers.len() > 0 {
        lemma_holders(peers.drop_last(), grant);
    }
}

/// The line of a receipt for a ticket that more than one peer came with.
pub open spec fn ticket_row(peers: Seq<PeerView>, grant: Seq<char>) -> Seq<char> {
    "ticket   grant "@ + display::shown(grant) + " was used by "@ + text::decimal(
        holders(peers, grant),
    ) + " separate peers — a ticket admits everyone it is forwarded to, and revoking it cuts off all of them"@
}

proof fn lemma_ticket_row(peers: Seq<PeerView>, grant: Seq<char>)
    ensures
        receipt::ticket_line(grant, holders(peers, grant)) == ticket_row(peers, grant) + seq!['\n'],
        seqs::lacks(ticket_row(peers, grant), '\n'),
        begins(ticket_row(peers, grant), "ticket   "@),
{
    broadcast use lines::group_one_line;
    broadcast use lemma_shown_clear;

    assert(seqs::lacks("ticket   grant "@, '\n')) by {
        reveal_strlit("ticket   grant ");
        reveal_with_fuel(lines::clear_from, 42);
        lines::lemma_clear_from("ticket   grant "@, 0);
    }
    assert(seqs::lacks(" was used by "@, '\n')) by {
        reveal_strlit(" was used by ");
        reveal_with_fuel(lines::clear_from, 42);
        lines::lemma_clear_from(" was used by "@, 0);
    }
    assert(seqs::lacks(" separate peers — a ticket admits everyone it is forwarded to, and revoking it cuts off all of them"@, '\n')) by {
        reveal_strlit(" separate peers — a ticket admits everyone it is forwarded to, and revoking it cuts off all of them");
        reveal_with_fuel(lines::clear_from, 42);
        assert(lines::clear_from(" separate peers — a ticket admits everyone it is forwarded to, and revoking it cuts off all of them"@, 80));
        assert(lines::clear_from(" separate peers — a ticket admits everyone it is forwarded to, and revoking it cuts off all of them"@, 40));
        lines::lemma_clear_from(" separate peers — a ticket admits everyone it is forwarded to, and revoking it cuts off all of them"@, 0);
    }
    assert(" separate peers — a ticket admits everyone it is forwarded to, and revoking it cuts off all of them\n"@ =~= " separate peers — a ticket admits everyone it is forwarded to, and revoking it cuts off all of them"@ + seq!['\n']) by {
        reveal_strlit(" separate peers — a ticket admits everyone it is forwarded to, and revoking it cuts off all of them\n");
        reveal_strlit(" separate peers — a ticket admits everyone it is forwarded to, and revoking it cuts off all of them");
    }
    let l = ticket_row(peers, grant);
    assert(receipt::ticket_line(grant, holders(peers, grant)) =~= l + seq!['\n']);
    assert("ticket   "@.len() == 9 && l.len() >= 9 && l.take(9) =~= "ticket   "@) by {
        reveal_strlit("ticket   ");
        reveal_strlit("ticket   grant ");
    }
}

/// The lines of a receipt for those of these tickets that more than one peer
/// came with.
pub open spec fn ticket_rows(tickets: Seq<Seq<char>>, peers: Seq<PeerView>) -> Seq<Seq<char>> {
    tickets.filter(|g: Seq<char>| holders(peers, g) > 1).map_values(
        |g: Seq<char>| ticket_row(peers, g),
    )
}

proof fn lemma_ticket_rows(tickets: Seq<Seq<char>>, peers: Seq<PeerView>)
    ensures
        is_part(
            receipt::ticket_lines(tickets, peers),
            ticket_rows(tickets, peers),
            "ticket   "@,
        ),
    decreases tickets.len(),
{
    let often = |g: Seq<char>| holders(peers, g) > 1;
    let row = |g: Seq<char>| ticket_row(peers, g);
    reveal(Seq::filter);
    if tickets.len() == 0 {
        assert(ticket_rows(tickets, peers) =~= Seq::empty());
        lines::lemma_none();
    } else {
        let front = tickets.drop_last();
        let g = tickets.last();
        lemma_ticket_rows(front, peers);
        lemma_holders(peers, g);
        if often(g) {
            lemma_ticket_row(peers, g);
            lines::lemma_one(row(g));
            lines::lemma_ended_concat(ticket_rows(front, peers), seq![row(g)]);
            assert(tickets.filter(often) == front.filter(often).push(g));
            assert(ticket_rows(tickets, peers) =~= ticket_rows(front, peers) + seq![row(g)]);
        } else {
            assert(tickets.filter(often) == front.filter(often));
        }
    }
}

proof fn lemma_peers_line(s: SummaryView)
    ensures
        is_part(
            if s.peers.len() == 0 {
                "peers    none — the share was open but nobody connected\n"@
            } else {
                "peers    "@ + text::decimal(s.peers.len()) + "\n"@
            },
            one(true, peers_line(s)),
            "peers    "@,
        ),
{
    broadcast use lines::group_one_line;

    assert(seqs::lacks("peers    none — the share was open but nobody connected"@, '\n')) by {
        reveal_strlit("peers    none — the share was open but nobody connected");
        reveal_with_fuel(lines::clear_from, 42);
        assert(lines::clear_from("peers    none — the share was open but nobody connected"@, 40));
        lines::lemma_clear_from("peers    none — the share was open but nobody connected"@, 0);
    }
    assert(seqs::lacks("peers    "@, '\n')) by {
        reveal_strlit("peers    ");
        reveal_with_fuel(lines::clear_from, 42);
        lines::lemma_clear_from("peers    "@, 0);
    }
    assert("peers    none — the share was open but nobody connected\n"@ =~= "peers    none — the share was open but nobody connected"@ + seq!['\n']) by {
        reveal_strlit("peers    none — the share was open but nobody connected\n");
        reveal_strlit("peers    none — the share was open but nobody connected");
    }
    assert("\n"@ =~= seq!['\n']) by {
        reveal_strlit("\n");
    }
    let l = peers_line(s);
    assert(l.len() >= 9 && l.take(9) =~= "peers    "@) by {
        reveal_strlit("peers    ");
        reveal_strlit("peers    none — the share was open but nobody connected");
    }
    let said = if s.peers.len() == 0 {
        "peers    none — the share was open but nobody connected\n"@
    } else {
        "peers    "@ + text::decimal(s.peers.len()) + "\n"@
    };
    assert(said =~= l + seq!['\n']);
    lemma_part(said, true, l, "peers    "@);
}

#[verifier::opaque]
spec fn said_1(s: SummaryView, opened: Seq<char>, closed: Seq<char>) -> Seq<char> {
    receipt::head_line(s) + receipt::time_line("opened   "@, opened) + receipt::time_line("closed   "@, closed) + receipt::clock_part(s) + receipt::port_line(s)
}

#[verifier::opaque]
spec fn found_1(s: SummaryView, opened: Seq<char>, closed: Seq<char>, t: Seq<char>) -> Seq<Seq<char>> {
    found(t, "share ses"@, one(true, head_line(s))) + found(t, "opened   "@, one(true, opened_line(opened))) + found(t, "closed   "@, one(true, closed_line(closed))) + found(t, "clock    "@, one(clock_tells(s), clock_line(s))) + found(t, "shared   "@, one(true, port_line(s)))
}

proof fn lemma_stage_1(s: SummaryView, opened: Seq<char>, closed: Seq<char>, t: Seq<char>)
    requires
        seqs::lacks(opened, '\n'),
        seqs::lacks(closed, '\n'),
        is_label(t),
    ensures
        is_text(said_1(s, opened, closed), t, found_1(s, opened, closed, t)),
{
    reveal(said_1);
    reveal(found_1);
    lemma_head_found(s, t);
    lemma_opened_found(opened, t);
    lemma_closed_found(closed, t);
    lemma_clock_found(s, t);
    lemma_port_found(s, t);
    let x = receipt::head_line(s);
    let f = found(t, "share ses"@, one(true, head_line(s)));
    lemma_both(x, f, receipt::time_line("opened   "@, opened), found(t, "opened   "@, one(true, opened_line(opened))), t);
    let x = x + receipt::time_line("opened   "@, opened);
    let f = f + found(t, "opened   "@, one(true, opened_line(opened)));
    lemma_both(x, f, receipt::time_line("closed   "@, closed), found(t, "closed   "@, one(true, closed_line(closed))), t);
    let x = x + receipt::time_line("closed   "@, closed);
    let f = f + found(t, "closed   "@, one(true, closed_line(closed)));
    lemma_both(x, f, receipt::clock_part(s), found(t, "clock    "@, one(clock_tells(s), clock_line(s))), t);
    let x = x + receipt::clock_part(s);
    let f = f + found(t, "clock    "@, one(clock_tells(s), clock_line(s)));
    lemma_both(x, f, receipt::port_line(s), found(t, "shared   "@, one(true, port_line(s))), t);
    let x = x + receipt::port_line(s);
    let f = f + found(t, "shared   "@, one(true, port_line(s)));
}

#[verifier::opaque]
spec fn said_2(s: SummaryView, opened: Seq<char>, closed: Seq<char>) -> Seq<char> {
    said_1(s, opened, closed) + receipt::endpoint_line(s) + receipt::tunnel_line(s) + receipt::failure_line(s) + receipt::partial_line(s)
}

#[verifier::opaque]
spec fn found_2(s: SummaryView, opened: Seq<char>, closed: Seq<char>, t: Seq<char>) -> Seq<Seq<char>> {
    found_1(s, opened, closed, t) + found(t, "endpoint "@, one(true, endpoint_line(s))) + found(t, "note     "@, one(s.transport == Transport::Tunnel, note_line(s))) + found(t, "ended    "@, one(s.failed_because is Some, failure_line(s))) + found(t, "partial  "@, one(!s.settled, partial_line(s)))
}

proof fn lemma_stage_2(s: SummaryView, opened: Seq<char>, closed: Seq<char>, t: Seq<char>)
    requires
        seqs::lacks(opened, '\n'),
        seqs::lacks(closed, '\n'),
        is_label(t),
    ensures
        is_text(said_2(s, opened, closed), t, found_2(s, opened, closed, t)),
{
    reveal(said_2);
    reveal(found_2);
    lemma_stage_1(s, opened, closed, t);
    lemma_endpoint_found(s, t);
    lemma_note_found(s, t);
    lemma_failure_found(s, t);
    lemma_partial_found(s, t);
    let x = said_1(s, opened, closed);
    let f = found_1(s, opened, closed, t);
    lemma_both(x, f, receipt::endpoint_line(s), found(t, "endpoint "@, one(true, endpoint_line(s))), t);
    let x = x + receipt::endpoint_line(s);
    let f = f + found(t, "endpoint "@, one(true, endpoint_line(s)));
    lemma_both(x, f, receipt::tunnel_line(s), found(t, "note     "@, one(s.transport == Transport::Tunnel, note_line(s))), t);
    let x = x + receipt::tunnel_line(s);
    let f = f + found(t, "note     "@, one(s.transport == Transport::Tunnel, note_line(s)));
    lemma_both(x, f, receipt::failure_line(s), found(t, "ended    "@, one(s.failed_because is Some, failure_line(s))), t);
    let x = x + receipt::failure_line(s);
    let f = f + found(t, "ended    "@, one(s.failed_because is Some, failure_line(s)));
    lemma_both(x, f, receipt::partial_line(s), found(t, "partial  "@, one(!s.settled, partial_line(s))), t);
    let x = x + receipt::partial_line(s);
    let f = f + found(t, "partial  "@, one(!s.settled, partial_line(s)));
}

#[verifier::opaque]
spec fn said_3(s: SummaryView, opened: Seq<char>, closed: Seq<char>) -> Seq<char> {
    said_2(s, opened, closed) + receipt::peers_part(s) + receipt::capacity_line(s) + receipt::flooded_line(s) + receipt::truncated_line(s)
}

#[verifier::opaque]
spec fn found_3(s: SummaryView, opened: Seq<char>, closed: Seq<char>, t: Seq<char>) -> Seq<Seq<char>> {
    found_2(s, opened, closed, t) + peers_found(s, t) + found(t, "capacity "@, one(s.over_capacity > 0, capacity_line(s))) + found(t, "flooded  "@, one(s.front_refused > 0, flooded_line(s))) + found(t, "truncated"@, one(s.truncated > 0, truncated_line(s)))
}

proof fn lemma_stage_3(s: SummaryView, opened: Seq<char>, closed: Seq<char>, t: Seq<char>)
    requires
        seqs::lacks(opened, '\n'),
        seqs::lacks(closed, '\n'),
        is_label(t),
    ensures
        is_text(said_3(s, opened, closed), t, found_3(s, opened, closed, t)),
{
    reveal(said_3);
    reveal(found_3);
    lemma_stage_2(s, opened, closed, t);
    lemma_peers_found(s, t);
    lemma_capacity_found(s, t);
    lemma_flooded_found(s, t);
    lemma_truncated_found(s, t);
    let x = said_2(s, opened, closed);
    let f = found_2(s, opened, closed, t);
    lemma_both(x, f, receipt::peers_part(s), peers_found(s, t), t);
    let x = x + receipt::peers_part(s);
    let f = f + peers_found(s, t);
    lemma_both(x, f, receipt::capacity_line(s), found(t, "capacity "@, one(s.over_capacity > 0, capacity_line(s))), t);
    let x = x + receipt::capacity_line(s);
    let f = f + found(t, "capacity "@, one(s.over_capacity > 0, capacity_line(s)));
    lemma_both(x, f, receipt::flooded_line(s), found(t, "flooded  "@, one(s.front_refused > 0, flooded_line(s))), t);
    let x = x + receipt::flooded_line(s);
    let f = f + found(t, "flooded  "@, one(s.front_refused > 0, flooded_line(s)));
    lemma_both(x, f, receipt::truncated_line(s), found(t, "truncated"@, one(s.truncated > 0, truncated_line(s))), t);
    let x = x + receipt::truncated_line(s);
    let f = f + found(t, "truncated"@, one(s.truncated > 0, truncated_line(s)));
}

#[verifier::opaque]
spec fn said_4(s: SummaryView, opened: Seq<char>, closed: Seq<char>) -> Seq<char> {
    said_3(s, opened, closed) + receipt::turned_line(s) + receipt::route_line(s) + receipt::unreached_line(s) + receipt::refused_line(s)
}

#[verifier::opaque]
spec fn found_4(s: SummaryView, opened: Seq<char>, closed: Seq<char>, t: Seq<char>) -> Seq<Seq<char>> {
    found_3(s, opened, closed, t) + found(t, "turned   "@, one(s.turned_away.len() > 0, turned_line(s))) + found(t, "route    "@, one(s.route_broken > 0, route_line(s))) + found(t, "unreached"@, one(s.unreachable > 0, unreached_line(s))) + found(t, "refused  "@, one(s.denied.len() > 0, refused_line(s)))
}

proof fn lemma_stage_4(s: SummaryView, opened: Seq<char>, closed: Seq<char>, t: Seq<char>)
    requires
        seqs::lacks(opened, '\n'),
        seqs::lacks(closed, '\n'),
        is_label(t),
    ensures
        is_text(said_4(s, opened, closed), t, found_4(s, opened, closed, t)),
{
    reveal(said_4);
    reveal(found_4);
    lemma_stage_3(s, opened, closed, t);
    lemma_turned_found(s, t);
    lemma_route_found(s, t);
    lemma_unreached_found(s, t);
    lemma_refused_found(s, t);
    let x = said_3(s, opened, closed);
    let f = found_3(s, opened, closed, t);
    lemma_both(x, f, receipt::turned_line(s), found(t, "turned   "@, one(s.turned_away.len() > 0, turned_line(s))), t);
    let x = x + receipt::turned_line(s);
    let f = f + found(t, "turned   "@, one(s.turned_away.len() > 0, turned_line(s)));
    lemma_both(x, f, receipt::route_line(s), found(t, "route    "@, one(s.route_broken > 0, route_line(s))), t);
    let x = x + receipt::route_line(s);
    let f = f + found(t, "route    "@, one(s.route_broken > 0, route_line(s)));
    lemma_both(x, f, receipt::unreached_line(s), found(t, "unreached"@, one(s.unreachable > 0, unreached_line(s))), t);
    let x = x + receipt::unreached_line(s);
    let f = f + found(t, "unreached"@, one(s.unreachable > 0, unreached_line(s)));
    lemma_both(x, f, receipt::refused_line(s), found(t, "refused  "@, one(s.denied.len() > 0, refused_line(s))), t);
    let x = x + receipt::refused_line(s);
    let f = f + found(t, "refused  "@, one(s.denied.len() > 0, refused_line(s)));
}

proof fn lemma_found(s: SummaryView, opened: Seq<char>, closed: Seq<char>, t: Seq<char>)
    requires
        seqs::lacks(opened, '\n'),
        seqs::lacks(closed, '\n'),
        is_label(t),
    ensures
        under(receipt::receipt(s, opened, closed), t) == found_4(s, opened, closed, t),
{
    lemma_stage_4(s, opened, closed, t);
    assert(said_4(s, opened, closed) == receipt::receipt(s, opened, closed)) by {
        reveal(said_1);
        reveal(said_2);
        reveal(said_3);
        reveal(said_4);
    }
    assert(t.len() > 0) by {
        lemma_labels();
    }
    lemma_seen(said_4(s, opened, closed), found_4(s, opened, closed, t), t);
}

/// What a receipt holds under this label where it tells of the peers.
spec fn peers_found(s: SummaryView, t: Seq<char>) -> Seq<Seq<char>> {
    found(t, "peers    "@, one(true, peers_line(s)))
        + found(t, "  "@, peer_rows(s))
        + found(t, "  "@, one(s.peers.len() > 0 && s.peers_overflow > 0, more_row(s)))
        + found(t, "ticket   "@, ticket_rows(receipt::grants(s.peers), s.peers))
        + found(t, "relay    "@, one(relays(s.peers) > 0, relay_line(s)))
}

proof fn lemma_peers_found(s: SummaryView, t: Seq<char>)
    requires
        is_label(t),
    ensures
        is_text(receipt::peers_part(s), t, peers_found(s, t)),
{
    lemma_labels();
    let said = if s.peers.len() == 0 {
        "peers    none — the share was open but nobody connected\n"@
    } else {
        "peers    "@ + text::decimal(s.peers.len()) + "\n"@
    };
    lemma_peers_line(s);
    lemma_is(said, one(true, peers_line(s)), "peers    "@, t);
    let x = said;
    let f = found(t, "peers    "@, one(true, peers_line(s)));
    let rows = receipt::peer_lines(s.peers, s.ended);
    lemma_peer_rows(s.peers, s.ended);
    lemma_is(rows, peer_rows(s), "  "@, t);
    lemma_both(x, f, rows, found(t, "  "@, peer_rows(s)), t);
    let x = x + rows;
    let f = f + found(t, "  "@, peer_rows(s));
    let told = one(s.peers.len() > 0 && s.peers_overflow > 0, more_row(s));
    let more = if s.peers.len() > 0 {
        receipt::more_line(s)
    } else {
        Seq::empty()
    };
    lemma_more(s);
    lines::lemma_none();
    lemma_is(more, told, "  "@, t);
    lemma_both(x, f, more, found(t, "  "@, told), t);
    let x = x + more;
    let f = f + found(t, "  "@, told);
    let tickets = receipt::ticket_lines(receipt::grants(s.peers), s.peers);
    let many = ticket_rows(receipt::grants(s.peers), s.peers);
    lemma_ticket_rows(receipt::grants(s.peers), s.peers);
    lemma_is(tickets, many, "ticket   "@, t);
    lemma_both(x, f, tickets, found(t, "ticket   "@, many), t);
    let x = x + tickets;
    let f = f + found(t, "ticket   "@, many);
    let relay = receipt::relay_line(receipt::relayed(s.peers));
    let told = one(relays(s.peers) > 0, relay_line(s));
    lemma_relay(s);
    lemma_is(relay, told, "relay    "@, t);
    lemma_both(x, f, relay, found(t, "relay    "@, told), t);
    let x = x + relay;
    if s.peers.len() == 0 {
        assert(receipt::grants(s.peers) =~= Seq::empty());
        assert(x =~= receipt::peers_part(s));
    } else {
        assert(x =~= receipt::peers_part(s));
    }
}

/// A label of a receipt's lines.
spec fn is_label(t: Seq<char>) -> bool {
    t == "share ses"@
        || t == "opened   "@
        || t == "closed   "@
        || t == "clock    "@
        || t == "shared   "@
        || t == "endpoint "@
        || t == "note     "@
        || t == "ended    "@
        || t == "partial  "@
        || t == "peers    "@
        || t == "  "@
        || t == "ticket   "@
        || t == "relay    "@
        || t == "capacity "@
        || t == "flooded  "@
        || t == "truncated"@
        || t == "turned   "@
        || t == "route    "@
        || t == "unreached"@
        || t == "refused  "@
}

proof fn lemma_labels()
    ensures
        "share ses"@.len() == 9 && "share ses"@[0] == 's' && "share ses"@[1] == 'h' && "share ses"@[2] == 'a' && "share ses"@[5] == ' ',
        "opened   "@.len() == 9 && "opened   "@[0] == 'o' && "opened   "@[1] == 'p' && "opened   "@[2] == 'e' && "opened   "@[5] == 'd',
        "closed   "@.len() == 9 && "closed   "@[0] == 'c' && "closed   "@[1] == 'l' && "closed   "@[2] == 'o' && "closed   "@[5] == 'd',
        "clock    "@.len() == 9 && "clock    "@[0] == 'c' && "clock    "@[1] == 'l' && "clock    "@[2] == 'o' && "clock    "@[5] == ' ',
        "shared   "@.len() == 9 && "shared   "@[0] == 's' && "shared   "@[1] == 'h' && "shared   "@[2] == 'a' && "shared   "@[5] == 'd',
        "endpoint "@.len() == 9 && "endpoint "@[0] == 'e' && "endpoint "@[1] == 'n' && "endpoint "@[2] == 'd' && "endpoint "@[5] == 'i',
        "note     "@.len() == 9 && "note     "@[0] == 'n' && "note     "@[1] == 'o' && "note     "@[2] == 't' && "note     "@[5] == ' ',
        "ended    "@.len() == 9 && "ended    "@[0] == 'e' && "ended    "@[1] == 'n' && "ended    "@[2] == 'd' && "ended    "@[5] == ' ',
        "partial  "@.len() == 9 && "partial  "@[0] == 'p' && "partial  "@[1] == 'a' && "partial  "@[2] == 'r' && "partial  "@[5] == 'a',
        "peers    "@.len() == 9 && "peers    "@[0] == 'p' && "peers    "@[1] == 'e' && "peers    "@[2] == 'e' && "peers    "@[5] == ' ',
        "  "@.len() == 2 && "  "@[0] == ' ',
        "ticket   "@.len() == 9 && "ticket   "@[0] == 't' && "ticket   "@[1] == 'i' && "ticket   "@[2] == 'c' && "ticket   "@[5] == 't',
        "relay    "@.len() == 9 && "relay    "@[0] == 'r' && "relay    "@[1] == 'e' && "relay    "@[2] == 'l' && "relay    "@[5] == ' ',
        "capacity "@.len() == 9 && "capacity "@[0] == 'c' && "capacity "@[1] == 'a' && "capacity "@[2] == 'p' && "capacity "@[5] == 'i',
        "flooded  "@.len() == 9 && "flooded  "@[0] == 'f' && "flooded  "@[1] == 'l' && "flooded  "@[2] == 'o' && "flooded  "@[5] == 'e',
        "truncated"@.len() == 9 && "truncated"@[0] == 't' && "truncated"@[1] == 'r' && "truncated"@[2] == 'u' && "truncated"@[5] == 'a',
        "turned   "@.len() == 9 && "turned   "@[0] == 't' && "turned   "@[1] == 'u' && "turned   "@[2] == 'r' && "turned   "@[5] == 'd',
        "route    "@.len() == 9 && "route    "@[0] == 'r' && "route    "@[1] == 'o' && "route    "@[2] == 'u' && "route    "@[5] == ' ',
        "unreached"@.len() == 9 && "unreached"@[0] == 'u' && "unreached"@[1] == 'n' && "unreached"@[2] == 'r' && "unreached"@[5] == 'c',
        "refused  "@.len() == 9 && "refused  "@[0] == 'r' && "refused  "@[1] == 'e' && "refused  "@[2] == 'f' && "refused  "@[5] == 'e',
{
    reveal_strlit("share ses");
    reveal_strlit("opened   ");
    reveal_strlit("closed   ");
    reveal_strlit("clock    ");
    reveal_strlit("shared   ");
    reveal_strlit("endpoint ");
    reveal_strlit("note     ");
    reveal_strlit("ended    ");
    reveal_strlit("partial  ");
    reveal_strlit("peers    ");
    reveal_strlit("  ");
    reveal_strlit("ticket   ");
    reveal_strlit("relay    ");
    reveal_strlit("capacity ");
    reveal_strlit("flooded  ");
    reveal_strlit("truncated");
    reveal_strlit("turned   ");
    reveal_strlit("route    ");
    reveal_strlit("unreached");
    reveal_strlit("refused  ");
}

/// Of connections that were let in and did not get there, a receipt counts those
/// that found nothing listening under `unreached`, and those for which there was
/// no way into the box under `route`, and says nothing of either that did not
/// happen.
pub proof fn law_the_receipt_tells_what_was_not_reached(s: SummaryView, opened: Seq<char>, closed: Seq<char>)
    requires
        seqs::lacks(opened, '\n'),
        seqs::lacks(closed, '\n'),
    ensures
        under(receipt::receipt(s, opened, closed), "unreached"@) == one(s.unreachable > 0, unreached_line(s)),
        under(receipt::receipt(s, opened, closed), "route    "@) == one(s.route_broken > 0, route_line(s)),
{
    lemma_labels();
    reveal(found_1);
    reveal(found_2);
    reveal(found_3);
    reveal(found_4);
    let text = receipt::receipt(s, opened, closed);
    lemma_found(s, opened, closed, "unreached"@);
    assert(under(text, "unreached"@) =~= one(s.unreachable > 0, unreached_line(s)));
    lemma_found(s, opened, closed, "route    "@);
    assert(under(text, "route    "@) =~= one(s.route_broken > 0, route_line(s)));
}

/// What was kept out is under the label of what kept it out, with its own count,
/// and a count of nothing is left unsaid.
pub proof fn law_the_receipt_tells_who_was_kept_out(s: SummaryView, opened: Seq<char>, closed: Seq<char>)
    requires
        seqs::lacks(opened, '\n'),
        seqs::lacks(closed, '\n'),
    ensures
        under(receipt::receipt(s, opened, closed), "capacity "@) == one(s.over_capacity > 0, capacity_line(s)),
        under(receipt::receipt(s, opened, closed), "flooded  "@) == one(s.front_refused > 0, flooded_line(s)),
        under(receipt::receipt(s, opened, closed), "turned   "@) == one(s.turned_away.len() > 0, turned_line(s)),
        under(receipt::receipt(s, opened, closed), "refused  "@) == one(s.denied.len() > 0, refused_line(s)),
{
    lemma_labels();
    reveal(found_1);
    reveal(found_2);
    reveal(found_3);
    reveal(found_4);
    let text = receipt::receipt(s, opened, closed);
    lemma_found(s, opened, closed, "capacity "@);
    assert(under(text, "capacity "@) =~= one(s.over_capacity > 0, capacity_line(s)));
    lemma_found(s, opened, closed, "flooded  "@);
    assert(under(text, "flooded  "@) =~= one(s.front_refused > 0, flooded_line(s)));
    lemma_found(s, opened, closed, "turned   "@);
    assert(under(text, "turned   "@) =~= one(s.turned_away.len() > 0, turned_line(s)));
    lemma_found(s, opened, closed, "refused  "@);
    assert(under(text, "refused  "@) =~= one(s.denied.len() > 0, refused_line(s)));
}

/// A share that ended badly, an account that is not complete and a response that
/// was cut short are each said, and said only then.
pub proof fn law_the_receipt_tells_how_it_ended(s: SummaryView, opened: Seq<char>, closed: Seq<char>)
    requires
        seqs::lacks(opened, '\n'),
        seqs::lacks(closed, '\n'),
    ensures
        under(receipt::receipt(s, opened, closed), "ended    "@) == one(s.failed_because is Some, failure_line(s)),
        under(receipt::receipt(s, opened, closed), "partial  "@) == one(!s.settled, partial_line(s)),
        under(receipt::receipt(s, opened, closed), "truncated"@) == one(s.truncated > 0, truncated_line(s)),
{
    lemma_labels();
    reveal(found_1);
    reveal(found_2);
    reveal(found_3);
    reveal(found_4);
    let text = receipt::receipt(s, opened, closed);
    lemma_found(s, opened, closed, "ended    "@);
    assert(under(text, "ended    "@) =~= one(s.failed_because is Some, failure_line(s)));
    lemma_found(s, opened, closed, "partial  "@);
    assert(under(text, "partial  "@) =~= one(!s.settled, partial_line(s)));
    lemma_found(s, opened, closed, "truncated"@);
    assert(under(text, "truncated"@) =~= one(s.truncated > 0, truncated_line(s)));
}

/// Who came: each peer of the list has a line of its own, in order, and those
/// past the list have one together; each ticket that went around has one, and so
/// has a relay.
pub proof fn law_the_receipt_tells_who_came(s: SummaryView, opened: Seq<char>, closed: Seq<char>)
    requires
        seqs::lacks(opened, '\n'),
        seqs::lacks(closed, '\n'),
    ensures
        under(receipt::receipt(s, opened, closed), "peers    "@) == one(true, peers_line(s)),
        under(receipt::receipt(s, opened, closed), "  "@) == peer_rows(s) + one(s.peers.len() > 0 && s.peers_overflow > 0, more_row(s)),
        under(receipt::receipt(s, opened, closed), "ticket   "@) == ticket_rows(receipt::grants(s.peers), s.peers),
        under(receipt::receipt(s, opened, closed), "relay    "@) == one(relays(s.peers) > 0, relay_line(s)),
{
    lemma_labels();
    reveal(found_1);
    reveal(found_2);
    reveal(found_3);
    reveal(found_4);
    let text = receipt::receipt(s, opened, closed);
    lemma_found(s, opened, closed, "peers    "@);
    assert(under(text, "peers    "@) =~= one(true, peers_line(s)));
    lemma_found(s, opened, closed, "  "@);
    assert(under(text, "  "@) =~= peer_rows(s) + one(s.peers.len() > 0 && s.peers_overflow > 0, more_row(s)));
    lemma_found(s, opened, closed, "ticket   "@);
    assert(under(text, "ticket   "@) =~= ticket_rows(receipt::grants(s.peers), s.peers));
    lemma_found(s, opened, closed, "relay    "@);
    assert(under(text, "relay    "@) =~= one(relays(s.peers) > 0, relay_line(s)));
}

/// What was shared, for how long and how, and when it opened and closed.
pub proof fn law_the_receipt_tells_what_was_shared(s: SummaryView, opened: Seq<char>, closed: Seq<char>)
    requires
        seqs::lacks(opened, '\n'),
        seqs::lacks(closed, '\n'),
    ensures
        under(receipt::receipt(s, opened, closed), "share ses"@) == one(true, head_line(s)),
        under(receipt::receipt(s, opened, closed), "opened   "@) == one(true, opened_line(opened)),
        under(receipt::receipt(s, opened, closed), "closed   "@) == one(true, closed_line(closed)),
        under(receipt::receipt(s, opened, closed), "clock    "@) == one(clock_tells(s), clock_line(s)),
        under(receipt::receipt(s, opened, closed), "shared   "@) == one(true, port_line(s)),
        under(receipt::receipt(s, opened, closed), "endpoint "@) == one(true, endpoint_line(s)),
        under(receipt::receipt(s, opened, closed), "note     "@) == one(s.transport == Transport::Tunnel, note_line(s)),
{
    lemma_labels();
    reveal(found_1);
    reveal(found_2);
    reveal(found_3);
    reveal(found_4);
    let text = receipt::receipt(s, opened, closed);
    lemma_found(s, opened, closed, "share ses"@);
    assert(under(text, "share ses"@) =~= one(true, head_line(s)));
    lemma_found(s, opened, closed, "opened   "@);
    assert(under(text, "opened   "@) =~= one(true, opened_line(opened)));
    lemma_found(s, opened, closed, "closed   "@);
    assert(under(text, "closed   "@) =~= one(true, closed_line(closed)));
    lemma_found(s, opened, closed, "clock    "@);
    assert(under(text, "clock    "@) =~= one(clock_tells(s), clock_line(s)));
    lemma_found(s, opened, closed, "shared   "@);
    assert(under(text, "shared   "@) =~= one(true, port_line(s)));
    lemma_found(s, opened, closed, "endpoint "@);
    assert(under(text, "endpoint "@) =~= one(true, endpoint_line(s)));
    lemma_found(s, opened, closed, "note     "@);
    assert(under(text, "note     "@) =~= one(s.transport == Transport::Tunnel, note_line(s)));
}

proof fn lemma_head_found(s: SummaryView, t: Seq<char>)
    requires
        is_label(t),
    ensures
        is_text(receipt::head_line(s), t, found(t, "share ses"@, one(true, head_line(s)))),
{
    lemma_labels();
    lemma_head(s);
    lemma_is(receipt::head_line(s), one(true, head_line(s)), "share ses"@, t);
}

proof fn lemma_opened_found(opened: Seq<char>, t: Seq<char>)
    requires
        seqs::lacks(opened, '\n'),
        is_label(t),
    ensures
        is_text(receipt::time_line("opened   "@, opened), t, found(t, "opened   "@, one(true, opened_line(opened)))),
{
    lemma_labels();
    lemma_opened(opened);
    lemma_is(receipt::time_line("opened   "@, opened), one(true, opened_line(opened)), "opened   "@, t);
}

proof fn lemma_closed_found(closed: Seq<char>, t: Seq<char>)
    requires
        seqs::lacks(closed, '\n'),
        is_label(t),
    ensures
        is_text(receipt::time_line("closed   "@, closed), t, found(t, "closed   "@, one(true, closed_line(closed)))),
{
    lemma_labels();
    lemma_closed(closed);
    lemma_is(receipt::time_line("closed   "@, closed), one(true, closed_line(closed)), "closed   "@, t);
}

proof fn lemma_clock_found(s: SummaryView, t: Seq<char>)
    requires
        is_label(t),
    ensures
        is_text(receipt::clock_part(s), t, found(t, "clock    "@, one(clock_tells(s), clock_line(s)))),
{
    lemma_labels();
    lemma_clock(s);
    lemma_is(receipt::clock_part(s), one(clock_tells(s), clock_line(s)), "clock    "@, t);
}

proof fn lemma_port_found(s: SummaryView, t: Seq<char>)
    requires
        is_label(t),
    ensures
        is_text(receipt::port_line(s), t, found(t, "shared   "@, one(true, port_line(s)))),
{
    lemma_labels();
    lemma_port(s);
    lemma_is(receipt::port_line(s), one(true, port_line(s)), "shared   "@, t);
}

proof fn lemma_endpoint_found(s: SummaryView, t: Seq<char>)
    requires
        is_label(t),
    ensures
        is_text(receipt::endpoint_line(s), t, found(t, "endpoint "@, one(true, endpoint_line(s)))),
{
    lemma_labels();
    lemma_endpoint(s);
    lemma_is(receipt::endpoint_line(s), one(true, endpoint_line(s)), "endpoint "@, t);
}

proof fn lemma_note_found(s: SummaryView, t: Seq<char>)
    requires
        is_label(t),
    ensures
        is_text(receipt::tunnel_line(s), t, found(t, "note     "@, one(s.transport == Transport::Tunnel, note_line(s)))),
{
    lemma_labels();
    lemma_note(s);
    lemma_is(receipt::tunnel_line(s), one(s.transport == Transport::Tunnel, note_line(s)), "note     "@, t);
}

proof fn lemma_failure_found(s: SummaryView, t: Seq<char>)
    requires
        is_label(t),
    ensures
        is_text(receipt::failure_line(s), t, found(t, "ended    "@, one(s.failed_because is Some, failure_line(s)))),
{
    lemma_labels();
    lemma_failure(s);
    lemma_is(receipt::failure_line(s), one(s.failed_because is Some, failure_line(s)), "ended    "@, t);
}

proof fn lemma_partial_found(s: SummaryView, t: Seq<char>)
    requires
        is_label(t),
    ensures
        is_text(receipt::partial_line(s), t, found(t, "partial  "@, one(!s.settled, partial_line(s)))),
{
    lemma_labels();
    lemma_partial(s);
    lemma_is(receipt::partial_line(s), one(!s.settled, partial_line(s)), "partial  "@, t);
}

proof fn lemma_capacity_found(s: SummaryView, t: Seq<char>)
    requires
        is_label(t),
    ensures
        is_text(receipt::capacity_line(s), t, found(t, "capacity "@, one(s.over_capacity > 0, capacity_line(s)))),
{
    lemma_labels();
    lemma_capacity(s);
    lemma_is(receipt::capacity_line(s), one(s.over_capacity > 0, capacity_line(s)), "capacity "@, t);
}

proof fn lemma_flooded_found(s: SummaryView, t: Seq<char>)
    requires
        is_label(t),
    ensures
        is_text(receipt::flooded_line(s), t, found(t, "flooded  "@, one(s.front_refused > 0, flooded_line(s)))),
{
    lemma_labels();
    lemma_flooded(s);
    lemma_is(receipt::flooded_line(s), one(s.front_refused > 0, flooded_line(s)), "flooded  "@, t);
}

proof fn lemma_truncated_found(s: SummaryView, t: Seq<char>)
    requires
        is_label(t),
    ensures
        is_text(receipt::truncated_line(s), t, found(t, "truncated"@, one(s.truncated > 0, truncated_line(s)))),
{
    lemma_labels();
    lemma_truncated(s);
    lemma_is(receipt::truncated_line(s), one(s.truncated > 0, truncated_line(s)), "truncated"@, t);
}

proof fn lemma_turned_found(s: SummaryView, t: Seq<char>)
    requires
        is_label(t),
    ensures
        is_text(receipt::turned_line(s), t, found(t, "turned   "@, one(s.turned_away.len() > 0, turned_line(s)))),
{
    lemma_labels();
    lemma_turned(s);
    lemma_is(receipt::turned_line(s), one(s.turned_away.len() > 0, turned_line(s)), "turned   "@, t);
}

proof fn lemma_route_found(s: SummaryView, t: Seq<char>)
    requires
        is_label(t),
    ensures
        is_text(receipt::route_line(s), t, found(t, "route    "@, one(s.route_broken > 0, route_line(s)))),
{
    lemma_labels();
    lemma_route(s);
    lemma_is(receipt::route_line(s), one(s.route_broken > 0, route_line(s)), "route    "@, t);
}

proof fn lemma_unreached_found(s: SummaryView, t: Seq<char>)
    requires
        is_label(t),
    ensures
        is_text(receipt::unreached_line(s), t, found(t, "unreached"@, one(s.unreachable > 0, unreached_line(s)))),
{
    lemma_labels();
    lemma_unreached(s);
    lemma_is(receipt::unreached_line(s), one(s.unreachable > 0, unreached_line(s)), "unreached"@, t);
}

proof fn lemma_refused_found(s: SummaryView, t: Seq<char>)
    requires
        is_label(t),
    ensures
        is_text(receipt::refused_line(s), t, found(t, "refused  "@, one(s.denied.len() > 0, refused_line(s)))),
{
    lemma_labels();
    lemma_refused(s);
    lemma_is(receipt::refused_line(s), one(s.denied.len() > 0, refused_line(s)), "refused  "@, t);
}

} // verus!
