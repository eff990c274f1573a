//! What holds of the entries that a box may reach: each answer of a resolver has
//! its place, and nothing else gets one.
use vstd::prelude::*;
use vstd::string::*;

use crate::address::{self, IpAddr, Ipv4Addr};
use crate::egress::{self, EgressDest, EgressPlan, ResolvedEgress, ResolvedView};
use crate::egress_laws;
use crate::lines;
use crate::seqs;
use crate::text;

verus! {

/// No address at all is what a resolver says for a name that it blocks: `0.0.0.0`
/// and `::`, and the first of them written as the second kind. No other is.
pub proof fn law_only_no_address_is_a_sinkhole(ip: IpAddr, r: bool)
    requires
        call_ensures(egress::is_sinkhole, (&ip,), r),
    ensures
        ip matches IpAddr::V4(v) ==> (r <==> v.a == 0 && v.b == 0 && v.c == 0 && v.d == 0),
        ip matches IpAddr::V6(v) ==> (r <==> v.s0 == 0 && v.s1 == 0 && v.s2 == 0 && v.s3 == 0
            && v.s4 == 0 && (v.s5 == 0 || v.s5 == 0xffff) && v.s6 == 0 && v.s7 == 0),
{
    if let IpAddr::V6(v) = ip {
        let all = v.segments();
        assert(all[0] == v.s0 && all[1] == v.s1 && all[2] == v.s2 && all[3] == v.s3 && all[4]
            == v.s4 && all[5] == v.s5 && all[6] == v.s6 && all[7] == v.s7);
    }
}

/// Every address that a host may have may be pinned: of IPv4 all but the
/// link-local ones, the multicast ones, the broadcast address and none at all; of
/// IPv6 all but the link-local ones, the multicast ones and none at all.
pub proof fn law_an_address_of_a_host_may_be_pinned(ip: IpAddr, r: bool)
    requires
        call_ensures(egress::is_pinnable, (&ip,), r),
    ensures
        ip matches IpAddr::V4(v) ==> (1 <= v.a <= 168 || 170 <= v.a <= 223 || 240 <= v.a <= 254
            ==> r),
        ip matches IpAddr::V4(v) ==> (224 <= v.a <= 239 ==> !r),
        ip matches IpAddr::V4(v) ==> (v.a == 169 ==> (r <==> v.b != 254)),
        ip matches IpAddr::V4(v) ==> (v.a == 0 ==> (r <==> v.b != 0 || v.c != 0 || v.d != 0)),
        ip matches IpAddr::V4(v) ==> (v.a == 255 ==> (r <==> v.b != 255 || v.c != 255 || v.d
            != 255)),
        ip matches IpAddr::V6(v) ==> (1 <= v.s0 < 0xfe80 || 0xfec0 <= v.s0 < 0xff00 ==> r),
        ip matches IpAddr::V6(v) ==> (0xfe80 <= v.s0 <= 0xfebf || 0xff00 <= v.s0 ==> !r),
        ip matches IpAddr::V6(v) ==> (v.s0 == 0 && (v.s1 != 0 || v.s2 != 0 || v.s3 != 0 || v.s4
            != 0) ==> r),
        ip matches IpAddr::V6(v) ==> (v.s0 == 0 && v.s5 != 0xffff && v.s7 != 0 ==> r),
{
    match ip {
        IpAddr::V6(v) => {
            let all = v.segments();
            assert(all[0] == v.s0 && all[1] == v.s1 && all[2] == v.s2 && all[3] == v.s3 && all[4]
                == v.s4 && all[5] == v.s5 && all[6] == v.s6 && all[7] == v.s7);
        },
        IpAddr::V4(v) => {},
    }
}

/// An address has this place in a resolution: among the destinations, with the
/// port of its entry, if it may be pinned, and otherwise among what is reported
/// of its entry.
pub open spec fn placed(r: ResolvedView, entry: Seq<char>, port: u16, ip: IpAddr) -> bool {
    if egress::pinnable(ip) {
        r.dests.contains(EgressDest { ip, port })
    } else if egress::sinkhole(ip) {
        r.sinkholed.contains((entry, ip))
    } else {
        r.refused.contains((entry, ip))
    }
}

/// Nothing of the one is lost in the other.
pub open spec fn grows(a: ResolvedView, b: ResolvedView) -> bool {
    &&& forall|d: EgressDest| #[trigger] a.dests.contains(d) ==> b.dests.contains(d)
    &&& forall|p: (Seq<char>, IpAddr)| #[trigger]
        a.host_pins.contains(p) ==> b.host_pins.contains(p)
    &&& forall|p: (Seq<char>, IpAddr)| #[trigger] a.refused.contains(p) ==> b.refused.contains(p)
    &&& forall|p: (Seq<char>, IpAddr)| #[trigger]
        a.sinkholed.contains(p) ==> b.sinkholed.contains(p)
}

/// One behind a list.
proof fn lemma_pushed<A>(s: Seq<A>, a: A)
    ensures
        s.push(a).contains(a),
        forall|x: A| #[trigger] s.contains(x) ==> s.push(a).contains(x),
        forall|x: A| #[trigger] s.push(a).contains(x) ==> s.contains(x) || x == a,
{
    assert(s.push(a)[s.len() as int] == a);
    assert forall|x: A| #[trigger] s.contains(x) implies s.push(a).contains(x) by {
        let i = choose|i: int| 0 <= i < s.len() && s[i] == x;
        assert(s.push(a)[i] == x);
    }
    assert forall|x: A| #[trigger] s.push(a).contains(x) implies s.contains(x) || x == a by {
        let i = choose|i: int| 0 <= i < s.push(a).len() && s.push(a)[i] == x;
        if i < s.len() {
            assert(s[i] == x);
        }
    }
}

proof fn lemma_answered(r: ResolvedView, entry: Seq<char>, port: u16, ip: IpAddr)
    ensures
        grows(r, r.answered(entry, port, ip)),
        placed(r.answered(entry, port, ip), entry, port, ip),
{
    lemma_pushed(r.dests, EgressDest { ip, port });
    lemma_pushed(r.sinkholed, (entry, ip));
    lemma_pushed(r.refused, (entry, ip));
}

proof fn lemma_all_answered(r: ResolvedView, entry: Seq<char>, port: u16, addrs: Seq<IpAddr>)
    ensures
        grows(r, r.all_answered(entry, port, addrs)),
        forall|k: int|
            0 <= k < addrs.len() ==> placed(
                r.all_answered(entry, port, addrs),
                entry,
                port,
                #[trigger] addrs[k],
            ),
    decreases addrs.len(),
{
    if addrs.len() > 0 {
        let front = addrs.drop_last();
        let before = r.all_answered(entry, port, front);
        lemma_all_answered(r, entry, port, front);
        lemma_answered(before, entry, port, addrs.last());
        let after = r.all_answered(entry, port, addrs);
        assert forall|k: int| 0 <= k < addrs.len() implies placed(
            after,
            entry,
            port,
            #[trigger] addrs[k],
        ) by {
            if k < front.len() {
                assert(addrs[k] == front[k]);
                assert(placed(before, entry, port, front[k]));
            }
        }
    }
}

/// The first of these that may be pinned.
pub open spec fn is_first(addrs: Seq<IpAddr>, ip: IpAddr) -> bool {
    exists|k: int|
        0 <= k < addrs.len() && #[trigger] addrs[k] == ip && egress::pinnable(ip) && forall|j: int|
            0 <= j < k ==> !egress::pinnable(#[trigger] addrs[j])
}

proof fn lemma_first(addrs: Seq<IpAddr>)
    ensures
        egress::first_pinnable(addrs) matches Some(ip) ==> is_first(addrs, ip),
        egress::first_pinnable(addrs) is None ==> forall|k: int|
            0 <= k < addrs.len() ==> !egress::pinnable(#[trigger] addrs[k]),
    decreases addrs.len(),
{
    if addrs.len() > 0 {
        let front = addrs.drop_last();
        lemma_first(front);
        match egress::first_pinnable(front) {
            Some(ip) => {
                let k = choose|k: int|
                    0 <= k < front.len() && #[trigger] front[k] == ip && egress::pinnable(ip)
                        && forall|j: int| 0 <= j < k ==> !egress::pinnable(#[trigger] front[j]);
                assert(addrs[k] == ip);
                assert forall|j: int| 0 <= j < k implies !egress::pinnable(#[trigger] addrs[j]) by {
                    assert(addrs[j] == front[j]);
                }
            },
            None => {
                assert forall|j: int| 0 <= j < front.len() implies !egress::pinnable(
                    #[trigger] addrs[j],
                ) by {
                    assert(addrs[j] == front[j]);
                }
                assert(addrs[addrs.len() - 1] == addrs.last());
            },
        }
    }
}

/// An entry asks for this, and this is the answer to it.
pub open spec fn asked(
    egress: Seq<String>,
    answers: Seq<Option<Vec<IpAddr>>>,
    i: int,
    host: Seq<char>,
    port: u16,
) -> bool {
    0 <= i < egress.len() && egress::query(egress[i]@) == Some((host, port)) && answers[i] is Some
}

/// Everything that this entry was answered with has its place, and its name is
/// pinned if it is a name and something may be.
pub open spec fn is_served(
    r: ResolvedView,
    egress: Seq<String>,
    answers: Seq<Option<Vec<IpAddr>>>,
    i: int,
    host: Seq<char>,
    port: u16,
) -> bool {
    let addrs = answers[i]->Some_0@;
    &&& forall|k: int|
        0 <= k < addrs.len() ==> placed(r, text::trim(egress[i]@), port, #[trigger] addrs[k])
    &&& !address::is_literal(host) ==> forall|ip: IpAddr| #[trigger]
        is_first(addrs, ip) ==> r.host_pins.contains((host, ip))
}

proof fn lemma_only_first(addrs: Seq<IpAddr>, a: IpAddr, b: IpAddr)
    requires
        is_first(addrs, a),
        is_first(addrs, b),
    ensures
        a == b,
{
    let i = choose|k: int|
        0 <= k < addrs.len() && #[trigger] addrs[k] == a && egress::pinnable(a) && forall|j: int|
            0 <= j < k ==> !egress::pinnable(#[trigger] addrs[j]);
    let j = choose|k: int|
        0 <= k < addrs.len() && #[trigger] addrs[k] == b && egress::pinnable(b) && forall|j: int|
            0 <= j < k ==> !egress::pinnable(#[trigger] addrs[j]);
    assert(addrs[i] == a && addrs[j] == b);
}

proof fn lemma_served(
    egress: Seq<String>,
    answers: Seq<Option<Vec<IpAddr>>>,
    i: int,
    host: Seq<char>,
    port: u16,
)
    requires
        asked(egress, answers, i, host, port),
    ensures
        is_served(egress::resolution(egress, answers), egress, answers, i, host, port),
    decreases egress.len(),
{
    let front = egress.drop_last();
    let before = egress::resolution(front, answers);
    let raw = egress.last()@;
    let answer = answers[egress.len() - 1];
    let after = egress::resolution(egress, answers);
    assert(after == before.entered(raw, answer));
    lemma_entered(before, raw, answer);
    let addrs = answers[i]->Some_0@;
    if i < front.len() {
        assert(front[i] == egress[i]);
        lemma_served(front, answers, i, host, port);
        assert forall|k: int| 0 <= k < addrs.len() implies placed(
            after,
            text::trim(egress[i]@),
            port,
            #[trigger] addrs[k],
        ) by {
            assert(placed(before, text::trim(egress[i]@), port, addrs[k]));
        }
    } else {
        lemma_all_answered(before, text::trim(raw), port, addrs);
        lemma_first(addrs);
        let most = before.all_answered(text::trim(raw), port, addrs);
        if !address::is_literal(host) {
            assert forall|ip: IpAddr| #[trigger] is_first(
                addrs,
                ip,
            ) implies after.host_pins.contains((host, ip)) by {
                if let Some(first) = egress::first_pinnable(addrs) {
                    lemma_only_first(addrs, first, ip);
                    lemma_pushed(most.host_pins, (host, ip));
                }
            }
        }
    }
}

proof fn lemma_entered(r: ResolvedView, raw: Seq<char>, answer: Option<Vec<IpAddr>>)
    ensures
        grows(r, r.entered(raw, answer)),
{
    if let (Some((host, port)), Some(addrs)) = (egress::query(raw), answer) {
        lemma_all_answered(r, text::trim(raw), port, addrs@);
        let most = r.all_answered(text::trim(raw), port, addrs@);
        if let Some(ip) = egress::first_pinnable(addrs@) {
            lemma_pushed(most.host_pins, (host, ip));
        }
    }
}

/// Every answer to every entry has its place: a destination with the entry's
/// port, if it may be pinned, and a report otherwise; and every name that has an
/// answer which may be pinned is pinned to the first of those.
pub proof fn law_every_answer_has_its_place(
    egress: Vec<String>,
    answers: Vec<Option<Vec<IpAddr>>>,
    r: ResolvedEgress,
    i: int,
    host: Seq<char>,
    port: u16,
)
    requires
        call_ensures(egress::resolve_egress, (&egress, &answers), r),
        asked(egress@, answers@, i, host, port),
    ensures
        is_served(r@, egress@, answers@, i, host, port),
{
    lemma_served(egress@, answers@, i, host, port);
}

/// This entry was answered with this address.
pub open spec fn is_answer(
    egress: Seq<String>,
    answers: Seq<Option<Vec<IpAddr>>>,
    p: (Seq<char>, IpAddr),
) -> bool {
    exists|i: int, host: Seq<char>, port: u16| #[trigger]
        asked(egress, answers, i, host, port) && text::trim(egress[i]@) == p.0
            && answers[i]->Some_0@.contains(p.1)
}

proof fn lemma_answer_more(
    front: Seq<String>,
    egress: Seq<String>,
    answers: Seq<Option<Vec<IpAddr>>>,
    p: (Seq<char>, IpAddr),
)
    requires
        is_answer(front, answers, p),
        egress.len() > 0,
        front == egress.drop_last(),
    ensures
        is_answer(egress, answers, p),
{
    let (i, h, n) = choose|i: int, host: Seq<char>, port: u16| #[trigger]
        asked(front, answers, i, host, port) && text::trim(front[i]@) == p.0
            && answers[i]->Some_0@.contains(p.1);
    assert(front[i] == egress[i]);
    assert(asked(egress, answers, i, h, n));
}

/// Everything of a resolution is an answer to an entry.
pub open spec fn is_asked_for(
    r: ResolvedView,
    egress: Seq<String>,
    answers: Seq<Option<Vec<IpAddr>>>,
) -> bool {
    &&& forall|d: EgressDest| #[trigger]
        r.dests.contains(d) ==> exists|i: int, host: Seq<char>| #[trigger]
            asked(egress, answers, i, host, d.port) && answers[i]->Some_0@.contains(d.ip)
    &&& forall|p: (Seq<char>, IpAddr)| #[trigger]
        r.host_pins.contains(p) ==> !address::is_literal(p.0) && exists|i: int, port: u16|
            #[trigger] asked(egress, answers, i, p.0, port) && is_first(answers[i]->Some_0@, p.1)
    &&& forall|p: (Seq<char>, IpAddr)| #[trigger]
        r.refused.contains(p) ==> is_answer(egress, answers, p)
    &&& forall|p: (Seq<char>, IpAddr)| #[trigger]
        r.sinkholed.contains(p) ==> is_answer(egress, answers, p)
}

/// What answers add.
spec fn adds_only(a: ResolvedView, b: ResolvedView, entry: Seq<char>, port: u16, addrs: Seq<IpAddr>) -> bool {
    &&& b.host_pins == a.host_pins
    &&& forall|d: EgressDest| #[trigger]
        b.dests.contains(d) ==> a.dests.contains(d) || (d.port == port && addrs.contains(d.ip))
    &&& forall|p: (Seq<char>, IpAddr)| #[trigger]
        b.refused.contains(p) ==> a.refused.contains(p) || (p.0 == entry && addrs.contains(p.1))
    &&& forall|p: (Seq<char>, IpAddr)| #[trigger]
        b.sinkholed.contains(p) ==> a.sinkholed.contains(p) || (p.0 == entry && addrs.contains(p.1))
}

proof fn lemma_adds(r: ResolvedView, entry: Seq<char>, port: u16, addrs: Seq<IpAddr>)
    ensures
        adds_only(r, r.all_answered(entry, port, addrs), entry, port, addrs),
    decreases addrs.len(),
{
    if addrs.len() > 0 {
        let front = addrs.drop_last();
        let ip = addrs.last();
        let before = r.all_answered(entry, port, front);
        lemma_adds(r, entry, port, front);
        lemma_pushed(before.dests, EgressDest { ip, port });
        lemma_pushed(before.sinkholed, (entry, ip));
        lemma_pushed(before.refused, (entry, ip));
        lemma_pushed(front, ip);
        assert(front.push(ip) =~= addrs);
    }
}

proof fn lemma_asked_for(egress: Seq<String>, answers: Seq<Option<Vec<IpAddr>>>)
    ensures
        is_asked_for(egress::resolution(egress, answers), egress, answers),
    decreases egress.len(),
{
    let after = egress::resolution(egress, answers);
    if egress.len() == 0 {
    } else {
        let front = egress.drop_last();
        let before = egress::resolution(front, answers);
        let last = egress.len() - 1;
        let raw = egress.last()@;
        let answer = answers[last];
        lemma_asked_for(front, answers);
        assert(after == before.entered(raw, answer));
        assert forall|i: int, host: Seq<char>, port: u16| #[trigger]
            asked(front, answers, i, host, port) implies asked(egress, answers, i, host, port)
            && front[i] == egress[i] by {}
        if let (Some((host, port)), Some(addrs)) = (egress::query(raw), answer) {
            assert(asked(egress, answers, last, host, port));
            lemma_adds(before, text::trim(raw), port, addrs@);
            lemma_first(addrs@);
            let most = before.all_answered(text::trim(raw), port, addrs@);
            if let Some(ip) = egress::first_pinnable(addrs@) {
                lemma_pushed(most.host_pins, (host, ip));
            }
            assert forall|d: EgressDest| #[trigger] after.dests.contains(d) implies exists|
                i: int,
                host: Seq<char>,
            | #[trigger]
                asked(egress, answers, i, host, d.port) && answers[i]->Some_0@.contains(d.ip) by {
                if before.dests.contains(d) {
                    let (i, h) = choose|i: int, host: Seq<char>| #[trigger]
                        asked(front, answers, i, host, d.port) && answers[i]->Some_0@.contains(d.ip);
                    assert(asked(egress, answers, i, h, d.port));
                } else {
                    assert(asked(egress, answers, last, host, d.port));
                }
            }
            assert forall|p: (Seq<char>, IpAddr)| #[trigger]
                after.host_pins.contains(p) implies !address::is_literal(p.0) && exists|
                i: int,
                port: u16,
            | #[trigger] asked(egress, answers, i, p.0, port) && is_first(answers[i]->Some_0@, p.1) by {
                if before.host_pins.contains(p) {
                    let (i, n) = choose|i: int, port: u16| #[trigger]
                        asked(front, answers, i, p.0, port) && is_first(answers[i]->Some_0@, p.1);
                    assert(asked(egress, answers, i, p.0, n));
                } else {
                    assert(asked(egress, answers, last, p.0, port));
                }
            }
            assert forall|p: (Seq<char>, IpAddr)| #[trigger]
                after.refused.contains(p) implies is_answer(egress, answers, p) by {
                if before.refused.contains(p) {
                    lemma_answer_more(front, egress, answers, p);
                } else {
                    assert(asked(egress, answers, last, host, port));
                }
            }
            assert forall|p: (Seq<char>, IpAddr)| #[trigger]
                after.sinkholed.contains(p) implies is_answer(egress, answers, p) by {
                if before.sinkholed.contains(p) {
                    lemma_answer_more(front, egress, answers, p);
                } else {
                    assert(asked(egress, answers, last, host, port));
                }
            }
        } else {
            lemma_asked_more(before, front, egress, answers);
        }
    }
}

proof fn lemma_asked_more(
    r: ResolvedView,
    front: Seq<String>,
    egress: Seq<String>,
    answers: Seq<Option<Vec<IpAddr>>>,
)
    requires
        is_asked_for(r, front, answers),
        egress.len() > 0,
        front == egress.drop_last(),
    ensures
        is_asked_for(r, egress, answers),
{
    assert forall|i: int, host: Seq<char>, port: u16| #[trigger]
        asked(front, answers, i, host, port) implies asked(egress, answers, i, host, port)
        && front[i] == egress[i] by {}
    assert forall|d: EgressDest| #[trigger] r.dests.contains(d) implies exists|
        i: int,
        host: Seq<char>,
    | #[trigger] asked(egress, answers, i, host, d.port) && answers[i]->Some_0@.contains(d.ip) by {
        let (i, h) = choose|i: int, host: Seq<char>| #[trigger]
            asked(front, answers, i, host, d.port) && answers[i]->Some_0@.contains(d.ip);
        assert(asked(egress, answers, i, h, d.port));
    }
    assert forall|p: (Seq<char>, IpAddr)| #[trigger]
        r.host_pins.contains(p) implies !address::is_literal(p.0) && exists|i: int, port: u16|
        #[trigger] asked(egress, answers, i, p.0, port) && is_first(answers[i]->Some_0@, p.1) by {
        let (i, n) = choose|i: int, port: u16| #[trigger]
            asked(front, answers, i, p.0, port) && is_first(answers[i]->Some_0@, p.1);
        assert(asked(egress, answers, i, p.0, n));
    }
    assert forall|p: (Seq<char>, IpAddr)| #[trigger] r.refused.contains(p) implies is_answer(
        egress,
        answers,
        p,
    ) by {
        lemma_answer_more(front, egress, answers, p);
    }
    assert forall|p: (Seq<char>, IpAddr)| #[trigger] r.sinkholed.contains(p) implies is_answer(
        egress,
        answers,
        p,
    ) by {
        lemma_answer_more(front, egress, answers, p);
    }
}

/// Nothing is let through, pinned or reported that no entry asked for and no
/// resolver answered.
pub proof fn law_nothing_is_reached_that_was_not_asked_for(
    egress: Vec<String>,
    answers: Vec<Option<Vec<IpAddr>>>,
    r: ResolvedEgress,
)
    requires
        call_ensures(egress::resolve_egress, (&egress, &answers), r),
    ensures
        is_asked_for(r@, egress@, answers@),
{
    lemma_asked_for(egress@, answers@);
}

/// What is pinned is the destinations of the same resolution.
pub proof fn law_pinning_gives_the_destinations(
    egress: Vec<String>,
    answers: Vec<Option<Vec<IpAddr>>>,
    r: ResolvedEgress,
    pins: Vec<EgressDest>,
)
    requires
        call_ensures(egress::resolve_egress, (&egress, &answers), r),
        call_ensures(egress::pin_egress, (&egress, &answers), pins),
    ensures
        pins@ == r.dests@,
{
}

/// An entry of a host and a port asks for that host at that port, and an entry of
/// a host alone asks for it at 443. White space around it is not part of it.
pub proof fn law_an_entry_asks_for_a_host_and_a_port(host: Seq<char>, port: u16)
    requires
        host.len() > 0,
        text::trim(host) == host,
        text::trim(host + seq![':'] + text::decimal(port as nat)) == host + seq![':']
            + text::decimal(port as nat),
    ensures
        egress::query(host + seq![':'] + text::decimal(port as nat)) == Some((host, port)),
        seqs::lacks(host, ':') ==> egress::query(host) == Some((host, 443u16)),
{
    let digits = text::decimal(port as nat);
    let s = host + seq![':'] + digits;
    text::law_decimal_reads_back(port as nat);
    assert forall|i: int| 0 <= i < digits.len() implies digits[i] != ':' by {
        assert(text::is_digit(digits[i]));
    }
    lemma_last(host, digits);
    assert(s.take(host.len() as int) =~= host);
    assert(s.skip(host.len() as int + 1) =~= digits);
    if seqs::lacks(host, ':') {
        lemma_no_last(host);
    }
}

proof fn lemma_no_last(s: Seq<char>)
    requires
        seqs::lacks(s, ':'),
    ensures
        egress::last_of(s, ':') is None,
    decreases s.len(),
{
    if s.len() > 0 {
        assert(s.last() == s[s.len() - 1]);
        assert forall|i: int| 0 <= i < s.drop_last().len() implies s.drop_last()[i] != ':' by {
            assert(s.drop_last()[i] == s[i]);
        }
        lemma_no_last(s.drop_last());
    }
}

proof fn lemma_last(a: Seq<char>, b: Seq<char>)
    requires
        seqs::lacks(b, ':'),
    ensures
        egress::last_of(a + seq![':'] + b, ':') == Some(a.len() as int),
    decreases b.len(),
{
    let s = a + seq![':'] + b;
    if b.len() == 0 {
        assert(s =~= a.push(':'));
    } else {
        assert(s.last() == b.last());
        assert(b.last() == b[b.len() - 1]);
        assert(s.drop_last() =~= a + seq![':'] + b.drop_last());
        assert forall|i: int| 0 <= i < b.drop_last().len() implies b.drop_last()[i] != ':' by {
            assert(b.drop_last()[i] == b[i]);
        }
        lemma_last(a, b.drop_last());
    }
}

/// A box with a proxy of its own reaches that at the gateway and nothing else.
/// Any other reaches the destinations of its entries, each by a rule of its own,
/// and knows the names that were pinned; it has no network at all if an answer is
/// refused or if there is nothing to reach.
pub proof fn law_a_box_reaches_what_it_was_given(
    auth_port: Option<u16>,
    resolved: ResolvedEgress,
    r: Result<EgressPlan, String>,
)
    requires
        call_ensures(egress::setup_egress, (auth_port, resolved), r),
    ensures
        auth_port is None && resolved.refused@.len() > 0 ==> r is Err,
        auth_port is None && resolved.dests@.len() == 0 ==> r is Err,
        auth_port is None && resolved.refused@.len() == 0 && resolved.dests@.len() > 0 ==> r is Ok,
        auth_port is Some ==> r is Ok,
        r matches Ok(plan) ==> plan.allow_host_loopback == auth_port is Some,
        r matches Ok(plan) ==> match auth_port {
            Some(port) => {
                &&& lines::lines(plan.rules@).len() == 9
                &&& lines::lines(plan.rules@)[5] == "    "@ + "ip"@ + " daddr "@ + (
                Ipv4Addr { a: 10, b: 0, c: 2, d: 2 }).text() + " "@ + "tcp"@ + " dport "@
                    + text::decimal(port as nat) + " accept"@
                &&& lines::lines(plan.hosts@).len() == 3
            },
            None => {
                &&& lines::lines(plan.rules@).len() == 8 + resolved.dests@.len()
                &&& forall|i: int|
                    0 <= i < resolved.dests@.len() ==> lines::lines(plan.rules@).contains(
                        egress_laws::destination_line(#[trigger] resolved.dests@[i]),
                    )
                &&& plan.hosts@ == egress::hosts_text(egress::named(resolved.host_pins@))
            },
        },
{
    assert(resolved@.refused.len() == resolved.refused@.len());
    if let Ok(plan) = r {
        match auth_port {
            Some(port) => {
                let d = EgressDest { ip: egress::gateway(), port };
                egress_laws::law_no_destination_is_left_out(plan.dests@, None, 0);
                egress_laws::law_each_destination_has_its_rule(plan.dests@, None);
                let all = lines::lines(plan.rules@);
                let fam = |d: EgressDest| d.ip is V4 == true;
                let none = Seq::<EgressDest>::empty();
                assert(plan.dests@ =~= none.push(d));
                none.lemma_filter_push(d, fam);
                assert(none.filter(fam) =~= none) by {
                    reveal(Seq::filter);
                }
                assert(none.filter(fam).push(d) =~= seq![d]);
                assert(egress_laws::family_lines(plan.dests@, true) =~= seq![
                    egress_laws::destination_line(d),
                ]);
                assert(all[5] == egress_laws::destination_line(d));
                let pins = egress::named(plan.host_pins@);
                assert(pins.len() == 0);
                egress_laws::law_each_pinned_name_has_its_line(pins);
            },
            None => {
                assert(plan.dests@ == resolved.dests@);
                if resolved.dests@.len() > 0 {
                    egress_laws::law_no_destination_is_left_out(plan.dests@, None, 0);
                }
                assert forall|i: int| 0 <= i < resolved.dests@.len() implies lines::lines(
                    plan.rules@,
                ).contains(egress_laws::destination_line(#[trigger] resolved.dests@[i])) by {
                    egress_laws::law_no_destination_is_left_out(plan.dests@, None, i);
                }
            },
        }
    }
}

/// The ruleset that is built holds the rule of every destination, and the two of
/// a resolver, and as many lines as those and the frame.
pub proof fn law_the_ruleset_lets_out_what_is_allowed(
    allow: Vec<EgressDest>,
    resolver: Option<IpAddr>,
    r: String,
)
    requires
        call_ensures(egress::build_nft_ruleset, (&allow, resolver), r),
    ensures
        lines::lines(r@).len() == 8 + allow@.len() + (if resolver is Some {
            2int
        } else {
            0
        }),
        forall|i: int|
            0 <= i < allow@.len() ==> lines::lines(r@).contains(
                egress_laws::destination_line(#[trigger] allow@[i]),
            ),
        resolver matches Some(ip) ==> lines::lines(r@).contains(
            egress_laws::accept_line(ip, "udp"@, 53),
        ) && lines::lines(r@).contains(egress_laws::accept_line(ip, "tcp"@, 53)),
        lines::lines(r@).take(5) == seq![
            "table inet h5i_egress {"@,
            "  chain output {"@,
            "    type filter hook output priority 0; policy drop;"@,
            "    ct state established,related accept"@,
            "    oif \"lo\" accept"@,
        ],
{
    egress_laws::law_each_destination_has_its_rule(allow@, resolver);
    let all = lines::lines(r@);
    egress_laws::lemma_line_count(allow@, resolver);
    assert forall|i: int| 0 <= i < allow@.len() implies lines::lines(r@).contains(
        egress_laws::destination_line(#[trigger] allow@[i]),
    ) by {
        egress_laws::law_no_destination_is_left_out(allow@, resolver, i);
    }
    if let Some(ip) = resolver {
        let r4 = egress_laws::resolver_lines(resolver, true);
        let f4 = egress_laws::family_lines(allow@, true);
        let at = if ip is V4 {
            5
        } else {
            5 + r4.len() + f4.len()
        };
        assert(all[at as int] == egress_laws::accept_line(ip, "udp"@, 53));
        assert(all[at as int + 1] == egress_laws::accept_line(ip, "tcp"@, 53));
    }
    assert(all.take(5) =~= seq![
        "table inet h5i_egress {"@,
        "  chain output {"@,
        "    type filter hook output priority 0; policy drop;"@,
        "    ct state established,related accept"@,
        "    oif \"lo\" accept"@,
    ]);
}

/// The uplink is configured for this process's network, and keeps the host's
/// loopback out of it unless that is let in.
pub proof fn law_the_uplink_keeps_loopback_out(pid: u32, allowed: bool, r: Vec<String>)
    requires
        call_ensures(egress::slirp_args, (pid, allowed), r),
    ensures
        r@.len() == (if allowed {
            4int
        } else {
            5
        }),
        r@[0]@ == "--configure"@,
        !allowed ==> r@[1]@ == "--disable-host-loopback"@,
        r@[r@.len() - 3]@ == "--mtu=65520"@,
        r@[r@.len() - 2]@ == text::decimal(pid as nat),
        r@[r@.len() - 1]@ == "tap0"@,
{
    let all = egress::texts(r@);
    assert(all.len() == r@.len());
    assert(all[0] == r@[0]@ && all[1] == r@[1]@);
    assert(all[r@.len() - 3] == r@[r@.len() - 3]@ && all[r@.len() - 2] == r@[r@.len() - 2]@
        && all[r@.len() - 1] == r@[r@.len() - 1]@);
}

/// Each entry that a resolver blocks is told to the operator, once, in order,
/// where the entries matter and none of them refuses the run.
pub proof fn law_every_blocked_entry_is_told(
    auth_port: Option<u16>,
    resolved: ResolvedEgress,
    r: Vec<String>,
)
    requires
        call_ensures(egress::egress_notices, (auth_port, &resolved), r),
    ensures
        auth_port is Some || resolved.refused@.len() > 0 ==> r@.len() == 0,
        auth_port is None && resolved.refused@.len() == 0 ==> {
            &&& r@.len() == resolved.sinkholed@.len()
            &&& forall|i: int|
                0 <= i < r@.len() ==> (#[trigger] r@[i])@ == "h5i: net.egress entry "@
                    + egress::quoted_text(resolved.sinkholed@[i].0@) + " resolves to "@
                    + resolved.sinkholed@[i].1.text()
                    + " — a resolver returns that for a name it blocks, so this entry is unreachable and was not pinned. The rest of net.egress is unaffected."@
        },
{
    let all = egress::texts(r@);
    assert(all.len() == r@.len());
    assert(resolved@.refused.len() == resolved.refused@.len());
    assert(resolved@.sinkholed.len() == resolved.sinkholed@.len());
    assert forall|i: int|
        0 <= i < r@.len() && auth_port is None && resolved.refused@.len() == 0 implies (
    #[trigger] r@[i])@ == "h5i: net.egress entry "@ + egress::quoted_text(
        resolved.sinkholed@[i].0@,
    ) + " resolves to "@ + resolved.sinkholed@[i].1.text()
        + " — a resolver returns that for a name it blocks, so this entry is unreachable and was not pinned. The rest of net.egress is unaffected."@ by {
        assert(all[i] == r@[i]@);
        assert(resolved@.sinkholed[i] == (resolved.sinkholed@[i].0@, resolved.sinkholed@[i].1));
    }
}

} // verus!
