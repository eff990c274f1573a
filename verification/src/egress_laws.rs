//! What the texts say that hold a box to what it may reach.
use vstd::prelude::*;

use crate::address::{self, IpAddr, Ipv4Addr, Ipv6Addr};
use crate::egress::{self, EgressDest};
use crate::lines;
use crate::seqs;
use crate::text;

verus! {

/// A character of a written address.
pub open spec fn is_address_char(c: char) -> bool {
    text::is_alphanumeric(c) || c == ':' || c == '.'
}

/// A text of such characters.
pub open spec fn is_address_text(s: Seq<char>) -> bool {
    forall|i: int| 0 <= i < s.len() ==> is_address_char(#[trigger] s[i])
}

proof fn lemma_address_concat(a: Seq<char>, b: Seq<char>)
    requires
        is_address_text(a),
        is_address_text(b),
    ensures
        is_address_text(a + b),
{
    assert forall|i: int| 0 <= i < (a + b).len() implies is_address_char(#[trigger] (a + b)[i]) by {
        if i < a.len() {
            assert((a + b)[i] == a[i]);
        } else {
            assert((a + b)[i] == b[i - a.len()]);
        }
    }
}

proof fn lemma_decimal_text(n: nat)
    ensures
        is_address_text(text::decimal(n)),
{
    text::law_decimal_reads_back(n);
    assert forall|i: int| 0 <= i < text::decimal(n).len() implies is_address_char(
        #[trigger] text::decimal(n)[i],
    ) by {
        assert(text::is_digit(text::decimal(n)[i]));
    }
}

proof fn lemma_hexadecimal_text(n: nat)
    ensures
        is_address_text(address::hexadecimal(n)),
    decreases n,
{
    let d = address::hex_digit((n % 16) as int);
    assert(is_address_char(d));
    if n >= 16 {
        lemma_hexadecimal_text(n / 16);
        let front = address::hexadecimal(n / 16);
        assert(address::hexadecimal(n) =~= front + seq![d]);
        assert(is_address_text(seq![d]));
        lemma_address_concat(front, seq![d]);
    }
}

proof fn lemma_segments_text(segments: Seq<u16>)
    ensures
        is_address_text(address::segments_text(segments)),
    decreases segments.len(),
{
    if segments.len() == 1 {
        lemma_hexadecimal_text(segments[0] as nat);
    } else if segments.len() > 1 {
        let front = address::segments_text(segments.drop_last());
        lemma_segments_text(segments.drop_last());
        lemma_hexadecimal_text(segments.last() as nat);
        assert(is_address_text(seq![':']));
        lemma_address_concat(front, seq![':']);
        lemma_address_concat(
            front + seq![':'],
            address::hexadecimal(segments.last() as nat),
        );
    }
}

proof fn lemma_v4_text(a: Ipv4Addr)
    ensures
        is_address_text(a.text()),
{
    let da = text::decimal(a.a as nat);
    let db = text::decimal(a.b as nat);
    let dc = text::decimal(a.c as nat);
    let dd = text::decimal(a.d as nat);
    reveal_strlit(".");
    let dot = "."@;
    assert(is_address_text(dot));
    lemma_decimal_text(a.a as nat);
    lemma_decimal_text(a.b as nat);
    lemma_decimal_text(a.c as nat);
    lemma_decimal_text(a.d as nat);
    lemma_address_concat(da, dot);
    lemma_address_concat(da + dot, db);
    lemma_address_concat(da + dot + db, dot);
    lemma_address_concat(da + dot + db + dot, dc);
    lemma_address_concat(da + dot + db + dot + dc, dot);
    lemma_address_concat(da + dot + db + dot + dc + dot, dd);
}

proof fn lemma_v6_text(a: Ipv6Addr)
    ensures
        is_address_text(a.text()),
{
    let all = a.segments();
    match a.mapped() {
        Some(v4) => {
            reveal_strlit("::ffff:");
            assert(is_address_text("::ffff:"@));
            lemma_v4_text(v4);
            lemma_address_concat("::ffff:"@, v4.text());
        },
        None => {
            let at = address::longest_zeros(all, 8);
            let n = address::zeros_at(all, at as int);
            let front = address::segments_text(all.take(at as int));
            let back = address::segments_text(all.skip((at + n) as int));
            let gap = seq![':', ':'];
            lemma_segments_text(all);
            lemma_segments_text(all.take(at as int));
            lemma_segments_text(all.skip((at + n) as int));
            assert(is_address_text(gap));
            lemma_address_concat(front, gap);
            lemma_address_concat(front + gap, back);
        },
    }
}

/// A written address is letters, digits, colons and dots.
pub proof fn law_an_address_is_one_word(ip: IpAddr)
    ensures
        is_address_text(ip.text()),
        seqs::lacks(ip.text(), '\n'),
        seqs::lacks(ip.text(), ' '),
{
    match ip {
        IpAddr::V4(a) => {
            lemma_v4_text(a);
        },
        IpAddr::V6(a) => {
            lemma_v6_text(a);
        },
    }
    assert forall|i: int| 0 <= i < ip.text().len() implies ip.text()[i] != '\n' && ip.text()[i]
        != ' ' by {
        assert(is_address_char(ip.text()[i]));
    }
}

/// The rule that lets one thing through: this protocol, to this address, on this
/// port.
pub open spec fn accept_line(ip: IpAddr, protocol: Seq<char>, port: nat) -> Seq<char> {
    "    "@ + (match ip {
        IpAddr::V4(_) => "ip"@,
        IpAddr::V6(_) => "ip6"@,
    }) + " daddr "@ + ip.text() + " "@ + protocol + " dport "@ + text::decimal(port) + " accept"@
}

/// The rule for a destination.
pub open spec fn destination_line(d: EgressDest) -> Seq<char> {
    accept_line(d.ip, "tcp"@, d.port as nat)
}

/// The two rules for a resolver, if there is one of this family.
pub open spec fn resolver_lines(resolver: Option<IpAddr>, v4: bool) -> Seq<Seq<char>> {
    match resolver {
        Some(ip) => if ip is V4 == v4 {
            seq![accept_line(ip, "udp"@, 53), accept_line(ip, "tcp"@, 53)]
        } else {
            Seq::empty()
        },
        None => Seq::empty(),
    }
}

/// The rules for the destinations of one family, in their order.
pub open spec fn family_lines(allow: Seq<EgressDest>, v4: bool) -> Seq<Seq<char>> {
    allow.filter(|d: EgressDest| d.ip is V4 == v4).map_values(|d: EgressDest| destination_line(d))
}

/// A rule is one line, and is what is written.
proof fn lemma_rule(ip: IpAddr, protocol: Seq<char>, port: u16)
    requires
        seqs::lacks(protocol, '\n'),
    ensures
        egress::rule(ip, protocol, port) == accept_line(ip, protocol, port as nat) + seq!['\n'],
        seqs::lacks(accept_line(ip, protocol, port as nat), '\n'),
{
    broadcast use lines::group_one_line;

    reveal_strlit("    ");
    reveal_strlit("ip");
    reveal_strlit("ip6");
    reveal_strlit(" daddr ");
    reveal_strlit(" ");
    reveal_strlit(" dport ");
    reveal_strlit(" accept");
    reveal_strlit(" accept\n");
    law_an_address_is_one_word(ip);
    assert(" accept\n"@ =~= " accept"@ + seq!['\n']);
    assert(egress::rule(ip, protocol, port) =~= accept_line(ip, protocol, port as nat) + seq![
        '\n',
    ]);
    assert(seqs::lacks("    "@, '\n') && seqs::lacks("ip"@, '\n') && seqs::lacks("ip6"@, '\n')
        && seqs::lacks(" daddr "@, '\n') && seqs::lacks(" "@, '\n') && seqs::lacks(
        " dport "@,
        '\n',
    ) && seqs::lacks(" accept"@, '\n'));
}

/// The rules of a family are its lines.
proof fn lemma_family(allow: Seq<EgressDest>, v4: bool)
    ensures
        egress::dest_rules(allow, v4) == lines::ended(family_lines(allow, v4)),
        lines::are_lines(family_lines(allow, v4)),
        family_lines(allow, v4).len() == allow.filter(|d: EgressDest| d.ip is V4 == v4).len(),
    decreases allow.len(),
{
    let fam = |d: EgressDest| d.ip is V4 == v4;
    let line = |d: EgressDest| destination_line(d);
    reveal(Seq::filter);
    if allow.len() > 0 {
        let front = allow.drop_last();
        let d = allow.last();
        lemma_family(front, v4);
        reveal_strlit("tcp");
        lemma_rule(d.ip, "tcp"@, d.port);
        if fam(d) {
            let before = family_lines(front, v4);
            assert(allow.filter(fam) == front.filter(fam).push(d));
            assert(family_lines(allow, v4) =~= before + seq![destination_line(d)]);
            lines::lemma_one(destination_line(d));
            lines::lemma_ended_concat(before, seq![destination_line(d)]);
        } else {
            assert(allow.filter(fam) == front.filter(fam));
            assert(egress::dest_rules(allow, v4) =~= egress::dest_rules(front, v4));
        }
    } else {
        assert(family_lines(allow, v4) =~= Seq::empty());
        lines::lemma_none();
    }
}

/// The rules for a resolver are its lines.
proof fn lemma_resolver(resolver: Option<IpAddr>, v4: bool)
    ensures
        egress::resolver_rules(resolver, v4) == lines::ended(resolver_lines(resolver, v4)),
        lines::are_lines(resolver_lines(resolver, v4)),
{
    lines::lemma_none();
    if let Some(ip) = resolver {
        reveal_strlit("tcp");
        reveal_strlit("udp");
        lemma_rule(ip, "udp"@, 53);
        lemma_rule(ip, "tcp"@, 53);
        let a = accept_line(ip, "udp"@, 53);
        let b = accept_line(ip, "tcp"@, 53);
        lines::lemma_one(a);
        lines::lemma_one(b);
        lines::lemma_ended_concat(seq![a], seq![b]);
        assert(seq![a] + seq![b] =~= seq![a, b]);
    }
}

/// The lines that every ruleset begins with.
spec fn frame_top() -> Seq<Seq<char>> {
    seq![
        "table inet h5i_egress {"@,
        "  chain output {"@,
        "    type filter hook output priority 0; policy drop;"@,
        "    ct state established,related accept"@,
        "    oif \"lo\" accept"@,
    ]
}

proof fn lemma_frame()
    ensures
        "table inet h5i_egress {\n  chain output {\n    type filter hook output priority 0; policy drop;\n    ct state established,related accept\n    oif \"lo\" accept\n"@ == lines::ended(frame_top()),
        lines::are_lines(frame_top()),
        "  }\n}\n"@ == lines::ended(seq!["  }"@, "}"@]),
        lines::are_lines(seq!["  }"@, "}"@]),
{
    let top = frame_top();
    let l0 = "table inet h5i_egress {"@;
    let l1 = "  chain output {"@;
    let l2 = "    type filter hook output priority 0; policy drop;"@;
    let l3 = "    ct state established,related accept"@;
    let l4 = "    oif \"lo\" accept"@;
    let b0 = "  }"@;
    let b1 = "}"@;
    let bottom = seq![b0, b1];
    reveal_strlit("table inet h5i_egress {\n  chain output {\n    type filter hook output priority 0; policy drop;\n    ct state established,related accept\n    oif \"lo\" accept\n");
    reveal_strlit("table inet h5i_egress {");
    reveal_strlit("  chain output {");
    reveal_strlit("    type filter hook output priority 0; policy drop;");
    reveal_strlit("    ct state established,related accept");
    reveal_strlit("    oif \"lo\" accept");
    reveal_strlit("  }\n}\n");
    reveal_strlit("  }");
    reveal_strlit("}");
    lines::lemma_one(l0);
    lines::lemma_one(l1);
    lines::lemma_one(l2);
    lines::lemma_one(l3);
    lines::lemma_one(l4);
    lines::lemma_one(b0);
    lines::lemma_one(b1);
    lines::lemma_ended_concat(seq![l0], seq![l1]);
    lines::lemma_ended_concat(seq![l0] + seq![l1], seq![l2]);
    lines::lemma_ended_concat(seq![l0] + seq![l1] + seq![l2], seq![l3]);
    lines::lemma_ended_concat(seq![l0] + seq![l1] + seq![l2] + seq![l3], seq![l4]);
    assert(seq![l0] + seq![l1] + seq![l2] + seq![l3] + seq![l4] =~= top);
    lines::lemma_ended_concat(seq![b0], seq![b1]);
    assert(seq![b0] + seq![b1] =~= bottom);
    assert("table inet h5i_egress {\n  chain output {\n    type filter hook output priority 0; policy drop;\n    ct state established,related accept\n    oif \"lo\" accept\n"@ =~= lines::ended(top));
    assert("  }\n}\n"@ =~= lines::ended(bottom));
}

/// The ruleset, line by line: a chain whose policy is to drop, which lets
/// through what belongs to an open connection and what stays on the machine, and
/// then the resolver's two rules and exactly one rule for each destination of the
/// list, with its family, its address and its port, those of IPv4 first.
pub proof fn law_each_destination_has_its_rule(allow: Seq<EgressDest>, resolver: Option<IpAddr>)
    ensures
        lines::lines(egress::ruleset(allow, resolver)) == seq![
            "table inet h5i_egress {"@,
            "  chain output {"@,
            "    type filter hook output priority 0; policy drop;"@,
            "    ct state established,related accept"@,
            "    oif \"lo\" accept"@,
        ] + resolver_lines(resolver, true) + family_lines(allow, true) + resolver_lines(
            resolver,
            false,
        ) + family_lines(allow, false) + seq!["  }"@, "}"@, Seq::empty()],
{
    let top = frame_top();
    let bottom = seq!["  }"@, "}"@];
    lemma_frame();
    lemma_resolver(resolver, true);
    lemma_resolver(resolver, false);
    lemma_family(allow, true);
    lemma_family(allow, false);
    let r4 = resolver_lines(resolver, true);
    let f4 = family_lines(allow, true);
    let r6 = resolver_lines(resolver, false);
    let f6 = family_lines(allow, false);
    lemma_six(top, r4, f4, r6, f6, bottom);
    assert(bottom + seq![Seq::<char>::empty()] =~= seq!["  }"@, "}"@, Seq::<char>::empty()]);
}

/// Six lists of lines, one behind the other.
proof fn lemma_six(
    top: Seq<Seq<char>>,
    r4: Seq<Seq<char>>,
    f4: Seq<Seq<char>>,
    r6: Seq<Seq<char>>,
    f6: Seq<Seq<char>>,
    bottom: Seq<Seq<char>>,
)
    requires
        lines::are_lines(top),
        lines::are_lines(r4),
        lines::are_lines(f4),
        lines::are_lines(r6),
        lines::are_lines(f6),
        lines::are_lines(bottom),
    ensures
        lines::lines(
            lines::ended(top) + (lines::ended(r4) + lines::ended(f4)) + (lines::ended(r6)
                + lines::ended(f6)) + lines::ended(bottom),
        ) == top + r4 + f4 + r6 + f6 + (bottom + seq![Seq::<char>::empty()]),
{
    let m1 = top + r4;
    let m2 = m1 + f4;
    let m3 = m2 + r6;
    let m4 = m3 + f6;
    lines::lemma_ended_concat(top, r4);
    lines::lemma_ended_concat(m1, f4);
    lines::lemma_ended_concat(m2, r6);
    lines::lemma_ended_concat(m3, f6);
    lines::lemma_ended_concat(m4, bottom);
    assert(lines::ended(top) + (lines::ended(r4) + lines::ended(f4)) + (lines::ended(r6)
        + lines::ended(f6)) + lines::ended(bottom) =~= lines::ended(m4 + bottom));
    lines::lemma_lines(m4 + bottom, Seq::empty());
    assert((m4 + bottom).push(Seq::empty()) =~= m4 + (bottom + seq![Seq::<char>::empty()]));
}

/// Every destination is of one family or the other.
proof fn lemma_two_families(allow: Seq<EgressDest>)
    ensures
        allow.filter(|d: EgressDest| d.ip is V4 == true).len() + allow.filter(
            |d: EgressDest| d.ip is V4 == false,
        ).len() == allow.len(),
    decreases allow.len(),
{
    reveal(Seq::filter);
    if allow.len() > 0 {
        lemma_two_families(allow.drop_last());
    }
}

/// How many lines there are.
pub proof fn lemma_line_count(allow: Seq<EgressDest>, resolver: Option<IpAddr>)
    ensures
        lines::lines(egress::ruleset(allow, resolver)).len() == 8 + allow.len() + (if resolver is Some {
            2int
        } else {
            0
        }),
{
    law_each_destination_has_its_rule(allow, resolver);
    lemma_family(allow, true);
    lemma_family(allow, false);
    lemma_two_families(allow);
}

/// The rule of each destination stands in the ruleset, and besides the eight
/// lines that are always there, and the two of a resolver, there are as many
/// lines as there are destinations: nothing is left out and nothing is let
/// through that is not on the list.
pub proof fn law_no_destination_is_left_out(
    allow: Seq<EgressDest>,
    resolver: Option<IpAddr>,
    i: int,
)
    requires
        0 <= i < allow.len(),
    ensures
        lines::lines(egress::ruleset(allow, resolver)).contains(destination_line(allow[i])),
        lines::lines(egress::ruleset(allow, resolver)).len() == 8 + allow.len() + (if resolver is Some {
            2int
        } else {
            0
        }),
{
    let d = allow[i];
    let v4 = d.ip is V4;
    let fam = |d: EgressDest| d.ip is V4 == v4;
    let line = |d: EgressDest| destination_line(d);
    law_each_destination_has_its_rule(allow, resolver);
    lemma_family(allow, true);
    lemma_family(allow, false);
    lemma_two_families(allow);
    allow.lemma_filter_contains(fam, i);
    let mine = allow.filter(fam);
    let k = choose|k: int| 0 <= k < mine.len() && mine[k] == d;
    assert(family_lines(allow, v4)[k] == destination_line(d));
    let r4 = resolver_lines(resolver, true);
    let f4 = family_lines(allow, true);
    let r6 = resolver_lines(resolver, false);
    let f6 = family_lines(allow, false);
    let all = lines::lines(egress::ruleset(allow, resolver));
    let at = if v4 {
        5 + r4.len() + k
    } else {
        5 + r4.len() + f4.len() + r6.len() + k
    };
    assert(all[at] == destination_line(d));
}

/// The names file, line by line: the box itself, under both of its addresses,
/// and then each name that was pinned with the address that it was pinned to, in
/// order.
pub proof fn law_each_pinned_name_has_its_line(pins: Seq<(Seq<char>, IpAddr)>)
    requires
        forall|i: int| 0 <= i < pins.len() ==> seqs::lacks((#[trigger] pins[i]).0, '\n'),
    ensures
        lines::lines(egress::hosts_text(pins)) == seq![
            "127.0.0.1 localhost"@,
            "::1 localhost"@,
        ] + pins.map_values(|p: (Seq<char>, IpAddr)| p.1.text() + " "@ + p.0) + seq![
            Seq::<char>::empty(),
        ],
{
    let line = |p: (Seq<char>, IpAddr)| p.1.text() + " "@ + p.0;
    let a = "127.0.0.1 localhost"@;
    let b = "::1 localhost"@;
    reveal_strlit("127.0.0.1 localhost\n::1 localhost\n");
    reveal_strlit("127.0.0.1 localhost");
    reveal_strlit("::1 localhost");
    lines::lemma_one(a);
    lines::lemma_one(b);
    lines::lemma_ended_concat(seq![a], seq![b]);
    assert(seq![a] + seq![b] =~= seq![a, b]);
    assert("127.0.0.1 localhost\n::1 localhost\n"@ =~= lines::ended(seq![a, b]));
    lemma_pin_lines(pins);
    let rest = pins.map_values(line);
    lines::lemma_ended_concat(seq![a, b], rest);
    lines::lemma_lines(seq![a, b] + rest, Seq::empty());
    assert((seq![a, b] + rest).push(Seq::empty()) =~= seq![a, b] + rest + seq![
        Seq::<char>::empty(),
    ]);
}

proof fn lemma_pin_lines(pins: Seq<(Seq<char>, IpAddr)>)
    requires
        forall|i: int| 0 <= i < pins.len() ==> seqs::lacks((#[trigger] pins[i]).0, '\n'),
    ensures
        ({
            let list = pins.map_values(|p: (Seq<char>, IpAddr)| p.1.text() + " "@ + p.0);
            egress::pin_lines(pins) == lines::ended(list) && lines::are_lines(list)
        }),
    decreases pins.len(),
{
    broadcast use lines::group_one_line;

    let line = |p: (Seq<char>, IpAddr)| p.1.text() + " "@ + p.0;
    if pins.len() > 0 {
        let front = pins.drop_last();
        let p = pins.last();
        assert(p == pins[pins.len() - 1]);
        assert forall|i: int| 0 <= i < front.len() implies seqs::lacks(
            (#[trigger] front[i]).0,
            '\n',
        ) by {
            assert(front[i] == pins[i]);
        }
        lemma_pin_lines(front);
        law_an_address_is_one_word(p.1);
        reveal_strlit(" ");
        reveal_strlit("\n");
        assert(seqs::lacks(" "@, '\n'));
        assert("\n"@ =~= seq!['\n']);
        lines::lemma_one(line(p));
        lines::lemma_ended_concat(front.map_values(line), seq![line(p)]);
        assert(pins.map_values(line) =~= front.map_values(line) + seq![line(p)]);
        assert(egress::hosts_line(p.1, p.0) =~= line(p) + seq!['\n']);
    } else {
        assert(pins.map_values(line) =~= Seq::empty());
        lines::lemma_none();
    }
}

} // verus!
