//! What a box may reach: names pinned to addresses, and the rules that hold it
//! to them.
use vstd::prelude::*;
use vstd::slice::slice_subrange;
use vstd::string::*;

use crate::address::{self, IpAddr, Ipv4Addr};
use crate::text;

verus! {

/// One allowed egress destination: a pinned IP and port.
#[derive(Debug, Clone, Copy, PartialEq, Eq, Structural)]
pub struct EgressDest {
    pub ip: IpAddr,
    pub port: u16,
}

/// The result of resolving the egress entries: the pinned `IP:port`
/// destinations and, for each *hostname* entry, the single IP it was pinned to.
/// Both come from *one* resolution pass, so the address the program connects to
/// is exactly the address that is allowed.
#[derive(Debug, Clone)]
pub struct ResolvedEgress {
    pub dests: Vec<EgressDest>,
    /// `(hostname, ip)`: only for non-IP-literal entries; pins DNS via files.
    pub host_pins: Vec<(String, IpAddr)>,
    /// `(entry, ip)` for an answer that named somewhere the box must not be
    /// pointed at: link-local, multicast, broadcast. Fatal.
    pub refused: Vec<(String, IpAddr)>,
    /// `(entry, ip)` for an answer of `0.0.0.0` / `::`, which is what a
    /// filtering resolver returns for a name it blocks. Not fatal.
    pub sinkholed: Vec<(String, IpAddr)>,
}

/// What a resolution says.
pub struct ResolvedView {
    pub dests: Seq<EgressDest>,
    pub host_pins: Seq<(Seq<char>, IpAddr)>,
    pub refused: Seq<(Seq<char>, IpAddr)>,
    pub sinkholed: Seq<(Seq<char>, IpAddr)>,
}

/// Names with addresses.
pub open spec fn named(list: Seq<(String, IpAddr)>) -> Seq<(Seq<char>, IpAddr)> {
    list.map_values(|p: (String, IpAddr)| (p.0@, p.1))
}

impl View for ResolvedEgress {
    type V = ResolvedView;

    open spec fn view(&self) -> ResolvedView {
        ResolvedView {
            dests: self.dests@,
            host_pins: named(self.host_pins@),
            refused: named(self.refused@),
            sinkholed: named(self.sinkholed@),
        }
    }
}

/// No address at all: what a resolver says for a name that it blocks.
pub open spec fn sinkhole(ip: IpAddr) -> bool {
    match ip.plain() {
        IpAddr::V4(v4) => v4 == (Ipv4Addr { a: 0, b: 0, c: 0, d: 0 }),
        IpAddr::V6(v6) => forall|i: int| 0 <= i < 8 ==> #[trigger] v6.segments()[i] == 0,
    }
}

/// An address that a host may have: not multicast, not unspecified, not
/// link-local, not the broadcast address.
pub open spec fn pinnable(ip: IpAddr) -> bool {
    &&& !sinkhole(ip)
    &&& match ip.plain() {
        IpAddr::V4(v4) => {
            &&& !(224 <= v4.a <= 239)
            &&& !(v4.a == 169 && v4.b == 254)
            &&& v4 != (Ipv4Addr { a: 255, b: 255, c: 255, d: 255 })
        },
        IpAddr::V6(v6) => v6.s0 < 0xff00 && !(0xfe80 <= v6.s0 <= 0xfebf),
    }
}

/// Is this answer a resolver saying "blocked" rather than a name pointing
/// somewhere it should not?
///
/// `0.0.0.0` and `::` are what a filtering resolver returns for a name on a
/// blocklist. That is a statement about the *operator's network*, not about
/// the policy.
pub fn is_sinkhole(ip: &IpAddr) -> (r: bool)
    ensures
        r == sinkhole(*ip),
{
    match ip.unmapped() {
        IpAddr::V4(v4) => v4.a == 0 && v4.b == 0 && v4.c == 0 && v4.d == 0,
        IpAddr::V6(v6) => {
            let r: bool = v6.s0 == 0 && v6.s1 == 0 && v6.s2 == 0 && v6.s3 == 0 && v6.s4 == 0
                && v6.s5 == 0 && v6.s6 == 0 && v6.s7 == 0;
            proof {
                let all = v6.segments();
                assert(all[0] == v6.s0 && all[1] == v6.s1 && all[2] == v6.s2 && all[3] == v6.s3
                    && all[4] == v6.s4 && all[5] == v6.s5 && all[6] == v6.s6 && all[7] == v6.s7);
            }
            r
        },
    }
}

/// May an egress entry pin to this address?
///
/// The policy an operator reads is a *hostname*, and the thing that is enforced
/// is whatever that name resolved to. Loopback is deliberately not refused, nor
/// are private networks: this only closes the cases where no legitimate entry
/// exists at all, the cloud metadata service at `169.254.169.254` first among
/// them.
pub fn is_pinnable(ip: &IpAddr) -> (r: bool)
    ensures
        r == pinnable(*ip),
{
    if is_sinkhole(ip) {
        return false;
    }
    match ip.unmapped() {
        IpAddr::V4(v4) => !(224 <= v4.a && v4.a <= 239) && !(v4.a == 169 && v4.b == 254) && !(v4.a
            == 255 && v4.b == 255 && v4.c == 255 && v4.d == 255),
        IpAddr::V6(v6) => v6.s0 < 0xff00 && !(0xfe80 <= v6.s0 && v6.s0 <= 0xfebf),
    }
}

/// Where a character stands last.
pub open spec fn last_of(s: Seq<char>, c: char) -> Option<int>
    decreases s.len(),
{
    if s.len() == 0 {
        None
    } else if s.last() == c {
        Some(s.len() - 1)
    } else {
        last_of(s.drop_last(), c)
    }
}

fn last_position(s: &[char], c: char) -> (r: Option<usize>)
    ensures
        match r {
            Some(i) => last_of(s@, c) == Some(i as int) && i < s@.len(),
            None => last_of(s@, c) is None,
        },
{
    let mut n: usize = s.len();
    assert(s@.take(n as int) == s@);
    while n > 0
        invariant
            0 <= n <= s@.len(),
            last_of(s@, c) == last_of(s@.take(n as int), c),
        decreases n,
    {
        assert(s@.take(n as int).drop_last() == s@.take(n - 1));
        if s[n - 1] == c {
            return Some(n - 1);
        }
        n = n - 1;
    }
    None
}

/// The port that an entry means when it names none.
pub const DEFAULT_PORT: u16 = 443;

/// The port that digits name: the default where they name none.
pub open spec fn port_of(digits: Seq<char>) -> u16 {
    if text::number(digits) <= 65535 {
        text::number(digits) as u16
    } else {
        DEFAULT_PORT
    }
}

/// What an entry asks for: a host and a port, `host` or `host:port`, and
/// nothing where it is blank.
pub open spec fn query(raw: Seq<char>) -> Option<(Seq<char>, u16)> {
    let s = text::trim(raw);
    if s.len() == 0 {
        None
    } else {
        match last_of(s, ':') {
            Some(i) => if text::is_number(s.skip(i + 1)) {
                Some((s.take(i), port_of(s.skip(i + 1))))
            } else {
                Some((s, DEFAULT_PORT))
            },
            None => Some((s, DEFAULT_PORT)),
        }
    }
}

/// What an entry asks a resolver for: a host and a port.
///
/// A trailing `:port` is split off only when it is numeric.
pub fn egress_query(raw: &str) -> (r: Option<(String, u16)>)
    ensures
        match r {
            Some((host, port)) => query(raw@) == Some((host@, port)),
            None => query(raw@) is None,
        },
{
    let chars = text::chars_of(raw);
    let s = text::trimmed(chars.as_slice());
    let n: usize = s.len();
    if n == 0 {
        return None;
    }
    if let Some(i) = last_position(s, ':') {
        let digits = slice_subrange(s, i + 1, n);
        assert(digits@ =~= s@.skip(i + 1));
        if is_digits(digits) {
            let host = slice_subrange(s, 0, i);
            assert(host@ =~= s@.take(i as int));
            let port: u16 = match text::parse_number(digits, 65535) {
                Some(p) => p as u16,
                None => DEFAULT_PORT,
            };
            return Some((text::text_of(host), port));
        }
    }
    Some((text::text_of(s), DEFAULT_PORT))
}

fn is_digits(s: &[char]) -> (r: bool)
    ensures
        r == text::is_number(s@),
{
    if s.len() == 0 {
        return false;
    }
    let mut i: usize = 0;
    while i < s.len()
        invariant
            0 <= i <= s@.len(),
            forall|j: int| 0 <= j < i ==> text::is_digit(#[trigger] s@[j]),
        decreases s@.len() - i,
    {
        if !text::digit(s[i]) {
            return false;
        }
        i = i + 1;
    }
    true
}

/// The first answer that may be pinned.
pub open spec fn first_pinnable(addrs: Seq<IpAddr>) -> Option<IpAddr>
    decreases addrs.len(),
{
    if addrs.len() == 0 {
        None
    } else {
        match first_pinnable(addrs.drop_last()) {
            Some(ip) => Some(ip),
            None => if pinnable(addrs.last()) {
                Some(addrs.last())
            } else {
                None
            },
        }
    }
}

impl ResolvedView {
    /// Nothing resolved.
    pub open spec fn nothing() -> ResolvedView {
        ResolvedView {
            dests: Seq::empty(),
            host_pins: Seq::empty(),
            refused: Seq::empty(),
            sinkholed: Seq::empty(),
        }
    }

    /// One more answer: a destination, or reported.
    pub open spec fn answered(self, entry: Seq<char>, port: u16, ip: IpAddr) -> ResolvedView {
        if pinnable(ip) {
            let dest = EgressDest { ip, port };
            if self.dests.contains(dest) {
                self
            } else {
                ResolvedView { dests: self.dests.push(dest), ..self }
            }
        } else if sinkhole(ip) {
            ResolvedView { sinkholed: self.sinkholed.push((entry, ip)), ..self }
        } else {
            ResolvedView { refused: self.refused.push((entry, ip)), ..self }
        }
    }

    /// The answers for one entry, one after another.
    pub open spec fn all_answered(
        self,
        entry: Seq<char>,
        port: u16,
        addrs: Seq<IpAddr>,
    ) -> ResolvedView
        decreases addrs.len(),
    {
        if addrs.len() == 0 {
            self
        } else {
            self.all_answered(entry, port, addrs.drop_last()).answered(entry, port, addrs.last())
        }
    }

    /// One more entry: its answers, and a pin for a name. A name that was not
    /// resolved contributes nothing.
    pub open spec fn entered(self, raw: Seq<char>, answer: Option<Vec<IpAddr>>) -> ResolvedView {
        match (query(raw), answer) {
            (Some((host, port)), Some(addrs)) => {
                let r = self.all_answered(text::trim(raw), port, addrs@);
                match first_pinnable(addrs@) {
                    Some(ip) => if address::is_literal(host) {
                        r
                    } else {
                        ResolvedView { host_pins: r.host_pins.push((host, ip)), ..r }
                    },
                    None => r,
                }
            },
            _ => self,
        }
    }
}

/// What these entries resolve to, with these answers.
pub open spec fn resolution(
    egress: Seq<String>,
    answers: Seq<Option<Vec<IpAddr>>>,
) -> ResolvedView
    decreases egress.len(),
{
    if egress.len() == 0 {
        ResolvedView::nothing()
    } else {
        resolution(egress.drop_last(), answers).entered(
            egress.last()@,
            answers[egress.len() - 1],
        )
    }
}

fn take_answer(r: &mut ResolvedEgress, entry: &str, port: u16, ip: IpAddr)
    ensures
        final(r)@ == old(r)@.answered(entry@, port, ip),
{
    if !is_pinnable(&ip) {
        let what = entry.to_owned();
        if is_sinkhole(&ip) {
            let ghost before = r.sinkholed@;
            r.sinkholed.push((what, ip));
            assert(named(r.sinkholed@) =~= named(before).push((entry@, ip)));
        } else {
            let ghost before = r.refused@;
            r.refused.push((what, ip));
            assert(named(r.refused@) =~= named(before).push((entry@, ip)));
        }
        return;
    }
    let dest = EgressDest { ip, port };
    let mut i: usize = 0;
    while i < r.dests.len()
        invariant
            0 <= i <= r.dests@.len(),
            *r == *old(r),
            pinnable(ip),
            dest == (EgressDest { ip, port }),
            forall|j: int| 0 <= j < i ==> r.dests@[j] != dest,
        decreases r.dests@.len() - i,
    {
        if r.dests[i] == dest {
            assert(r.dests@.contains(dest));
            return;
        }
        i = i + 1;
    }
    r.dests.push(dest);
}

/// Resolve the egress entries to pinned destinations and host pins, with the
/// addresses that a resolver gave for each (`None` where it gave none).
///
/// A host that failed to resolve contributes nothing (fail-closed: it simply
/// won't be reachable), and an answer that may not be pinned is dropped and
/// reported.
pub fn resolve_egress(egress: &Vec<String>, answers: &Vec<Option<Vec<IpAddr>>>) -> (r:
    ResolvedEgress)
    requires
        answers@.len() == egress@.len(),
    ensures
        r@ == resolution(egress@, answers@),
{
    let mut r = ResolvedEgress {
        dests: Vec::new(),
        host_pins: Vec::new(),
        refused: Vec::new(),
        sinkholed: Vec::new(),
    };
    assert(named(r.host_pins@) =~= Seq::empty());
    let mut i: usize = 0;
    while i < egress.len()
        invariant
            0 <= i <= egress@.len(),
            answers@.len() == egress@.len(),
            r@ == resolution(egress@.take(i as int), answers@),
        decreases egress@.len() - i,
    {
        let ghost so_far = r@;
        assert(egress@.take(i + 1).drop_last() == egress@.take(i as int));
        let raw = egress[i].as_str();
        if let Some((host, port)) = egress_query(raw) {
            if let Some(addrs) = &answers[i] {
                let chars = text::chars_of(raw);
                let entry = text::text_of(text::trimmed(chars.as_slice()));
                let mut first: Option<IpAddr> = None;
                let mut k: usize = 0;
                while k < addrs.len()
                    invariant
                        0 <= k <= addrs@.len(),
                        first == first_pinnable(addrs@.take(k as int)),
                        r@ == so_far.all_answered(entry@, port, addrs@.take(k as int)),
                    decreases addrs@.len() - k,
                {
                    assert(addrs@.take(k + 1).drop_last() == addrs@.take(k as int));
                    if first.is_none() && is_pinnable(&addrs[k]) {
                        first = Some(addrs[k]);
                    }
                    take_answer(&mut r, entry.as_str(), port, addrs[k]);
                    k = k + 1;
                }
                assert(addrs@.take(addrs@.len() as int) == addrs@);
                if let Some(ip) = first {
                    let host_chars = text::chars_of(host.as_str());
                    if !address::is_ip_literal(host_chars.as_slice()) {
                        let ghost before = r.host_pins@;
                        let ghost name = host@;
                        r.host_pins.push((host, ip));
                        assert(named(r.host_pins@) =~= named(before).push((name, ip)));
                    }
                }
            }
        }
        i = i + 1;
    }
    assert(egress@.take(egress@.len() as int) == egress@);
    r
}

/// Just the pinned `IP:port` destinations.
pub fn pin_egress(egress: &Vec<String>, answers: &Vec<Option<Vec<IpAddr>>>) -> (r: Vec<
    EgressDest,
>)
    requires
        answers@.len() == egress@.len(),
    ensures
        r@ == resolution(egress@, answers@).dests,
{
    resolve_egress(egress, answers).dests
}

fn family(ip: &IpAddr) -> (r: &'static str)
    ensures
        r@ == (if ip is V4 {
            "ip"@
        } else {
            "ip6"@
        }),
{
    match ip {
        IpAddr::V4(_) => "ip",
        IpAddr::V6(_) => "ip6",
    }
}

/// One destination that may be reached.
pub open spec fn rule(ip: IpAddr, protocol: Seq<char>, port: u16) -> Seq<char> {
    "    "@
            + (if ip is V4 { "ip"@ } else { "ip6"@ })
            + " daddr "@
            + ip.text()
            + " "@
            + protocol
            + " dport "@
            + text::decimal(port as nat)
            + " accept\n"@
}

fn put_rule(ip: IpAddr, protocol: &str, port: u16) -> (r: String)
    ensures
        r@ == rule(ip, protocol@, port),
{
    let mut out: String = "    ".to_owned();
    out.append(family(&ip));
    out.append(" daddr ");
    out.append(ip.to_text().as_str());
    out.append(" ");
    out.append(protocol);
    out.append(" dport ");
    text::push_decimal(&mut out, port as u64);
    out.append(" accept\n");
    out
}

/// A name and where it leads.
pub open spec fn hosts_line(ip: IpAddr, host: Seq<char>) -> Seq<char> {
    ip.text() + " "@ + host + "\n"@
}

fn put_hosts_line(ip: IpAddr, host: &str) -> (r: String)
    ensures
        r@ == hosts_line(ip, host@),
{
    let mut out: String = ip.to_text();
    out.append(" ");
    out.append(host);
    out.append("\n");
    out
}

/// Why a run is refused over an entry, which is given in quotes.
pub open spec fn refused_text(quoted: Seq<char>, ip: IpAddr) -> Seq<char> {
    "net.egress entry "@
            + quoted
            + " resolves to "@
            + ip.text()
            + ", which this tier refuses to pin: it is a link-local, multicast or broadcast address, not a host on the network. 169.254.169.254 is the cloud instance metadata service; a name answering there would hand the box the instance's credentials, and nothing in the policy text would show it (fail-closed)."@
}

/// Why a run is refused over an entry, which is given in quotes.
pub fn refused_entry(quoted: &str, ip: IpAddr) -> (r: String)
    ensures
        r@ == refused_text(quoted@, ip),
{
    let mut out: String = "net.egress entry ".to_owned();
    out.append(quoted);
    out.append(" resolves to ");
    out.append(ip.to_text().as_str());
    out.append(", which this tier refuses to pin: it is a link-local, multicast or broadcast address, not a host on the network. 169.254.169.254 is the cloud instance metadata service; a name answering there would hand the box the instance's credentials, and nothing in the policy text would show it (fail-closed).");
    out
}

/// What is said of an entry that a resolver blocks, which is given in quotes.
pub open spec fn sinkholed_text(quoted: Seq<char>, ip: IpAddr) -> Seq<char> {
    "h5i: net.egress entry "@
            + quoted
            + " resolves to "@
            + ip.text()
            + " — a resolver returns that for a name it blocks, so this entry is unreachable and was not pinned. The rest of net.egress is unaffected."@
}

/// What is said of an entry that a resolver blocks, which is given in quotes.
pub fn sinkholed_entry(quoted: &str, ip: IpAddr) -> (r: String)
    ensures
        r@ == sinkholed_text(quoted@, ip),
{
    let mut out: String = "h5i: net.egress entry ".to_owned();
    out.append(quoted);
    out.append(" resolves to ");
    out.append(ip.to_text().as_str());
    out.append(" — a resolver returns that for a name it blocks, so this entry is unreachable and was not pinned. The rest of net.egress is unaffected.");
    out
}

/// Why a run is refused that could reach nothing.
pub open spec fn nowhere_text(sinkholed: bool) -> Seq<char> {
    "net.egress resolved to no reachable address — refusing (fail-closed)"@
            + (if sinkholed { " (every entry was sinkholed by the resolver — the names are blocked on this network, so check the resolver rather than the policy)"@ } else { ""@ })
}

fn put_nowhere_text(sinkholed: bool) -> (r: String)
    ensures
        r@ == nowhere_text(sinkholed),
{
    let mut out: String = "net.egress resolved to no reachable address — refusing (fail-closed)".to_owned();
    out.append(if sinkholed { " (every entry was sinkholed by the resolver — the names are blocked on this network, so check the resolver rather than the policy)" } else { "" });
    out
}

/// The rules for the resolver, if it is of this family.
pub open spec fn resolver_rules(resolver: Option<IpAddr>, v4: bool) -> Seq<char> {
    match resolver {
        Some(ip) => if ip is V4 == v4 {
            rule(ip, "udp"@, 53) + rule(ip, "tcp"@, 53)
        } else {
            Seq::empty()
        },
        None => Seq::empty(),
    }
}

/// The rules for those of these destinations that are of this family.
pub open spec fn dest_rules(allow: Seq<EgressDest>, v4: bool) -> Seq<char>
    decreases allow.len(),
{
    if allow.len() == 0 {
        Seq::empty()
    } else {
        dest_rules(allow.drop_last(), v4) + (if allow.last().ip is V4 == v4 {
            rule(allow.last().ip, "tcp"@, allow.last().port)
        } else {
            Seq::empty()
        })
    }
}

/// The whole ruleset: everything is dropped but loopback, the traffic that
/// belongs to an open connection, and what is listed.
pub open spec fn ruleset(allow: Seq<EgressDest>, resolver: Option<IpAddr>) -> Seq<char> {
    "table inet h5i_egress {\n  chain output {\n    type filter hook output priority 0; policy drop;\n    ct state established,related accept\n    oif \"lo\" accept\n"@
        + (resolver_rules(resolver, true) + dest_rules(allow, true)) + (resolver_rules(
        resolver,
        false,
    ) + dest_rules(allow, false)) + "  }\n}\n"@
}

fn rules_of(allow: &Vec<EgressDest>, resolver: Option<IpAddr>, v4: bool) -> (r: String)
    ensures
        r@ == resolver_rules(resolver, v4) + dest_rules(allow@, v4),
{
    let mut out: String = String::new();
    if let Some(ip) = resolver {
        let of_v4: bool = match ip {
            IpAddr::V4(_) => true,
            IpAddr::V6(_) => false,
        };
        if of_v4 == v4 {
            out.append(put_rule(ip, "udp", 53).as_str());
            out.append(put_rule(ip, "tcp", 53).as_str());
        }
    }
    assert(out@ =~= resolver_rules(resolver, v4));
    let mut i: usize = 0;
    while i < allow.len()
        invariant
            0 <= i <= allow@.len(),
            out@ == resolver_rules(resolver, v4) + dest_rules(allow@.take(i as int), v4),
        decreases allow@.len() - i,
    {
        assert(allow@.take(i + 1).drop_last() == allow@.take(i as int));
        let d = allow[i];
        let of_v4: bool = match d.ip {
            IpAddr::V4(_) => true,
            IpAddr::V6(_) => false,
        };
        let ghost before = out@;
        if of_v4 == v4 {
            out.append(put_rule(d.ip, "tcp", d.port).as_str());
        }
        assert(out@ =~= resolver_rules(resolver, v4) + dest_rules(allow@.take(i + 1), v4));
        i = i + 1;
    }
    assert(allow@.take(allow@.len() as int) == allow@);
    out
}

/// Build the *default-drop* nftables ruleset for a run's network namespace.
///
/// Only loopback, established/related return traffic, the controlled resolver
/// (port 53), and the pinned `IP:port` allowlist may leave; everything else is
/// dropped, independent of whether the process respects any proxy.
pub fn build_nft_ruleset(allow: &Vec<EgressDest>, resolver: Option<IpAddr>) -> (r: String)
    ensures
        r@ == ruleset(allow@, resolver),
{
    let mut out: String = "table inet h5i_egress {\n  chain output {\n    type filter hook output priority 0; policy drop;\n    ct state established,related accept\n    oif \"lo\" accept\n".to_owned();
    out.append(rules_of(allow, resolver, true).as_str());
    out.append(rules_of(allow, resolver, false).as_str());
    out.append("  }\n}\n");
    out
}

/// The lines of these pins.
pub open spec fn pin_lines(pins: Seq<(Seq<char>, IpAddr)>) -> Seq<char>
    decreases pins.len(),
{
    if pins.len() == 0 {
        Seq::empty()
    } else {
        pin_lines(pins.drop_last()) + hosts_line(pins.last().1, pins.last().0)
    }
}

/// The names that a box knows: itself, and those that were pinned.
pub open spec fn hosts_text(pins: Seq<(Seq<char>, IpAddr)>) -> Seq<char> {
    "127.0.0.1 localhost\n::1 localhost\n"@ + pin_lines(pins)
}

/// The names file of a box.
pub fn hosts_file(pins: &Vec<(String, IpAddr)>) -> (r: String)
    ensures
        r@ == hosts_text(named(pins@)),
{
    let mut out: String = String::new();
    let ghost all = named(pins@);
    let mut i: usize = 0;
    while i < pins.len()
        invariant
            0 <= i <= pins@.len(),
            all == named(pins@),
            out@ == pin_lines(all.take(i as int)),
        decreases pins@.len() - i,
    {
        assert(all.take(i + 1).drop_last() == all.take(i as int));
        out.append(put_hosts_line(pins[i].1, pins[i].0.as_str()).as_str());
        i = i + 1;
    }
    assert(all.take(all.len() as int) == all);
    let mut file: String = "127.0.0.1 localhost\n::1 localhost\n".to_owned();
    file.append(out.as_str());
    file
}

/// The uplink's gateway, where the host's loopback appears when it is let in.
pub open spec fn gateway() -> IpAddr {
    IpAddr::V4(Ipv4Addr { a: 10, b: 0, c: 2, d: 2 })
}

/// The uplink's gateway, where the host's loopback appears when it is let in.
pub fn slirp_gateway() -> (r: IpAddr)
    ensures
        r == gateway(),
{
    IpAddr::V4(Ipv4Addr::new(10, 0, 2, 2))
}

/// What a box's network is set up from.
#[derive(Debug)]
pub struct EgressPlan {
    pub dests: Vec<EgressDest>,
    pub host_pins: Vec<(String, IpAddr)>,
    /// The uplink lets the box reach the host's loopback.
    pub allow_host_loopback: bool,
    /// The ruleset to load.
    pub rules: String,
    /// The names file to show.
    pub hosts: String,
}

/// The way a string is quoted in a message.
pub uninterp spec fn quoted_text(s: Seq<char>) -> Seq<char>;

/// `format!` with `{:?}`: the debug form of a string, in double quotes and with
/// what is special in it escaped. That it depends on the string alone is all
/// that is claimed; how each character is escaped is not said here.
#[verifier::external_body]
fn quoted(s: &str) -> (r: String)
    ensures
        r@ == quoted_text(s@),
{
    format!("{s:?}")
}

/// What is said of these entries that a resolver blocks.
pub open spec fn notices(sinkholed: Seq<(Seq<char>, IpAddr)>) -> Seq<Seq<char>> {
    sinkholed.map_values(
        |p: (Seq<char>, IpAddr)| sinkholed_text(quoted_text(p.0), p.1),
    )
}

/// The contents of strings.
pub open spec fn texts(list: Seq<String>) -> Seq<Seq<char>> {
    list.map_values(|s: String| s@)
}

fn notices_of(sinkholed: &Vec<(String, IpAddr)>) -> (r: Vec<String>)
    ensures
        texts(r@) == notices(named(sinkholed@)),
{
    let mut out: Vec<String> = Vec::new();
    let ghost all = notices(named(sinkholed@));
    let mut i: usize = 0;
    while i < sinkholed.len()
        invariant
            0 <= i <= sinkholed@.len(),
            all == notices(named(sinkholed@)),
            texts(out@) == all.take(i as int),
        decreases sinkholed@.len() - i,
    {
        let ghost before = out@;
        let one = sinkholed_entry(quoted(sinkholed[i].0.as_str()).as_str(), sinkholed[i].1);
        let ghost what = one@;
        out.push(one);
        assert(what == all[i as int]);
        assert(texts(out@) =~= texts(before).push(what));
        assert(all.take(i + 1) =~= all.take(i as int).push(what));
        i = i + 1;
    }
    assert(all.take(all.len() as int) == all);
    out
}

/// What the operator is told while a box's network is set up: which entries a
/// resolver blocks, when the entries matter and none of them refuses the run.
pub fn egress_notices(auth_port: Option<u16>, resolved: &ResolvedEgress) -> (r: Vec<String>)
    ensures
        texts(r@) == (if auth_port is Some || resolved@.refused.len() > 0 {
            Seq::empty()
        } else {
            notices(resolved@.sinkholed)
        }),
{
    if auth_port.is_some() || resolved.refused.len() > 0 {
        let none: Vec<String> = Vec::new();
        assert(texts(none@) == Seq::<Seq<char>>::empty());
        return none;
    }
    notices_of(&resolved.sinkholed)
}

/// What a box's network is set up from, or why it is not.
///
/// With `auth_port` the box reaches one thing, the host-side proxy at the
/// gateway, and needs no names. Otherwise it reaches what its entries resolved
/// to: an answer that names somewhere a box has no business dialling refuses
/// the run, one that a resolver blocks only costs that name, and a run that
/// could reach nothing is refused.
pub fn setup_egress(auth_port: Option<u16>, resolved: ResolvedEgress) -> (r: Result<
    EgressPlan,
    String,
>)
    ensures
        r is Ok <==> auth_port is Some || (resolved@.refused.len() == 0 && resolved@.dests.len()
            > 0),
        r matches Err(why) ==> why@ == (if resolved@.refused.len() > 0 {
            refused_text(quoted_text(resolved@.refused[0].0), resolved@.refused[0].1)
        } else {
            nowhere_text(resolved@.sinkholed.len() > 0)
        }),
        r matches Ok(plan) ==> {
            &&& plan.allow_host_loopback == auth_port is Some
            &&& plan.rules@ == ruleset(plan.dests@, None)
            &&& plan.hosts@ == hosts_text(named(plan.host_pins@))
            &&& match auth_port {
                Some(port) => {
                    &&& plan.dests@ == seq![EgressDest { ip: gateway(), port }]
                    &&& plan.host_pins@.len() == 0
                },
                None => {
                    &&& plan.dests@ == resolved@.dests
                    &&& named(plan.host_pins@) == resolved@.host_pins
                },
            }
        },
{
    if let Some(port) = auth_port {
        let dests: Vec<EgressDest> = vec![EgressDest { ip: slirp_gateway(), port }];
        let host_pins: Vec<(String, IpAddr)> = Vec::new();
        let rules = build_nft_ruleset(&dests, None);
        let hosts = hosts_file(&host_pins);
        return Ok(
            EgressPlan {
                dests,
                host_pins,
                allow_host_loopback: true,
                rules,
                hosts,
            },
        );
    }
    if resolved.refused.len() > 0 {
        let first = &resolved.refused[0];
        return Err(refused_entry(quoted(first.0.as_str()).as_str(), first.1));
    }
    if resolved.dests.len() == 0 {
        return Err(put_nowhere_text(resolved.sinkholed.len() > 0));
    }
    let rules = build_nft_ruleset(&resolved.dests, None);
    let hosts = hosts_file(&resolved.host_pins);
    Ok(
        EgressPlan {
            dests: resolved.dests,
            host_pins: resolved.host_pins,
            allow_host_loopback: false,
            rules,
            hosts,
        },
    )
}

/// The arguments of the uplink for a network namespace, named by a process in
/// it.
pub open spec fn uplink_args(pid: u32, allow_host_loopback: bool) -> Seq<Seq<char>> {
    seq!["--configure"@] + (if allow_host_loopback {
        Seq::empty()
    } else {
        seq!["--disable-host-loopback"@]
    }) + seq!["--mtu=65520"@, text::decimal(pid as nat), "tap0"@]
}

/// The arguments of the uplink for a network namespace.
///
/// The host's loopback stays out of reach unless it is intentionally allowed.
pub fn slirp_args(pid: u32, allow_host_loopback: bool) -> (r: Vec<String>)
    ensures
        texts(r@) == uplink_args(pid, allow_host_loopback),
{
    let mut a: Vec<String> = Vec::new();
    a.push("--configure".to_owned());
    if !allow_host_loopback {
        a.push("--disable-host-loopback".to_owned());
    }
    a.push("--mtu=65520".to_owned());
    let number = text::text_of(text::decimal_chars(pid as u64).as_slice());
    a.push(number);
    a.push("tap0".to_owned());
    assert(texts(a@) =~= uplink_args(pid, allow_host_loopback));
    a
}

/// Only what may be pinned is pinned, once, and every pinned name leads to a
/// destination; what is reported is not pinned.
pub open spec fn is_sound(r: ResolvedView) -> bool {
    &&& forall|i: int| 0 <= i < r.dests.len() ==> pinnable((#[trigger] r.dests[i]).ip)
    &&& r.dests.no_duplicates()
    &&& forall|i: int|
        0 <= i < r.host_pins.len() ==> exists|j: int|
            0 <= j < r.dests.len() && (#[trigger] r.dests[j]).ip == (
            #[trigger] r.host_pins[i]).1
    &&& forall|i: int|
        0 <= i < r.refused.len() ==> !pinnable((#[trigger] r.refused[i]).1) && !sinkhole(
            r.refused[i].1,
        )
    &&& forall|i: int| 0 <= i < r.sinkholed.len() ==> sinkhole((#[trigger] r.sinkholed[i]).1)
}

proof fn lemma_answered(r: ResolvedView, entry: Seq<char>, port: u16, ip: IpAddr)
    requires
        is_sound(r),
    ensures
        is_sound(r.answered(entry, port, ip)),
        pinnable(ip) ==> r.answered(entry, port, ip).dests.contains(EgressDest { ip, port }),
        forall|d: EgressDest| r.dests.contains(d) ==> #[trigger] r.answered(
            entry,
            port,
            ip,
        ).dests.contains(d),
        r.answered(entry, port, ip).host_pins == r.host_pins,
{
    let after = r.answered(entry, port, ip);
    let dest = EgressDest { ip, port };
    if pinnable(ip) && !r.dests.contains(dest) {
        assert(after.dests[r.dests.len() as int] == dest);
        assert forall|i: int, j: int|
            0 <= i < after.dests.len() && 0 <= j < after.dests.len() && i != j implies after.dests[i]
            != after.dests[j] by {
            if i == r.dests.len() {
                assert(r.dests.contains(after.dests[j]));
            } else if j == r.dests.len() {
                assert(r.dests.contains(after.dests[i]));
            }
        }
        assert forall|d: EgressDest| r.dests.contains(d) implies #[trigger] after.dests.contains(
            d,
        ) by {
            let k = choose|k: int| 0 <= k < r.dests.len() && r.dests[k] == d;
            assert(after.dests[k] == d);
        }
        assert forall|i: int| 0 <= i < after.host_pins.len() implies exists|j: int|
            0 <= j < after.dests.len() && (#[trigger] after.dests[j]).ip == (
            #[trigger] after.host_pins[i]).1 by {
            let j = choose|j: int|
                0 <= j < r.dests.len() && (#[trigger] r.dests[j]).ip == r.host_pins[i].1;
            assert(after.dests[j] == r.dests[j]);
        }
    }
}

proof fn lemma_all_answered(r: ResolvedView, entry: Seq<char>, port: u16, addrs: Seq<IpAddr>)
    requires
        is_sound(r),
    ensures
        is_sound(r.all_answered(entry, port, addrs)),
        first_pinnable(addrs) matches Some(ip) ==> r.all_answered(
            entry,
            port,
            addrs,
        ).dests.contains(EgressDest { ip, port }),
    decreases addrs.len(),
{
    if addrs.len() > 0 {
        lemma_all_answered(r, entry, port, addrs.drop_last());
        lemma_answered(
            r.all_answered(entry, port, addrs.drop_last()),
            entry,
            port,
            addrs.last(),
        );
    }
}

/// Whatever a resolver answers, only addresses that a host may have are
/// pinned, each once; every pinned name leads to an address that is allowed;
/// and what is reported is not.
pub proof fn law_only_what_may_be_pinned_is_pinned(
    egress: Seq<String>,
    answers: Seq<Option<Vec<IpAddr>>>,
)
    requires
        answers.len() >= egress.len(),
    ensures
        is_sound(resolution(egress, answers)),
    decreases egress.len(),
{
    if egress.len() > 0 {
        law_only_what_may_be_pinned_is_pinned(egress.drop_last(), answers);
        let r = resolution(egress.drop_last(), answers);
        let raw = egress.last()@;
        let answer = answers[egress.len() - 1];
        if let (Some((host, port)), Some(addrs)) = (query(raw), answer) {
            lemma_all_answered(r, text::trim(raw), port, addrs@);
            let f = r.all_answered(text::trim(raw), port, addrs@);
            if let Some(ip) = first_pinnable(addrs@) {
                let after = r.entered(raw, answer);
                let dest = EgressDest { ip, port };
                let k = choose|k: int| 0 <= k < f.dests.len() && f.dests[k] == dest;
                assert forall|i: int| 0 <= i < after.host_pins.len() implies exists|j: int|
                    0 <= j < after.dests.len() && (#[trigger] after.dests[j]).ip == (
                    #[trigger] after.host_pins[i]).1 by {
                    if i < f.host_pins.len() {
                        assert(after.host_pins[i] == f.host_pins[i]);
                    } else {
                        assert(after.dests[k].ip == ip);
                    }
                }
            }
        }
    }
}

/// The cloud metadata service, and everything link-local, is never pinned,
/// however it is written.
pub proof fn law_link_local_is_never_pinned(ip: IpAddr)
    requires
        match ip.plain() {
            IpAddr::V4(v4) => v4.a == 169 && v4.b == 254,
            IpAddr::V6(v6) => 0xfe80 <= v6.s0 <= 0xfebf,
        },
    ensures
        !pinnable(ip),
        !sinkhole(ip),
{
    if let IpAddr::V6(v6) = ip.plain() {
        assert(v6.segments()[0] == v6.s0);
    }
}

/// An address is judged as what it is, not as it is spelled.
pub proof fn law_a_mapped_address_is_judged_as_itself(ip: IpAddr)
    ensures
        pinnable(ip) == pinnable(ip.plain()),
        sinkhole(ip) == sinkhole(ip.plain()),
{
}

/// A box with nothing on its list reaches nothing but itself.
pub proof fn law_an_empty_list_opens_nothing()
    ensures
        ruleset(Seq::empty(), None)
            == "table inet h5i_egress {\n  chain output {\n    type filter hook output priority 0; policy drop;\n    ct state established,related accept\n    oif \"lo\" accept\n"@
            + "  }\n}\n"@,
{
}

} // verus!
