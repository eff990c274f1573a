//! Internet addresses: which are which, and how they are written.
use vstd::prelude::*;
use vstd::slice::slice_subrange;
use vstd::string::*;

use crate::{seqs, text};

verus! {

/// An IPv4 address, by its octets.
#[derive(Debug, Clone, Copy, PartialEq, Eq, Structural)]
pub struct Ipv4Addr {
    pub a: u8,
    pub b: u8,
    pub c: u8,
    pub d: u8,
}

/// An IPv6 address, by its segments.
#[derive(Debug, Clone, Copy, PartialEq, Eq, Structural)]
pub struct Ipv6Addr {
    pub s0: u16,
    pub s1: u16,
    pub s2: u16,
    pub s3: u16,
    pub s4: u16,
    pub s5: u16,
    pub s6: u16,
    pub s7: u16,
}

/// An address of either kind.
#[derive(Debug, Clone, Copy, PartialEq, Eq, Structural)]
pub enum IpAddr {
    V4(Ipv4Addr),
    V6(Ipv6Addr),
}

/// An address and a port.
#[derive(Debug, Clone, Copy, PartialEq, Eq, Structural)]
pub struct SocketAddr {
    pub ip: IpAddr,
    pub port: u16,
}

impl Ipv4Addr {
    /// The address of these octets.
    pub fn new(a: u8, b: u8, c: u8, d: u8) -> (r: Ipv4Addr)
        ensures
            r == (Ipv4Addr { a, b, c, d }),
    {
        Ipv4Addr { a, b, c, d }
    }

    /// `127.0.0.0/8`.
    pub open spec fn loopback(self) -> bool {
        self.a == 127
    }

    pub fn is_loopback(&self) -> (r: bool)
        ensures
            r == self.loopback(),
    {
        self.a == 127
    }

    /// `127.0.0.1`, which every local service is on.
    pub open spec fn localhost(self) -> bool {
        self == (Ipv4Addr { a: 127, b: 0, c: 0, d: 1 })
    }

    pub fn is_localhost(&self) -> (r: bool)
        ensures
            r == self.localhost(),
    {
        self.a == 127 && self.b == 0 && self.c == 0 && self.d == 1
    }

    /// The dotted form.
    pub open spec fn text(self) -> Seq<char> {
        text::decimal(self.a as nat) + "."@ + text::decimal(self.b as nat) + "."@ + text::decimal(
            self.c as nat,
        ) + "."@ + text::decimal(self.d as nat)
    }

    /// The dotted form.
    pub fn to_text(&self) -> (r: String)
        ensures
            r@ == self.text(),
    {
        let mut out: String = String::new();
        text::push_decimal(&mut out, self.a as u64);
        assert(out@ == text::decimal(self.a as nat));
        out.append(".");
        text::push_decimal(&mut out, self.b as u64);
        out.append(".");
        text::push_decimal(&mut out, self.c as u64);
        out.append(".");
        text::push_decimal(&mut out, self.d as u64);
        out
    }
}

/// A hexadecimal digit.
pub open spec fn hex_digit(n: int) -> char {
    if n < 10 {
        (n + 48) as char
    } else {
        (n + 87) as char
    }
}

/// A number in hexadecimal, without leading zeros.
pub open spec fn hexadecimal(n: nat) -> Seq<char>
    decreases n,
{
    if n < 16 {
        seq![hex_digit(n as int)]
    } else {
        hexadecimal(n / 16).push(hex_digit((n % 16) as int))
    }
}

fn hex_char(n: u16) -> (r: char)
    requires
        n < 16,
    ensures
        r == hex_digit(n as int),
{
    if n < 10 {
        (n as u8 + 48) as char
    } else {
        (n as u8 + 87) as char
    }
}

fn push_hexadecimal(out: &mut Vec<char>, n: u16)
    ensures
        final(out)@ == old(out)@ + hexadecimal(n as nat),
    decreases n,
{
    if n >= 16 {
        push_hexadecimal(out, n / 16);
    }
    out.push(hex_char(n % 16));
    assert(out@ =~= old(out)@ + hexadecimal(n as nat));
}

/// How many zeros stand from here on.
pub open spec fn zeros_at(segments: Seq<u16>, i: int) -> nat
    decreases segments.len() - i,
{
    if 0 <= i < segments.len() && segments[i] == 0 {
        zeros_at(segments, i + 1) + 1
    } else {
        0
    }
}

/// Where the longest run of zeros begins, among those that begin before `n`;
/// of two equally long ones it is the first.
pub open spec fn longest_zeros(segments: Seq<u16>, n: nat) -> nat
    decreases n,
{
    if n <= 1 {
        0
    } else {
        let best = longest_zeros(segments, (n - 1) as nat);
        if zeros_at(segments, n - 1) > zeros_at(segments, best as int) {
            (n - 1) as nat
        } else {
            best
        }
    }
}

/// Segments behind one another, with colons between them.
pub open spec fn segments_text(segments: Seq<u16>) -> Seq<char>
    decreases segments.len(),
{
    if segments.len() == 0 {
        Seq::empty()
    } else if segments.len() == 1 {
        hexadecimal(segments[0] as nat)
    } else {
        segments_text(segments.drop_last()) + seq![':'] + hexadecimal(segments.last() as nat)
    }
}

fn zeros_from(segments: &[u16], i: usize) -> (r: usize)
    requires
        i <= segments@.len(),
    ensures
        r == zeros_at(segments@, i as int),
        i + r <= segments@.len(),
    decreases segments@.len() - i,
{
    if i < segments.len() && segments[i] == 0 {
        zeros_from(segments, i + 1) + 1
    } else {
        0
    }
}

fn push_segments(out: &mut Vec<char>, segments: &[u16], from: usize, to: usize)
    requires
        from <= to <= segments@.len(),
    ensures
        final(out)@ == old(out)@ + segments_text(segments@.subrange(from as int, to as int)),
{
    let mut i: usize = from;
    assert(segments@.subrange(from as int, from as int) =~= Seq::empty());
    while i < to
        invariant
            from <= i <= to <= segments@.len(),
            out@ == old(out)@ + segments_text(segments@.subrange(from as int, i as int)),
        decreases to - i,
    {
        assert(segments@.subrange(from as int, i + 1).drop_last() == segments@.subrange(
            from as int,
            i as int,
        ));
        if i > from {
            out.push(':');
        }
        push_hexadecimal(out, segments[i]);
        i = i + 1;
        assert(out@ =~= old(out)@ + segments_text(segments@.subrange(from as int, i as int)));
    }
}

impl Ipv6Addr {
    /// The address of these segments.
    pub fn new(
        s0: u16,
        s1: u16,
        s2: u16,
        s3: u16,
        s4: u16,
        s5: u16,
        s6: u16,
        s7: u16,
    ) -> (r: Ipv6Addr)
        ensures
            r == (Ipv6Addr { s0, s1, s2, s3, s4, s5, s6, s7 }),
    {
        Ipv6Addr { s0, s1, s2, s3, s4, s5, s6, s7 }
    }

    pub open spec fn segments(self) -> Seq<u16> {
        seq![self.s0, self.s1, self.s2, self.s3, self.s4, self.s5, self.s6, self.s7]
    }

    /// `::1`.
    pub open spec fn loopback(self) -> bool {
        self == (Ipv6Addr { s0: 0, s1: 0, s2: 0, s3: 0, s4: 0, s5: 0, s6: 0, s7: 1 })
    }

    /// The IPv4 address that is written as this one, if it is `::ffff:a.b.c.d`.
    pub open spec fn mapped(self) -> Option<Ipv4Addr> {
        if self.s0 == 0 && self.s1 == 0 && self.s2 == 0 && self.s3 == 0 && self.s4 == 0 && self.s5
            == 0xffff {
            Some(
                Ipv4Addr {
                    a: (self.s6 / 256) as u8,
                    b: (self.s6 % 256) as u8,
                    c: (self.s7 / 256) as u8,
                    d: (self.s7 % 256) as u8,
                },
            )
        } else {
            None
        }
    }

    pub fn to_ipv4_mapped(&self) -> (r: Option<Ipv4Addr>)
        ensures
            r == self.mapped(),
    {
        if self.s0 == 0 && self.s1 == 0 && self.s2 == 0 && self.s3 == 0 && self.s4 == 0 && self.s5
            == 0xffff {
            Some(
                Ipv4Addr {
                    a: (self.s6 / 256) as u8,
                    b: (self.s6 % 256) as u8,
                    c: (self.s7 / 256) as u8,
                    d: (self.s7 % 256) as u8,
                },
            )
        } else {
            None
        }
    }

    /// The written form: a mapped address dotted, and otherwise the segments in
    /// hexadecimal with the longest run of zeros left out.
    pub open spec fn text(self) -> Seq<char> {
        match self.mapped() {
            Some(v4) => "::ffff:"@ + v4.text(),
            None => {
                let all = self.segments();
                let at = longest_zeros(all, 8);
                let n = zeros_at(all, at as int);
                if n > 1 {
                    segments_text(all.take(at as int)) + seq![':', ':'] + segments_text(
                        all.skip((at + n) as int),
                    )
                } else {
                    segments_text(all)
                }
            },
        }
    }

    /// The written form.
    pub fn to_text(&self) -> (r: String)
        ensures
            r@ == self.text(),
    {
        if let Some(v4) = self.to_ipv4_mapped() {
            let mut out: String = "::ffff:".to_owned();
            out.append(v4.to_text().as_str());
            return out;
        }
        let all: Vec<u16> = vec![
            self.s0, self.s1, self.s2, self.s3, self.s4, self.s5, self.s6, self.s7,
        ];
        assert(all@ =~= self.segments());
        let mut at: usize = 0;
        let mut i: usize = 1;
        while i < 8
            invariant
                1 <= i <= 8,
                all@.len() == 8,
                at < i,
                at == longest_zeros(all@, i as nat),
            decreases 8 - i,
        {
            if zeros_from(all.as_slice(), i) > zeros_from(all.as_slice(), at) {
                at = i;
            }
            i = i + 1;
        }
        let n: usize = zeros_from(all.as_slice(), at);
        let mut out: Vec<char> = Vec::new();
        if n > 1 {
            push_segments(&mut out, all.as_slice(), 0, at);
            out.push(':');
            out.push(':');
            push_segments(&mut out, all.as_slice(), at + n, 8);
            assert(all@.subrange(0, at as int) =~= all@.take(at as int));
            assert(all@.subrange(at + n, 8) =~= all@.skip(at + n));
            assert(out@ =~= self.text());
        } else {
            push_segments(&mut out, all.as_slice(), 0, 8);
            assert(all@.subrange(0, 8) =~= all@);
            assert(out@ =~= self.text());
        }
        text::text_of(out.as_slice())
    }
}

impl IpAddr {
    pub open spec fn text(self) -> Seq<char> {
        match self {
            IpAddr::V4(v4) => v4.text(),
            IpAddr::V6(v6) => v6.text(),
        }
    }

    /// The written form.
    pub fn to_text(&self) -> (r: String)
        ensures
            r@ == self.text(),
    {
        match self {
            IpAddr::V4(v4) => v4.to_text(),
            IpAddr::V6(v6) => v6.to_text(),
        }
    }

    pub open spec fn loopback(self) -> bool {
        match self {
            IpAddr::V4(v4) => v4.loopback(),
            IpAddr::V6(v6) => v6.loopback(),
        }
    }

    pub fn is_loopback(&self) -> (r: bool)
        ensures
            r == self.loopback(),
    {
        match self {
            IpAddr::V4(v4) => v4.is_loopback(),
            IpAddr::V6(v6) => v6.s0 == 0 && v6.s1 == 0 && v6.s2 == 0 && v6.s3 == 0 && v6.s4 == 0
                && v6.s5 == 0 && v6.s6 == 0 && v6.s7 == 1,
        }
    }

    /// The address itself, where it is another's spelling.
    pub open spec fn plain(self) -> IpAddr {
        match self {
            IpAddr::V6(v6) => match v6.mapped() {
                Some(v4) => IpAddr::V4(v4),
                None => self,
            },
            _ => self,
        }
    }

    /// The address itself, where it is another's spelling: a v4 address written
    /// as `::ffff:a.b.c.d` is the same address.
    pub fn unmapped(&self) -> (r: IpAddr)
        ensures
            r == self.plain(),
    {
        match self {
            IpAddr::V6(v6) => match v6.to_ipv4_mapped() {
                Some(v4) => IpAddr::V4(v4),
                None => *self,
            },
            _ => *self,
        }
    }
}

impl SocketAddr {
    pub open spec fn text(self) -> Seq<char> {
        match self.ip {
            IpAddr::V4(v4) => v4.text() + ":"@ + text::decimal(self.port as nat),
            IpAddr::V6(v6) => "["@ + v6.text() + "]:"@ + text::decimal(self.port as nat),
        }
    }

    /// The written form.
    pub fn to_text(&self) -> (r: String)
        ensures
            r@ == self.text(),
    {
        match &self.ip {
            IpAddr::V4(v4) => {
                let mut out: String = v4.to_text();
                out.append(":");
                text::push_decimal(&mut out, self.port as u64);
                out
            },
            IpAddr::V6(v6) => {
                let mut out: String = "[".to_owned();
                out.append(v6.to_text().as_str());
                out.append("]:");
                text::push_decimal(&mut out, self.port as u64);
                out
            },
        }
    }
}

/// A number of at most three digits, without leading zeros, up to 255.
pub open spec fn is_octet(s: Seq<char>) -> bool {
    &&& 1 <= s.len() <= 3
    &&& text::is_number(s)
    &&& (s.len() > 1 ==> s[0] != '0')
    &&& text::number(s) <= 255
}

/// An IPv4 address as it is written.
pub open spec fn is_v4_literal(s: Seq<char>) -> bool {
    let parts = seqs::split(s, '.');
    parts.len() == 4 && forall|i: int| 0 <= i < 4 ==> is_octet(#[trigger] parts[i])
}

/// Up to four hexadecimal digits.
pub open spec fn is_segment(s: Seq<char>) -> bool {
    &&& 1 <= s.len() <= 4
    &&& forall|i: int| 0 <= i < s.len() ==> text::hex_value(#[trigger] s[i]) is Some
}

/// How many segments these are, with colons between them; the last two may be
/// dotted where that is allowed.
pub open spec fn segment_count(s: Seq<char>, dotted: bool) -> Option<nat> {
    let parts = seqs::split(s, ':');
    let n = parts.len();
    if s.len() == 0 {
        Some(0)
    } else if !(forall|i: int| 0 <= i < n - 1 ==> is_segment(#[trigger] parts[i])) {
        None
    } else if is_segment(parts.last()) {
        Some(n)
    } else if dotted && is_v4_literal(parts.last()) {
        Some(n + 1)
    } else {
        None
    }
}

/// An IPv6 address as it is written: eight segments, or fewer with a run of
/// zeros left out.
pub open spec fn is_v6_literal(s: Seq<char>) -> bool {
    match seqs::split_once_seq(s, seq![':', ':']) {
        None => segment_count(s, true) == Some(8nat),
        Some((head, tail)) => match (segment_count(head, false), segment_count(tail, true)) {
            (Some(x), Some(y)) => x + y <= 7,
            _ => false,
        },
    }
}

/// An address as it is written, and not a name.
pub open spec fn is_literal(s: Seq<char>) -> bool {
    is_v4_literal(s) || is_v6_literal(s)
}

fn octet(s: &[char]) -> (r: bool)
    ensures
        r == is_octet(s@),
{
    if s.len() == 0 || s.len() > 3 || (s.len() > 1 && s[0] == '0') {
        return false;
    }
    match text::parse_number(s, 255) {
        Some(_) => true,
        None => false,
    }
}

fn v4_literal(s: &[char]) -> (r: bool)
    ensures
        r == is_v4_literal(s@),
{
    let parts = seqs::split_at_each(s, '.');
    let ghost all = seqs::split(s@, '.');
    if parts.len() != 4 {
        return false;
    }
    let mut i: usize = 0;
    while i < 4
        invariant
            0 <= i <= 4,
            parts@.len() == 4,
            all == seqs::views(parts@),
            all == seqs::split(s@, '.'),
            forall|j: int| 0 <= j < i ==> is_octet(#[trigger] all[j]),
        decreases 4 - i,
    {
        assert(all[i as int] == parts@[i as int]@);
        if !octet(parts[i]) {
            return false;
        }
        i = i + 1;
    }
    true
}

fn segment(s: &[char]) -> (r: bool)
    ensures
        r == is_segment(s@),
{
    if s.len() == 0 || s.len() > 4 {
        return false;
    }
    let mut i: usize = 0;
    while i < s.len()
        invariant
            0 <= i <= s@.len(),
            forall|j: int| 0 <= j < i ==> text::hex_value(#[trigger] s@[j]) is Some,
        decreases s@.len() - i,
    {
        if text::hex_of(s[i]).is_none() {
            return false;
        }
        i = i + 1;
    }
    true
}

fn segments_in(s: &[char], dotted: bool) -> (r: Option<usize>)
    ensures
        match r {
            Some(n) => segment_count(s@, dotted) == Some(n as nat) && n <= 8,
            None => segment_count(s@, dotted) matches Some(n) ==> n > 8,
        },
{
    if s.len() == 0 {
        return Some(0);
    }
    let parts = seqs::split_at_each(s, ':');
    let ghost all = seqs::split(s@, ':');
    proof {
        seqs::lemma_split_len(s@, ':');
    }
    let n: usize = parts.len();
    if n > 8 {
        return None;
    }
    let mut i: usize = 0;
    while i < n - 1
        invariant
            0 <= i <= n - 1,
            n == parts@.len(),
            s@.len() > 0,
            all == seqs::views(parts@),
            all == seqs::split(s@, ':'),
            forall|j: int| 0 <= j < i ==> is_segment(#[trigger] all[j]),
        decreases n - i,
    {
        assert(all[i as int] == parts@[i as int]@);
        if !segment(parts[i]) {
            return None;
        }
        i = i + 1;
    }
    assert(all.last() == parts@[n - 1]@);
    if segment(parts[n - 1]) {
        Some(n)
    } else if dotted && n < 8 && v4_literal(parts[n - 1]) {
        Some(n + 1)
    } else {
        None
    }
}

fn v6_literal(s: &[char]) -> (r: bool)
    ensures
        r == is_v6_literal(s@),
{
    let gap: Vec<char> = vec![':', ':'];
    assert(gap@ =~= seq![':', ':']);
    match seqs::position_of(s, gap.as_slice()) {
        None => match segments_in(s, true) {
            Some(n) => n == 8,
            None => false,
        },
        Some(i) => {
            let n: usize = s.len();
            assert(i + 2 <= n);
            let head = slice_subrange(s, 0, i);
            let tail = slice_subrange(s, i + 2, n);
            assert(head@ =~= s@.take(i as int));
            assert(tail@ =~= s@.skip(i + 2));
            match (segments_in(head, false), segments_in(tail, true)) {
                (Some(x), Some(y)) => x + y <= 7,
                _ => false,
            }
        },
    }
}

/// Is this an address as it is written, and not a name?
pub fn is_ip_literal(s: &[char]) -> (r: bool)
    ensures
        r == is_literal(s@),
{
    v4_literal(s) || v6_literal(s)
}

} // verus!
