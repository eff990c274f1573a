//! What holds of the plainest operations on texts: letters, digits, words,
//! numbers and addresses.
use vstd::prelude::*;
use vstd::string::*;

use crate::address::{self, IpAddr, Ipv4Addr, Ipv6Addr, SocketAddr};
use crate::display;
use crate::seqs;
use crate::text;

verus! {

/// A capital letter stands for its small one, 32 places on, and every other
/// character for itself.
pub proof fn law_a_capital_stands_for_its_small_letter(c: char, r: char)
    requires
        call_ensures(text::lower_char, (c,), r),
    ensures
        65 <= c as u32 <= 90 ==> r as u32 == c as u32 + 32,
        !(65 <= c as u32 <= 90) ==> r == c,
{
}

/// Two texts are the same but for case exactly if they are as long and each
/// character of the one is that of the other or its other case.
pub proof fn law_case_is_all_that_is_set_aside(a: &[char], b: &[char], r: bool)
    requires
        call_ensures(text::same_ignoring_case, (a, b), r),
    ensures
        r ==> a@.len() == b@.len(),
        r <==> a@.len() == b@.len() && forall|i: int|
            0 <= i < a@.len() ==> (a@[i] == b@[i] || (65 <= (#[trigger] a@[i]) as u32 <= 90
                && b@[i] as u32 == a@[i] as u32 + 32) || (65 <= b@[i] as u32 <= 90 && a@[i] as u32
                == b@[i] as u32 + 32)),
{
    let x = text::lowered(a@);
    let y = text::lowered(b@);
    if r {
        assert(x.len() == a@.len() && y.len() == b@.len());
        assert forall|i: int| 0 <= i < a@.len() implies (a@[i] == b@[i] || (65 <= (
        #[trigger] a@[i]) as u32 <= 90 && b@[i] as u32 == a@[i] as u32 + 32) || (65 <= b@[i] as u32
            <= 90 && a@[i] as u32 == b@[i] as u32 + 32)) by {
            assert(x[i] == text::lower(a@[i]) && y[i] == text::lower(b@[i]));
        }
    } else if a@.len() == b@.len() && forall|i: int|
        0 <= i < a@.len() ==> (a@[i] == b@[i] || (65 <= (#[trigger] a@[i]) as u32 <= 90
            && b@[i] as u32 == a@[i] as u32 + 32) || (65 <= b@[i] as u32 <= 90 && a@[i] as u32
            == b@[i] as u32 + 32)) {
        assert forall|i: int| 0 <= i < x.len() implies x[i] == y[i] by {
            assert(x[i] == text::lower(a@[i]) && y[i] == text::lower(b@[i]));
        }
        assert(x =~= y);
    }
}

/// What a space, a tab, a line feed and a carriage return are, and what no
/// printed character of ASCII is.
pub proof fn law_what_is_printed_is_not_white(c: char, r: bool)
    requires
        call_ensures(text::white, (c,), r),
    ensures
        c == ' ' || c == '\t' || c == '\n' || c == '\r' ==> r,
        33 <= c as u32 <= 126 ==> !r,
        (c as u32) < 9 ==> !r,
{
}

/// All of this is white space.
pub open spec fn all_white(s: Seq<char>) -> bool {
    forall|i: int| 0 <= i < s.len() ==> text::is_white(#[trigger] s[i])
}

/// Trimming takes white space off both ends, all of it, and nothing else.
pub proof fn law_trimming_takes_the_white_off_the_ends(s: &[char], r: &[char])
    requires
        call_ensures(text::trimmed, (s,), r),
    ensures
        exists|a: Seq<char>, b: Seq<char>|
            s@ == #[trigger] (a + r@ + b) && all_white(a) && all_white(b),
        r@.len() > 0 ==> !text::is_white(r@[0]) && !text::is_white(r@.last()),
{
    let mid = text::trim_start(s@);
    let a = lemma_front(s@);
    let b = lemma_back(mid);
    assert(s@ == a + mid && mid == text::trim(s@) + b);
    assert(s@ =~= a + r@ + b);
    if r@.len() > 0 {
        assert(mid[0] == r@[0]);
    }
}

proof fn lemma_front(s: Seq<char>) -> (a: Seq<char>)
    ensures
        s == a + text::trim_start(s),
        all_white(a),
        text::trim_start(s).len() > 0 ==> !text::is_white(text::trim_start(s)[0]),
    decreases s.len(),
{
    if s.len() > 0 && text::is_white(s[0]) {
        let b = lemma_front(s.skip(1));
        let a = seq![s[0]] + b;
        assert(s =~= seq![s[0]] + s.skip(1));
        assert(s =~= a + text::trim_start(s));
        a
    } else {
        assert(s =~= Seq::empty() + s);
        Seq::empty()
    }
}

proof fn lemma_back(s: Seq<char>) -> (b: Seq<char>)
    ensures
        s == text::trim_end(s) + b,
        all_white(b),
        text::trim_end(s).len() > 0 ==> !text::is_white(text::trim_end(s).last()),
    decreases s.len(),
{
    if s.len() > 0 && text::is_white(s.last()) {
        let a = lemma_back(s.drop_last());
        let b = a.push(s.last());
        assert(s =~= s.drop_last().push(s.last()));
        assert(s =~= text::trim_end(s) + b);
        b
    } else {
        assert(s =~= s + Seq::empty());
        Seq::empty()
    }
}

/// Words with a space between each two are read as those words, in that order,
/// however many they are.
pub proof fn law_words_are_read_as_they_stand(ws: Seq<Seq<char>>)
    requires
        forall|i: int| 0 <= i < ws.len() ==> (#[trigger] ws[i]).len() > 0 && text::is_solid(ws[i]),
    ensures
        text::words(seqs::join(ws, seq![' '])) == ws,
    decreases ws.len(),
{
    let sp = seq![' '];
    let none = Seq::<char>::empty();
    if ws.len() == 0 {
        assert(text::words(none) =~= ws);
    } else {
        let first = ws[0];
        let rest = ws.skip(1);
        assert(first.len() > 0 && text::is_solid(first));
        assert(ws =~= seq![first] + rest);
        if rest.len() == 0 {
            text::lemma_first_word(first, none);
            assert(first + none =~= first);
            assert(text::words(none) =~= Seq::empty());
            assert(seqs::join(ws, sp) == first);
        } else {
            assert forall|i: int| 0 <= i < rest.len() implies (#[trigger] rest[i]).len() > 0
                && text::is_solid(rest[i]) by {
                assert(rest[i] == ws[i + 1]);
            }
            law_words_are_read_as_they_stand(rest);
            seqs::lemma_join_front(first, rest, sp);
            let behind = sp + seqs::join(rest, sp);
            assert(behind[0] == ' ' && behind.skip(1) =~= seqs::join(rest, sp));
            text::lemma_first_word(first, behind);
            assert(first + sp + seqs::join(rest, sp) =~= first + behind);
            assert(text::words(behind) == text::words(seqs::join(rest, sp)));
        }
    }
}

/// A number is written digit by digit, the smallest place last, with no zero in
/// front.
pub proof fn law_a_number_is_written_in_its_digits(n: nat)
    ensures
        n < 10 ==> text::decimal(n) == seq!["0123456789"@[n as int]],
        n >= 10 ==> text::decimal(n) == text::decimal(n / 10) + text::decimal(n % 10),
        n >= 10 ==> text::decimal(n)[0] != '0',
    decreases n,
{
    reveal_strlit("0123456789");
    if n < 10 {
        assert(text::decimal(n)[0] == (n + 48) as char);
        assert(text::decimal(n) =~= seq!["0123456789"@[n as int]]);
    } else {
        law_a_number_is_written_in_its_digits(n / 10);
        assert(text::decimal(n) =~= text::decimal(n / 10) + text::decimal(n % 10));
    }
}

/// A number is read digit by digit, the smallest place last.
pub proof fn law_a_number_is_read_in_its_digits(s: Seq<char>, d: nat)
    requires
        d < 10,
    ensures
        text::number(s.push("0123456789"@[d as int])) == text::number(s) * 10 + d,
        text::number(Seq::empty()) == 0,
{
    reveal_strlit("0123456789");
    let c = "0123456789"@[d as int];
    assert(s.push(c).drop_last() =~= s);
}

/// A number is read where it is at most what is allowed, and nothing else is read
/// as one.
pub proof fn law_only_a_number_that_fits_is_read(s: &[char], max: u64, r: Option<u64>)
    requires
        call_ensures(text::parse_number, (s, max), r),
    ensures
        r matches Some(n) ==> n <= max,
        forall|n: nat| s@ == #[trigger] text::decimal(n) ==> r == (if n <= max {
            Some(n as u64)
        } else {
            None
        }),
        s@.len() == 0 ==> r is None,
        (exists|i: int| 0 <= i < s@.len() && !(48 <= (#[trigger] s@[i]) as u32 <= 57)) ==> r is None,
{
    assert forall|n: nat| s@ == #[trigger] text::decimal(n) implies r == (if n <= max {
        Some(n as u64)
    } else {
        None
    }) by {
        text::law_decimal_reads_back(n);
    }
    if exists|i: int| 0 <= i < s@.len() && !(48 <= (#[trigger] s@[i]) as u32 <= 57) {
        let i = choose|i: int| 0 <= i < s@.len() && !(48 <= (#[trigger] s@[i]) as u32 <= 57);
        assert(!text::is_digit(s@[i]));
    }
}

/// A hexadecimal digit, large or small, stands for its number, and nothing else
/// stands for any.
pub proof fn law_a_hexadecimal_digit_stands_for_its_number(c: char, r: Option<u8>)
    requires
        call_ensures(text::hex_of, (c,), r),
    ensures
        r matches Some(d) ==> d < 16 && ("0123456789abcdef"@[d as int] == c
            || "0123456789ABCDEF"@[d as int] == c),
        r is None ==> forall|d: int|
            0 <= d < 16 ==> #[trigger] "0123456789abcdef"@[d] != c && "0123456789ABCDEF"@[d] != c,
{
    reveal_strlit("0123456789abcdef");
    reveal_strlit("0123456789ABCDEF");
}

/// A segment is written in hexadecimal, with small letters, the smallest place
/// last.
pub proof fn law_a_segment_is_written_in_hexadecimal(n: nat)
    ensures
        n < 16 ==> address::hexadecimal(n) == seq!["0123456789abcdef"@[n as int]],
        n >= 16 ==> address::hexadecimal(n) == address::hexadecimal(n / 16) + address::hexadecimal(
            n % 16,
        ),
{
    reveal_strlit("0123456789abcdef");
    if n < 16 {
        assert(address::hexadecimal(n)[0] == address::hex_digit(n as int));
        assert(address::hexadecimal(n) =~= seq!["0123456789abcdef"@[n as int]]);
    } else {
        assert(address::hexadecimal(n) =~= address::hexadecimal(n / 16) + address::hexadecimal(
            n % 16,
        ));
    }
}

/// An IPv4 address is written as its four numbers, in order, with dots between
/// them.
pub proof fn law_an_ipv4_address_is_its_four_numbers(v: Ipv4Addr, r: String)
    requires
        call_ensures(Ipv4Addr::to_text, (&v,), r),
    ensures
        seqs::split(r@, '.') == seq![
            text::decimal(v.a as nat),
            text::decimal(v.b as nat),
            text::decimal(v.c as nat),
            text::decimal(v.d as nat),
        ],
{
    lemma_dotted(v);
}

proof fn lemma_dotted(v: Ipv4Addr)
    ensures
        seqs::split(v.text(), '.') == seq![
            text::decimal(v.a as nat),
            text::decimal(v.b as nat),
            text::decimal(v.c as nat),
            text::decimal(v.d as nat),
        ],
{
    let a = text::decimal(v.a as nat);
    let b = text::decimal(v.b as nat);
    let c = text::decimal(v.c as nat);
    let d = text::decimal(v.d as nat);
    reveal_strlit(".");
    assert("."@ =~= seq!['.']);
    lemma_no_dot(v.a as nat);
    lemma_no_dot(v.b as nat);
    lemma_no_dot(v.c as nat);
    lemma_no_dot(v.d as nat);
    let dot = seq!['.'];
    seqs::lemma_split_at(a + dot + b + dot + c, '.', d);
    seqs::lemma_split_at(a + dot + b, '.', c);
    seqs::lemma_split_at(a, '.', b);
    assert(seq![a] + seq![b] + seq![c] + seq![d] =~= seq![a, b, c, d]);
}

proof fn lemma_no_dot(n: nat)
    ensures
        seqs::lacks(text::decimal(n), '.'),
        seqs::split(text::decimal(n), '.') == seq![text::decimal(n)],
{
    text::law_decimal_reads_back(n);
    assert forall|i: int| 0 <= i < text::decimal(n).len() implies text::decimal(n)[i] != '.' by {
        assert(text::is_digit(text::decimal(n)[i]));
    }
    seqs::lemma_split_whole(text::decimal(n), '.');
}

/// Segments with colons between them.
pub open spec fn colons(segments: Seq<u16>) -> Seq<char> {
    seqs::join(segments.map_values(|s: u16| address::hexadecimal(s as nat)), seq![':'])
}

proof fn lemma_colons(segments: Seq<u16>)
    ensures
        address::segments_text(segments) == colons(segments),
    decreases segments.len(),
{
    let hex = |s: u16| address::hexadecimal(s as nat);
    if segments.len() > 1 {
        lemma_colons(segments.drop_last());
        assert(segments.map_values(hex).drop_last() =~= segments.drop_last().map_values(hex));
    }
}

/// From here on, this many segments are zero.
pub open spec fn are_zeros(segments: Seq<u16>, at: int, n: int) -> bool {
    0 <= at && 0 <= n && at + n <= segments.len() && forall|i: int|
        at <= i < at + n ==> #[trigger] segments[i] == 0
}

/// An IPv6 address as it is written: one that stands for an IPv4 address dotted;
/// one with two zeros or more behind one another with two colons in place of the
/// longest such run, the first of them; any other with all of its segments.
pub proof fn law_an_ipv6_address_is_its_segments(v: Ipv6Addr, r: String)
    requires
        call_ensures(Ipv6Addr::to_text, (&v,), r),
    ensures
        ({
            let all = seq![v.s0, v.s1, v.s2, v.s3, v.s4, v.s5, v.s6, v.s7];
            if are_zeros(all, 0, 5) && v.s5 == 0xffff {
                r@ == "::ffff:"@ + (Ipv4Addr {
                    a: (v.s6 / 256) as u8,
                    b: (v.s6 % 256) as u8,
                    c: (v.s7 / 256) as u8,
                    d: (v.s7 % 256) as u8,
                }).text()
            } else {
                exists|at: int, n: int|
                    {
                        &&& #[trigger] are_zeros(all, at, n)
                        &&& forall|i: int, m: int| #[trigger]
                            are_zeros(all, i, m) ==> m < n || (m == n && (m == 0 || at <= i))
                        &&& r@ == (if n >= 2 {
                            colons(all.take(at)) + "::"@ + colons(all.skip(at + n))
                        } else {
                            colons(all)
                        })
                    }
            }
        }),
{
    let all = v.segments();
    if are_zeros(all, 0, 5) {
        assert(all[0] == 0 && all[1] == 0 && all[2] == 0 && all[3] == 0 && all[4] == 0);
    }
    if v.mapped() is Some {
        assert(are_zeros(all, 0, 5));
    } else {
        let at = address::longest_zeros(all, 8) as int;
        let n = address::zeros_at(all, at) as int;
        lemma_longest(all, 8);
        lemma_zeros(all, at);
        lemma_colons(all);
        lemma_colons(all.take(at));
        lemma_colons(all.skip(at + n));
        reveal_strlit("::");
        assert("::"@ =~= seq![':', ':']);
        assert forall|i: int, m: int| #[trigger] are_zeros(all, i, m) implies m < n || (m == n && (m
            == 0 || at <= i)) by {
            if i < 8 {
                lemma_zeros(all, i);
                lemma_zeros_most(all, i, m);
            }
        }
        assert(are_zeros(all, at, n));
    }
}

proof fn lemma_zeros(all: Seq<u16>, at: int)
    requires
        0 <= at <= all.len(),
    ensures
        are_zeros(all, at, address::zeros_at(all, at) as int),
    decreases all.len() - at,
{
    if at < all.len() && all[at] == 0 {
        lemma_zeros(all, at + 1);
    }
}

proof fn lemma_zeros_most(all: Seq<u16>, at: int, m: int)
    requires
        are_zeros(all, at, m),
    ensures
        m <= address::zeros_at(all, at),
    decreases m,
{
    if m > 0 {
        assert(all[at] == 0);
        assert(are_zeros(all, at + 1, m - 1));
        lemma_zeros_most(all, at + 1, m - 1);
    }
}

proof fn lemma_longest(all: Seq<u16>, n: nat)
    requires
        0 < n,
    ensures
        address::longest_zeros(all, n) < n,
        forall|i: int|
            0 <= i < n ==> #[trigger] address::zeros_at(all, i) < address::zeros_at(
                all,
                address::longest_zeros(all, n) as int,
            ) || (address::zeros_at(all, i) == address::zeros_at(
                all,
                address::longest_zeros(all, n) as int,
            ) && address::longest_zeros(all, n) <= i),
    decreases n,
{
    if n > 1 {
        lemma_longest(all, (n - 1) as nat);
    }
}

/// An address with a port: the address, in brackets if it is IPv6, a colon and
/// the port.
pub proof fn law_a_port_stands_behind_its_address(s: SocketAddr, r: String)
    requires
        call_ensures(SocketAddr::to_text, (&s,), r),
    ensures
        s.ip is V4 ==> r@ == s.ip.text() + seq![':'] + text::decimal(s.port as nat),
        s.ip is V6 ==> r@ == seq!['['] + s.ip.text() + seq![']', ':'] + text::decimal(
            s.port as nat,
        ),
{
    reveal_strlit(":");
    reveal_strlit("[");
    reveal_strlit("]:");
    assert(":"@ =~= seq![':']);
    assert("["@ =~= seq!['[']);
    assert("]:"@ =~= seq![']', ':']);
}

/// Loopback is the whole of 127, and of IPv6 the one address.
pub proof fn law_loopback_is_the_whole_of_127(ip: IpAddr, r: bool)
    requires
        call_ensures(IpAddr::is_loopback, (&ip,), r),
    ensures
        ip matches IpAddr::V4(v) ==> (r <==> v.a == 127),
        ip matches IpAddr::V6(v) ==> (r <==> v.s0 == 0 && v.s1 == 0 && v.s2 == 0 && v.s3 == 0
            && v.s4 == 0 && v.s5 == 0 && v.s6 == 0 && v.s7 == 1),
{
}

/// An address that stands for an IPv4 address is that address, number for
/// number, and every other is itself.
pub proof fn law_a_mapped_address_is_its_four_numbers(ip: IpAddr, r: IpAddr)
    requires
        call_ensures(IpAddr::unmapped, (&ip,), r),
    ensures
        ip is V4 ==> r == ip,
        ip matches IpAddr::V6(v) ==> if v.s0 == 0 && v.s1 == 0 && v.s2 == 0 && v.s3 == 0 && v.s4
            == 0 && v.s5 == 0xffff {
            r matches IpAddr::V4(w) && v.s6 == w.a * 256 + w.b && v.s7 == w.c * 256 + w.d
        } else {
            r == ip
        },
{
}

/// An IPv4 address as it is written is told from a name, and so is every text
/// with a character that no address has.
pub proof fn law_an_address_is_told_from_a_name(v: Ipv4Addr, name: Seq<char>, i: int)
    requires
        0 <= i < name.len(),
        text::hex_value(name[i]) is None,
        name[i] != ':',
        name[i] != '.',
    ensures
        address::is_literal(v.text()),
        !address::is_literal(name),
{
    lemma_dotted(v);
    let parts = seqs::split(v.text(), '.');
    lemma_octet(v.a);
    lemma_octet(v.b);
    lemma_octet(v.c);
    lemma_octet(v.d);
    assert(parts[0] == text::decimal(v.a as nat) && parts[1] == text::decimal(v.b as nat)
        && parts[2] == text::decimal(v.c as nat) && parts[3] == text::decimal(v.d as nat));
    let c = name[i];
    if address::is_v4_literal(name) {
        lemma_in_pieces(name, '.', i);
        let k = choose|k: int|
            0 <= k < seqs::split(name, '.').len() && (#[trigger] seqs::split(name, '.')[k]).contains(
                c,
            );
        assert(address::is_octet(seqs::split(name, '.')[k]));
    }
    if address::is_v6_literal(name) {
        match seqs::split_once_seq(name, seq![':', ':']) {
            None => {
                lemma_counted(name, true, i);
            },
            Some((head, tail)) => {
                lemma_parted(name, i);
            },
        }
    }
}

proof fn lemma_parted(name: Seq<char>, i: int)
    requires
        0 <= i < name.len(),
        text::hex_value(name[i]) is None,
        name[i] != ':',
        name[i] != '.',
        seqs::split_once_seq(name, seq![':', ':']) is Some,
    ensures
        !address::is_v6_literal(name),
{
    let at = seqs::find_seq(name, seq![':', ':'], 0)->Some_0;
    let (head, tail) = seqs::split_once_seq(name, seq![':', ':'])->Some_0;
    seqs::lemma_find_seq(name, seq![':', ':'], 0);
    assert(head == name.take(at) && tail == name.skip(at + 2));
    let gap = name.subrange(at, at + 2);
    assert(gap[0] == name[at] && gap[1] == name[at + 1]);
    assert(name[at] == ':' && name[at + 1] == ':');
    if i < at {
        assert(head[i] == name[i]);
        lemma_counted(head, false, i);
    } else {
        assert(i >= at + 2);
        assert(tail[i - at - 2] == name[i]);
        lemma_counted(tail, true, i - at - 2);
    }
}

proof fn lemma_counted(s: Seq<char>, dotted: bool, i: int)
    requires
        0 <= i < s.len(),
        text::hex_value(s[i]) is None,
        s[i] != ':',
        s[i] != '.',
    ensures
        address::segment_count(s, dotted) is None,
{
    let parts = seqs::split(s, ':');
    lemma_in_pieces(s, ':', i);
    let k = choose|k: int| 0 <= k < parts.len() && (#[trigger] parts[k]).contains(s[i]);
    let j = choose|j: int| 0 <= j < parts[k].len() && parts[k][j] == s[i];
    assert(!address::is_segment(parts[k]));
    if k == parts.len() - 1 && address::is_v4_literal(parts.last()) {
        lemma_in_pieces(parts[k], '.', j);
        let m = choose|m: int|
            0 <= m < seqs::split(parts[k], '.').len() && (#[trigger] seqs::split(
                parts[k],
                '.',
            )[m]).contains(s[i]);
        assert(address::is_octet(seqs::split(parts[k], '.')[m]));
    }
}

/// A character that does not part a text stands in one of its pieces.
proof fn lemma_in_pieces(s: Seq<char>, c: char, i: int)
    requires
        0 <= i < s.len(),
        s[i] != c,
    ensures
        exists|k: int|
            0 <= k < seqs::split(s, c).len() && (#[trigger] seqs::split(s, c)[k]).contains(s[i]),
    decreases s.len(),
{
    let n = seqs::find(s, c) as int;
    let all = seqs::split(s, c);
    if n < s.len() {
        let rest = s.skip(n + 1);
        assert(all == seq![s.take(n)] + seqs::split(rest, c));
        if i < n {
            assert(s.take(n)[i] == s[i]);
            assert(all[0].contains(s[i]));
        } else {
            seqs::lemma_find(s, c);
            assert(s[n] == c);
            assert(rest[i - n - 1] == s[i]);
            lemma_in_pieces(rest, c, i - n - 1);
            let k = choose|k: int|
                0 <= k < seqs::split(rest, c).len() && (#[trigger] seqs::split(
                    rest,
                    c,
                )[k]).contains(s[i]);
            assert(all[k + 1] == seqs::split(rest, c)[k]);
        }
    } else {
        assert(all[0] == s);
        assert(all[0].contains(s[i]));
    }
}

proof fn lemma_octet(n: u8)
    ensures
        address::is_octet(text::decimal(n as nat)),
{
    text::law_decimal_reads_back(n as nat);
    law_a_number_is_written_in_its_digits(n as nat);
    law_a_number_is_written_in_its_digits((n / 10) as nat);
    law_a_number_is_written_in_its_digits((n / 100) as nat);
    reveal_with_fuel(text::decimal, 4);
}

/// A character that a terminal would obey and not show: a control character, or
/// one that turns the text around it.
pub open spec fn is_obeyed(c: char) -> bool {
    let n = c as int;
    ||| n < 0x20
    ||| 0x7f <= n <= 0x9f
    ||| n == 0x61c
    ||| 0x200e <= n <= 0x200f
    ||| 0x202a <= n <= 0x202e
    ||| 0x2066 <= n <= 0x2069
}

/// What is shown of a text is all of it, in order, but for what a terminal would
/// obey.
pub proof fn law_a_text_is_shown_but_for_what_is_obeyed(s: &str, r: String)
    requires
        call_ensures(display::sanitize_display, (s,), r),
    ensures
        r@ == s@.filter(|c: char| !is_obeyed(c)),
{
    let a = |c: char| display::is_plain(c);
    let b = |c: char| !is_obeyed(c);
    lemma_same_shown(s@, a, b);
}

proof fn lemma_same_shown(s: Seq<char>, a: spec_fn(char) -> bool, b: spec_fn(char) -> bool)
    requires
        a == (|c: char| display::is_plain(c)),
        b == (|c: char| !is_obeyed(c)),
    ensures
        s.filter(a) == s.filter(b),
    decreases s.len(),
{
    reveal(Seq::filter);
    if s.len() > 0 {
        lemma_same_shown(s.drop_last(), a, b);
        let c = s.last();
        assert(a(c) == b(c));
    }
}

} // verus!
