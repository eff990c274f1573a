//! Figures that somebody reads at a glance.
use vstd::arithmetic::div_mod::lemma_fundamental_div_mod;
use vstd::prelude::*;
use vstd::string::*;

use crate::text;

verus! {

pub const KIB: u64 = 1024;

pub const MIB: u64 = 1_048_576;

pub const GIB: u64 = 1_073_741_824;

pub const TIB: u64 = 1_099_511_627_776;

/// The whole numbers below this are double-precision numbers.
pub const EXACT: u64 = 9_007_199_254_740_992;

/// A count and what it counts.
pub open spec fn counted(n: nat, one: Seq<char>, many: Seq<char>) -> Seq<char> {
    text::decimal(n) + " "@ + (if n == 1 {
        one
    } else {
        many
    })
}

/// A count and what it counts.
pub fn plural(n: u64, one: &str, many: &str) -> (r: String)
    ensures
        r@ == counted(n as nat, one@, many@),
{
    let mut out: String = String::new();
    text::push_decimal(&mut out, n);
    assert(out@ == text::decimal(n as nat));
    out.append(" ");
    out.append(
        if n == 1 {
            one
        } else {
            many
        },
    );
    out
}

/// A number with its sign, when that is a minus.
pub open spec fn signed(n: int) -> Seq<char> {
    if n < 0 {
        "-"@ + text::decimal((-n) as nat)
    } else {
        text::decimal(n as nat)
    }
}

/// A number with its sign, when that is a minus.
pub fn signed_text(n: i64) -> (r: String)
    ensures
        r@ == signed(n as int),
{
    let mut out: String = String::new();
    if n < 0 {
        out.append("-");
        text::push_decimal(&mut out, (-(n + 1)) as u64 + 1);
    } else {
        text::push_decimal(&mut out, n as u64);
    }
    out
}

/// The whole number nearest to `a / b`, and of two equally near the even one.
pub open spec fn half_even(a: nat, b: nat) -> nat {
    if 2 * (a % b) > b || (2 * (a % b) == b && (a / b) % 2 == 1) {
        a / b + 1
    } else {
        a / b
    }
}

/// How far apart double-precision numbers are around this one.
pub open spec fn grain(n: nat) -> nat
    decreases n,
{
    if n < EXACT {
        1
    } else {
        2 * grain(n / 2)
    }
}

/// The double-precision number nearest to this whole number.
pub open spec fn as_double(n: nat) -> nat {
    half_even(n, grain(n)) * grain(n)
}

/// How many of this unit, to one decimal place.
pub open spec fn tenths(n: nat, unit: u64) -> nat {
    half_even(as_double(n) * 10, unit as nat)
}

/// A quantity to one decimal place, with its unit.
pub open spec fn scaled(n: nat, unit: u64, name: Seq<char>) -> Seq<char> {
    text::decimal(tenths(n, unit) / 10) + "."@ + text::decimal(tenths(n, unit) % 10) + name
}

/// So many of this unit that one decimal place would round up to the next.
pub open spec fn rounds_up(n: nat, unit: u64) -> bool {
    n * 20 >= 20479 * unit
}

/// A byte count, in the unit that keeps it under four figures.
pub open spec fn size(n: nat) -> Seq<char> {
    if rounds_up(n, GIB) {
        scaled(n, TIB, " TiB"@)
    } else if rounds_up(n, MIB) {
        scaled(n, GIB, " GiB"@)
    } else if rounds_up(n, KIB) {
        scaled(n, MIB, " MiB"@)
    } else if n >= KIB {
        scaled(n, KIB, " KiB"@)
    } else {
        text::decimal(n) + " B"@
    }
}

fn half_even_of(a: u128, b: u128) -> (r: u128)
    requires
        0 < b <= u64::MAX,
        a <= 0x1_0000_0000_0000_0000_0000_0000,
    ensures
        r == half_even(a as nat, b as nat),
        r * b <= a + b,
{
    let q: u128 = a / b;
    let m: u128 = a % b;
    proof {
        lemma_fundamental_div_mod(a as int, b as int);
        assert(q <= a) by (nonlinear_arith)
            requires
                q == a / b,
                b > 0,
        ;
        assert(b * q == q * b) by (nonlinear_arith);
        assert((q + 1) * b == q * b + b) by (nonlinear_arith);
    }
    if 2 * m > b || (2 * m == b && q % 2 == 1) {
        q + 1
    } else {
        q
    }
}

fn grain_of(n: u64) -> (r: u64)
    ensures
        r == grain(n as nat),
        1 <= r,
        n < EXACT ==> r == 1,
        n >= EXACT ==> r * 4_503_599_627_370_496 <= n,
    decreases n,
{
    if n < EXACT {
        1
    } else {
        let half: u64 = grain_of(n / 2);
        2 * half
    }
}

fn put_scaled(n: u64, unit: u64, name: &str) -> (r: String)
    requires
        unit >= KIB,
    ensures
        r@ == scaled(n as nat, unit, name@),
{
    let step: u64 = grain_of(n);
    let nearest: u128 = half_even_of(n as u128, step as u128);
    assert(nearest * step <= n + step);
    let double: u128 = nearest * (step as u128);
    assert(double == as_double(n as nat));
    let t: u128 = half_even_of(double * 10, unit as u128);
    assert(t <= 0x1_0000_0000_0000_0000) by (nonlinear_arith)
        requires
            t * unit <= double * 10 + unit,
            unit >= 1024,
            double <= 0x1_0000_0000_0000_0000 + 4096,
    ;
    let mut out: String = String::new();
    text::push_decimal(&mut out, (t / 10) as u64);
    assert(out@ == text::decimal((t / 10) as nat));
    out.append(".");
    text::push_decimal(&mut out, (t % 10) as u64);
    out.append(name);
    out
}

/// A byte count somebody can read at a glance.
///
/// Powers of 1024, because that is what a socket buffer and a page cache are
/// counted in, and one decimal place because two is a precision this number
/// does not have. The unit changes slightly before the arithmetic says so: a
/// value a hair under a mebibyte is not `1024.0 KiB`, which is a number nobody
/// writes.
pub fn bytes(n: u64) -> (r: String)
    ensures
        r@ == size(n as nat),
{
    let twenty: u128 = (n as u128) * 20;
    if twenty >= 20479 * (GIB as u128) {
        put_scaled(n, TIB, " TiB")
    } else if twenty >= 20479 * (MIB as u128) {
        put_scaled(n, GIB, " GiB")
    } else if twenty >= 20479 * (KIB as u128) {
        put_scaled(n, MIB, " MiB")
    } else if n >= KIB {
        put_scaled(n, KIB, " KiB")
    } else {
        // Under a kibibyte the exact count is both short and interesting.
        let mut out: String = String::new();
        text::push_decimal(&mut out, n);
        assert(out@ == text::decimal(n as nat));
        out.append(" B");
        out
    }
}

/// A count that stays in a unit never reads as 1024.0 of it.
pub proof fn law_no_figure_reads_as_the_next_unit(n: nat, unit: u64)
    requires
        unit == KIB || unit == MIB || unit == GIB,
        !rounds_up(n, unit),
    ensures
        tenths(n, unit) < 10240,
{
    assert(grain(n) == 1);
    assert(n % 1 == 0 && n / 1 == n);
    assert(as_double(n) == n) by (nonlinear_arith)
        requires
            as_double(n) == n * 1,
    ;
    let u = unit as nat;
    lemma_fundamental_div_mod((n * 10) as int, u as int);
    let q = (n * 10) / u;
    let m = (n * 10) % u;
    assert(q < 10240 && (q == 10239 ==> 2 * m < u)) by (nonlinear_arith)
        requires
            n * 10 == u * q + m,
            n * 20 < 20479 * u,
            0 <= m < u,
            u > 0,
    ;
}

} // verus!
