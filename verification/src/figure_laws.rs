//! What the figures of a receipt and the record of a share say.
use vstd::arithmetic::div_mod::*;
use vstd::prelude::*;
use vstd::string::*;

use crate::bridge::{Bridge, Record};
use crate::clock::Moment;
use crate::figures;
use crate::session::{self, Transport};
use crate::text;

verus! {

/// A whole number of tenths of a unit, with the unit behind it.
pub open spec fn in_tenths(t: nat, unit: Seq<char>) -> Seq<char> {
    text::decimal(t / 10) + "."@ + text::decimal(t % 10) + unit
}

/// So many tenths of a unit are the nearest to this many bytes.
pub open spec fn is_nearest(t: nat, n: nat, unit: nat) -> bool {
    2 * (10 * n) <= 2 * (t * unit) + unit && 2 * (t * unit) <= 2 * (10 * n) + unit
}

proof fn lemma_nearest(n: nat, unit: u64)
    requires
        n < 9_007_199_254_740_992,
        unit > 0,
    ensures
        is_nearest(figures::tenths(n, unit), n, unit as nat),
{
    let u = unit as nat;
    assert(figures::grain(n) == 1);
    assert(n % 1 == 0 && n / 1 == n);
    assert(figures::as_double(n) == n);
    let a = n * 10;
    lemma_fundamental_div_mod(a as int, u as int);
    lemma_mod_bound(a as int, u as int);
    let q = a / u;
    let m = a % u;
    assert(a == u * q + m);
    assert((q + 1) * u == u * q + u) by (nonlinear_arith);
    assert(q * u == u * q) by (nonlinear_arith);
}

/// A count of bytes is given in the largest unit of which there is one, to the
/// nearest tenth, and as it is where there are fewer than 1024.
pub proof fn law_bytes_are_given_to_a_tenth(n: u64, r: String)
    requires
        call_ensures(figures::bytes, (n,), r),
    ensures
        n < 1024 ==> r@ == text::decimal(n as nat) + " B"@,
        1024 <= n && 20 * n < 20479 * 1024 ==> exists|t: nat| #[trigger]
            is_nearest(t, n as nat, 1024) && r@ == in_tenths(t, " KiB"@),
        20 * n >= 20479 * 1024 && 20 * n < 20479 * 1048576 ==> exists|t: nat| #[trigger]
            is_nearest(t, n as nat, 1048576) && r@ == in_tenths(t, " MiB"@),
        20 * n >= 20479 * 1048576 && 20 * n < 20479 * 1073741824 ==> exists|t: nat| #[trigger]
            is_nearest(t, n as nat, 1073741824) && r@ == in_tenths(t, " GiB"@),
        20 * n >= 20479 * 1073741824 && n < 9_007_199_254_740_992 ==> exists|t: nat| #[trigger]
            is_nearest(t, n as nat, 1099511627776) && r@ == in_tenths(t, " TiB"@),
{
    if n < 9_007_199_254_740_992 {
        lemma_nearest(n as nat, 1024);
        lemma_nearest(n as nat, 1048576);
        lemma_nearest(n as nat, 1073741824);
        lemma_nearest(n as nat, 1099511627776);
    }
}

/// One is one, and everything else is many.
pub proof fn law_one_is_one_and_the_rest_are_many(n: u64, one: &str, many: &str, r: String)
    requires
        call_ensures(figures::plural, (n, one, many), r),
    ensures
        n == 1 ==> r@ == text::decimal(1) + " "@ + one@,
        n != 1 ==> r@ == text::decimal(n as nat) + " "@ + many@,
{
}

/// A number below zero has a minus before it, and no other has a sign.
pub proof fn law_only_a_number_below_zero_has_a_sign(n: i64, r: String)
    requires
        call_ensures(figures::signed_text, (n,), r),
    ensures
        n >= 0 ==> r@ == text::decimal(n as nat),
        n < 0 ==> r@ == "-"@ + text::decimal((0 - n) as nat),
{
}

/// A length of time is given in its hours and minutes, its minutes or its
/// seconds, and no more of it is said than there is.
pub proof fn law_a_length_of_time_is_not_made_longer(seconds: i64, r: String)
    requires
        seconds >= 0,
        call_ensures(session::humanise, (seconds,), r),
    ensures
        seconds < 60 ==> r@ == text::decimal(seconds as nat) + "s"@,
        60 <= seconds < 3600 ==> exists|m: nat|
            60 * m <= seconds < 60 * m + 60 && r@ == #[trigger] text::decimal(m) + "m"@,
        seconds >= 3600 ==> exists|h: nat, m: nat|
            m < 60 && 3600 * h + 60 * m <= seconds < 3600 * h + 60 * m + 60 && r@
                == #[trigger] text::decimal(h) + "h"@ + #[trigger] text::decimal(m) + "m"@,
{
    let n = seconds as int;
    if 60 <= n < 3600 {
        let m = (n / 60) as nat;
        assert(60 * m <= n < 60 * m + 60 && r@ == text::decimal(m) + "m"@);
    }
    if n >= 3600 {
        let h = (n / 3600) as nat;
        let m = (n / 60 % 60) as nat;
        assert(n / 60 == 60 * h + m) by {
            assert(n / 3600 == (n / 60) / 60);
        }
        assert(m < 60 && 3600 * h + 60 * m <= n < 3600 * h + 60 * m + 60);
        assert(r@ == text::decimal(h) + "h"@ + text::decimal(m) + "m"@);
    }
}

/// The record of a share says of which box and under which policy it was, over
/// what and on which port, how many came, how long it was, how many were turned
/// away, and that it ended well; without a box there is no record.
pub proof fn law_a_record_is_of_its_share(
    b: Bridge,
    ended: Moment,
    seconds: i64,
    box_stands: bool,
    r: Result<Record, String>,
)
    requires
        call_ensures(Bridge::write_receipt, (&b, ended, seconds, box_stands), r),
        b@.can_write(ended, seconds),
    ensures
        r is Ok <==> box_stands,
        r matches Ok(record) ==> is_record_of(b, seconds, record) && record.exit_code == 0,
{
}

/// The record of a share that ended badly says the same, but that it did.
pub proof fn law_a_record_tells_a_bad_end(
    b: &mut Bridge,
    why: &str,
    ended: Moment,
    seconds: i64,
    box_stands: bool,
    r: Result<Record, String>,
)
    requires
        call_ensures(Bridge::write_receipt_failed, (b, why, ended, seconds, box_stands), r),
        old(b)@.can_write(ended, seconds),
    ensures
        r is Ok <==> box_stands,
        r matches Ok(record) ==> is_record_of(*final(b), seconds, record) && record.exit_code == 1,
        text::maybe(final(b).tally.failed_because) == Some(why@),
        final(b)@.share == old(b)@.share,
        final(b)@.tally.unreachable == old(b)@.tally.unreachable,
        final(b)@.tally.route_broken == old(b)@.tally.route_broken,
        final(b)@.tally.peers == old(b)@.tally.peers,
        final(b)@.tally.denied == old(b)@.tally.denied,
        final(b)@.tally.turned_away == old(b)@.tally.turned_away,
{
    assert(final(b)@.tally.failed_because == text::maybe(final(b).tally.failed_because));
}

/// This is what is written down of that share, but for its text.
pub open spec fn is_record_of(b: Bridge, seconds: i64, record: Record) -> bool {
    &&& record.env_id@ == b.env_id@
    &&& record.policy_digest@ == b.policy_digest@
    &&& record.source@ == "share"@
    &&& record.share.transport@ == (if b.transport == Transport::P2p {
        "p2p"@
    } else {
        "tunnel"@
    })
    &&& record.share.port == b.port
    &&& record.share.peers == b.tally.peers@.len() + b.tally.peers_overflow
    &&& record.share.seconds == seconds
    &&& record.share.turned_away == b.tally.turned_away@.len() + b.tally.turned_away_overflow
    &&& record.wall_ms == (if seconds < 0 {
        None
    } else {
        Some((seconds * 1000) as u64)
    })
    &&& record.cmd@ == "h5i box share "@ + b.box_name@ + (if b.transport == Transport::P2p {
        ""@
    } else {
        " --tunnel"@
    }) + " (port "@ + text::decimal(b.port as nat) + ", "@ + text::decimal(
        b.tally.peers@.len() + b.tally.peers_overflow as nat,
    ) + " peer(s), "@ + (if seconds < 0 {
        "-"@ + text::decimal((0 - seconds) as nat)
    } else {
        text::decimal(seconds as nat)
    }) + "s)"@
}

} // verus!
