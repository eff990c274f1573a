//! Texts that tell a terminal nothing but to start a new line.
use vstd::prelude::*;
use vstd::string::*;

use crate::{display, session, text};

verus! {

/// A character that a rendered text may hold.
pub open spec fn is_printed(c: char) -> bool {
    c == '\n' || display::is_plain(c)
}

/// A text that tells a terminal nothing but to start a new line.
#[verifier::opaque]
pub open spec fn printed(s: Seq<char>) -> bool {
    forall|i: int| 0 <= i < s.len() ==> is_printed(#[trigger] s[i])
}

/// The same, character by character.
spec fn printed_from(s: Seq<char>, i: int) -> bool
    decreases s.len() - i,
{
    i >= s.len() || (is_printed(s[i]) && printed_from(s, i + 1))
}

proof fn lemma_printed_from(s: Seq<char>, i: int)
    requires
        0 <= i,
        printed_from(s, i),
    ensures
        forall|j: int| i <= j < s.len() ==> is_printed(#[trigger] s[j]),
    decreases s.len() - i,
{
    if i < s.len() {
        lemma_printed_from(s, i + 1);
    }
}

/// Two such texts behind one another are such a text.
pub broadcast proof fn lemma_both(a: Seq<char>, b: Seq<char>)
    requires
        printed(a),
        printed(b),
    ensures
        #[trigger] printed(a + b),
{
    reveal(printed);
}

pub broadcast proof fn lemma_empty()
    ensures
        #[trigger] printed(Seq::empty()),
{
    reveal(printed);
}

pub broadcast proof fn lemma_shown(s: Seq<char>)
    ensures
        #[trigger] printed(display::shown(s)),
{
    reveal(printed);
    assert forall|i: int| 0 <= i < display::shown(s).len() implies is_printed(
        #[trigger] display::shown(s)[i],
    ) by {
        display::law_what_is_shown_is_plain(s, i);
    }
}

proof fn lemma_digits(n: nat)
    ensures
        forall|i: int| 0 <= i < text::decimal(n).len() ==> is_printed(#[trigger] text::decimal(n)[i]),
    decreases n,
{
    if n >= 10 {
        lemma_digits(n / 10);
        assert(is_printed((n % 10 + 48) as char));
        assert forall|i: int| 0 <= i < text::decimal(n).len() implies is_printed(
            #[trigger] text::decimal(n)[i],
        ) by {
            if i < text::decimal(n / 10).len() {
                assert(text::decimal(n)[i] == text::decimal(n / 10)[i]);
            }
        }
    } else {
        assert(is_printed((n + 48) as char));
    }
}

pub broadcast proof fn lemma_decimal(n: nat)
    ensures
        #[trigger] printed(text::decimal(n)),
{
    reveal(printed);
    lemma_digits(n);
}

pub broadcast group group_printed {
    lemma_both,
    lemma_empty,
    lemma_shown,
    lemma_decimal,
}

proof fn lemma_words_a()
    ensures
        printed(" "@),
        printed(", "@),
        printed("share session, "@),
        printed("s ("@),
        printed(" transport)\n"@),
        printed("\n"@),
        printed("clock    this machine's clock jumped "@),
        printed("back"@),
        printed("forward"@),
        printed("s during the session — the length above is measured, but the two timestamps and each peer's held time are clock readings and are off by that much\n"@),
        printed("clock    the timestamps above are "@),
        printed("s apart and the session was measured at "@),
{
    reveal(printed);
    assert(printed(" "@)) by {
        let s = " "@;
        reveal_strlit(" ");
        reveal_with_fuel(printed_from, 42);
        lemma_printed_from(s, 0);
    }
    assert(printed(", "@)) by {
        let s = ", "@;
        reveal_strlit(", ");
        reveal_with_fuel(printed_from, 42);
        lemma_printed_from(s, 0);
    }
    assert(printed("share session, "@)) by {
        let s = "share session, "@;
        reveal_strlit("share session, ");
        reveal_with_fuel(printed_from, 42);
        lemma_printed_from(s, 0);
    }
    assert(printed("s ("@)) by {
        let s = "s ("@;
        reveal_strlit("s (");
        reveal_with_fuel(printed_from, 42);
        lemma_printed_from(s, 0);
    }
    assert(printed(" transport)\n"@)) by {
        let s = " transport)\n"@;
        reveal_strlit(" transport)\n");
        reveal_with_fuel(printed_from, 42);
        lemma_printed_from(s, 0);
    }
    assert(printed("\n"@)) by {
        let s = "\n"@;
        reveal_strlit("\n");
        reveal_with_fuel(printed_from, 42);
        lemma_printed_from(s, 0);
    }
    assert(printed("clock    this machine's clock jumped "@)) by {
        let s = "clock    this machine's clock jumped "@;
        reveal_strlit("clock    this machine's clock jumped ");
        reveal_with_fuel(printed_from, 42);
        lemma_printed_from(s, 0);
    }
    assert(printed("back"@)) by {
        let s = "back"@;
        reveal_strlit("back");
        reveal_with_fuel(printed_from, 42);
        lemma_printed_from(s, 0);
    }
    assert(printed("forward"@)) by {
        let s = "forward"@;
        reveal_strlit("forward");
        reveal_with_fuel(printed_from, 42);
        lemma_printed_from(s, 0);
    }
    assert(printed("s during the session — the length above is measured, but the two timestamps and each peer's held time are clock readings and are off by that much\n"@)) by {
        let s = "s during the session — the length above is measured, but the two timestamps and each peer's held time are clock readings and are off by that much\n"@;
        reveal_strlit("s during the session — the length above is measured, but the two timestamps and each peer's held time are clock readings and are off by that much\n");
        reveal_with_fuel(printed_from, 42);
        assert(printed_from(s, 120));
        assert(printed_from(s, 80));
        assert(printed_from(s, 40));
        lemma_printed_from(s, 0);
    }
    assert(printed("clock    the timestamps above are "@)) by {
        let s = "clock    the timestamps above are "@;
        reveal_strlit("clock    the timestamps above are ");
        reveal_with_fuel(printed_from, 42);
        lemma_printed_from(s, 0);
    }
    assert(printed("s apart and the session was measured at "@)) by {
        let s = "s apart and the session was measured at "@;
        reveal_strlit("s apart and the session was measured at ");
        reveal_with_fuel(printed_from, 42);
        lemma_printed_from(s, 0);
    }
}

proof fn lemma_words_b()
    ensures
        printed("s — this machine's wall clock and its elapsed-time clock run at different rates. Nothing jumped; the length is the measured one\n"@),
        printed("shared   port "@),
        printed(" inside the box, never published on the host\n"@),
        printed("endpoint "@),
        printed("note     a Cloudflare quick tunnel terminated TLS, so this traffic was not end-to-end encrypted\n"@),
        printed("ended    badly: "@),
        printed("partial  this was written before every connection had finished, so the byte counts below are short and a peer may read as still connected\n"@),
        printed(" ("@),
        printed(")"@),
        printed("a path nothing observed"@),
        printed("  "@),
        printed(" via "@),
{
    reveal(printed);
    assert(printed("s — this machine's wall clock and its elapsed-time clock run at different rates. Nothing jumped; the length is the measured one\n"@)) by {
        let s = "s — this machine's wall clock and its elapsed-time clock run at different rates. Nothing jumped; the length is the measured one\n"@;
        reveal_strlit("s — this machine's wall clock and its elapsed-time clock run at different rates. Nothing jumped; the length is the measured one\n");
        reveal_with_fuel(printed_from, 42);
        assert(printed_from(s, 120));
        assert(printed_from(s, 80));
        assert(printed_from(s, 40));
        lemma_printed_from(s, 0);
    }
    assert(printed("shared   port "@)) by {
        let s = "shared   port "@;
        reveal_strlit("shared   port ");
        reveal_with_fuel(printed_from, 42);
        lemma_printed_from(s, 0);
    }
    assert(printed(" inside the box, never published on the host\n"@)) by {
        let s = " inside the box, never published on the host\n"@;
        reveal_strlit(" inside the box, never published on the host\n");
        reveal_with_fuel(printed_from, 42);
        assert(printed_from(s, 40));
        lemma_printed_from(s, 0);
    }
    assert(printed("endpoint "@)) by {
        let s = "endpoint "@;
        reveal_strlit("endpoint ");
        reveal_with_fuel(printed_from, 42);
        lemma_printed_from(s, 0);
    }
    assert(printed("note     a Cloudflare quick tunnel terminated TLS, so this traffic was not end-to-end encrypted\n"@)) by {
        let s = "note     a Cloudflare quick tunnel terminated TLS, so this traffic was not end-to-end encrypted\n"@;
        reveal_strlit("note     a Cloudflare quick tunnel terminated TLS, so this traffic was not end-to-end encrypted\n");
        reveal_with_fuel(printed_from, 42);
        assert(printed_from(s, 80));
        assert(printed_from(s, 40));
        lemma_printed_from(s, 0);
    }
    assert(printed("ended    badly: "@)) by {
        let s = "ended    badly: "@;
        reveal_strlit("ended    badly: ");
        reveal_with_fuel(printed_from, 42);
        lemma_printed_from(s, 0);
    }
    assert(printed("partial  this was written before every connection had finished, so the byte counts below are short and a peer may read as still connected\n"@)) by {
        let s = "partial  this was written before every connection had finished, so the byte counts below are short and a peer may read as still connected\n"@;
        reveal_strlit("partial  this was written before every connection had finished, so the byte counts below are short and a peer may read as still connected\n");
        reveal_with_fuel(printed_from, 42);
        assert(printed_from(s, 120));
        assert(printed_from(s, 80));
        assert(printed_from(s, 40));
        lemma_printed_from(s, 0);
    }
    assert(printed(" ("@)) by {
        let s = " ("@;
        reveal_strlit(" (");
        reveal_with_fuel(printed_from, 42);
        lemma_printed_from(s, 0);
    }
    assert(printed(")"@)) by {
        let s = ")"@;
        reveal_strlit(")");
        reveal_with_fuel(printed_from, 42);
        lemma_printed_from(s, 0);
    }
    assert(printed("a path nothing observed"@)) by {
        let s = "a path nothing observed"@;
        reveal_strlit("a path nothing observed");
        reveal_with_fuel(printed_from, 42);
        lemma_printed_from(s, 0);
    }
    assert(printed("  "@)) by {
        let s = "  "@;
        reveal_strlit("  ");
        reveal_with_fuel(printed_from, 42);
        lemma_printed_from(s, 0);
    }
    assert(printed(" via "@)) by {
        let s = " via "@;
        reveal_strlit(" via ");
        reveal_with_fuel(printed_from, 42);
        lemma_printed_from(s, 0);
    }
}

proof fn lemma_words_c()
    ensures
        printed(" — grant "@),
        printed("s, "@),
        printed("connection"@),
        printed("connections"@),
        printed(" in / "@),
        printed(" out\n"@),
        printed("  and "@),
        printed(" more peer(s), past the "@),
        printed(" this receipt lists individually — not shown above by peer, but counted: "@),
        printed(" connection(s), "@),
        printed("ticket   grant "@),
        printed(" was used by "@),
{
    reveal(printed);
    assert(printed(" — grant "@)) by {
        let s = " — grant "@;
        reveal_strlit(" — grant ");
        reveal_with_fuel(printed_from, 42);
        lemma_printed_from(s, 0);
    }
    assert(printed("s, "@)) by {
        let s = "s, "@;
        reveal_strlit("s, ");
        reveal_with_fuel(printed_from, 42);
        lemma_printed_from(s, 0);
    }
    assert(printed("connection"@)) by {
        let s = "connection"@;
        reveal_strlit("connection");
        reveal_with_fuel(printed_from, 42);
        lemma_printed_from(s, 0);
    }
    assert(printed("connections"@)) by {
        let s = "connections"@;
        reveal_strlit("connections");
        reveal_with_fuel(printed_from, 42);
        lemma_printed_from(s, 0);
    }
    assert(printed(" in / "@)) by {
        let s = " in / "@;
        reveal_strlit(" in / ");
        reveal_with_fuel(printed_from, 42);
        lemma_printed_from(s, 0);
    }
    assert(printed(" out\n"@)) by {
        let s = " out\n"@;
        reveal_strlit(" out\n");
        reveal_with_fuel(printed_from, 42);
        lemma_printed_from(s, 0);
    }
    assert(printed("  and "@)) by {
        let s = "  and "@;
        reveal_strlit("  and ");
        reveal_with_fuel(printed_from, 42);
        lemma_printed_from(s, 0);
    }
    assert(printed(" more peer(s), past the "@)) by {
        let s = " more peer(s), past the "@;
        reveal_strlit(" more peer(s), past the ");
        reveal_with_fuel(printed_from, 42);
        lemma_printed_from(s, 0);
    }
    assert(printed(" this receipt lists individually — not shown above by peer, but counted: "@)) by {
        let s = " this receipt lists individually — not shown above by peer, but counted: "@;
        reveal_strlit(" this receipt lists individually — not shown above by peer, but counted: ");
        reveal_with_fuel(printed_from, 42);
        assert(printed_from(s, 40));
        lemma_printed_from(s, 0);
    }
    assert(printed(" connection(s), "@)) by {
        let s = " connection(s), "@;
        reveal_strlit(" connection(s), ");
        reveal_with_fuel(printed_from, 42);
        lemma_printed_from(s, 0);
    }
    assert(printed("ticket   grant "@)) by {
        let s = "ticket   grant "@;
        reveal_strlit("ticket   grant ");
        reveal_with_fuel(printed_from, 42);
        lemma_printed_from(s, 0);
    }
    assert(printed(" was used by "@)) by {
        let s = " was used by "@;
        reveal_strlit(" was used by ");
        reveal_with_fuel(printed_from, 42);
        lemma_printed_from(s, 0);
    }
}

proof fn lemma_words_d()
    ensures
        printed(" separate peers — a ticket admits everyone it is forwarded to, and revoking it cuts off all of them\n"@),
        printed("relay    "@),
        printed(" peer(s) used a relay. It moved sealed packets and could not read them.\n"@),
        printed("capacity "@),
        printed(" connection(s) refused because "@),
        printed(" were already reaching the box\n"@),
        printed("flooded  "@),
        printed(" connection(s) refused at the front door, before any credential was asked for\n"@),
        printed("truncated "@),
        printed(" response(s) the box left unfinished, so what the visitor got was incomplete\n"@),
        printed(" of them not recorded individually)"@),
        printed("turned   "@),
{
    reveal(printed);
    assert(printed(" separate peers — a ticket admits everyone it is forwarded to, and revoking it cuts off all of them\n"@)) by {
        let s = " separate peers — a ticket admits everyone it is forwarded to, and revoking it cuts off all of them\n"@;
        reveal_strlit(" separate peers — a ticket admits everyone it is forwarded to, and revoking it cuts off all of them\n");
        reveal_with_fuel(printed_from, 42);
        assert(printed_from(s, 80));
        assert(printed_from(s, 40));
        lemma_printed_from(s, 0);
    }
    assert(printed("relay    "@)) by {
        let s = "relay    "@;
        reveal_strlit("relay    ");
        reveal_with_fuel(printed_from, 42);
        lemma_printed_from(s, 0);
    }
    assert(printed(" peer(s) used a relay. It moved sealed packets and could not read them.\n"@)) by {
        let s = " peer(s) used a relay. It moved sealed packets and could not read them.\n"@;
        reveal_strlit(" peer(s) used a relay. It moved sealed packets and could not read them.\n");
        reveal_with_fuel(printed_from, 42);
        assert(printed_from(s, 40));
        lemma_printed_from(s, 0);
    }
    assert(printed("capacity "@)) by {
        let s = "capacity "@;
        reveal_strlit("capacity ");
        reveal_with_fuel(printed_from, 42);
        lemma_printed_from(s, 0);
    }
    assert(printed(" connection(s) refused because "@)) by {
        let s = " connection(s) refused because "@;
        reveal_strlit(" connection(s) refused because ");
        reveal_with_fuel(printed_from, 42);
        lemma_printed_from(s, 0);
    }
    assert(printed(" were already reaching the box\n"@)) by {
        let s = " were already reaching the box\n"@;
        reveal_strlit(" were already reaching the box\n");
        reveal_with_fuel(printed_from, 42);
        lemma_printed_from(s, 0);
    }
    assert(printed("flooded  "@)) by {
        let s = "flooded  "@;
        reveal_strlit("flooded  ");
        reveal_with_fuel(printed_from, 42);
        lemma_printed_from(s, 0);
    }
    assert(printed(" connection(s) refused at the front door, before any credential was asked for\n"@)) by {
        let s = " connection(s) refused at the front door, before any credential was asked for\n"@;
        reveal_strlit(" connection(s) refused at the front door, before any credential was asked for\n");
        reveal_with_fuel(printed_from, 42);
        assert(printed_from(s, 40));
        lemma_printed_from(s, 0);
    }
    assert(printed("truncated "@)) by {
        let s = "truncated "@;
        reveal_strlit("truncated ");
        reveal_with_fuel(printed_from, 42);
        lemma_printed_from(s, 0);
    }
    assert(printed(" response(s) the box left unfinished, so what the visitor got was incomplete\n"@)) by {
        let s = " response(s) the box left unfinished, so what the visitor got was incomplete\n"@;
        reveal_strlit(" response(s) the box left unfinished, so what the visitor got was incomplete\n");
        reveal_with_fuel(printed_from, 42);
        assert(printed_from(s, 40));
        lemma_printed_from(s, 0);
    }
    assert(printed(" of them not recorded individually)"@)) by {
        let s = " of them not recorded individually)"@;
        reveal_strlit(" of them not recorded individually)");
        reveal_with_fuel(printed_from, 42);
        lemma_printed_from(s, 0);
    }
    assert(printed("turned   "@)) by {
        let s = "turned   "@;
        reveal_strlit("turned   ");
        reveal_with_fuel(printed_from, 42);
        lemma_printed_from(s, 0);
    }
}

proof fn lemma_words_e()
    ensures
        printed(" connection(s) away before any ticket was weighed"@),
        printed(": of the "@),
        printed(" recorded, "@),
        printed("route    "@),
        printed(" connection(s) were authorized and then h5i could not reach the box at all\n"@),
        printed("unreached "@),
        printed(" connection(s) were authorized but found nothing listening on port "@),
        printed("; and "@),
        printed(" could not be weighed at all, because this share could not read its own grant table — a problem on the sharing machine"@),
        printed(" arrived after the share had been stopped"@),
        printed("refused  "@),
        printed(" attempt(s)"@),
{
    reveal(printed);
    assert(printed(" connection(s) away before any ticket was weighed"@)) by {
        let s = " connection(s) away before any ticket was weighed"@;
        reveal_strlit(" connection(s) away before any ticket was weighed");
        reveal_with_fuel(printed_from, 42);
        assert(printed_from(s, 40));
        lemma_printed_from(s, 0);
    }
    assert(printed(": of the "@)) by {
        let s = ": of the "@;
        reveal_strlit(": of the ");
        reveal_with_fuel(printed_from, 42);
        lemma_printed_from(s, 0);
    }
    assert(printed(" recorded, "@)) by {
        let s = " recorded, "@;
        reveal_strlit(" recorded, ");
        reveal_with_fuel(printed_from, 42);
        lemma_printed_from(s, 0);
    }
    assert(printed("route    "@)) by {
        let s = "route    "@;
        reveal_strlit("route    ");
        reveal_with_fuel(printed_from, 42);
        lemma_printed_from(s, 0);
    }
    assert(printed(" connection(s) were authorized and then h5i could not reach the box at all\n"@)) by {
        let s = " connection(s) were authorized and then h5i could not reach the box at all\n"@;
        reveal_strlit(" connection(s) were authorized and then h5i could not reach the box at all\n");
        reveal_with_fuel(printed_from, 42);
        assert(printed_from(s, 40));
        lemma_printed_from(s, 0);
    }
    assert(printed("unreached "@)) by {
        let s = "unreached "@;
        reveal_strlit("unreached ");
        reveal_with_fuel(printed_from, 42);
        lemma_printed_from(s, 0);
    }
    assert(printed(" connection(s) were authorized but found nothing listening on port "@)) by {
        let s = " connection(s) were authorized but found nothing listening on port "@;
        reveal_strlit(" connection(s) were authorized but found nothing listening on port ");
        reveal_with_fuel(printed_from, 42);
        assert(printed_from(s, 40));
        lemma_printed_from(s, 0);
    }
    assert(printed("; and "@)) by {
        let s = "; and "@;
        reveal_strlit("; and ");
        reveal_with_fuel(printed_from, 42);
        lemma_printed_from(s, 0);
    }
    assert(printed(" could not be weighed at all, because this share could not read its own grant table — a problem on the sharing machine"@)) by {
        let s = " could not be weighed at all, because this share could not read its own grant table — a problem on the sharing machine"@;
        reveal_strlit(" could not be weighed at all, because this share could not read its own grant table — a problem on the sharing machine");
        reveal_with_fuel(printed_from, 42);
        assert(printed_from(s, 80));
        assert(printed_from(s, 40));
        lemma_printed_from(s, 0);
    }
    assert(printed(" arrived after the share had been stopped"@)) by {
        let s = " arrived after the share had been stopped"@;
        reveal_strlit(" arrived after the share had been stopped");
        reveal_with_fuel(printed_from, 42);
        assert(printed_from(s, 40));
        lemma_printed_from(s, 0);
    }
    assert(printed("refused  "@)) by {
        let s = "refused  "@;
        reveal_strlit("refused  ");
        reveal_with_fuel(printed_from, 42);
        lemma_printed_from(s, 0);
    }
    assert(printed(" attempt(s)"@)) by {
        let s = " attempt(s)"@;
        reveal_strlit(" attempt(s)");
        reveal_with_fuel(printed_from, 42);
        lemma_printed_from(s, 0);
    }
}

proof fn lemma_words_f()
    ensures
        printed(" presented no invite, "@),
        printed(" an unknown ticket, "@),
        printed(" expired, "@),
        printed(" revoked"@),
        printed("peers    none — the share was open but nobody connected\n"@),
        printed("peers    "@),
        printed("opened   "@),
        printed("closed   "@),
        printed("revoked"@),
        printed("expired"@),
        printed(" left"@),
        printed("— was sharing"@),
{
    reveal(printed);
    assert(printed(" presented no invite, "@)) by {
        let s = " presented no invite, "@;
        reveal_strlit(" presented no invite, ");
        reveal_with_fuel(printed_from, 42);
        lemma_printed_from(s, 0);
    }
    assert(printed(" an unknown ticket, "@)) by {
        let s = " an unknown ticket, "@;
        reveal_strlit(" an unknown ticket, ");
        reveal_with_fuel(printed_from, 42);
        lemma_printed_from(s, 0);
    }
    assert(printed(" expired, "@)) by {
        let s = " expired, "@;
        reveal_strlit(" expired, ");
        reveal_with_fuel(printed_from, 42);
        lemma_printed_from(s, 0);
    }
    assert(printed(" revoked"@)) by {
        let s = " revoked"@;
        reveal_strlit(" revoked");
        reveal_with_fuel(printed_from, 42);
        lemma_printed_from(s, 0);
    }
    assert(printed("peers    none — the share was open but nobody connected\n"@)) by {
        let s = "peers    none — the share was open but nobody connected\n"@;
        reveal_strlit("peers    none — the share was open but nobody connected\n");
        reveal_with_fuel(printed_from, 42);
        assert(printed_from(s, 40));
        lemma_printed_from(s, 0);
    }
    assert(printed("peers    "@)) by {
        let s = "peers    "@;
        reveal_strlit("peers    ");
        reveal_with_fuel(printed_from, 42);
        lemma_printed_from(s, 0);
    }
    assert(printed("opened   "@)) by {
        let s = "opened   "@;
        reveal_strlit("opened   ");
        reveal_with_fuel(printed_from, 42);
        lemma_printed_from(s, 0);
    }
    assert(printed("closed   "@)) by {
        let s = "closed   "@;
        reveal_strlit("closed   ");
        reveal_with_fuel(printed_from, 42);
        lemma_printed_from(s, 0);
    }
    assert(printed("revoked"@)) by {
        let s = "revoked"@;
        reveal_strlit("revoked");
        reveal_with_fuel(printed_from, 42);
        lemma_printed_from(s, 0);
    }
    assert(printed("expired"@)) by {
        let s = "expired"@;
        reveal_strlit("expired");
        reveal_with_fuel(printed_from, 42);
        lemma_printed_from(s, 0);
    }
    assert(printed(" left"@)) by {
        let s = " left"@;
        reveal_strlit(" left");
        reveal_with_fuel(printed_from, 42);
        lemma_printed_from(s, 0);
    }
    assert(printed("— was sharing"@)) by {
        let s = "— was sharing"@;
        reveal_strlit("— was sharing");
        reveal_with_fuel(printed_from, 42);
        lemma_printed_from(s, 0);
    }
}

proof fn lemma_words_g()
    ensures
        printed("— shutting down, was sharing"@),
        printed("— nobody can get in (every ticket is expired or revoked); was sharing"@),
        printed("— sharing"@),
        printed(" port "@),
        printed(" over "@),
        printed("  endpoint  "@),
        printed("  started   "@),
        printed("            NOTE: this share reports starting "@),
        printed(" in the future by this machine's clock. The clock moved; the times below are this clock's opinion, and the share itself goes by elapsed time, so it will close sooner than they say. `h5i box share grant` is refused while that is true.\n"@),
        printed("  process   pid "@),
        printed(" — shutting down; it is writing its receipt and will be gone in a moment."@),
        printed(""@),
{
    reveal(printed);
    assert(printed("— shutting down, was sharing"@)) by {
        let s = "— shutting down, was sharing"@;
        reveal_strlit("— shutting down, was sharing");
        reveal_with_fuel(printed_from, 42);
        lemma_printed_from(s, 0);
    }
    assert(printed("— nobody can get in (every ticket is expired or revoked); was sharing"@)) by {
        let s = "— nobody can get in (every ticket is expired or revoked); was sharing"@;
        reveal_strlit("— nobody can get in (every ticket is expired or revoked); was sharing");
        reveal_with_fuel(printed_from, 42);
        assert(printed_from(s, 40));
        lemma_printed_from(s, 0);
    }
    assert(printed("— sharing"@)) by {
        let s = "— sharing"@;
        reveal_strlit("— sharing");
        reveal_with_fuel(printed_from, 42);
        lemma_printed_from(s, 0);
    }
    assert(printed(" port "@)) by {
        let s = " port "@;
        reveal_strlit(" port ");
        reveal_with_fuel(printed_from, 42);
        lemma_printed_from(s, 0);
    }
    assert(printed(" over "@)) by {
        let s = " over "@;
        reveal_strlit(" over ");
        reveal_with_fuel(printed_from, 42);
        lemma_printed_from(s, 0);
    }
    assert(printed("  endpoint  "@)) by {
        let s = "  endpoint  "@;
        reveal_strlit("  endpoint  ");
        reveal_with_fuel(printed_from, 42);
        lemma_printed_from(s, 0);
    }
    assert(printed("  started   "@)) by {
        let s = "  started   "@;
        reveal_strlit("  started   ");
        reveal_with_fuel(printed_from, 42);
        lemma_printed_from(s, 0);
    }
    assert(printed("            NOTE: this share reports starting "@)) by {
        let s = "            NOTE: this share reports starting "@;
        reveal_strlit("            NOTE: this share reports starting ");
        reveal_with_fuel(printed_from, 42);
        assert(printed_from(s, 40));
        lemma_printed_from(s, 0);
    }
    assert(printed(" in the future by this machine's clock. The clock moved; the times below are this clock's opinion, and the share itself goes by elapsed time, so it will close sooner than they say. `h5i box share grant` is refused while that is true.\n"@)) by {
        let s = " in the future by this machine's clock. The clock moved; the times below are this clock's opinion, and the share itself goes by elapsed time, so it will close sooner than they say. `h5i box share grant` is refused while that is true.\n"@;
        reveal_strlit(" in the future by this machine's clock. The clock moved; the times below are this clock's opinion, and the share itself goes by elapsed time, so it will close sooner than they say. `h5i box share grant` is refused while that is true.\n");
        reveal_with_fuel(printed_from, 42);
        assert(printed_from(s, 200));
        assert(printed_from(s, 160));
        assert(printed_from(s, 120));
        assert(printed_from(s, 80));
        assert(printed_from(s, 40));
        lemma_printed_from(s, 0);
    }
    assert(printed("  process   pid "@)) by {
        let s = "  process   pid "@;
        reveal_strlit("  process   pid ");
        reveal_with_fuel(printed_from, 42);
        lemma_printed_from(s, 0);
    }
    assert(printed(" — shutting down; it is writing its receipt and will be gone in a moment."@)) by {
        let s = " — shutting down; it is writing its receipt and will be gone in a moment."@;
        reveal_strlit(" — shutting down; it is writing its receipt and will be gone in a moment.");
        reveal_with_fuel(printed_from, 42);
        assert(printed_from(s, 40));
        lemma_printed_from(s, 0);
    }
    assert(printed(""@)) by {
        let s = ""@;
        reveal_strlit("");
        reveal_with_fuel(printed_from, 42);
        lemma_printed_from(s, 0);
    }
}

proof fn lemma_words_h()
    ensures
        printed("            GONE. This share is not serving anything; run `h5i box share stop "@),
        printed("`.\n"@),
        printed("    "@),
        printed("  grants    none\n"@),
        printed("  grants\n"@),
        printed("-"@),
        printed("."@),
        printed(" TiB"@),
        printed(" GiB"@),
        printed(" MiB"@),
        printed(" KiB"@),
        printed(" B"@),
{
    reveal(printed);
    assert(printed("            GONE. This share is not serving anything; run `h5i box share stop "@)) by {
        let s = "            GONE. This share is not serving anything; run `h5i box share stop "@;
        reveal_strlit("            GONE. This share is not serving anything; run `h5i box share stop ");
        reveal_with_fuel(printed_from, 42);
        assert(printed_from(s, 40));
        lemma_printed_from(s, 0);
    }
    assert(printed("`.\n"@)) by {
        let s = "`.\n"@;
        reveal_strlit("`.\n");
        reveal_with_fuel(printed_from, 42);
        lemma_printed_from(s, 0);
    }
    assert(printed("    "@)) by {
        let s = "    "@;
        reveal_strlit("    ");
        reveal_with_fuel(printed_from, 42);
        lemma_printed_from(s, 0);
    }
    assert(printed("  grants    none\n"@)) by {
        let s = "  grants    none\n"@;
        reveal_strlit("  grants    none\n");
        reveal_with_fuel(printed_from, 42);
        lemma_printed_from(s, 0);
    }
    assert(printed("  grants\n"@)) by {
        let s = "  grants\n"@;
        reveal_strlit("  grants\n");
        reveal_with_fuel(printed_from, 42);
        lemma_printed_from(s, 0);
    }
    assert(printed("-"@)) by {
        let s = "-"@;
        reveal_strlit("-");
        reveal_with_fuel(printed_from, 42);
        lemma_printed_from(s, 0);
    }
    assert(printed("."@)) by {
        let s = "."@;
        reveal_strlit(".");
        reveal_with_fuel(printed_from, 42);
        lemma_printed_from(s, 0);
    }
    assert(printed(" TiB"@)) by {
        let s = " TiB"@;
        reveal_strlit(" TiB");
        reveal_with_fuel(printed_from, 42);
        lemma_printed_from(s, 0);
    }
    assert(printed(" GiB"@)) by {
        let s = " GiB"@;
        reveal_strlit(" GiB");
        reveal_with_fuel(printed_from, 42);
        lemma_printed_from(s, 0);
    }
    assert(printed(" MiB"@)) by {
        let s = " MiB"@;
        reveal_strlit(" MiB");
        reveal_with_fuel(printed_from, 42);
        lemma_printed_from(s, 0);
    }
    assert(printed(" KiB"@)) by {
        let s = " KiB"@;
        reveal_strlit(" KiB");
        reveal_with_fuel(printed_from, 42);
        lemma_printed_from(s, 0);
    }
    assert(printed(" B"@)) by {
        let s = " B"@;
        reveal_strlit(" B");
        reveal_with_fuel(printed_from, 42);
        lemma_printed_from(s, 0);
    }
}

proof fn lemma_words_i()
    ensures
        printed("p2p"@),
        printed("tunnel"@),
        printed("h"@),
        printed("m"@),
        printed("s"@),
        printed("direct"@),
        printed("relayed"@),
        printed("no direct path was available"@),
        printed("connected but never presented a ticket"@),
        printed("sent something this share would not parse"@),
        printed("came from another page, with this share's cookie attached"@),
        printed("tried to register a service worker, which would outlive the share"@),
{
    reveal(printed);
    assert(printed("p2p"@)) by {
        let s = "p2p"@;
        reveal_strlit("p2p");
        reveal_with_fuel(printed_from, 42);
        lemma_printed_from(s, 0);
    }
    assert(printed("tunnel"@)) by {
        let s = "tunnel"@;
        reveal_strlit("tunnel");
        reveal_with_fuel(printed_from, 42);
        lemma_printed_from(s, 0);
    }
    assert(printed("h"@)) by {
        let s = "h"@;
        reveal_strlit("h");
        reveal_with_fuel(printed_from, 42);
        lemma_printed_from(s, 0);
    }
    assert(printed("m"@)) by {
        let s = "m"@;
        reveal_strlit("m");
        reveal_with_fuel(printed_from, 42);
        lemma_printed_from(s, 0);
    }
    assert(printed("s"@)) by {
        let s = "s"@;
        reveal_strlit("s");
        reveal_with_fuel(printed_from, 42);
        lemma_printed_from(s, 0);
    }
    assert(printed("direct"@)) by {
        let s = "direct"@;
        reveal_strlit("direct");
        reveal_with_fuel(printed_from, 42);
        lemma_printed_from(s, 0);
    }
    assert(printed("relayed"@)) by {
        let s = "relayed"@;
        reveal_strlit("relayed");
        reveal_with_fuel(printed_from, 42);
        lemma_printed_from(s, 0);
    }
    assert(printed("no direct path was available"@)) by {
        let s = "no direct path was available"@;
        reveal_strlit("no direct path was available");
        reveal_with_fuel(printed_from, 42);
        lemma_printed_from(s, 0);
    }
    assert(printed("connected but never presented a ticket"@)) by {
        let s = "connected but never presented a ticket"@;
        reveal_strlit("connected but never presented a ticket");
        reveal_with_fuel(printed_from, 42);
        lemma_printed_from(s, 0);
    }
    assert(printed("sent something this share would not parse"@)) by {
        let s = "sent something this share would not parse"@;
        reveal_strlit("sent something this share would not parse");
        reveal_with_fuel(printed_from, 42);
        assert(printed_from(s, 40));
        lemma_printed_from(s, 0);
    }
    assert(printed("came from another page, with this share's cookie attached"@)) by {
        let s = "came from another page, with this share's cookie attached"@;
        reveal_strlit("came from another page, with this share's cookie attached");
        reveal_with_fuel(printed_from, 42);
        assert(printed_from(s, 40));
        lemma_printed_from(s, 0);
    }
    assert(printed("tried to register a service worker, which would outlive the share"@)) by {
        let s = "tried to register a service worker, which would outlive the share"@;
        reveal_strlit("tried to register a service worker, which would outlive the share");
        reveal_with_fuel(printed_from, 42);
        assert(printed_from(s, 40));
        lemma_printed_from(s, 0);
    }
}

/// The words of a receipt and of a status.
pub proof fn lemma_words()
    ensures
        printed(" "@),
        printed(", "@),
        printed("share session, "@),
        printed("s ("@),
        printed(" transport)\n"@),
        printed("\n"@),
        printed("clock    this machine's clock jumped "@),
        printed("back"@),
        printed("forward"@),
        printed("s during the session — the length above is measured, but the two timestamps and each peer's held time are clock readings and are off by that much\n"@),
        printed("clock    the timestamps above are "@),
        printed("s apart and the session was measured at "@),
        printed("s — this machine's wall clock and its elapsed-time clock run at different rates. Nothing jumped; the length is the measured one\n"@),
        printed("shared   port "@),
        printed(" inside the box, never published on the host\n"@),
        printed("endpoint "@),
        printed("note     a Cloudflare quick tunnel terminated TLS, so this traffic was not end-to-end encrypted\n"@),
        printed("ended    badly: "@),
        printed("partial  this was written before every connection had finished, so the byte counts below are short and a peer may read as still connected\n"@),
        printed(" ("@),
        printed(")"@),
        printed("a path nothing observed"@),
        printed("  "@),
        printed(" via "@),
        printed(" — grant "@),
        printed("s, "@),
        printed("connection"@),
        printed("connections"@),
        printed(" in / "@),
        printed(" out\n"@),
        printed("  and "@),
        printed(" more peer(s), past the "@),
        printed(" this receipt lists individually — not shown above by peer, but counted: "@),
        printed(" connection(s), "@),
        printed("ticket   grant "@),
        printed(" was used by "@),
        printed(" separate peers — a ticket admits everyone it is forwarded to, and revoking it cuts off all of them\n"@),
        printed("relay    "@),
        printed(" peer(s) used a relay. It moved sealed packets and could not read them.\n"@),
        printed("capacity "@),
        printed(" connection(s) refused because "@),
        printed(" were already reaching the box\n"@),
        printed("flooded  "@),
        printed(" connection(s) refused at the front door, before any credential was asked for\n"@),
        printed("truncated "@),
        printed(" response(s) the box left unfinished, so what the visitor got was incomplete\n"@),
        printed(" of them not recorded individually)"@),
        printed("turned   "@),
        printed(" connection(s) away before any ticket was weighed"@),
        printed(": of the "@),
        printed(" recorded, "@),
        printed("route    "@),
        printed(" connection(s) were authorized and then h5i could not reach the box at all\n"@),
        printed("unreached "@),
        printed(" connection(s) were authorized but found nothing listening on port "@),
        printed("; and "@),
        printed(" could not be weighed at all, because this share could not read its own grant table — a problem on the sharing machine"@),
        printed(" arrived after the share had been stopped"@),
        printed("refused  "@),
        printed(" attempt(s)"@),
        printed(" presented no invite, "@),
        printed(" an unknown ticket, "@),
        printed(" expired, "@),
        printed(" revoked"@),
        printed("peers    none — the share was open but nobody connected\n"@),
        printed("peers    "@),
        printed("opened   "@),
        printed("closed   "@),
        printed("revoked"@),
        printed("expired"@),
        printed(" left"@),
        printed("— was sharing"@),
        printed("— shutting down, was sharing"@),
        printed("— nobody can get in (every ticket is expired or revoked); was sharing"@),
        printed("— sharing"@),
        printed(" port "@),
        printed(" over "@),
        printed("  endpoint  "@),
        printed("  started   "@),
        printed("            NOTE: this share reports starting "@),
        printed(" in the future by this machine's clock. The clock moved; the times below are this clock's opinion, and the share itself goes by elapsed time, so it will close sooner than they say. `h5i box share grant` is refused while that is true.\n"@),
        printed("  process   pid "@),
        printed(" — shutting down; it is writing its receipt and will be gone in a moment."@),
        printed(""@),
        printed("            GONE. This share is not serving anything; run `h5i box share stop "@),
        printed("`.\n"@),
        printed("    "@),
        printed("  grants    none\n"@),
        printed("  grants\n"@),
        printed("-"@),
        printed("."@),
        printed(" TiB"@),
        printed(" GiB"@),
        printed(" MiB"@),
        printed(" KiB"@),
        printed(" B"@),
        printed("p2p"@),
        printed("tunnel"@),
        printed("h"@),
        printed("m"@),
        printed("s"@),
        printed("direct"@),
        printed("relayed"@),
        printed("no direct path was available"@),
        printed("connected but never presented a ticket"@),
        printed("sent something this share would not parse"@),
        printed("came from another page, with this share's cookie attached"@),
        printed("tried to register a service worker, which would outlive the share"@),
{
    lemma_words_a();
    lemma_words_b();
    lemma_words_c();
    lemma_words_d();
    lemma_words_e();
    lemma_words_f();
    lemma_words_g();
    lemma_words_h();
    lemma_words_i();
}

} // verus!
