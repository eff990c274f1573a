//! The grant table as the status command shows it.
use vstd::prelude::*;
use vstd::string::*;

use crate::session::{self, Grant, ShareSession};
use crate::{display, plain, receipt_laws, seqs, text};

verus! {

/// The slug a person types, out of a full `env/agent/slug` id.
pub open spec fn slug(box_id: Seq<char>) -> Seq<char> {
    seqs::split(box_id, '/').last()
}

/// The slug a person types, out of a full `env/agent/slug` id.
pub fn short_name(box_id: &str) -> (r: String)
    ensures
        r@ == slug(box_id@),
{
    let chars = text::chars_of(box_id);
    let pieces = seqs::split_at_each(chars.as_slice(), '/');
    proof {
        seqs::lemma_split_len(chars@, '/');
    }
    text::text_of(pieces[pieces.len() - 1])
}

/// How a grant stands.
pub open spec fn state(g: Grant, now: i64) -> Seq<char> {
    if g.revoked {
        "revoked"@
    } else if g.expires_at <= now {
        "expired"@
    } else {
        session::in_words(g.expires_at - now) + " left"@
    }
}

fn put_state(g: &Grant, now: i64) -> (r: String)
    requires
        g.expires_at - now <= i64::MAX,
    ensures
        r@ == state(*g, now),
{
    if g.revoked {
        "revoked".to_owned()
    } else if g.expires_at <= now {
        "expired".to_owned()
    } else {
        let mut out: String = session::humanise(g.expires_at - now);
        out.append(" left");
        out
    }
}

/// A text that takes at least so many columns.
pub open spec fn padded(s: Seq<char>, width: nat) -> Seq<char>
    decreases width - s.len(),
{
    if s.len() < width {
        padded(s.push(' '), width)
    } else {
        s
    }
}

fn put_padded(s: String, width: usize) -> (r: String)
    ensures
        r@ == padded(s@, width as nat),
{
    let mut chars = text::chars_of(s.as_str());
    while chars.len() < width
        invariant
            padded(chars@, width as nat) == padded(s@, width as nat),
        decreases width - chars@.len(),
    {
        chars.push(' ');
    }
    text::text_of(chars.as_slice())
}

/// The label of a grant, when it has one.
pub open spec fn label_part(label: Option<Seq<char>>) -> Seq<char> {
    match label {
        Some(l) => "  "@ + display::shown(l),
        None => Seq::empty(),
    }
}

fn put_label_part(label: &Option<String>) -> (r: String)
    ensures
        r@ == label_part(text::maybe(*label)),
{
    match label {
        Some(l) => {
            let mut out: String = "  ".to_owned();
            out.append(display::sanitize_display(l.as_str()).as_str());
            out
        },
        None => String::new(),
    }
}

/// What is said of the share as a whole.
pub open spec fn headline(s: ShareSession, now: i64, live: bool) -> Seq<char> {
    if !live {
        "— was sharing"@
    } else if s.winding_up {
        "— shutting down, was sharing"@
    } else if s.spent(now) {
        "— nobody can get in (every ticket is expired or revoked); was sharing"@
    } else {
        "— sharing"@
    }
}

fn put_headline(s: &ShareSession, now: i64, live: bool) -> (r: &'static str)
    ensures
        r@ == headline(*s, now, live),
{
    // Grants get a say in the headline, not just the process: a live process
    // whose only grant has expired is not sharing.
    if !live {
        "— was sharing"
    } else if s.winding_up {
        "— shutting down, was sharing"
    } else if s.is_spent(now) {
        "— nobody can get in (every ticket is expired or revoked); was sharing"
    } else {
        "— sharing"
    }
}

/// The first line: which box, and what is done with it.
pub open spec fn share_line(s: ShareSession, now: i64, live: bool) -> Seq<char> {
    display::shown(s.box_id@) + " "@ + headline(s, now, live) + " port "@ + text::decimal(
        s.port as nat,
    ) + " over "@ + s.transport.spec_str() + "\n"@
}

fn put_share_line(s: &ShareSession, now: i64, live: bool) -> (r: String)
    ensures
        r@ == share_line(*s, now, live),
{
    let mut out: String = display::sanitize_display(s.box_id.as_str());
    out.append(" ");
    out.append(put_headline(s, now, live));
    out.append(" port ");
    text::push_decimal(&mut out, s.port as u64);
    out.append(" over ");
    out.append(s.transport.as_str());
    out.append("\n");
    out
}

/// Where it is shared.
pub open spec fn endpoint_line(s: ShareSession) -> Seq<char> {
    "  endpoint  "@
            + display::shown(s.endpoint@)
            + "\n"@
}

fn put_endpoint_line(s: &ShareSession) -> (r: String)
    ensures
        r@ == endpoint_line(*s),
{
    let mut out: String = "  endpoint  ".to_owned();
    out.append(display::sanitize_display(s.endpoint.as_str()).as_str());
    out.append("\n");
    out
}

/// Since when.
pub open spec fn started_line(s: ShareSession) -> Seq<char> {
    "  started   "@
            + display::shown(s.started_at@)
            + "\n"@
}

fn put_started_line(s: &ShareSession) -> (r: String)
    ensures
        r@ == started_line(*s),
{
    let mut out: String = "  started   ".to_owned();
    out.append(display::sanitize_display(s.started_at.as_str()).as_str());
    out.append("\n");
    out
}

/// A share that started in this machine's future.
pub open spec fn ahead_line(ahead: Option<i64>) -> Seq<char> {
    match ahead {
        Some(seconds) => "            NOTE: this share reports starting "@ + session::in_words(
            seconds as int,
        )
            + " in the future by this machine's clock. The clock moved; the times below are this clock's opinion, and the share itself goes by elapsed time, so it will close sooner than they say. `h5i box share grant` is refused while that is true.\n"@,
        None => Seq::empty(),
    }
}

fn put_ahead_line(ahead: Option<i64>) -> (r: String)
    requires
        ahead matches Some(seconds) ==> seconds >= 0,
    ensures
        r@ == ahead_line(ahead),
{
    match ahead {
        Some(seconds) => {
            let mut out: String = "            NOTE: this share reports starting ".to_owned();
            out.append(session::humanise(seconds).as_str());
            out.append(" in the future by this machine's clock. The clock moved; the times below are this clock's opinion, and the share itself goes by elapsed time, so it will close sooner than they say. `h5i box share grant` is refused while that is true.\n");
            out
        },
        None => String::new(),
    }
}

/// Who serves it.
pub open spec fn process_line(s: ShareSession, live: bool) -> Seq<char> {
    "  process   pid "@
            + text::decimal(s.pid as nat)
            + (if live && s.winding_up { " — shutting down; it is writing its receipt and will be gone in a moment."@ } else { ""@ })
            + "\n"@
}

fn put_process_line(s: &ShareSession, live: bool) -> (r: String)
    ensures
        r@ == process_line(*s, live),
{
    let mut out: String = "  process   pid ".to_owned();
    text::push_decimal(&mut out, s.pid as u64);
    out.append(if live && s.winding_up { " — shutting down; it is writing its receipt and will be gone in a moment." } else { "" });
    out.append("\n");
    out
}

/// What to do about a share whose process is gone.
pub open spec fn gone_line(s: ShareSession, live: bool) -> Seq<char> {
    if !live {
        "            GONE. This share is not serving anything; run `h5i box share stop "@
            + display::shown(slug(s.box_id@))
            + "`.\n"@
    } else {
        Seq::empty()
    }
}

fn put_gone_line(s: &ShareSession, live: bool) -> (r: String)
    ensures
        r@ == gone_line(*s, live),
{
    if live {
        return String::new();
    }
    let mut out: String = "            GONE. This share is not serving anything; run `h5i box share stop ".to_owned();
    out.append(display::sanitize_display(short_name(s.box_id.as_str()).as_str()).as_str());
    out.append("`.\n");
    out
}

/// One grant.
pub open spec fn grant_line(g: Grant, now: i64) -> Seq<char> {
    "    "@
            + display::shown(g.id@)
            + "  "@
            + padded(state(g, now), 10)
            + label_part(text::maybe(g.label))
            + "\n"@
}

fn put_grant_line(g: &Grant, now: i64) -> (r: String)
    requires
        g.expires_at - now <= i64::MAX,
    ensures
        r@ == grant_line(*g, now),
{
    let mut out: String = "    ".to_owned();
    out.append(display::sanitize_display(g.id.as_str()).as_str());
    out.append("  ");
    out.append(put_padded(put_state(g, now), 10).as_str());
    out.append(put_label_part(&g.label).as_str());
    out.append("\n");
    out
}

/// The lines of these grants.
pub open spec fn grant_lines(grants: Seq<Grant>, now: i64) -> Seq<char>
    decreases grants.len(),
{
    if grants.len() == 0 {
        Seq::empty()
    } else {
        grant_lines(grants.drop_last(), now) + grant_line(grants.last(), now)
    }
}

fn put_grant_lines(grants: &Vec<Grant>, now: i64) -> (r: String)
    requires
        forall|i: int|
            0 <= i < grants@.len() ==> (#[trigger] grants@[i]).expires_at - now <= i64::MAX,
    ensures
        r@ == grant_lines(grants@, now),
{
    let mut out: String = String::new();
    let mut i: usize = 0;
    while i < grants.len()
        invariant
            0 <= i <= grants@.len(),
            forall|i: int|
                0 <= i < grants@.len() ==> (#[trigger] grants@[i]).expires_at - now <= i64::MAX,
            out@ == grant_lines(grants@.take(i as int), now),
        decreases grants@.len() - i,
    {
        assert(grants@.take(i + 1).drop_last() == grants@.take(i as int));
        out.append(put_grant_line(&grants[i], now).as_str());
        i = i + 1;
    }
    assert(grants@.take(grants@.len() as int) == grants@);
    out
}

/// The status of a share.
pub open spec fn status(s: ShareSession, now: i64, live: bool, ahead: Option<i64>) -> Seq<char> {
    share_line(s, now, live) + endpoint_line(s) + started_line(s) + ahead_line(ahead)
        + process_line(s, live) + gone_line(s, live) + (if s.grants@.len() == 0 {
        "  grants    none\n"@
    } else {
        "  grants\n"@ + grant_lines(s.grants@, now)
    })
}

/// The grant table as the status command shows it, at this time in seconds.
///
/// `live` tells whether the serving process is there, and `ahead` by how many
/// seconds the share began in this machine's future, when it did: the clock
/// moved between then and now.
pub fn render_status(s: &ShareSession, now: i64, live: bool, ahead: Option<i64>) -> (r: String)
    requires
        ahead matches Some(seconds) ==> seconds >= 0,
        forall|i: int|
            0 <= i < s.grants@.len() ==> (#[trigger] s.grants@[i]).expires_at - now <= i64::MAX,
    ensures
        r@ == status(*s, now, live, ahead),
        plain::printed(r@),
{
    proof {
        receipt_laws::law_a_status_is_plain_text(*s, now, live, ahead);
    }
    let mut out: String = put_share_line(s, now, live);
    out.append(put_endpoint_line(s).as_str());
    out.append(put_started_line(s).as_str());
    out.append(put_ahead_line(ahead).as_str());
    out.append(put_process_line(s, live).as_str());
    out.append(put_gone_line(s, live).as_str());
    if s.grants.len() == 0 {
        out.append("  grants    none\n");
        return out;
    }
    let mut table: String = "  grants\n".to_owned();
    table.append(put_grant_lines(&s.grants, now).as_str());
    out.append(table.as_str());
    out
}

} // verus!
