//! What a status says of a share and of each of its tickets.
use vstd::prelude::*;
use vstd::string::*;

use crate::display;
use crate::lines;
use crate::session::{self, Grant, ShareSession};
use crate::status;
use crate::text;

verus! {

/// A text with spaces behind it, to ten columns.
pub open spec fn to_ten(s: Seq<char>) -> Seq<char> {
    s + Seq::new(
        if s.len() < 10 {
            (10 - s.len()) as nat
        } else {
            0
        },
        |i: int| ' ',
    )
}

/// The line of a ticket: its name, how it stands, and its label.
pub open spec fn ticket_row(g: Grant, now: int) -> Seq<char> {
    "    "@ + display::shown(g.id@) + "  "@ + to_ten(
        if g.revoked {
            "revoked"@
        } else if now >= g.expires_at {
            "expired"@
        } else {
            session::in_words(g.expires_at - now) + " left"@
        },
    ) + (if g.label is Some {
        "  "@ + display::shown(g.label->Some_0@)
    } else {
        Seq::empty()
    })
}

proof fn lemma_padded(s: Seq<char>)
    ensures
        status::padded(s, 10) == to_ten(s),
    decreases 10 - s.len(),
{
    if s.len() < 10 {
        lemma_padded(s.push(' '));
        assert(to_ten(s.push(' ')) =~= to_ten(s));
    } else {
        assert(to_ten(s) =~= s);
    }
}

proof fn lemma_rows(grants: Seq<Grant>, now: i64)
    ensures
        status::grant_lines(grants, now) == lines::ended(
            grants.map_values(|g: Grant| ticket_row(g, now as int)),
        ),
    decreases grants.len(),
{
    let row = |g: Grant| ticket_row(g, now as int);
    if grants.len() == 0 {
        assert(grants.map_values(row) =~= Seq::empty());
        lines::lemma_none();
    } else {
        let front = grants.drop_last();
        let g = grants.last();
        lemma_rows(front, now);
        lemma_padded(status::state(g, now));
        lines::lemma_one(row(g));
        lines::lemma_ended_concat(front.map_values(row), seq![row(g)]);
        assert(grants.map_values(row) =~= front.map_values(row) + seq![row(g)]);
        reveal_strlit("\n");
        assert("\n"@ =~= seq!['\n']);
        assert(status::grant_line(g, now) =~= row(g) + seq!['\n']);
    }
}

/// A status ends with a line for each ticket, in order, that says how it stands,
/// or with a line that says that there is none.
pub proof fn law_every_ticket_has_its_line(
    s: ShareSession,
    now: i64,
    live: bool,
    ahead: Option<i64>,
    r: String,
)
    requires
        call_ensures(status::render_status, (&s, now, live, ahead), r),
    ensures
        s.grants@.len() > 0 ==> exists|top: Seq<char>|
            r@ == #[trigger] (top + "  grants\n"@) + lines::ended(
                s.grants@.map_values(|g: Grant| ticket_row(g, now as int)),
            ),
        s.grants@.len() == 0 ==> exists|top: Seq<char>|
            r@ == #[trigger] (top + "  grants    none\n"@),
{
    lemma_rows(s.grants@, now);
    let top = status::share_line(s, now, live) + status::endpoint_line(s) + status::started_line(s)
        + status::ahead_line(ahead) + status::process_line(s, live) + status::gone_line(s, live);
    let rows = status::grant_lines(s.grants@, now);
    if s.grants@.len() > 0 {
        assert(top + ("  grants\n"@ + rows) =~= (top + "  grants\n"@) + rows);
    } else {
        assert(r@ == top + "  grants    none\n"@);
    }
}

/// A share is said to be shared only by a process that is there, that is not
/// winding up, and for which some ticket lets somebody in.
pub proof fn law_only_an_open_share_is_said_to_be_shared(
    s: ShareSession,
    now: i64,
    live: bool,
    ahead: Option<i64>,
    r: String,
)
    requires
        call_ensures(status::render_status, (&s, now, live, ahead), r),
    ensures
        ({
            let open = exists|i: int|
                0 <= i < s.grants@.len() && !(#[trigger] s.grants@[i]).revoked && now
                    < s.grants@[i].expires_at;
            let name = display::shown(s.box_id@) + " "@;
            let rest = " port "@ + text::decimal(s.port as nat) + " over "@
                + s.transport.spec_str() + "\n"@;
            let said = if !live {
                "— was sharing"@
            } else if s.winding_up {
                "— shutting down, was sharing"@
            } else if !open {
                "— nobody can get in (every ticket is expired or revoked); was sharing"@
            } else {
                "— sharing"@
            };
            (name + said + rest).is_prefix_of(r@)
        }),
{
    let open = exists|i: int|
        0 <= i < s.grants@.len() && !(#[trigger] s.grants@[i]).revoked && now
            < s.grants@[i].expires_at;
    if s.spent(now) && open {
        let i = choose|i: int|
            0 <= i < s.grants@.len() && !(#[trigger] s.grants@[i]).revoked && now
                < s.grants@[i].expires_at;
        assert(!s.grants@[i].admits(now));
    }
    if !s.spent(now) {
        let i = choose|i: int| 0 <= i < s.grants@.len() && (#[trigger] s.grants@[i]).admits(now);
        assert(!s.grants@[i].revoked);
    }
    let name = display::shown(s.box_id@) + " "@;
    let rest = " port "@ + text::decimal(s.port as nat) + " over "@ + s.transport.spec_str()
        + "\n"@;
    let first = status::share_line(s, now, live);
    assert(first =~= name + status::headline(s, now, live) + rest);
    assert(r@.take(first.len() as int) =~= first);
}

} // verus!
