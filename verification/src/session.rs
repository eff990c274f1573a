//! The record of a share: who may get in, and until when.
use vstd::prelude::*;
use vstd::string::*;

use crate::text;

verus! {

/// How a share's bytes travel.
#[derive(Debug, Clone, Copy, PartialEq, Eq, Structural)]
pub enum Transport {
    /// Peer to peer, end-to-end encrypted.
    P2p,
    /// A quick tunnel, which terminates TLS on the way.
    Tunnel,
}

impl Transport {
    pub open spec fn spec_str(self) -> Seq<char> {
        match self {
            Transport::P2p => "p2p"@,
            Transport::Tunnel => "tunnel"@,
        }
    }

    pub fn as_str(self) -> (r: &'static str)
        ensures
            r@ == self.spec_str(),
    {
        match self {
            Transport::P2p => "p2p",
            Transport::Tunnel => "tunnel",
        }
    }
}

/// Why somebody was not let in.
#[derive(Debug, Clone, Copy, PartialEq, Eq, Structural)]
pub enum Denied {
    /// No grant matches the ticket.
    Unknown,
    /// The ticket's time is up.
    Expired,
    /// The ticket was taken back.
    Revoked,
    /// No ticket was presented.
    NoCredential,
    /// The grant table could not be read.
    TableUnreadable,
    /// The share has ended.
    ShareOver,
}

impl Denied {
    pub open spec fn spec_explain(self) -> Seq<char> {
        match self {
            Denied::Unknown => "that ticket is not one this share knows"@,
            Denied::Expired => "that ticket has expired"@,
            Denied::Revoked => "that ticket was revoked"@,
            Denied::NoCredential => "no ticket was presented"@,
            Denied::TableUnreadable => "this share could not read its own grant table, a problem on the sharing machine"@,
            Denied::ShareOver => "this share has ended"@,
        }
    }

    /// What a person is told. The wording is this library's own choice; that no
    /// two reasons share a sentence is what matters.
    pub fn explain(self) -> (r: &'static str)
        ensures
            r@ == self.spec_explain(),
    {
        match self {
            Denied::Unknown => "that ticket is not one this share knows",
            Denied::Expired => "that ticket has expired",
            Denied::Revoked => "that ticket was revoked",
            Denied::NoCredential => "no ticket was presented",
            Denied::TableUnreadable => "this share could not read its own grant table, a problem on the sharing machine",
            Denied::ShareOver => "this share has ended",
        }
    }
}

/// One ticket that was handed out.
#[derive(Debug, Clone)]
pub struct Grant {
    pub id: String,
    pub label: Option<String>,
    /// Seconds since the Unix epoch.
    pub expires_at: i64,
    pub revoked: bool,
}

impl Grant {
    /// Can this ticket admit anyone?
    pub open spec fn admits(self, now: i64) -> bool {
        !self.revoked && self.expires_at > now
    }
}

/// The record of a share, as it stands on disk.
#[derive(Debug, Clone)]
pub struct ShareSession {
    pub box_id: String,
    pub port: u16,
    pub transport: Transport,
    pub endpoint: String,
    /// The process that serves it.
    pub pid: u32,
    pub started_at: String,
    /// The share has been told to stop.
    pub winding_up: bool,
    pub grants: Vec<Grant>,
}

impl ShareSession {
    /// No grant can admit anyone: everything revoked, or everything expired.
    pub open spec fn spent(self, now: i64) -> bool {
        forall|i: int| 0 <= i < self.grants@.len() ==> !(#[trigger] self.grants@[i]).admits(now)
    }

    /// True once no grant can admit anyone.
    pub fn is_spent(&self, now: i64) -> (r: bool)
        ensures
            r == self.spent(now),
    {
        let mut i: usize = 0;
        while i < self.grants.len()
            invariant
                0 <= i <= self.grants@.len(),
                forall|j: int| 0 <= j < i ==> !(#[trigger] self.grants@[j]).admits(now),
            decreases self.grants@.len() - i,
        {
            let g = &self.grants[i];
            if !g.revoked && g.expires_at > now {
                assert(self.grants@[i as int].admits(now));
                return false;
            }
            i = i + 1;
        }
        true
    }

    /// A grant of this id can admit somebody.
    pub open spec fn has_live(self, id: Seq<char>, now: i64) -> bool {
        exists|i: int|
            0 <= i < self.grants@.len() && (#[trigger] self.grants@[i]).admits(now)
                && self.grants@[i].id@ == id
    }

    /// Is there a grant of this id that can admit somebody?
    pub fn has_live_grant(&self, id: &str, now: i64) -> (r: bool)
        ensures
            r == self.has_live(id@, now),
    {
        let want: String = id.to_owned();
        let mut i: usize = 0;
        while i < self.grants.len()
            invariant
                0 <= i <= self.grants@.len(),
                want@ == id@,
                forall|j: int|
                    0 <= j < i ==> !((#[trigger] self.grants@[j]).admits(now)
                        && self.grants@[j].id@ == id@),
            decreases self.grants@.len() - i,
        {
            let g = &self.grants[i];
            if g.id == want && !g.revoked && g.expires_at > now {
                assert(self.grants@[i as int].admits(now));
                return true;
            }
            i = i + 1;
        }
        false
    }
}

/// What was found where a share's record belongs.
#[derive(Debug, Clone)]
pub enum ReadState {
    Present(ShareSession),
    /// There is none: the share was stopped.
    Gone,
    /// There is one, and it could not be read.
    Unreadable,
}

/// A record in which this ticket has been revoked, and nothing else changed.
pub open spec fn revoking(s: ShareSession, after: ShareSession, id: Seq<char>) -> bool {
    &&& after.grants@.len() == s.grants@.len()
    &&& forall|i: int|
        0 <= i < s.grants@.len() ==> {
            let g = #[trigger] after.grants@[i];
            &&& g.id@ == s.grants@[i].id@
            &&& g.expires_at == s.grants@[i].expires_at
            &&& g.revoked == (s.grants@[i].revoked || g.id@ == id)
        }
}

/// A ticket that was revoked admits nobody any more, and every other ticket
/// admits whom it did.
pub proof fn law_a_revoke_closes_one_ticket(
    s: ShareSession,
    after: ShareSession,
    id: Seq<char>,
    other: Seq<char>,
    now: i64,
)
    requires
        revoking(s, after, id),
    ensures
        !after.has_live(id, now),
        other != id ==> after.has_live(other, now) == s.has_live(other, now),
{
    if other != id && s.has_live(other, now) {
        let i = choose|i: int|
            0 <= i < s.grants@.len() && (#[trigger] s.grants@[i]).admits(now) && s.grants@[i].id@
                == other;
        assert(after.grants@[i].admits(now));
    }
    if other != id && after.has_live(other, now) {
        let i = choose|i: int|
            0 <= i < after.grants@.len() && (#[trigger] after.grants@[i]).admits(now)
                && after.grants@[i].id@ == other;
        assert(s.grants@[i].admits(now));
    }
}

/// A spent share stays spent, and none of its tickets admits anybody.
pub proof fn law_a_spent_share_admits_nobody(s: ShareSession, now: i64, later: i64, id: Seq<char>)
    requires
        s.spent(now),
        now <= later,
    ensures
        s.spent(later),
        !s.has_live(id, later),
{
    assert forall|i: int| 0 <= i < s.grants@.len() implies !(#[trigger] s.grants@[i]).admits(
        later,
    ) by {
        assert(!s.grants@[i].admits(now));
    }
}

/// A length of time for a person: hours and minutes, minutes, or seconds. How it
/// is rounded and abbreviated is this library's own choice.
pub open spec fn in_words(seconds: int) -> Seq<char> {
    if seconds >= 3600 {
        text::decimal((seconds / 3600) as nat) + "h"@ + text::decimal((seconds / 60 % 60) as nat)
            + "m"@
    } else if seconds >= 60 {
        text::decimal((seconds / 60) as nat) + "m"@
    } else {
        text::decimal(seconds as nat) + "s"@
    }
}

/// A length of time for a person: seconds when seconds is what is left. The form
/// is this library's own choice; see [`in_words`].
pub fn humanise(seconds: i64) -> (r: String)
    requires
        seconds >= 0,
    ensures
        r@ == in_words(seconds as int),
{
    let n: u64 = seconds as u64;
    let mut out: String = String::new();
    if n >= 3600 {
        text::push_decimal(&mut out, n / 3600);
        out.append("h");
        text::push_decimal(&mut out, n / 60 % 60);
        out.append("m");
    } else if n >= 60 {
        text::push_decimal(&mut out, n / 60);
        out.append("m");
    } else {
        text::push_decimal(&mut out, n);
        out.append("s");
    }
    out
}

} // verus!
