//! The one way into the box.
//!
//! A shared port is never published: it is reached from inside the box, by a
//! helper that answers a one-byte request, or, where a box has no network of its
//! own, by finding out for each connection whose port it is. The destination is
//! pinned: nothing that a peer or the box sends can move where this connects.
//!
//! What is decided here is what each answer means. Asking is somebody else's
//! business.
use vstd::prelude::*;
use vstd::string::*;

use crate::address::SocketAddr;
use crate::{figures, text};

verus! {

/// The helper's answer to a request, and its startup report. Numbers rather
/// than messages, because the helper has no safe way to format one.
pub const STATUS_OK: u8 = 0;

pub const STATUS_CONNECT_FAILED: u8 = 1;

/// The connect did not fail. It never finished.
pub const STATUS_CONNECT_STUCK: u8 = 2;

/// There is no route to `127.0.0.1` at all.
pub const STATUS_NO_LOOPBACK: u8 = 3;

pub const STATUS_NO_NS: u8 = 2;

pub const STATUS_SETNS: u8 = 3;

/// The request. One value, so there is nothing to parse.
pub const REQUEST: u8 = 0x01;

/// How long to wait for the box's dev server to accept, in seconds.
pub const CONNECT_TIMEOUT: u64 = 10;

/// Why a dial failed.
#[derive(Debug)]
pub enum DialError {
    /// The box's namespace has no loopback at all: the box cannot be shared.
    NoLoopback(String),
    /// The route into the box worked and the port had nothing on it. A fact
    /// about the user's dev server.
    NothingListening(String),
    /// The route itself failed. A fact about this program.
    Broken(String),
    /// Something is listening on the port and it is not this box, or not this
    /// box alone.
    NotTheBox(String),
}

/// The kinds of failure.
#[derive(Debug, Clone, Copy, PartialEq, Eq, Structural)]
pub enum DialKind {
    NoLoopback,
    NothingListening,
    Broken,
    NotTheBox,
}

impl View for DialError {
    type V = (DialKind, Seq<char>);

    open spec fn view(&self) -> (DialKind, Seq<char>) {
        match *self {
            DialError::NoLoopback(e) => (DialKind::NoLoopback, e@),
            DialError::NothingListening(e) => (DialKind::NothingListening, e@),
            DialError::Broken(e) => (DialKind::Broken, e@),
            DialError::NotTheBox(e) => (DialKind::NotTheBox, e@),
        }
    }
}

impl DialError {
    /// What is said of it.
    pub fn into_inner(self) -> (r: String)
        ensures
            r@ == self@.1,
    {
        match self {
            DialError::NoLoopback(e) => e,
            DialError::NothingListening(e) => e,
            DialError::Broken(e) => e,
            DialError::NotTheBox(e) => e,
        }
    }

    /// What is said of it.
    pub fn text(&self) -> (r: &str)
        ensures
            r@ == self@.1,
    {
        match self {
            DialError::NoLoopback(e) => e.as_str(),
            DialError::NothingListening(e) => e.as_str(),
            DialError::Broken(e) => e.as_str(),
            DialError::NotTheBox(e) => e.as_str(),
        }
    }

    /// The box cannot be shared at all.
    pub fn no_loopback(&self) -> (r: bool)
        ensures
            r == (self@.0 == DialKind::NoLoopback),
    {
        match self {
            DialError::NoLoopback(_) => true,
            _ => false,
        }
    }

    pub fn nothing_listening(&self) -> (r: bool)
        ensures
            r == (self@.0 == DialKind::NothingListening),
    {
        match self {
            DialError::NothingListening(_) => true,
            _ => false,
        }
    }

    /// The port is not the box's. The caller must refuse rather than serve it.
    pub fn not_the_box(&self) -> (r: bool)
        ensures
            r == (self@.0 == DialKind::NotTheBox),
    {
        match self {
            DialError::NotTheBox(_) => true,
            _ => false,
        }
    }

    /// This share must not start, or must not continue.
    pub fn fatal(&self) -> (r: bool)
        ensures
            r == (self@.0 == DialKind::NoLoopback || self@.0 == DialKind::NotTheBox),
    {
        self.no_loopback() || self.not_the_box()
    }
}

/// A channel that is out of step.
pub open spec fn retired_text(child: i32) -> Seq<char> {
    "the box dialer (pid "@
            + figures::signed(child as int)
            + ") lost track of a reply and was retired, so this share can no longer reach the box. Restart the share."@
}

fn put_retired_text(child: i32) -> (r: String)
    ensures
        r@ == retired_text(child),
{
    let mut out: String = "the box dialer (pid ".to_owned();
    out.append(figures::signed_text(child as i64).as_str());
    out.append(") lost track of a reply and was retired, so this share can no longer reach the box. Restart the share.");
    out
}

/// A helper that is gone.
pub open spec fn gone_text(child: i32) -> Seq<char> {
    "the box dialer (pid "@
            + figures::signed(child as int)
            + ") is gone; the share cannot reach the box any more"@
}

fn put_gone_text(child: i32) -> (r: String)
    ensures
        r@ == gone_text(child),
{
    let mut out: String = "the box dialer (pid ".to_owned();
    out.append(figures::signed_text(child as i64).as_str());
    out.append(") is gone; the share cannot reach the box any more");
    out
}

/// A helper that answers nonsense.
pub open spec fn unexpected_text(child: i32) -> Seq<char> {
    "the box dialer (pid "@
            + figures::signed(child as int)
            + ") answered something unexpected; the share cannot reach the box any more"@
}

fn put_unexpected_text(child: i32) -> (r: String)
    ensures
        r@ == unexpected_text(child),
{
    let mut out: String = "the box dialer (pid ".to_owned();
    out.append(figures::signed_text(child as i64).as_str());
    out.append(") answered something unexpected; the share cannot reach the box any more");
    out
}

/// A helper that does not answer.
pub open spec fn silent_text(child: i32) -> Seq<char> {
    "the box dialer (pid "@
            + figures::signed(child as int)
            + ") stopped answering; the share cannot reach the box any more"@
}

fn put_silent_text(child: i32) -> (r: String)
    ensures
        r@ == silent_text(child),
{
    let mut out: String = "the box dialer (pid ".to_owned();
    out.append(figures::signed_text(child as i64).as_str());
    out.append(") stopped answering; the share cannot reach the box any more");
    out
}

/// A port with nothing on it.
pub open spec fn nothing_text(port: u16) -> Seq<char> {
    "nothing is listening on 127.0.0.1:"@
            + text::decimal(port as nat)
            + " inside the box. Start the dev server in the box, or share the port it is actually on."@
}

fn put_nothing_text(port: u16) -> (r: String)
    ensures
        r@ == nothing_text(port),
{
    let mut out: String = "nothing is listening on 127.0.0.1:".to_owned();
    text::push_decimal(&mut out, port as u64);
    out.append(" inside the box. Start the dev server in the box, or share the port it is actually on.");
    out
}

/// A box that cannot reach itself.
pub open spec fn no_loopback_text(port: u16) -> Seq<char> {
    "this box's network namespace has no loopback interface, so nothing inside it can reach 127.0.0.1:"@
            + text::decimal(port as nat)
            + " — not even the box itself. A share of it cannot work."@
}

fn put_no_loopback_text(port: u16) -> (r: String)
    ensures
        r@ == no_loopback_text(port),
{
    let mut out: String = "this box's network namespace has no loopback interface, so nothing inside it can reach 127.0.0.1:".to_owned();
    text::push_decimal(&mut out, port as u64);
    out.append(" — not even the box itself. A share of it cannot work.");
    out
}

/// A port that is there and does not answer.
pub open spec fn stuck_text(port: u16) -> Seq<char> {
    "could not open a connection to 127.0.0.1:"@
            + text::decimal(port as nat)
            + " inside the box — something is listening but not accepting, or this machine is out of sockets. Not the same as nothing being there."@
}

fn put_stuck_text(port: u16) -> (r: String)
    ensures
        r@ == stuck_text(port),
{
    let mut out: String = "could not open a connection to 127.0.0.1:".to_owned();
    text::push_decimal(&mut out, port as u64);
    out.append(" inside the box — something is listening but not accepting, or this machine is out of sockets. Not the same as nothing being there.");
    out
}

/// A box that is gone.
pub open spec fn no_box_text(pid: u32) -> Seq<char> {
    "the box (pid "@
            + text::decimal(pid as nat)
            + ") is gone — its namespaces no longer exist. A box only has them while a session is running; start one with `h5i box shell <name>`."@
}

fn put_no_box_text(pid: u32) -> (r: String)
    ensures
        r@ == no_box_text(pid),
{
    let mut out: String = "the box (pid ".to_owned();
    text::push_decimal(&mut out, pid as u64);
    out.append(") is gone — its namespaces no longer exist. A box only has them while a session is running; start one with `h5i box shell <name>`.");
    out
}

/// A box that cannot be entered.
pub open spec fn no_entry_text(pid: u32) -> Seq<char> {
    "could not enter the box's network namespace (pid "@
            + text::decimal(pid as nat)
            + "). Joining it needs the user namespace that created it, so run `h5i box share` as the user that started the box's session."@
}

fn put_no_entry_text(pid: u32) -> (r: String)
    ensures
        r@ == no_entry_text(pid),
{
    let mut out: String = "could not enter the box's network namespace (pid ".to_owned();
    text::push_decimal(&mut out, pid as u64);
    out.append("). Joining it needs the user namespace that created it, so run `h5i box share` as the user that started the box's session.");
    out
}

/// A helper that failed to start.
pub open spec fn no_reach_text(pid: u32, port: u16) -> Seq<char> {
    "could not reach into the box (pid "@
            + text::decimal(pid as nat)
            + ") to share port "@
            + text::decimal(port as nat)
}

fn put_no_reach_text(pid: u32, port: u16) -> (r: String)
    ensures
        r@ == no_reach_text(pid, port),
{
    let mut out: String = "could not reach into the box (pid ".to_owned();
    text::push_decimal(&mut out, pid as u64);
    out.append(") to share port ");
    text::push_decimal(&mut out, port as u64);
    out
}

/// A session whose process cannot be told from another.
pub open spec fn session_gone_text(pid: u32) -> Seq<char> {
    "the box's session process (pid "@
            + text::decimal(pid as nat)
            + ") is gone — h5i could not read when it started, so it cannot tell that pid from whatever the kernel gives the number to next. Start a session and share again."@
}

fn put_session_gone_text(pid: u32) -> (r: String)
    ensures
        r@ == session_gone_text(pid),
{
    let mut out: String = "the box's session process (pid ".to_owned();
    text::push_decimal(&mut out, pid as u64);
    out.append(") is gone — h5i could not read when it started, so it cannot tell that pid from whatever the kernel gives the number to next. Start a session and share again.");
    out
}

/// A session whose process number is another's.
pub open spec fn reused_text(pid: u32) -> Seq<char> {
    "the box's session process (pid "@
            + text::decimal(pid as nat)
            + ") is gone, and that pid now belongs to something else — so h5i cannot tell which processes are this box's and will not connect to any of them. Start a fresh session and a fresh share."@
}

fn put_reused_text(pid: u32) -> (r: String)
    ensures
        r@ == reused_text(pid),
{
    let mut out: String = "the box's session process (pid ".to_owned();
    text::push_decimal(&mut out, pid as u64);
    out.append(") is gone, and that pid now belongs to something else — so h5i cannot tell which processes are this box's and will not connect to any of them. Start a fresh session and a fresh share.");
    out
}

/// A holder that was gone before it could be asked about.
pub open spec fn vanished_text(port: u16, pid: u32) -> Seq<char> {
    "the process found holding port "@
            + text::decimal(port as nat)
            + " (pid "@
            + text::decimal(pid as nat)
            + ") exited before h5i could confirm it was this box's, on every attempt. Nothing was published. Try the connection again."@
}

fn put_vanished_text(port: u16, pid: u32) -> (r: String)
    ensures
        r@ == vanished_text(port, pid),
{
    let mut out: String = "the process found holding port ".to_owned();
    text::push_decimal(&mut out, port as u64);
    out.append(" (pid ");
    text::push_decimal(&mut out, pid as u64);
    out.append(") exited before h5i could confirm it was this box's, on every attempt. Nothing was published. Try the connection again.");
    out
}

/// A holder that stopped being the box's.
pub open spec fn changed_text(port: u16, pid: u32) -> Seq<char> {
    "the process holding port "@
            + text::decimal(port as nat)
            + " (pid "@
            + text::decimal(pid as nat)
            + ") stopped being part of this box while h5i was looking at it, so h5i will not connect to it. This is the pid changing hands underneath the check; try again."@
}

fn put_changed_text(port: u16, pid: u32) -> (r: String)
    ensures
        r@ == changed_text(port, pid),
{
    let mut out: String = "the process holding port ".to_owned();
    text::push_decimal(&mut out, port as u64);
    out.append(" (pid ");
    text::push_decimal(&mut out, pid as u64);
    out.append(") stopped being part of this box while h5i was looking at it, so h5i will not connect to it. This is the pid changing hands underneath the check; try again.");
    out
}

/// A port that nobody holds.
pub open spec fn nobody_text(port: u16) -> Seq<char> {
    "nothing is listening on port "@
            + text::decimal(port as nat)
            + " in the box. Start the dev server in the box, or share the port it is actually on."@
}

fn put_nobody_text(port: u16) -> (r: String)
    ensures
        r@ == nobody_text(port),
{
    let mut out: String = "nothing is listening on port ".to_owned();
    text::push_decimal(&mut out, port as u64);
    out.append(" in the box. Start the dev server in the box, or share the port it is actually on.");
    out
}

/// A port that a stranger holds.
pub open spec fn stranger_text(port: u16, who: Seq<char>, addr: SocketAddr) -> Seq<char> {
    "port "@
            + text::decimal(port as nat)
            + " on this machine is held by "@
            + who
            + ", which is not part of this box — so h5i will not share it.\n   On macOS a box has no network of its own: it binds the host's loopback, and `"@
            + addr.text()
            + "` is what a connection to port "@
            + text::decimal(port as nat)
            + " reaches. Sharing it would publish a process you did not choose.\n   Stop whatever is using port "@
            + text::decimal(port as nat)
            + ", or share the port the box's server is actually on."@
}

fn put_stranger_text(port: u16, who: &str, addr: SocketAddr) -> (r: String)
    ensures
        r@ == stranger_text(port, who@, addr),
{
    let mut out: String = "port ".to_owned();
    text::push_decimal(&mut out, port as u64);
    out.append(" on this machine is held by ");
    out.append(who);
    out.append(", which is not part of this box — so h5i will not share it.\n   On macOS a box has no network of its own: it binds the host's loopback, and `");
    out.append(addr.to_text().as_str());
    out.append("` is what a connection to port ");
    text::push_decimal(&mut out, port as u64);
    out.append(" reaches. Sharing it would publish a process you did not choose.\n   Stop whatever is using port ");
    text::push_decimal(&mut out, port as u64);
    out.append(", or share the port the box's server is actually on.");
    out
}

/// A port that more than the box holds.
pub open spec fn contested_text(port: u16, addr: SocketAddr, who: Seq<char>) -> Seq<char> {
    "port "@
            + text::decimal(port as nat)
            + " is held on "@
            + addr.text()
            + " by this box *and* by "@
            + who
            + " at the same time, so the kernel decides per connection which one answers.\n   h5i will not share a port it cannot promise leads to the box. Stop the other listener and start the share again."@
}

fn put_contested_text(port: u16, addr: SocketAddr, who: &str) -> (r: String)
    ensures
        r@ == contested_text(port, addr, who@),
{
    let mut out: String = "port ".to_owned();
    text::push_decimal(&mut out, port as u64);
    out.append(" is held on ");
    out.append(addr.to_text().as_str());
    out.append(" by this box *and* by ");
    out.append(who);
    out.append(" at the same time, so the kernel decides per connection which one answers.\n   h5i will not share a port it cannot promise leads to the box. Stop the other listener and start the share again.");
    out
}

/// A listener that is gone.
pub open spec fn no_more_text(addr: SocketAddr) -> Seq<char> {
    "nothing is listening on "@
            + addr.text()
            + " in the box any more. Start the dev server in the box, or share the port it is actually on."@
}

fn put_no_more_text(addr: SocketAddr) -> (r: String)
    ensures
        r@ == no_more_text(addr),
{
    let mut out: String = "nothing is listening on ".to_owned();
    out.append(addr.to_text().as_str());
    out.append(" in the box any more. Start the dev server in the box, or share the port it is actually on.");
    out
}

/// A listener that does not accept.
pub open spec fn unopened_text(addr: SocketAddr, error: Seq<char>) -> Seq<char> {
    "could not open a connection to "@
            + addr.text()
            + " in the box: "@
            + error
            + ". Something is listening but not accepting, or this machine is out of sockets. Not the same as nothing being there."@
}

fn put_unopened_text(addr: SocketAddr, error: &str) -> (r: String)
    ensures
        r@ == unopened_text(addr, error@),
{
    let mut out: String = "could not open a connection to ".to_owned();
    out.append(addr.to_text().as_str());
    out.append(" in the box: ");
    out.append(error);
    out.append(". Something is listening but not accepting, or this machine is out of sockets. Not the same as nothing being there.");
    out
}

/// What is said where a box can neither be entered nor told apart.
pub fn unsupported() -> (r: String)
    ensures
        r@
            == "sharing a box's port needs a network namespace to enter (Linux) or a way to attribute a listening socket to the box's processes (macOS). `h5i box share` is not available on this platform."@,
{
    "sharing a box's port needs a network namespace to enter (Linux) or a way to attribute a listening socket to the box's processes (macOS). `h5i box share` is not available on this platform.".to_owned()
}

/// A live route into one port of one box: a helper that answers on a channel.
#[derive(Debug, Clone, Copy, PartialEq, Eq, Structural)]
pub struct Dialer {
    /// The helper's process.
    pub child: i32,
    /// The port inside the box.
    pub port: u16,
    /// Every request so far has had its reply. A reply that comes late would
    /// be the *next* caller's, with somebody else's connection attached, so a
    /// channel that is out of step serves nobody again.
    pub in_step: bool,
}

/// What became of a request: a connection, or why there is none, and a
/// descriptor that came with it and that nobody is going to use.
#[derive(Debug)]
pub struct Reply<T> {
    pub result: Result<T, DialError>,
    pub stray: Option<T>,
}

impl Dialer {
    /// The channel once a reply came, or none.
    pub open spec fn after(self, status: Option<u8>) -> Dialer {
        Dialer { in_step: self.in_step && status is Some, ..self }
    }

    /// What a reply without a connection means.
    pub open spec fn failure(self, status: Option<u8>) -> (DialKind, Seq<char>) {
        match status {
            Some(STATUS_CONNECT_FAILED) => (DialKind::NothingListening, nothing_text(self.port)),
            Some(STATUS_NO_LOOPBACK) => (DialKind::NoLoopback, no_loopback_text(self.port)),
            Some(STATUS_CONNECT_STUCK) => (DialKind::Broken, stuck_text(self.port)),
            Some(_) => (DialKind::Broken, unexpected_text(self.child)),
            None => (DialKind::Broken, silent_text(self.child)),
        }
    }

    /// The port inside the box that this dialer is pinned to.
    pub fn port(&self) -> (r: u16)
        ensures
            r == self.port,
    {
        self.port
    }

    /// What to send to the helper to get a connection, if it can be asked.
    pub fn connect(&self) -> (r: Result<u8, DialError>)
        ensures
            match r {
                Ok(byte) => self.in_step && byte == REQUEST,
                Err(e) => !self.in_step && e@ == (DialKind::Broken, retired_text(self.child)),
            },
    {
        if !self.in_step {
            return Err(DialError::Broken(put_retired_text(self.child)));
        }
        Ok(REQUEST)
    }

    /// The request could not be sent.
    pub fn unsent(&mut self) -> (r: DialError)
        ensures
            *final(self) == (Dialer { in_step: false, ..*old(self) }),
            r@ == (DialKind::Broken, gone_text(old(self).child)),
    {
        self.in_step = false;
        DialError::Broken(put_gone_text(self.child))
    }

    /// What comes of a reply: the descriptor that came with a clean success, or
    /// why there is none. A channel that is out of step gives nothing out.
    pub open spec fn outcome<T>(self, status: Option<u8>, got: Option<T>) -> Result<
        T,
        (DialKind, Seq<char>),
    > {
        if !self.in_step {
            Err((DialKind::Broken, retired_text(self.child)))
        } else {
            match (status, got) {
                (Some(STATUS_OK), Some(raw)) => Ok(raw),
                _ => Err(self.failure(status)),
            }
        }
    }

    /// What a reply means: a status, if one came, and a descriptor, if one came
    /// with it.
    ///
    /// Only a clean success hands the descriptor on. With anything else it is
    /// one nobody is going to use, to be closed. No reply at all retires the
    /// channel, and what comes on a retired channel is nobody's: a late reply,
    /// and the connection attached to it, was some other caller's.
    pub fn request<T>(&mut self, status: Option<u8>, got: Option<T>) -> (r: Reply<T>)
        ensures
            *final(self) == old(self).after(status),
            match old(self).outcome(status, got) {
                Ok(raw) => r.result == Ok::<T, DialError>(raw) && r.stray is None,
                Err(e) => r.result is Err && r.result->Err_0@ == e && r.stray == got,
            },
    {
        if !self.in_step {
            return Reply {
                result: Err(DialError::Broken(put_retired_text(self.child))),
                stray: got,
            };
        }
        let status: u8 = match status {
            Some(s) => s,
            None => {
                self.in_step = false;
                return Reply {
                    result: Err(DialError::Broken(put_silent_text(self.child))),
                    stray: got,
                };
            },
        };
        if status == STATUS_OK {
            return match got {
                Some(raw) => Reply { result: Ok(raw), stray: None },
                None => Reply {
                    result: Err(DialError::Broken(put_unexpected_text(self.child))),
                    stray: None,
                },
            };
        }
        let e: DialError = if status == STATUS_CONNECT_FAILED {
            DialError::NothingListening(put_nothing_text(self.port))
        } else if status == STATUS_NO_LOOPBACK {
            DialError::NoLoopback(put_no_loopback_text(self.port))
        } else if status == STATUS_CONNECT_STUCK {
            DialError::Broken(put_stuck_text(self.port))
        } else {
            DialError::Broken(put_unexpected_text(self.child))
        };
        Reply { result: Err(e), stray: got }
    }

    /// The helper has reported that it is in the box's namespaces, or has not.
    ///
    /// Waited for before anything is shared, so that a share fails with an
    /// explanation instead of a ticket that cannot work.
    pub fn spawn(child: i32, box_pid: Option<u32>, port: u16, status: Option<u8>) -> (r: Result<
        Dialer,
        String,
    >)
        ensures
            match r {
                Ok(d) => status == Some(STATUS_OK) && d == (Dialer { child, port, in_step: true }),
                Err(why) => {
                    let pid: u32 = match box_pid {
                        Some(pid) => pid,
                        None => 0,
                    };
                    &&& status != Some(STATUS_OK)
                    &&& why@ == (match status {
                        Some(STATUS_NO_NS) => no_box_text(pid),
                        Some(STATUS_SETNS) => no_entry_text(pid),
                        _ => no_reach_text(pid, port),
                    })
                },
            },
    {
        let pid: u32 = match box_pid {
            Some(pid) => pid,
            None => 0,
        };
        match status {
            Some(s) => if s == STATUS_OK {
                Ok(Dialer { child, port, in_step: true })
            } else if s == STATUS_NO_NS {
                Err(put_no_box_text(pid))
            } else if s == STATUS_SETNS {
                Err(put_no_entry_text(pid))
            } else {
                Err(put_no_reach_text(pid, port))
            },
            None => Err(put_no_reach_text(pid, port)),
        }
    }
}

/// The channel after these replies, one after another, `None` being none.
pub open spec fn after_all(d: Dialer, replies: Seq<Option<u8>>) -> Dialer
    decreases replies.len(),
{
    if replies.len() == 0 {
        d
    } else {
        after_all(d, replies.drop_last()).after(replies.last())
    }
}

/// A channel that went out of step stays so, whatever is heard on it, and gives
/// out no connection ever again; and no reply moves the port.
pub proof fn law_a_retired_channel_stays_retired<T>(
    d: Dialer,
    replies: Seq<Option<u8>>,
    status: Option<u8>,
    got: Option<T>,
)
    ensures
        after_all(d, replies).port == d.port,
        after_all(d, replies).child == d.child,
        !d.in_step || (exists|i: int| 0 <= i < replies.len() && (#[trigger] replies[i]) is None)
            ==> {
            &&& !after_all(d, replies).in_step
            &&& after_all(d, replies).outcome(status, got) == Err::<T, (DialKind, Seq<char>)>(
                (DialKind::Broken, retired_text(d.child)),
            )
        },
    decreases replies.len(),
{
    if replies.len() > 0 {
        let front = replies.drop_last();
        law_a_retired_channel_stays_retired(d, front, status, got);
        if exists|i: int| 0 <= i < replies.len() && (#[trigger] replies[i]) is None {
            let i = choose|i: int| 0 <= i < replies.len() && (#[trigger] replies[i]) is None;
            if i < front.len() {
                assert(front[i] is None);
            }
        }
    }
}

/// What one message from the helper was: how many bytes were read, the byte,
/// whether it was cut short, and the descriptor that its control part carries,
/// if that part is one.
#[derive(Debug, Clone, Copy, PartialEq, Eq, Structural)]
pub struct Message {
    pub read: isize,
    pub byte: u8,
    pub truncated: bool,
    pub rights: Option<i32>,
}

/// The status in a message and the descriptor, when one came with it.
///
/// A truncated control message is refused rather than read: a partial one must
/// never be mistaken for a valid descriptor.
pub fn recv_status(m: Message) -> (r: (Option<u8>, Option<i32>))
    ensures
        r.0 == (if m.read == 1 {
            Some(m.byte)
        } else {
            None
        }),
        r.1 == (match m.rights {
            Some(fd) => if m.read == 1 && !m.truncated && fd >= 0 {
                Some(fd)
            } else {
                None
            },
            None => None,
        }),
{
    if m.read != 1 {
        return (None, None);
    }
    if m.truncated {
        return (Some(m.byte), None);
    }
    match m.rights {
        Some(fd) => if fd < 0 {
            (Some(m.byte), None)
        } else {
            (Some(m.byte), Some(fd))
        },
        None => (Some(m.byte), None),
    }
}

/// Why a connect failed, as far as it matters.
#[derive(Debug, Clone, Copy, PartialEq, Eq, Structural)]
pub enum ConnectFailure {
    Refused,
    AddrNotAvailable,
    NetworkUnreachable,
    Other,
}

/// The status of a connect, as the helper reports it.
///
/// Only a refusal is a fact about the user's dev server. A namespace with no
/// loopback up gives "unreachable" for every address including its own.
pub fn helper_status(failure: Option<ConnectFailure>) -> (r: u8)
    ensures
        r == (match failure {
            None => STATUS_OK,
            Some(ConnectFailure::Refused) => STATUS_CONNECT_FAILED,
            Some(ConnectFailure::AddrNotAvailable) => STATUS_CONNECT_FAILED,
            Some(ConnectFailure::NetworkUnreachable) => STATUS_NO_LOOPBACK,
            Some(ConnectFailure::Other) => STATUS_CONNECT_STUCK,
        }),
{
    match failure {
        None => STATUS_OK,
        Some(ConnectFailure::Refused) => STATUS_CONNECT_FAILED,
        Some(ConnectFailure::AddrNotAvailable) => STATUS_CONNECT_FAILED,
        Some(ConnectFailure::NetworkUnreachable) => STATUS_NO_LOOPBACK,
        Some(ConnectFailure::Other) => STATUS_CONNECT_STUCK,
    }
}

/// A namespace of the box that the helper enters, in this order: the network
/// namespace belongs to the user namespace.
#[derive(Debug, Clone, Copy, PartialEq, Eq, Structural)]
pub enum Namespace {
    User,
    Net,
}

impl Namespace {
    pub open spec fn spec_name(self) -> Seq<u8> {
        match self {
            Namespace::User => seq![117u8, 115, 101, 114],
            Namespace::Net => seq![110u8, 101, 116],
        }
    }
}

/// What the helper reports, and exits with, when it cannot go on.
///
/// A box may have no user namespace of its own to join, so only the network
/// namespace has to be entered.
pub fn helper_main(ns: Namespace, opened: bool, entered: bool) -> (r: Option<(u8, i32)>)
    ensures
        r == (if !opened {
            Some((STATUS_NO_NS, 2i32))
        } else if !entered && ns == Namespace::Net {
            Some((STATUS_SETNS, 3i32))
        } else {
            None
        }),
{
    if !opened {
        return Some((STATUS_NO_NS, 2));
    }
    if !entered && ns == Namespace::Net {
        return Some((STATUS_SETNS, 3));
    }
    None
}

/// The digits of a number, as bytes.
pub open spec fn digit_bytes(n: nat) -> Seq<u8>
    decreases n,
{
    if n < 10 {
        seq![(n + 48) as u8]
    } else {
        digit_bytes(n / 10).push((n % 10 + 48) as u8)
    }
}

/// `/proc/<pid>/ns/<kind>`, as bytes.
pub open spec fn ns_bytes(pid: u32, ns: Namespace) -> Seq<u8> {
    seq![47u8, 112, 114, 111, 99, 47] + digit_bytes(pid as nat) + seq![47u8, 110, 115, 47]
        + ns.spec_name()
}

proof fn lemma_digit_count(n: nat, most: nat)
    requires
        n < pow10(most),
        most >= 1,
    ensures
        digit_bytes(n).len() <= most,
    decreases n,
{
    if n >= 10 {
        reveal_with_fuel(pow10, 2);
        assert(most > 1);
        assert(n / 10 < pow10((most - 1) as nat));
        lemma_digit_count(n / 10, (most - 1) as nat);
    }
}

spec fn pow10(n: nat) -> nat
    decreases n,
{
    if n == 0 {
        1
    } else {
        10 * pow10((n - 1) as nat)
    }
}

fn put_byte(buf: &mut [u8; 64], n: usize, b: u8) -> (r: usize)
    requires
        n < 63,
    ensures
        r == n + 1,
        final(buf)@.take(r as int) == old(buf)@.take(n as int).push(b),
        final(buf)@.skip(r as int) == old(buf)@.skip(r as int),
{
    buf[n] = b;
    assert(buf@.take(n + 1) =~= old(buf)@.take(n as int).push(b));
    assert(buf@.skip(n + 1) =~= old(buf)@.skip(n + 1));
    n + 1
}

fn put_digits(buf: &mut [u8; 64], n: usize, v: u32) -> (r: usize)
    requires
        n + digit_bytes(v as nat).len() <= 63,
    ensures
        r == n + digit_bytes(v as nat).len(),
        final(buf)@.take(r as int) == old(buf)@.take(n as int) + digit_bytes(v as nat),
        final(buf)@.skip(r as int) == old(buf)@.skip(r as int),
    decreases v,
{
    let mut at: usize = n;
    if v >= 10 {
        at = put_digits(buf, n, v / 10);
    }
    let ghost before = buf@;
    let r: usize = put_byte(buf, at, (v % 10) as u8 + 48);
    assert(before.skip(r as int) == before.skip(at as int).skip(r - at));
    assert(old(buf)@.skip(r as int) == old(buf)@.skip(at as int).skip(r - at));
    assert(buf@.take(r as int) =~= old(buf)@.take(n as int) + digit_bytes(v as nat));
    r
}

fn put_bytes(buf: &mut [u8; 64], n: usize, bytes: &[u8]) -> (r: usize)
    requires
        n + bytes@.len() <= 63,
    ensures
        r == n + bytes@.len(),
        final(buf)@.take(r as int) == old(buf)@.take(n as int) + bytes@,
        final(buf)@.skip(r as int) == old(buf)@.skip(r as int),
{
    let mut at: usize = n;
    let mut i: usize = 0;
    while i < bytes.len()
        invariant
            0 <= i <= bytes@.len(),
            at == n + i,
            n + bytes@.len() <= 63,
            buf@.take(at as int) == old(buf)@.take(n as int) + bytes@.take(i as int),
            buf@.skip(at as int) == old(buf)@.skip(at as int),
        decreases bytes@.len() - i,
    {
        let ghost before = buf@;
        at = put_byte(buf, at, bytes[i]);
        i = i + 1;
        assert(before.skip(at as int) == before.skip(at - 1).skip(1));
        assert(old(buf)@.skip(at as int) == old(buf)@.skip(at - 1).skip(1));
        assert(buf@.take(at as int) =~= old(buf)@.take(n as int) + bytes@.take(i as int));
    }
    assert(bytes@.take(bytes@.len() as int) == bytes@);
    at
}

/// `/proc/<pid>/ns/<kind>`, NUL-terminated, in the buffer that is given: the
/// helper may not allocate. Returns how long it is without the NUL.
pub fn ns_path(buf: &mut [u8; 64], pid: u32, ns: Namespace) -> (r: usize)
    ensures
        r == ns_bytes(pid, ns).len(),
        r < 64,
        final(buf)@.take(r as int) == ns_bytes(pid, ns),
        final(buf)@[r as int] == 0,
        final(buf)@.skip(r + 1) == old(buf)@.skip(r + 1),
{
    proof {
        reveal_with_fuel(pow10, 12);
        lemma_digit_count(pid as nat, 10);
    }
    let proc_dir: [u8; 6] = [47, 112, 114, 111, 99, 47];
    let ns_dir: [u8; 4] = [47, 110, 115, 47];
    let user: [u8; 4] = [117, 115, 101, 114];
    let net: [u8; 3] = [110, 101, 116];
    let ghost start = buf@;
    let mut n: usize = put_bytes(buf, 0, proc_dir.as_slice());
    let ghost (dir_end, with_dir) = (n as int, buf@);
    n = put_digits(buf, n, pid);
    let ghost (pid_end, with_pid) = (n as int, buf@);
    n = put_bytes(buf, n, ns_dir.as_slice());
    let ghost (ns_end, with_ns) = (n as int, buf@);
    n = match ns {
        Namespace::User => put_bytes(buf, n, user.as_slice()),
        Namespace::Net => put_bytes(buf, n, net.as_slice()),
    };
    proof {
        assert(start.skip(pid_end) == start.skip(dir_end).skip(pid_end - dir_end));
        assert(with_dir.skip(pid_end) == with_dir.skip(dir_end).skip(pid_end - dir_end));
        assert(start.skip(ns_end) == start.skip(pid_end).skip(ns_end - pid_end));
        assert(with_pid.skip(ns_end) == with_pid.skip(pid_end).skip(ns_end - pid_end));
        assert(start.skip(n as int) == start.skip(ns_end).skip(n - ns_end));
        assert(with_ns.skip(n as int) == with_ns.skip(ns_end).skip(n - ns_end));
        assert(start.skip(n + 1) == start.skip(n as int).skip(1));
        assert(buf@.skip(n + 1) == buf@.skip(n as int).skip(1));
    }
    assert(buf@.take(n as int) =~= ns_bytes(pid, ns));
    let ghost path = buf@.take(n as int);
    let ghost tail = buf@.skip(n + 1);
    buf[n] = 0;
    assert(buf@.skip(n + 1) =~= tail);
    assert(buf@.take(n as int) =~= path);
    n
}

/// A process, and what it is called.
#[derive(Debug, Clone)]
pub struct Holder {
    pub pid: u32,
    pub name: Option<String>,
}

impl Holder {
    pub open spec fn spec_text(self) -> Seq<char> {
        match self.name {
            Some(n) => "`"@ + n@ + "` (pid "@ + text::decimal(self.pid as nat) + ")"@,
            None => "pid "@ + text::decimal(self.pid as nat),
        }
    }

    /// How it is named.
    pub fn text(&self) -> (r: String)
        ensures
            r@ == self.spec_text(),
    {
        match &self.name {
            Some(n) => {
                let mut out: String = "`".to_owned();
                out.append(n.as_str());
                out.append("` (pid ");
                text::push_decimal(&mut out, self.pid as u64);
                out.append(")");
                out
            },
            None => {
                let mut out: String = "pid ".to_owned();
                text::push_decimal(&mut out, self.pid as u64);
                out
            },
        }
    }
}

/// Several processes, as they are named.
pub open spec fn holders_text(list: Seq<Holder>) -> Seq<char>
    decreases list.len(),
{
    if list.len() == 0 {
        Seq::empty()
    } else if list.len() == 1 {
        list[0].spec_text()
    } else {
        holders_text(list.drop_last()) + ", "@ + list.last().spec_text()
    }
}

fn put_holders_text(list: &Vec<Holder>) -> (r: String)
    ensures
        r@ == holders_text(list@),
{
    let mut out: String = String::new();
    let mut i: usize = 0;
    while i < list.len()
        invariant
            0 <= i <= list@.len(),
            out@ == holders_text(list@.take(i as int)),
        decreases list@.len() - i,
    {
        assert(list@.take(i + 1).drop_last() == list@.take(i as int));
        if i > 0 {
            out.append(", ");
            out.append(list[i].text().as_str());
        } else {
            out = list[i].text();
        }
        i = i + 1;
    }
    assert(list@.take(list@.len() as int) == list@);
    out
}

/// Whose a port is.
#[derive(Debug, Clone)]
pub enum Ownership {
    /// The box's, at this address; a process of it holds it.
    Box { addr: SocketAddr, pid: u32 },
    /// Nobody's.
    Nobody,
    /// Somebody else's.
    Stranger { holder: Holder, addr: SocketAddr },
    /// The box's and somebody else's at the same time.
    Contested { addr: SocketAddr, others: Vec<Holder> },
}

/// What one look at a port concluded, and whether another could change it.
#[derive(Debug)]
pub enum Pass {
    /// It reached an answer about the port.
    Settled(Result<SocketAddr, DialError>),
    /// It named a holder that no longer exists. The error is what to report if
    /// every look ends this way.
    Vanished(DialError),
}

/// What an answer about a port says.
pub enum PassView {
    Settled(Result<SocketAddr, (DialKind, Seq<char>)>),
    Vanished((DialKind, Seq<char>)),
}

impl View for Pass {
    type V = PassView;

    open spec fn view(&self) -> PassView {
        match *self {
            Pass::Settled(Ok(addr)) => PassView::Settled(Ok(addr)),
            Pass::Settled(Err(e)) => PassView::Settled(Err(e@)),
            Pass::Vanished(e) => PassView::Vanished(e@),
        }
    }
}

/// What one look at a port concludes.
pub open spec fn look(
    port: u16,
    root: u32,
    root_unchanged: bool,
    found: Ownership,
    still_box: bool,
    alive: bool,
) -> PassView {
    if !root_unchanged {
        PassView::Settled(Err((DialKind::NotTheBox, reused_text(root))))
    } else {
        match found {
            Ownership::Box { addr, pid } => if still_box {
                PassView::Settled(Ok(addr))
            } else if !alive {
                PassView::Vanished((DialKind::NotTheBox, vanished_text(port, pid)))
            } else {
                PassView::Settled(Err((DialKind::NotTheBox, changed_text(port, pid))))
            },
            Ownership::Nobody => PassView::Settled(
                Err((DialKind::NothingListening, nobody_text(port))),
            ),
            Ownership::Stranger { holder, addr } => PassView::Settled(
                Err((DialKind::NotTheBox, stranger_text(port, holder.spec_text(), addr))),
            ),
            Ownership::Contested { addr, others } => PassView::Settled(
                Err((DialKind::NotTheBox, contested_text(port, addr, holders_text(others@)))),
            ),
        }
    }
}

/// What one look at a port concludes.
///
/// `root_unchanged` tells whether the box's first process is still the one it
/// was; `still_box` and `alive` tell of the process that was found holding the
/// port, asked once more, whether it is the box's and whether it is there. A
/// holder that is there and no longer the box's changed hands, and is refused;
/// one that is gone held nothing, and is looked for again.
pub fn resolve_once(
    port: u16,
    root: u32,
    root_unchanged: bool,
    found: Ownership,
    still_box: bool,
    alive: bool,
) -> (r: Pass)
    ensures
        r@ == look(port, root, root_unchanged, found, still_box, alive),
{
    if !root_unchanged {
        return Pass::Settled(Err(DialError::NotTheBox(put_reused_text(root))));
    }
    match found {
        Ownership::Box { addr, pid } => if still_box {
            Pass::Settled(Ok(addr))
        } else if !alive {
            Pass::Vanished(DialError::NotTheBox(put_vanished_text(port, pid)))
        } else {
            Pass::Settled(Err(DialError::NotTheBox(put_changed_text(port, pid))))
        },
        Ownership::Nobody => Pass::Settled(
            Err(DialError::NothingListening(put_nobody_text(port))),
        ),
        Ownership::Stranger { holder, addr } => Pass::Settled(
            Err(
                DialError::NotTheBox(put_stranger_text(port, holder.text().as_str(), addr)),
            ),
        ),
        Ownership::Contested { addr, others } => Pass::Settled(
            Err(
                DialError::NotTheBox(
                    put_contested_text(port, addr, put_holders_text(&others).as_str()),
                ),
            ),
        ),
    }
}

/// A connection is made to the box's own process and to no other: one that was
/// found holding the port alone, and that is the box's when asked once more.
pub proof fn law_only_the_box_is_dialled(
    port: u16,
    root: u32,
    root_unchanged: bool,
    found: Ownership,
    still_box: bool,
    alive: bool,
    addr: SocketAddr,
)
    requires
        look(port, root, root_unchanged, found, still_box, alive) == PassView::Settled(
            Ok::<SocketAddr, (DialKind, Seq<char>)>(addr),
        ),
    ensures
        root_unchanged,
        still_box,
        found is Box,
        found->Box_addr == addr,
{
}

/// How many times a look that ended on a process which had already exited is
/// repeated.
pub const ATTRIBUTION_ATTEMPTS: usize = 4;

/// The looks at a port, one after another.
#[derive(Debug, Clone, Copy, PartialEq, Eq, Structural)]
pub struct Attempts {
    pub left: usize,
}

impl Attempts {
    /// None made yet.
    pub fn new() -> (r: Attempts)
        ensures
            r.left == ATTRIBUTION_ATTEMPTS,
    {
        Attempts { left: ATTRIBUTION_ATTEMPTS }
    }

    /// What comes of a look: an answer, or `None` to look again. A port whose
    /// holder cannot be held still long enough to be identified is refused.
    pub fn resolve(&mut self, pass: Pass) -> (r: Option<Result<SocketAddr, DialError>>)
        requires
            old(self).left > 0,
        ensures
            final(self).left == old(self).left - 1,
            r == (match pass {
                Pass::Settled(answer) => Some(answer),
                Pass::Vanished(e) => if old(self).left > 1 {
                    None
                } else {
                    Some(Err::<SocketAddr, DialError>(e))
                },
            }),
    {
        self.left = self.left - 1;
        match pass {
            Pass::Settled(answer) => Some(answer),
            Pass::Vanished(e) => if self.left > 0 {
                None
            } else {
                Some(Err(e))
            },
        }
    }
}

/// May a share be started, as things stand with its port?
///
/// A port with *nothing* on it is not a refusal: a dev server about to start is
/// a good reason to share a port that is not up yet. A port held by a
/// *stranger* is.
pub fn spawn_attributed(pid: u32, started_known: bool, resolved: Result<SocketAddr, DialError>) -> (r:
    Result<(), String>)
    ensures
        r is Ok <==> started_known && (resolved matches Err(e) ==> e@.0 == DialKind::NothingListening),
        r matches Err(why) ==> why@ == (if !started_known {
            session_gone_text(pid)
        } else {
            resolved->Err_0@.1
        }),
{
    if !started_known {
        return Err(put_session_gone_text(pid));
    }
    match resolved {
        Ok(_) => Ok(()),
        Err(e) => if e.nothing_listening() {
            Ok(())
        } else {
            Err(e.into_inner())
        },
    }
}

/// Why a connection to what was resolved failed, classified the way the helper
/// classifies its own.
pub fn dial_attributed(addr: SocketAddr, failure: ConnectFailure, said: &str) -> (r: DialError)
    ensures
        match failure {
            ConnectFailure::Refused | ConnectFailure::AddrNotAvailable => r@ == (
                DialKind::NothingListening,
                no_more_text(addr),
            ),
            _ => r@ == (DialKind::Broken, unopened_text(addr, said@)),
        },
{
    match failure {
        ConnectFailure::Refused | ConnectFailure::AddrNotAvailable => DialError::NothingListening(
            put_no_more_text(addr),
        ),
        _ => DialError::Broken(put_unopened_text(addr, said)),
    }
}

} // verus!
