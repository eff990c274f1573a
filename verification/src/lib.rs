//! `h5i box share`: letting one other person try the web app in a box.
//!
//! Everything else h5i does is about what leaves a box. This is the one path
//! that lets something in.
//!
//! ```text
//!   their browser
//!        │
//!        ▼
//!   gate, http_front    token, expiry, revocation, checked per connection
//!        │
//!        ▼
//!   bridge              counts, receipt, and the only route into the box
//!        │
//!        ▼
//!   dialer              one port of one box, pinned
//! ```
//!
//! Nothing here opens a socket, reads a clock or forks. What the outside did is
//! handed in as plain values, and what it is to do next is handed back.
//!
//! - [`gate`] and [`http_front`] read the credential off a request and keep it
//!   from travelling upstream; [`gate_laws`] and [`response_laws`] state what
//!   that promises of every head, in either direction, [`cookie_laws`] what it
//!   promises of two proxies on one machine, and [`answer_laws`] what holds of an
//!   answer in this proxy's own words.
//! - [`chunked`], [`relay`], [`exchange`] and [`delivery`] move one request in and
//!   one response out, and no byte more; [`exchange_laws`] says what the box gets
//!   whatever happens, and [`chunk_laws`] that the two readers of a chunked body
//!   agree about its end.
//! - What is read, kept, sent on and told is said line by line and count by count
//!   in the modules whose names end in `_laws`: [`request_laws`],
//!   [`credential_laws`], [`decision_laws`] and [`forwarding_laws`] of a request,
//!   [`form_laws`], [`framing_laws`], [`head_laws`] and [`reply_laws`] of a
//!   response, [`bridge_laws`] and [`account_laws`] of what is counted and told,
//!   [`egress_laws`], [`resolve_laws`] and [`supervisor_laws`] of a box.
//! - [`bridge`] does authorization and accounting, over a [`session`] record, a
//!   [`clock`] that is watched for jumps, and a [`tally`].
//! - [`receipt`] and [`status`] are what people read, made of [`figures`] and of
//!   text that [`display`] has cleaned; [`plain`] and [`receipt_laws`] state
//!   what holds of them.
//! - [`dialer`] decides what the helper in the box's namespaces has said, and
//!   [`join`] and [`joining`] are the other machine.
//! - [`supervisor`], [`launch`], [`mac_launch`] and [`egress`] are the tier that a
//!   box runs under: what the host must offer, the steps of a run, and what the
//!   box may reach.
//! - [`address`], [`text`] and [`seqs`] are what all of them are written with.
use vstd::prelude::*;

pub mod account_laws;
pub mod address;
pub mod answer_laws;
pub mod body_laws;
pub mod bridge;
pub mod bridge_laws;
pub mod chunk_laws;
pub mod chunked;
pub mod clock;
pub mod cookie_laws;
pub mod course_laws;
pub mod credential_laws;
pub mod decision_laws;
pub mod delivery;
pub mod dial_laws;
pub mod dialer;
pub mod display;
pub mod egress;
pub mod egress_laws;
pub mod exchange;
pub mod exchange_laws;
pub mod figure_laws;
pub mod figures;
pub mod form_laws;
pub mod forwarding_laws;
pub mod framing_laws;
pub mod gate;
pub mod gate_laws;
pub mod head_laws;
pub mod http_front;
pub mod join;
pub mod join_laws;
pub mod joining;
pub mod launch;
pub mod launch_laws;
pub mod line_laws;
pub mod lines;
pub mod mac_launch;
pub mod plain;
pub mod receipt;
pub mod receipt_laws;
pub mod relay;
pub mod relay_laws;
pub mod reply_laws;
pub mod request_laws;
pub mod resolve_laws;
pub mod response_laws;
pub mod seqs;
pub mod session;
pub mod status;
pub mod status_laws;
pub mod supervisor;
pub mod supervisor_laws;
pub mod tally;
pub mod text;
pub mod text_laws;

verus! {

} // verus!
