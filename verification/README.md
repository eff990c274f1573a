# h5i_share

`h5i box share`, as a library whose behaviour is stated in contracts and proved
with Verus.

- `src/` is the library. It opens no socket and reads no clock: what happened is
  handed in, and what to do next is handed back.
- `app/` is ordinary Rust around it: sockets, clocks, processes, descriptors.
- `tests/` runs the library.

A share lets one other person try the web app in a box. Four things are promised
of it. The box's port is never published. Authorization is per connection, so a
revoke lands on the next one. The credential never reaches the box. And being
shared is recorded.

The laws that relate several functions are public proof functions whose names
begin with `law_`. What is believed of code outside the library is in a handful
of wrappers, each marked `external_body` and documented where it stands:
`clock.rs` (chrono), `text.rs`, `http_front.rs` and `egress.rs` (std) and
`supervisor.rs` (libc).
