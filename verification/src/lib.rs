//! A real-time text-chat relay core: a room registry that owns the
//! connection-to-room mapping and computes every broadcast as a value, and a
//! per-connection session state machine that parses the wire commands and
//! tracks liveness. Transport and scheduling live outside this crate; the
//! registry and the session hand them plain values.
use vstd::prelude::*;

pub mod text;
pub mod server;
pub mod session;

verus! {

} // verus!
