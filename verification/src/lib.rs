//! Franz: a disk-persisted, topic-oriented message broker core.
//!
//! The crate verifies the broker's session engine: handshake parsing,
//! the topic registry, producer and consumer session logic, the keepalive
//! protocol, and the dispatch/shutdown decisions.  Socket and signal
//! handling live outside the library; the durable log engine is an
//! external collaborator reached through narrow trusted wrappers.

pub mod codec;
pub mod log_engine;
pub mod registry;
pub mod protocol;
pub mod reader;
pub mod session;

use vstd::prelude::*;

verus! {

/// Port the broker listens on when none is configured.
pub fn default_port() -> (r: u16)
    ensures
        r == 8085,
{
    8085
}

} // verus!
