//! The voter of a secondary finality protocol, which signs compact proofs of
//! what the base finality has finalized.
//!
//! Leaves first: `types` holds the data, `wire` and `codec` its bytes on the
//! wire, `digest` what a header's digest tells, `round` the votes of one
//! session, `oracle` which rounds are open and what to vote on next,
//! `pending` what waits for its round, `justification` what makes a proof
//! valid, `keystore` which validator this node is, and `worker` the state of
//! the voter and its transitions.
//!
//! Nothing here reads a stream, a store or a key. A transition takes an event
//! and hands back the actions to carry out; the caller runs the loop.

pub mod codec;
pub mod digest;
pub mod justification;
pub mod keystore;
pub mod oracle;
pub mod pending;
pub mod round;
pub mod seqs;
pub mod types;
pub mod wire;
pub mod worker;
