//! Core logic of a symlink-management tool.
//!
//! The library holds everything that can be decided without touching the
//! filesystem: the link-creation state machine with its overwrite and retry
//! policy, the recursive-move state machine, the forced-remover fallback
//! policy, the mapping-file codec, and the planning of a whole invocation.
//! A thin unverified shell performs the filesystem actions that the state
//! machines request and feeds the observed outcomes back as events.

use vstd::prelude::*;

pub mod bytes;
pub mod codec;
pub mod errors;
pub mod fsmodel;
pub mod link_machine;
pub mod mover;
pub mod plan;
pub mod progress;
pub mod remover;
pub mod replay;

verus! {

} // verus!
