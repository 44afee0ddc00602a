//! Core logic of a small container deployment platform.
//!
//! The crate owns the three pieces that carry the platform's correctness
//! hazards: the declarative manifest document and its textual operations
//! (`manifest`), the deployment pipeline's state machine (`pipeline`), and
//! the status event bus with its bounded ring buffer (`bus`). Everything
//! that talks to the outside world (HTTP, the container daemon, the file
//! system) lives in the unverified shell around this library and exchanges
//! plain values with it.

pub mod bus;
pub mod dockerfile;
pub mod github;
pub mod manifest;
pub mod metadata;
pub mod pipeline;
pub mod status;
pub mod text;
