//! Request orchestration for a retrieval-augmented chat server: configuration
//! checks, retrieval merging, context injection, text chunking, request routing
//! and the per-request state machine.

pub mod chunking;
pub mod config;
pub mod injection;
pub mod orchestrator;
pub mod retrieval;
pub mod routing;

pub use config::AppState;
