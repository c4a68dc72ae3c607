//! An input layer for a token parser: lexing over a byte source, a token cache, checkpoints with
//! a live-checkpoint lineage, session points, transactions, a recursion budget, an item budget,
//! and a resumable parse session that re-drives a growing buffer from its base state under a
//! byte budget.
pub mod lineage;
pub mod recursion;
pub mod token_budget;
pub mod token_limiter;
pub mod span;
pub mod lexer;
pub mod stream;
pub mod staged_trip;
pub mod error;
pub mod drop_policy;
pub mod session;
pub mod trace;
pub mod pratt;
pub mod laws;
pub mod window;
pub mod emitter;
pub mod input;
