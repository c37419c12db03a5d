//! Incremental per-account transaction cache over a remote ledger, and the
//! bisection that finds the block nearest to a calendar time.
//!
//! The library decides and encodes; the caller performs the ledger calls and
//! store writes that the step machines ask for and feeds back the answers.

pub mod balance;
pub mod cached;
pub mod coverage;
pub mod fetch;
pub mod html;
pub mod key;
pub mod lex;
pub mod types;
