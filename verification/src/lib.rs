//! Type-safe inline judgments from TypeSafe Jev: the verified core.
//!
//! Probabilities, confidences, thresholds and score values are IEEE-754 binary64 numbers on
//! the wire. This library holds each one as its bit pattern (`u64`): for zero and the
//! non-negative numbers, the order of the patterns is the order of the numbers, which is all
//! the decision logic reads.

pub mod scalars;
pub mod error;
pub mod api;
pub mod client;
pub mod guide;
pub mod golden;
pub mod policy;
pub mod rubric;
pub mod question;
pub mod ask;
pub mod declare;
pub mod text;
mod sealed;
pub mod laws;

pub use error::Error;
pub use policy::{Policy, Thresholds, Verdict};
pub use scalars::{Confidence, Probability};
