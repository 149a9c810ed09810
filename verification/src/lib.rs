//! Selection of a sub-range of tokens out of a line.
//!
//! The heart of the crate is [`choice::Choice`]: an immutable descriptor of a
//! signed, possibly end-relative, possibly descending index range, together
//! with the selection engine that decides which tokens of a finite token
//! sequence are emitted, in which order, and which of them are followed by an
//! output separator.

pub mod choice;
