//! Cache-or-generate for inner proofs: a proof artifact with its durable text form, and
//! the per-call decisions of whether to reuse a cached artifact or make and store a new one.
pub mod artifact;
pub mod error;
pub mod hex;
pub mod inner;
