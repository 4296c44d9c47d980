//! Anchoring file digests at program-derived ledger addresses, and checking
//! files against what was anchored.
pub mod address;
pub mod client;
pub mod codec;
pub mod digest;
pub mod program;
