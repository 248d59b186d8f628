//! Brute-force search for a derived 32-byte key whose base58 text carries a
//! chosen prefix and/or suffix.
//!
//! A candidate key is the SHA-256 digest of `base || seed || owner`, where the
//! seed is a pure function of a 64-bit counter. The search walks the counter in
//! bounded batches, so that the caller regains control between batches and can
//! cancel.

pub mod derive;
pub mod encode;
pub mod matcher;
pub mod result;
pub mod searcher;
pub mod seed;
pub mod text;

pub use crate::result::VanityResult;
pub use crate::searcher::{SearchError, VanitySearcher};
