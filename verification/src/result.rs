//! The record of a successful search.

use vstd::prelude::*;

verus! {

/// A match: the address found, the seed that gave it, and the number of
/// candidates tested up to and including it.
pub struct VanityResult {
    address: String,
    seed: String,
    attempts: u64,
}

/// The mathematical content of a [`VanityResult`].
pub struct ResultView {
    pub address: Seq<char>,
    pub seed: Seq<char>,
    pub attempts: u64,
}

impl View for VanityResult {
    type V = ResultView;

    closed spec fn view(&self) -> ResultView {
        ResultView { address: self.address@, seed: self.seed@, attempts: self.attempts }
    }
}

/// The content of an optional result.
pub open spec fn outcome_of(result: Option<VanityResult>) -> Option<ResultView> {
    match result {
        Some(r) => Some(r@),
        None => None,
    }
}

impl VanityResult {
    /// A record holding exactly the three given values.
    pub fn new(address: String, seed: String, attempts: u64) -> (out: VanityResult)
        ensures
            out@ == (ResultView { address: address@, seed: seed@, attempts }),
    {
        VanityResult { address, seed, attempts }
    }

    /// The address that matched.
    pub fn address(&self) -> (out: String)
        ensures
            out@ == self@.address,
    {
        self.address.clone()
    }

    /// The seed of the match, as text.
    pub fn seed(&self) -> (out: String)
        ensures
            out@ == self@.seed,
    {
        self.seed.clone()
    }

    /// The 1-indexed number of the attempt that matched.
    pub fn attempts(&self) -> (out: u64)
        ensures
            out == self@.attempts,
    {
        self.attempts
    }
}

} // verus!
