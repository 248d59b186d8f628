//! The search itself: a counter walked in bounded batches until a candidate
//! matches or the caller stops it.

use crate::derive::{absorbed, derive_with, derived_key, hasher_new, Hasher};
use crate::encode::{address_of, encode_into, is_address};
use crate::matcher::{chars_of, match_spec, spec_matches, MatchSpec, MatchType};
use crate::result::{outcome_of, ResultView, VanityResult};
use crate::seed::{
    generate_seed_from_counter, lemma_nearby_seeds_differ, seed_bytes, DISTINCT_SEED_SPAN,
};
use crate::text::{ascii_chars, ascii_text, folded, maybe_bs58_aware_lowercase};
use vstd::arithmetic::div_mod::{
    lemma_add_mod_noop, lemma_fundamental_div_mod_converse_mod, lemma_small_mod,
};
use vstd::prelude::*;
use vstd::slice::slice_index_get;

verus! {

/// Why a search could not be set up.
#[derive(Debug, Clone, Copy, PartialEq, Eq)]
pub enum SearchError {
    /// A key was not exactly 32 bytes long.
    InvalidKeyLength,
}

/// A search session: two fixed keys, the patterns, the progress made, and
/// the hash context that every derivation of the session reuses.
pub struct VanitySearcher {
    base_pubkey: [u8; 32],
    owner_pubkey: [u8; 32],
    match_type: MatchType,
    case_insensitive: bool,
    count: u64,
    count_offset: u64,
    should_exit: bool,
    hasher: Hasher,
}

/// The mathematical content of a [`VanitySearcher`].
pub struct SearcherView {
    pub base: Seq<u8>,
    pub owner: Seq<u8>,
    pub patterns: MatchSpec,
    pub case_insensitive: bool,
    pub count: u64,
    pub count_offset: u64,
    pub stopped: bool,
}

/// `n` reduced to 64 bits, as the counter wraps. Opaque: the laws below say
/// what it does to the sums of a search; a proof that needs more reveals it.
#[verifier::opaque]
pub open spec fn wrap(n: int) -> u64 {
    (n % 0x1_0000_0000_0000_0000) as u64
}

impl SearcherView {
    /// The counter whose seed is tested at step `i` of the next batch.
    pub open spec fn counter_at(self, i: nat) -> u64 {
        wrap(self.count + self.count_offset + i)
    }

    /// The seed tested at step `i`.
    pub open spec fn seed_at(self, i: nat) -> Seq<u8> {
        seed_bytes(self.counter_at(i))
    }

    /// The address of the candidate key of step `i`.
    pub open spec fn address_at(self, i: nat) -> Seq<char> {
        address_of(derived_key(self.base, self.seed_at(i), self.owner))
    }

    /// Whether an address satisfies the patterns of this search.
    pub open spec fn accepts(self, address: Seq<char>) -> bool {
        spec_matches(self.patterns, folded(address, self.case_insensitive))
    }

    /// Whether the candidate of step `i` matches.
    pub open spec fn matches_at(self, i: nat) -> bool {
        self.accepts(self.address_at(i))
    }

    /// The first matching step below `limit`, if there is one.
    pub open spec fn first_match(self, limit: nat) -> Option<nat>
        decreases limit,
    {
        if limit == 0 {
            None
        } else {
            match self.first_match((limit - 1) as nat) {
                Some(i) => Some(i),
                None => if self.matches_at((limit - 1) as nat) {
                    Some((limit - 1) as nat)
                } else {
                    None
                },
            }
        }
    }

    /// The search after `steps` more candidates were tested.
    pub open spec fn advanced(self, steps: nat) -> SearcherView {
        SearcherView { count: wrap(self.count + steps), ..self }
    }

    /// The record of a match at step `i`.
    pub open spec fn found_at(self, i: nat) -> ResultView {
        ResultView {
            address: self.address_at(i),
            seed: ascii_chars(self.seed_at(i)),
            attempts: wrap(self.count + i + 1),
        }
    }

    /// The search after `stop`.
    pub open spec fn halted(self) -> SearcherView {
        SearcherView { stopped: true, ..self }
    }

    /// What a batch of `batch` candidates does: nothing once stopped;
    /// otherwise it ends with the first match, or after `batch` candidates
    /// without one.
    pub open spec fn search(self, batch: nat) -> (SearcherView, Option<ResultView>) {
        if self.stopped {
            (self, None)
        } else {
            match self.first_match(batch) {
                Some(i) => (self.advanced(i + 1), Some(self.found_at(i))),
                None => (self.advanced(batch), None),
            }
        }
    }
}

/// A number that fits in 64 bits is left as it is.
pub proof fn lemma_wrap_fits(n: int)
    requires
        0 <= n <= u64::MAX,
    ensures
        wrap(n) == n,
{
    reveal(wrap);
}

/// What `wrap` does to sums: a number that fits is left alone, a wrapped sum
/// can be taken in two steps, and the wrapping addition of the machine is
/// `wrap` of the sum.
proof fn lemma_wrap(n: int, k: u64)
    requires
        0 <= n,
    ensures
        wrap(k as int) == k,
        wrap(wrap(n) + k) == wrap(n + k),
        vstd::wrapping::u64_specs::wrapping_add(wrap(n), k) == wrap(n + k),
{
    reveal(wrap);
    let m: int = 0x1_0000_0000_0000_0000;
    let low: int = n % m;
    lemma_small_mod(k as nat, m as nat);
    lemma_add_mod_noop(n, k as int, m);
    if low + k >= m {
        lemma_fundamental_div_mod_converse_mod(low + k, m, 1, low + k - m);
    } else {
        lemma_small_mod((low + k) as nat, m as nat);
    }
}

/// Testing one candidate at a time adds up: step `i` of a search is step 0
/// of the search advanced by `i`.
proof fn lemma_step_by_step(v: SearcherView, i: nat)
    ensures
        v.advanced(0) == v,
        v.advanced(i).advanced(1) == v.advanced(i + 1),
        v.advanced(i).counter_at(0) == v.counter_at(i),
        v.advanced(i).matches_at(0) == v.matches_at(i),
        v.advanced(i).found_at(0) == v.found_at(i),
{
    lemma_wrap(v.count as int, v.count);
    lemma_wrap(v.count + i, 1);
    lemma_wrap(v.count + i, v.count_offset);
    assert(v.count + i + v.count_offset == v.count + v.count_offset + i);
}

/// A batch that meets its first match at step `i` ends there.
proof fn lemma_batch_ends_at_match(v: SearcherView, i: nat, batch: nat)
    requires
        !v.stopped,
        i < batch,
        v.first_match(i) is None,
        v.matches_at(i),
    ensures
        v.search(batch) == (v.advanced(i + 1), Some(v.found_at(i))),
{
    assert(v.first_match(i + 1) == Some(i));
    lemma_first_match_stable(v, i + 1, batch);
}

/// `first_match` names the least matching step below the limit, and none
/// only where no step below the limit matches.
pub proof fn lemma_first_match(v: SearcherView, limit: nat)
    ensures
        match v.first_match(limit) {
            Some(i) => i < limit && v.matches_at(i) && forall|j: nat| j < i ==> !v.matches_at(j),
            None => forall|j: nat| j < limit ==> !v.matches_at(j),
        },
    decreases limit,
{
    if limit > 0 {
        lemma_first_match(v, (limit - 1) as nat);
    }
}

/// A match found below one limit is the match found below any larger one.
pub proof fn lemma_first_match_stable(v: SearcherView, limit: nat, larger: nat)
    requires
        limit <= larger,
        v.first_match(limit) is Some,
    ensures
        v.first_match(larger) == v.first_match(limit),
    decreases larger,
{
    if limit < larger {
        lemma_first_match_stable(v, limit, (larger - 1) as nat);
    }
}

/// A batch of zero candidates finds nothing and changes nothing.
pub proof fn lemma_zero_batch(v: SearcherView)
    ensures
        v.search(0) == (v, None::<ResultView>),
{
    reveal(wrap);
}

/// Stopping is final: the stopped search stays stopped, stopping it again
/// changes nothing, and a batch of any size then finds nothing and leaves the
/// number of attempts as it was.
pub proof fn lemma_stop_is_final(v: SearcherView, batch: nat)
    ensures
        v.halted().stopped,
        v.halted().count == v.count,
        v.halted().halted() == v.halted(),
        v.halted().search(batch) == (v.halted(), None::<ResultView>),
{
}

/// A batch never touches the keys, the patterns, the offset or the stop
/// flag, and a match carries the number of attempts that the search shows
/// right after it.
pub proof fn lemma_batch_keeps_setup(v: SearcherView, batch: nat)
    ensures
        v.search(batch).0 == (SearcherView { count: v.search(batch).0.count, ..v }),
        v.search(batch).1 matches Some(found) ==> found.attempts == v.search(batch).0.count,
{
}

/// As long as the counter does not wrap, the number of attempts never
/// decreases, and a batch adds at most its size to it.
pub proof fn lemma_attempts_never_decrease(v: SearcherView, batch: nat)
    requires
        v.count + batch <= u64::MAX,
    ensures
        v.count <= v.search(batch).0.count <= v.count + batch,
{
    reveal(wrap);
    lemma_first_match(v, batch);
}

/// A match is reported with the 1-indexed number of its attempt, and every
/// candidate before it was tested and did not match. Without a match the
/// whole batch was tested.
pub proof fn lemma_batch_counts_attempts(v: SearcherView, batch: nat)
    requires
        !v.stopped,
        v.count + batch <= u64::MAX,
    ensures
        match v.search(batch).1 {
            Some(found) => exists|i: nat|
                {
                    &&& i < batch
                    &&& #[trigger] v.matches_at(i)
                    &&& forall|j: nat| j < i ==> !v.matches_at(j)
                    &&& found == v.found_at(i)
                    &&& found.attempts == v.count + i + 1
                    &&& v.search(batch).0.count == v.count + i + 1
                },
            None => {
                &&& forall|j: nat| j < batch ==> !v.matches_at(j)
                &&& v.search(batch).0.count == v.count + batch
            },
        },
{
    reveal(wrap);
    lemma_first_match(v, batch);
}

/// Two searches started from zero whose offsets lie further apart than the
/// number of candidates either has tested never test the same counter, as
/// long as neither range of counters wraps.
pub proof fn lemma_partitions_disjoint(
    a: SearcherView,
    b: SearcherView,
    tested_a: nat,
    tested_b: nat,
    i: nat,
    j: nat,
)
    requires
        a.count == 0 && b.count == 0,
        a.count_offset + tested_a <= u64::MAX,
        b.count_offset + tested_b <= u64::MAX,
        a.count_offset - b.count_offset > tested_a || b.count_offset - a.count_offset > tested_a,
        a.count_offset - b.count_offset > tested_b || b.count_offset - a.count_offset > tested_b,
        i < tested_a,
        j < tested_b,
    ensures
        a.counter_at(i) != b.counter_at(j),
{
    reveal(wrap);
}

/// Two such searches whose counters all lie within [`DISTINCT_SEED_SPAN`] of
/// each other never test the same seed either.
pub proof fn lemma_partitions_test_different_seeds(
    a: SearcherView,
    b: SearcherView,
    tested_a: nat,
    tested_b: nat,
    i: nat,
    j: nat,
)
    requires
        a.count == 0 && b.count == 0,
        a.count_offset + tested_a <= u64::MAX,
        b.count_offset + tested_b <= u64::MAX,
        a.count_offset - b.count_offset > tested_a || b.count_offset - a.count_offset > tested_a,
        a.count_offset - b.count_offset > tested_b || b.count_offset - a.count_offset > tested_b,
        a.count_offset + tested_a - b.count_offset <= DISTINCT_SEED_SPAN,
        b.count_offset + tested_b - a.count_offset <= DISTINCT_SEED_SPAN,
        i < tested_a,
        j < tested_b,
    ensures
        a.seed_at(i) != b.seed_at(j),
{
    reveal(wrap);
    lemma_partitions_disjoint(a, b, tested_a, tested_b, i, j);
    if a.counter_at(i) < b.counter_at(j) {
        lemma_nearby_seeds_differ(a.counter_at(i), b.counter_at(j));
    } else {
        lemma_nearby_seeds_differ(b.counter_at(j), a.counter_at(i));
    }
}

/// Copies a key out of a slice of exactly 32 bytes.
pub fn fixed_key(bytes: &[u8]) -> (out: Result<[u8; 32], SearchError>)
    ensures
        out is Ok <==> bytes@.len() == 32,
        out matches Ok(key) ==> key@ == bytes@,
        out matches Err(e) ==> e == SearchError::InvalidKeyLength,
{
    if bytes.len() != 32 {
        return Err(SearchError::InvalidKeyLength);
    }
    let mut key: [u8; 32] = [0u8; 32];
    let mut i: usize = 0;
    while i < 32
        invariant
            0 <= i <= 32,
            bytes@.len() == 32,
            forall|j: int| 0 <= j < i ==> key@[j] == bytes@[j],
        decreases 32 - i,
    {
        key[i] = *slice_index_get(bytes, i);
        i = i + 1;
    }
    assert(key@ =~= bytes@);
    Ok(key)
}

impl View for VanitySearcher {
    type V = SearcherView;

    closed spec fn view(&self) -> SearcherView {
        SearcherView {
            base: self.base_pubkey@,
            owner: self.owner_pubkey@,
            patterns: self.match_type@,
            case_insensitive: self.case_insensitive,
            count: self.count,
            count_offset: self.count_offset,
            stopped: self.should_exit,
        }
    }
}

impl VanitySearcher {
    /// Between calls the hash context holds nothing.
    #[verifier::type_invariant]
    spec fn hasher_is_idle(&self) -> bool {
        absorbed(self.hasher) == Seq::<u8>::empty()
    }

    /// Sets up a search. Both keys must be exactly 32 bytes long; a search
    /// starts with no attempt made and not stopped.
    pub fn new(
        base_pubkey: &[u8],
        owner_pubkey: &[u8],
        prefix: Option<String>,
        suffix: Option<String>,
        case_insensitive: bool,
        count_offset: u64,
    ) -> (out: Result<VanitySearcher, SearchError>)
        ensures
            out is Ok <==> base_pubkey@.len() == 32 && owner_pubkey@.len() == 32,
            out matches Ok(searcher) ==> searcher@ == (SearcherView {
                base: base_pubkey@,
                owner: owner_pubkey@,
                patterns: match_spec(chars_of(prefix), chars_of(suffix), case_insensitive),
                case_insensitive,
                count: 0,
                count_offset,
                stopped: false,
            }),
            out matches Err(e) ==> e == SearchError::InvalidKeyLength,
    {
        let base: [u8; 32] = match fixed_key(base_pubkey) {
            Ok(key) => key,
            Err(e) => {
                return Err(e);
            },
        };
        let owner: [u8; 32] = match fixed_key(owner_pubkey) {
            Ok(key) => key,
            Err(e) => {
                return Err(e);
            },
        };
        let match_type = MatchType::new(prefix, suffix, case_insensitive);
        Ok(
            VanitySearcher {
                base_pubkey: base,
                owner_pubkey: owner,
                match_type,
                case_insensitive,
                count: 0,
                count_offset,
                should_exit: false,
                hasher: hasher_new(),
            },
        )
    }

    /// Whether `address` satisfies the patterns of this search, with case
    /// folded as the search was set up.
    pub fn accepts(&self, address: &str) -> (found: bool)
        ensures
            found == self@.accepts(address@),
    {
        let text: String = maybe_bs58_aware_lowercase(address, self.case_insensitive);
        self.match_type.matches(text.as_str())
    }

    /// Encodes a candidate key and returns its address if the search accepts
    /// it.
    pub fn address_if_accepted(&self, key: &[u8; 32]) -> (found: Option<String>)
        ensures
            found is Some <==> self@.accepts(address_of(key@)),
            found matches Some(address) ==> address@ == address_of(key@) && is_address(address@),
    {
        let mut buffer: [u8; 44] = [0u8; 44];
        let pubkey: &str = encode_into(key, &mut buffer);
        if self.accepts(pubkey) {
            Some(pubkey.to_owned())
        } else {
            None
        }
    }

    /// Tests the next candidate.
    fn test_next(&mut self) -> (result: Option<VanityResult>)
        ensures
            final(self)@ == old(self)@.advanced(1),
            result is Some <==> old(self)@.matches_at(0),
            result matches Some(found) ==> {
                &&& found@ == old(self)@.found_at(0)
                &&& is_address(found@.address)
            },
    {
        proof {
            use_type_invariant(&*self);
            lemma_wrap(self.count as int, self.count);
            lemma_wrap(self.count as int, self.count_offset);
            lemma_wrap(self.count as int, 1);
        }
        let counter: u64 = self.count.wrapping_add(self.count_offset);
        let seed: [u8; 16] = generate_seed_from_counter(counter);
        let base: &[u8] = self.base_pubkey.as_slice();
        let owner: &[u8] = self.owner_pubkey.as_slice();
        let key: [u8; 32] = derive_with(&mut self.hasher, base, seed.as_slice(), owner);
        let found: Option<String> = self.address_if_accepted(&key);
        self.count = self.count.wrapping_add(1);
        match found {
            Some(address) => {
                let seed_text: &str = ascii_text(seed.as_slice());
                Some(VanityResult::new(address, seed_text.to_owned(), self.count))
            },
            None => None,
        }
    }

    /// Tests up to `batch_size` candidates and returns the first that matches.
    /// A stopped search tests nothing.
    pub fn search_batch(&mut self, batch_size: u32) -> (result: Option<VanityResult>)
        ensures
            (final(self)@, outcome_of(result)) == old(self)@.search(batch_size as nat),
            result matches Some(found) ==> is_address(found@.address),
    {
        let ghost start: SearcherView = self@;
        let mut i: u32 = 0;
        proof {
            lemma_step_by_step(start, 0);
        }
        while i < batch_size
            invariant
                0 <= i <= batch_size,
                start == old(self)@,
                start.stopped ==> i == 0,
                self@ == start.advanced(i as nat),
                start.first_match(i as nat) is None,
            decreases batch_size - i,
        {
            proof {
                lemma_step_by_step(start, i as nat);
            }
            if self.should_exit {
                return None;
            }
            let found: Option<VanityResult> = self.test_next();
            if found.is_some() {
                proof {
                    lemma_batch_ends_at_match(start, i as nat, batch_size as nat);
                }
                return found;
            }
            i = i + 1;
        }
        None
    }

    /// Stops the search for good: every later batch tests nothing.
    pub fn stop(&mut self)
        ensures
            final(self)@ == old(self)@.halted(),
    {
        proof {
            use_type_invariant(&*self);
        }
        self.should_exit = true;
    }

    /// Whether the search was stopped.
    pub fn is_stopped(&self) -> (out: bool)
        ensures
            out == self@.stopped,
    {
        self.should_exit
    }

    /// The number of candidates tested so far.
    pub fn attempts(&self) -> (out: u64)
        ensures
            out == self@.count,
    {
        self.count
    }
}

} // verus!
