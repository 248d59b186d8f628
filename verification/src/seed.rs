//! Seeds: sixteen symbols drawn from a fixed alphabet, as a pure function of a
//! 64-bit counter.

use vstd::prelude::*;

verus! {

/// Number of bytes in a seed.
pub const SEED_LEN: usize = 16;

/// Number of symbols in the seed alphabet.
pub const SEED_ALPHABET_LEN: u64 = 58;

/// Odd multiplier derived from the golden ratio; it decorrelates the two
/// halves of a seed.
pub const GOLDEN_RATIO: u64 = 0x9E3779B97F4A7C15;

/// The seed alphabet: upper-case letters without `I` and `O`, lower-case
/// letters without `l`, and the digits `1` to `9`.
pub const SEED_ALPHABET: [u8; 58] = [
    65, 66, 67, 68, 69, 70, 71, 72, 74, 75, 76, 77, 78, 80, 81, 82, 83, 84, 85, 86, 87, 88, 89, 90,
    97, 98, 99, 100, 101, 102, 103, 104, 105, 106, 107, 109, 110, 111, 112, 113, 114, 115, 116,
    117, 118, 119, 120, 121, 122, 49, 50, 51, 52, 53, 54, 55, 56, 57,
];

/// Whether `b` is one of the 58 symbols a seed may hold.
pub open spec fn is_seed_symbol(b: u8) -> bool {
    ||| (0x41 <= b <= 0x5a && b != 0x49 && b != 0x4f)
    ||| (0x61 <= b <= 0x7a && b != 0x6c)
    ||| (0x31 <= b <= 0x39)
}

/// The second working value of the generator: the counter times
/// [`GOLDEN_RATIO`], modulo 2^64.
pub open spec fn mixed(counter: u64) -> u64 {
    ((counter as nat * GOLDEN_RATIO as nat) % 0x1_0000_0000_0000_0000nat) as u64
}

/// The symbol that a working value yields at `step`: the value shifted right
/// by `8 * step` bits, reduced modulo 58, looked up in the alphabet.
pub open spec fn symbol_at(state: u64, step: int) -> u8 {
    SEED_ALPHABET@[((state >> ((8 * step) as u64)) % SEED_ALPHABET_LEN) as int]
}

/// The seed of `counter`: bytes 0 to 7 come from the counter itself, bytes 8
/// to 15 from [`mixed`]`(counter)`.
pub open spec fn seed_bytes(counter: u64) -> Seq<u8> {
    Seq::new(
        16,
        |i: int|
            if i < 8 {
                symbol_at(counter, i)
            } else {
                symbol_at(mixed(counter), i - 8)
            },
    )
}

/// Every entry of the alphabet is a seed symbol.
pub proof fn lemma_alphabet_entries(i: int)
    requires
        0 <= i < 58,
    ensures
        is_seed_symbol(SEED_ALPHABET@[i]),
{
}

/// Every byte of every seed is a seed symbol.
pub proof fn lemma_seed_symbols(counter: u64)
    ensures
        seed_bytes(counter).len() == 16,
        forall|i: int| 0 <= i < 16 ==> is_seed_symbol(#[trigger] seed_bytes(counter)[i]),
{
    assert forall|i: int| 0 <= i < 16 implies is_seed_symbol(
        #[trigger] seed_bytes(counter)[i],
    ) by {
        if i < 8 {
            let index = (counter >> ((8 * i) as u64)) % SEED_ALPHABET_LEN;
            lemma_alphabet_entries(index as int);
        } else {
            let index = (mixed(counter) >> ((8 * (i - 8)) as u64)) % SEED_ALPHABET_LEN;
            lemma_alphabet_entries(index as int);
        }
    }
}

/// A seed is a function of the counter alone: whatever two computations for
/// one counter return, they return the same sixteen bytes.
pub proof fn lemma_seed_deterministic(counter: u64, first: Seq<u8>, second: Seq<u8>)
    requires
        first == seed_bytes(counter),
        second == seed_bytes(counter),
    ensures
        first == second,
        first.len() == 16,
{
}

/// Counters closer together than this have different seeds.
pub const DISTINCT_SEED_SPAN: u64 = 14_592;

/// Different positions of the alphabet hold different symbols.
pub proof fn lemma_alphabet_distinct(i: int, j: int)
    requires
        0 <= i < 58,
        0 <= j < 58,
        SEED_ALPHABET@[i] == SEED_ALPHABET@[j],
    ensures
        i == j,
{
}

/// Shifts by no byte and by one byte, as arithmetic.
proof fn lemma_low_shifts(x: u64)
    by (bit_vector)
    ensures
        x >> 0u64 == x,
        x >> 8u64 == x / 256,
{
}

/// Two working values with the same first symbol are equal modulo 58, and
/// with the same second symbol they are so without their lowest byte.
proof fn lemma_symbols_tell_residues(x: u64, y: u64)
    ensures
        symbol_at(x, 0) == symbol_at(y, 0) ==> x % 58 == y % 58,
        symbol_at(x, 1) == symbol_at(y, 1) ==> (x / 256) % 58 == (y / 256) % 58,
{
    lemma_low_shifts(x);
    lemma_low_shifts(y);
    if symbol_at(x, 0) == symbol_at(y, 0) {
        lemma_alphabet_distinct((x % 58) as int, (y % 58) as int);
    }
    if symbol_at(x, 1) == symbol_at(y, 1) {
        lemma_alphabet_distinct(((x / 256) % 58) as int, ((y / 256) % 58) as int);
    }
}

/// Numbers less than 57 * 256 apart that agree modulo 58, and agree modulo
/// 58 without their lowest byte, differ by 58, 116, 174 or 232.
proof fn lemma_close_residues(a: int, b: int)
    requires
        0 <= a < b,
        b - a < 14_592,
        a % 58 == b % 58,
        (a / 256) % 58 == (b / 256) % 58,
    ensures
        b - a == 58 || b - a == 116 || b - a == 174 || b - a == 232,
{
    let high = b / 256 - a / 256;
    assert(0 <= high <= 57);
    assert(high % 58 == 0);
    assert(high == 0);
    assert(0 < b - a < 256);
    assert((b - a) % 58 == 0);
}

/// Adding a number below 2^64 moves a residue modulo 2^64 by that number,
/// or by that number less 2^64.
proof fn lemma_wrapped_move(x: int, c: int)
    requires
        0 <= x,
        0 <= c < 0x1_0000_0000_0000_0000,
    ensures
        ({
            let m: int = 0x1_0000_0000_0000_0000;
            (x + c) % m == x % m + c || (x + c) % m == x % m + c - m
        }),
{
}

/// None of the four moves that a step of 58, 116, 174 or 232 in the counter
/// makes in the mixed value keeps its residue modulo 58.
proof fn lemma_moves_change_residue(low: int, moved: int, c: int)
    requires
        0 <= low,
        c == 0xd8919406d6e01cc2 || c == 0xb123280dadc03984 || c == 0x89b4bc1484a05646
            || c == 0x6246501b5b807308,
        moved == low + c || moved == low + c - 0x1_0000_0000_0000_0000,
    ensures
        low % 58 != moved % 58,
{
}

/// A step of 58, 116, 174 or 232 in the counter changes the first symbol of
/// the mixed half.
proof fn lemma_mixed_residue_moves(a: u64, b: u64)
    requires
        b - a == 58 || b - a == 116 || b - a == 174 || b - a == 232,
    ensures
        mixed(a) % 58 != mixed(b) % 58,
{
    let g: int = 0x9E3779B97F4A7C15;
    let m: int = 0x1_0000_0000_0000_0000;
    let x: int = a * g;
    let y: int = b * g;
    assert(0 <= x) by (nonlinear_arith)
        requires
            x == a * g,
            0 <= a,
            0 <= g,
    ;
    assert(y == x + (b - a) * g) by (nonlinear_arith)
        requires
            x == a * g,
            y == b * g,
    ;
    let c: int = if b - a == 58 {
        0xd8919406d6e01cc2
    } else if b - a == 116 {
        0xb123280dadc03984
    } else if b - a == 174 {
        0x89b4bc1484a05646
    } else {
        0x6246501b5b807308
    };
    let turns: int = if b - a == 58 {
        35
    } else if b - a == 116 {
        71
    } else if b - a == 174 {
        107
    } else {
        143
    };
    assert(y == m * turns + (x + c));
    vstd::arithmetic::div_mod::lemma_mod_multiples_vanish(turns, x + c, m);
    lemma_wrapped_move(x, c);
    lemma_moves_change_residue(x % m, y % m, c);
}

/// No two counters within [`DISTINCT_SEED_SPAN`] of each other have the same
/// seed: the first two symbols fix the counter up to a multiple of 58 below
/// 256, and the ninth symbol tells those apart.
pub proof fn lemma_nearby_seeds_differ(a: u64, b: u64)
    requires
        a < b,
        b - a < DISTINCT_SEED_SPAN,
    ensures
        seed_bytes(a) != seed_bytes(b),
{
    if seed_bytes(a) == seed_bytes(b) {
        assert(seed_bytes(a)[0] == symbol_at(a, 0) && seed_bytes(b)[0] == symbol_at(b, 0));
        assert(seed_bytes(a)[1] == symbol_at(a, 1) && seed_bytes(b)[1] == symbol_at(b, 1));
        assert(seed_bytes(a)[8] == symbol_at(mixed(a), 0));
        assert(seed_bytes(b)[8] == symbol_at(mixed(b), 0));
        lemma_symbols_tell_residues(a, b);
        lemma_symbols_tell_residues(mixed(a), mixed(b));
        lemma_close_residues(a as int, b as int);
        lemma_mixed_residue_moves(a, b);
    }
}

/// Shifting right by a whole number of bytes and then by one more byte is one
/// shift by the sum.
proof fn lemma_shift_by_bytes(x: u64, k: u64)
    by (bit_vector)
    requires
        k < 8,
    ensures
        x >> 0u64 == x,
        (x >> ((8 * k) as u64)) >> 8u64 == x >> ((8 * (k + 1)) as u64),
{
}

/// Computes the seed of `counter`.
pub fn generate_seed_from_counter(counter: u64) -> (seed: [u8; 16])
    ensures
        seed@ == seed_bytes(counter),
        forall|i: int| 0 <= i < 16 ==> is_seed_symbol(#[trigger] seed@[i]),
{
    let mut seed: [u8; 16] = [0u8; 16];
    let mut state1: u64 = counter;
    let mut state2: u64 = counter.wrapping_mul(GOLDEN_RATIO);
    let mut i: usize = 0;
    proof {
        lemma_shift_by_bytes(counter, 0);
        lemma_shift_by_bytes(mixed(counter), 0);
    }
    while i < 8
        invariant
            0 <= i <= 8,
            state1 == counter >> ((8 * i) as u64),
            state2 == mixed(counter) >> ((8 * i) as u64),
            forall|j: int| 0 <= j < i ==> seed@[j] == symbol_at(counter, j),
            forall|j: int| 0 <= j < i ==> seed@[j + 8] == symbol_at(mixed(counter), j),
        decreases 8 - i,
    {
        proof {
            lemma_shift_by_bytes(counter, i as u64);
            lemma_shift_by_bytes(mixed(counter), i as u64);
        }
        seed[i] = SEED_ALPHABET[(state1 % SEED_ALPHABET_LEN) as usize];
        seed[i + 8] = SEED_ALPHABET[(state2 % SEED_ALPHABET_LEN) as usize];
        state1 = state1 >> 8;
        state2 = state2 >> 8;
        i = i + 1;
    }
    proof {
        lemma_seed_symbols(counter);
    }
    seed
}

} // verus!
