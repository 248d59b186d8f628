use rust_vanity::seed::{
    generate_seed_from_counter, DISTINCT_SEED_SPAN, GOLDEN_RATIO, SEED_ALPHABET, SEED_LEN,
};
use std::collections::HashSet;

#[test]
fn seed_of_zero_is_all_first_symbol() {
    assert_eq!(&generate_seed_from_counter(0), b"AAAAAAAAAAAAAAAA");
}

#[test]
fn seed_has_exact_bytes_for_known_counters() {
    assert_eq!(&generate_seed_from_counter(1), b"BAAAAAAAh8C777Vt");
    assert_eq!(&generate_seed_from_counter(57), b"9AAAAAAA9ADm3riA");
    assert_eq!(&generate_seed_from_counter(58), b"AAAAAAAAg8Gizp3t");
    assert_eq!(&generate_seed_from_counter(255), b"ZAAAAAAAVWKoq1co");
    assert_eq!(&generate_seed_from_counter(256), b"aBAAAAAAcyU8Xd17");
    assert_eq!(&generate_seed_from_counter(1_000_000_000), b"UJEBAAAAr26MkVVT");
    assert_eq!(&generate_seed_from_counter(u64::MAX), b"Zf3mRV5Z3h1pUYkq");
}

#[test]
fn seed_is_sixteen_bytes() {
    assert_eq!(SEED_LEN, 16);
    assert_eq!(generate_seed_from_counter(42).len(), SEED_LEN);
}

#[test]
fn seed_is_deterministic() {
    for counter in [0u64, 1, 58, 12345, 1_000_000_000, u64::MAX - 1, u64::MAX] {
        assert_eq!(generate_seed_from_counter(counter), generate_seed_from_counter(counter));
    }
}

#[test]
fn seed_alphabet_has_58_distinct_unambiguous_symbols() {
    let distinct: HashSet<u8> = SEED_ALPHABET.iter().copied().collect();
    assert_eq!(distinct.len(), 58);
    for symbol in SEED_ALPHABET {
        assert!(symbol.is_ascii_alphanumeric());
        assert!(!b"0OIl".contains(&symbol));
    }
}

#[test]
fn seed_bytes_are_alphabet_symbols() {
    let mut counter: u64 = 0;
    for round in 0..5000u64 {
        for byte in generate_seed_from_counter(counter) {
            assert!(SEED_ALPHABET.contains(&byte), "counter {counter} gave byte {byte}");
        }
        counter = counter.wrapping_mul(6364136223846793005).wrapping_add(round + 1);
    }
    for counter in [u64::MAX, u64::MAX - 1, 1 << 63, (1 << 32) - 1] {
        for byte in generate_seed_from_counter(counter) {
            assert!(SEED_ALPHABET.contains(&byte));
        }
    }
}

#[test]
fn seed_first_half_follows_counter_bytes() {
    let counter: u64 = 0x0102_0304_0506_0708;
    let seed = generate_seed_from_counter(counter);
    for step in 0..8 {
        let index = ((counter >> (8 * step)) % 58) as usize;
        assert_eq!(seed[step], SEED_ALPHABET[index]);
    }
    let mixed = counter.wrapping_mul(0x9E3779B97F4A7C15);
    for step in 0..8 {
        let index = ((mixed >> (8 * step)) % 58) as usize;
        assert_eq!(seed[step + 8], SEED_ALPHABET[index]);
    }
}

#[test]
fn seeds_do_not_collide_from_zero() {
    let seeds: HashSet<[u8; 16]> = (0..10_000u64).map(generate_seed_from_counter).collect();
    assert_eq!(seeds.len(), 10_000);
}

#[test]
fn seeds_do_not_collide_from_a_billion() {
    let start: u64 = 1_000_000_000;
    let seeds: HashSet<[u8; 16]> =
        (start..start + 10_000).map(generate_seed_from_counter).collect();
    assert_eq!(seeds.len(), 10_000);
}

#[test]
fn seeds_within_the_distinct_span_differ() {
    assert_eq!(DISTINCT_SEED_SPAN, 57 * 256);
    for start in [0u64, 1_000_000_000, 123_456_789_012_345, u64::MAX - (DISTINCT_SEED_SPAN - 1)] {
        let last = start + (DISTINCT_SEED_SPAN - 1);
        let seeds: HashSet<[u8; 16]> = (start..=last).map(generate_seed_from_counter).collect();
        assert_eq!(seeds.len() as u64, DISTINCT_SEED_SPAN);
    }
}

/// Whether two 64-bit values whose difference is `difference` can yield the
/// same eight symbols. The values shifted right by `8 * step` bits differ by
/// the difference divided by `256^step`, rounded down, or by one more; equal
/// symbols need a difference that is a multiple of 58 at every step.
fn symbols_can_agree(difference: i128) -> bool {
    if difference.rem_euclid(58) != 0 {
        return false;
    }
    (1..8).all(|step| {
        let shifted = difference.div_euclid(1i128 << (8 * step));
        shifted.rem_euclid(58) == 0 || (shifted + 1).rem_euclid(58) == 0
    })
}

/// Walks every difference of two counters that agree in their first eight
/// symbols, from the highest byte down, and counts those whose mixed values
/// could agree too. `above` is the difference of the counters without their
/// `bytes_left` lowest bytes.
fn differences_that_could_collide(above: i128, bytes_left: u32, walked: &mut u64) -> u64 {
    if bytes_left == 0 {
        if above == 0 {
            return 0;
        }
        *walked += 1;
        // The mixed values differ by `above * GOLDEN_RATIO` modulo 2^64.
        let low = above.rem_euclid(1i128 << 64) as u64;
        let mixed = low.wrapping_mul(GOLDEN_RATIO) as i128;
        return (symbols_can_agree(mixed) || symbols_can_agree(mixed - (1i128 << 64))) as u64;
    }
    // The next byte may differ by anything from -255 to 255 that makes the
    // difference a multiple of 58 again.
    let smallest = (-256 * above).rem_euclid(58) - 58 * 5;
    let mut found = 0;
    for step in 0..10 {
        let byte_difference = smallest + 58 * step;
        if (-255..=255).contains(&byte_difference) {
            found += differences_that_could_collide(
                256 * above + byte_difference,
                bytes_left - 1,
                walked,
            );
        }
    }
    found
}

#[test]
fn no_two_counters_share_a_seed() {
    let mut walked: u64 = 0;
    let mut found: u64 = 0;
    for top in [-232i128, -174, -116, -58, 0, 58, 116, 174, 232] {
        found += differences_that_could_collide(top, 7, &mut walked);
    }
    assert_eq!(walked, 43_046_720);
    assert_eq!(found, 0);
}
