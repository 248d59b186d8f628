//! Text as the library sees it: a `str` is a sequence of characters whose
//! UTF-8 bytes can be compared directly, and a run of ASCII bytes is a text.

use vstd::prelude::*;
use vstd::slice::slice_index_get;
use vstd::utf8::*;

verus! {

/// Whether every byte is below 128.
pub open spec fn is_ascii_bytes(bytes: Seq<u8>) -> bool {
    forall|i: int| 0 <= i < bytes.len() ==> #[trigger] bytes[i] < 128
}

/// ASCII bytes read as characters, one for one.
pub open spec fn ascii_chars(bytes: Seq<u8>) -> Seq<char> {
    Seq::new(bytes.len(), |i: int| bytes[i] as char)
}

/// What a text is compared as: itself, or its lower-case form when case is
/// ignored.
pub open spec fn folded(text: Seq<char>, case_insensitive: bool) -> Seq<char> {
    if case_insensitive {
        lowercase_of(text)
    } else {
        text
    }
}

/// The lower-case form of a text, as `str::to_lowercase` computes it.
pub uninterp spec fn lowercase_of(text: Seq<char>) -> Seq<char>;

/// `str::to_lowercase`: the lower-case equivalent of `text` as a new string.
#[verifier::external_body]
fn to_lowercase(text: &str) -> (lowered: String)
    ensures
        lowered@ == lowercase_of(text@),
{
    text.to_lowercase()
}

/// `core::str::from_utf8`: succeeds exactly on well-formed UTF-8, and the text
/// it returns is made of the given bytes.
#[verifier::external_body]
fn str_from_utf8<'a>(bytes: &'a [u8]) -> (text: Option<&'a str>)
    ensures
        text is Some <==> valid_utf8(bytes@),
        text matches Some(s) ==> encode_utf8(s@) == bytes@,
{
    core::str::from_utf8(bytes).ok()
}

/// ASCII bytes are well-formed UTF-8 and decode to themselves.
pub proof fn lemma_ascii_bytes_are_text(bytes: Seq<u8>)
    requires
        is_ascii_bytes(bytes),
    ensures
        valid_utf8(bytes),
        encode_utf8(ascii_chars(bytes)) == bytes,
        decode_utf8(bytes) == ascii_chars(bytes),
{
    let chars = ascii_chars(bytes);
    assert(is_ascii_chars(chars));
    is_ascii_chars_encode_utf8(chars);
    assert(encode_utf8(chars) =~= bytes);
    encode_utf8_valid_utf8(chars);
    encode_utf8_decode_utf8(chars);
}

/// Encoding distributes over concatenation.
pub proof fn lemma_encode_concat(a: Seq<char>, b: Seq<char>)
    ensures
        encode_utf8(a + b) == encode_utf8(a) + encode_utf8(b),
    decreases a.len(),
{
    if a.len() == 0 {
        assert(a + b =~= b);
        assert(encode_utf8(a) + encode_utf8(b) =~= encode_utf8(b));
    } else {
        lemma_encode_concat(a.drop_first(), b);
        assert((a + b).drop_first() =~= a.drop_first() + b);
        assert(encode_utf8(a + b) =~= encode_utf8(a) + encode_utf8(b));
    }
}

/// A well-formed byte string that begins another one ends on a character
/// boundary of it.
proof fn lemma_prefix_ends_on_boundary(a: Seq<u8>, b: Seq<u8>)
    requires
        valid_utf8(a),
        valid_utf8(b),
        a.is_prefix_of(b),
    ensures
        is_char_boundary(b, a.len() as int),
    decreases a.len(),
{
    if a.len() != 0 {
        let width = length_of_first_scalar(a);
        assert(a[0] == b[0]);
        assert(length_of_first_scalar(b) == width);
        assert(pop_first_scalar(a).is_prefix_of(pop_first_scalar(b)));
        lemma_prefix_ends_on_boundary(pop_first_scalar(a), pop_first_scalar(b));
    }
}

/// One text begins another exactly when its UTF-8 bytes begin the other's.
pub proof fn lemma_prefix_by_bytes(pattern: Seq<char>, text: Seq<char>)
    ensures
        encode_utf8(pattern).is_prefix_of(encode_utf8(text)) <==> pattern.is_prefix_of(text),
{
    let pattern_bytes = encode_utf8(pattern);
    let text_bytes = encode_utf8(text);
    encode_utf8_valid_utf8(pattern);
    encode_utf8_valid_utf8(text);
    encode_utf8_decode_utf8(pattern);
    encode_utf8_decode_utf8(text);
    if pattern.is_prefix_of(text) {
        let rest = text.subrange(pattern.len() as int, text.len() as int);
        assert(text =~= pattern + rest);
        lemma_encode_concat(pattern, rest);
    }
    if pattern_bytes.is_prefix_of(text_bytes) {
        let cut = pattern_bytes.len() as int;
        lemma_prefix_ends_on_boundary(pattern_bytes, text_bytes);
        decode_utf8_split(text_bytes, cut);
        assert(text_bytes.subrange(0, cut) =~= pattern_bytes);
        let rest = decode_utf8(text_bytes.subrange(cut, text_bytes.len() as int));
        assert(text =~= pattern + rest);
    }
}

/// One text ends another exactly when its UTF-8 bytes end the other's.
pub proof fn lemma_suffix_by_bytes(pattern: Seq<char>, text: Seq<char>)
    ensures
        encode_utf8(pattern).is_suffix_of(encode_utf8(text)) <==> pattern.is_suffix_of(text),
{
    let pattern_bytes = encode_utf8(pattern);
    let text_bytes = encode_utf8(text);
    encode_utf8_valid_utf8(pattern);
    encode_utf8_valid_utf8(text);
    encode_utf8_decode_utf8(pattern);
    encode_utf8_decode_utf8(text);
    if pattern.is_suffix_of(text) {
        let head = text.subrange(0, text.len() - pattern.len());
        assert(text =~= head + pattern);
        lemma_encode_concat(head, pattern);
    }
    if pattern_bytes.is_suffix_of(text_bytes) {
        let cut = text_bytes.len() - pattern_bytes.len();
        if pattern_bytes.len() == 0 {
            is_char_boundary_start_end_of_seq(text_bytes);
        } else {
            is_char_boundary_start_end_of_seq(pattern_bytes);
            is_char_boundary_iff_not_is_continuation_byte(pattern_bytes, 0);
            assert(text_bytes[cut] == pattern_bytes[0]);
            is_char_boundary_iff_not_is_continuation_byte(text_bytes, cut);
        }
        decode_utf8_split(text_bytes, cut);
        assert(text_bytes.subrange(cut, text_bytes.len() as int) =~= pattern_bytes);
        let head = decode_utf8(text_bytes.subrange(0, cut));
        assert(text =~= head + pattern);
    }
}

/// Reads ASCII bytes as a text without copying them.
pub(crate) fn ascii_text<'a>(bytes: &'a [u8]) -> (text: &'a str)
    requires
        is_ascii_bytes(bytes@),
    ensures
        text@ == ascii_chars(bytes@),
{
    proof {
        lemma_ascii_bytes_are_text(bytes@);
    }
    match str_from_utf8(bytes) {
        Some(text) => {
            proof {
                encode_utf8_decode_utf8(text@);
            }
            text
        },
        None => vstd::pervasive::unreached(),
    }
}

/// The text that a candidate is compared as: lower-cased when case is
/// ignored, unchanged otherwise.
pub fn maybe_bs58_aware_lowercase(pubkey: &str, case_insensitive: bool) -> (out: String)
    ensures
        out@ == folded(pubkey@, case_insensitive),
{
    if case_insensitive {
        to_lowercase(pubkey)
    } else {
        pubkey.to_owned()
    }
}

/// A pattern as it is stored: lower-cased once when case is ignored, kept as
/// given otherwise.
pub(crate) fn fold_pattern(pattern: String, case_insensitive: bool) -> (out: String)
    ensures
        out@ == folded(pattern@, case_insensitive),
{
    if case_insensitive {
        to_lowercase(pattern.as_str())
    } else {
        pattern
    }
}

/// Whether the UTF-8 bytes of `encoded` begin with `prefix_bytes`.
pub fn check_prefix_match(encoded: &str, prefix_bytes: &[u8]) -> (found: bool)
    ensures
        found == prefix_bytes@.is_prefix_of(encode_utf8(encoded@)),
{
    let encoded_bytes = encoded.as_bytes();
    if encoded_bytes.len() < prefix_bytes.len() {
        return false;
    }
    let mut i: usize = 0;
    while i < prefix_bytes.len()
        invariant
            0 <= i <= prefix_bytes@.len() <= encoded_bytes@.len(),
            encoded_bytes@ == encode_utf8(encoded@),
            forall|j: int| 0 <= j < i ==> encoded_bytes@[j] == prefix_bytes@[j],
        decreases prefix_bytes@.len() - i,
    {
        if *slice_index_get(encoded_bytes, i) != *slice_index_get(prefix_bytes, i) {
            return false;
        }
        i = i + 1;
    }
    assert(prefix_bytes@ =~= encoded_bytes@.subrange(0, prefix_bytes@.len() as int));
    true
}

/// Whether the UTF-8 bytes of `encoded` end with `suffix_bytes`.
pub fn check_suffix_match(encoded: &str, suffix_bytes: &[u8]) -> (found: bool)
    ensures
        found == suffix_bytes@.is_suffix_of(encode_utf8(encoded@)),
{
    let encoded_bytes = encoded.as_bytes();
    if encoded_bytes.len() < suffix_bytes.len() {
        return false;
    }
    let total: usize = encoded_bytes.len();
    let offset: usize = total - suffix_bytes.len();
    let mut i: usize = 0;
    while i < suffix_bytes.len()
        invariant
            0 <= i <= suffix_bytes@.len() <= encoded_bytes@.len(),
            total == encoded_bytes@.len(),
            offset == total - suffix_bytes@.len(),
            encoded_bytes@ == encode_utf8(encoded@),
            forall|j: int| 0 <= j < i ==> encoded_bytes@[offset + j] == suffix_bytes@[j],
        decreases suffix_bytes@.len() - i,
    {
        if *slice_index_get(encoded_bytes, offset + i) != *slice_index_get(suffix_bytes, i) {
            assert(encoded_bytes@.subrange(offset as int, encoded_bytes@.len() as int)[i as int]
                != suffix_bytes@[i as int]);
            return false;
        }
        i = i + 1;
    }
    assert(suffix_bytes@ =~= encoded_bytes@.subrange(
        offset as int,
        encoded_bytes@.len() as int,
    ));
    true
}

} // verus!
