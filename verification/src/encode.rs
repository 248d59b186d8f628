//! The base58 text of a key.

use crate::text::{ascii_chars, ascii_text};
use vstd::prelude::*;
use vstd::slice::slice_subrange;

verus! {

/// Upper bound on the length of the base58 text of a 32-byte key.
pub const ADDRESS_MAX_LEN: usize = 44;

/// Whether `b` is a symbol of the base58 alphabet: a digit or a letter other
/// than `0`, `O`, `I` and `l`.
pub open spec fn is_base58_symbol(b: u8) -> bool {
    ||| (0x31 <= b <= 0x39)
    ||| (0x41 <= b <= 0x5a && b != 0x49 && b != 0x4f)
    ||| (0x61 <= b <= 0x7a && b != 0x6c)
}

/// Whether `c` is a character of the base58 alphabet.
pub open spec fn is_base58_char(c: char) -> bool {
    ||| ('1' <= c <= '9')
    ||| ('A' <= c <= 'Z' && c != 'I' && c != 'O')
    ||| ('a' <= c <= 'z' && c != 'l')
}

/// Whether `text` has the form of an address: at most 44 characters, each of
/// the base58 alphabet.
pub open spec fn is_address(text: Seq<char>) -> bool {
    &&& text.len() <= ADDRESS_MAX_LEN
    &&& forall|i: int| 0 <= i < text.len() ==> is_base58_char(#[trigger] text[i])
}

/// The base58 encoding of a 32-byte key, as ASCII bytes.
pub uninterp spec fn base58_text(key: Seq<u8>) -> Seq<u8>;

/// The address of a key: its base58 encoding as a text.
pub open spec fn address_of(key: Seq<u8>) -> Seq<char> {
    ascii_chars(base58_text(key))
}

/// `five8::encode_32`: writes the base58 encoding of `key` to the front of
/// `out` and returns its length, which is at most 44. Every byte written is a
/// base58 symbol; the bytes behind them are left as they were.
#[verifier::external_body]
fn encode_32(key: &[u8; 32], out: &mut [u8; 44]) -> (len: u8)
    ensures
        len <= 44,
        final(out)@.subrange(0, len as int) == base58_text(key@),
        forall|i: int| 0 <= i < len ==> is_base58_symbol(#[trigger] final(out)@[i]),
        forall|i: int| len <= i < 44 ==> final(out)@[i] == old(out)@[i],
{
    five8::encode_32(key, out)
}

/// Encodes `key` into `buffer` and returns the encoded part of it as a text.
pub(crate) fn encode_into<'a>(key: &[u8; 32], buffer: &'a mut [u8; 44]) -> (address: &'a str)
    ensures
        address@ == address_of(key@),
        is_address(address@),
{
    let len: u8 = encode_32(key, buffer);
    let written: &[u8] = slice_subrange(buffer.as_slice(), 0, len as usize);
    ascii_text(written)
}

/// The address of `key`: at most 44 characters, each of the base58 alphabet.
pub fn encode_address(key: &[u8; 32]) -> (address: String)
    ensures
        address@ == address_of(key@),
        is_address(address@),
{
    let mut buffer: [u8; 44] = [0u8; 44];
    let address: &str = encode_into(key, &mut buffer);
    address.to_owned()
}

} // verus!
