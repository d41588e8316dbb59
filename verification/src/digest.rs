//! SHA-256 digests and their lowercase hexadecimal rendering.

use sha2::{Digest, Sha256};
use vstd::prelude::*;

verus! {

/// The SHA-256 digest of a byte string, as the `sha2` crate computes it.
pub uninterp spec fn sha256(data: Seq<u8>) -> Seq<u8>;

/// Width of a SHA-256 digest in bytes.
pub const DIGEST_BYTES: usize = 32;

/// Width of a rendered digest in hexadecimal characters.
pub const DIGEST_HEX_CHARS: usize = 64;

/// Calls `sha2::Sha256::digest` (the one-shot form of `sha2::Digest`) and
/// copies the output array into a vector.
///
/// Trusted: the result is the SHA-256 digest of `data`, a function of the
/// input bytes alone, and it is 32 bytes wide (`Sha256` fixes its output
/// size to `U32`).
#[verifier::external_body]
pub(crate) fn sha256_bytes(data: &[u8]) -> (out: Vec<u8>)
    ensures
        out@ == sha256(data@),
        out@.len() == DIGEST_BYTES,
{
    Sha256::digest(data).to_vec()
}

/// The sixteen lowercase hexadecimal digits, in order of value.
pub open spec fn hex_alphabet() -> Seq<char> {
    seq!['0', '1', '2', '3', '4', '5', '6', '7', '8', '9', 'a', 'b', 'c', 'd', 'e', 'f']
}

/// The lowercase hexadecimal digit for a value below sixteen.
pub open spec fn hex_digit(nibble: int) -> char
    recommends
        0 <= nibble < 16,
{
    hex_alphabet()[nibble]
}

/// The character at position `i` of the rendering of `bytes`: even
/// positions hold the high half of a byte, odd positions the low half.
pub open spec fn hex_char_at(bytes: Seq<u8>, i: int) -> char
    recommends
        0 <= i < 2 * bytes.len(),
{
    if i % 2 == 0 {
        hex_digit(bytes[i / 2] as int / 16)
    } else {
        hex_digit(bytes[i / 2] as int % 16)
    }
}

/// Lowercase hexadecimal rendering: two digits per byte, high half first.
pub open spec fn hex_string(bytes: Seq<u8>) -> Seq<char> {
    Seq::new(2 * bytes.len(), |i: int| hex_char_at(bytes, i))
}

/// Whether every character of `text` is a lowercase hexadecimal digit.
pub open spec fn is_lower_hex(text: Seq<char>) -> bool {
    forall|i: int| 0 <= i < text.len() ==> hex_alphabet().contains(#[trigger] text[i])
}

/// A rendering has two characters for every byte, all of them lowercase
/// hexadecimal digits.
pub proof fn lemma_hex_string_format(bytes: Seq<u8>)
    ensures
        hex_string(bytes).len() == 2 * bytes.len(),
        is_lower_hex(hex_string(bytes)),
{
    let text = hex_string(bytes);
    assert forall|i: int| 0 <= i < text.len() implies hex_alphabet().contains(
        #[trigger] text[i],
    ) by {
        let byte = bytes[i / 2] as int;
        let nibble = if i % 2 == 0 {
            byte / 16
        } else {
            byte % 16
        };
        assert(0 <= nibble < 16);
        assert(text[i] == hex_alphabet()[nibble]);
    }
}

/// Whether two different byte strings have the same SHA-256 digest.
pub open spec fn collide(a: Seq<u8>, b: Seq<u8>) -> bool {
    a != b && sha256(a) == sha256(b)
}

/// Different values below sixteen have different digits.
pub proof fn lemma_hex_digit_injective(a: int, b: int)
    requires
        0 <= a < 16,
        0 <= b < 16,
        hex_digit(a) == hex_digit(b),
    ensures
        a == b,
{
}

/// Different byte strings have different renderings.
pub proof fn lemma_hex_string_injective(a: Seq<u8>, b: Seq<u8>)
    requires
        hex_string(a) == hex_string(b),
    ensures
        a == b,
{
    assert(hex_string(a).len() == 2 * a.len());
    assert(hex_string(b).len() == 2 * b.len());
    assert(a.len() == b.len());
    assert forall|k: int| 0 <= k < a.len() implies a[k] == b[k] by {
        assert(hex_string(a)[2 * k] == hex_char_at(a, 2 * k));
        assert(hex_string(b)[2 * k] == hex_char_at(b, 2 * k));
        assert(hex_string(a)[2 * k + 1] == hex_char_at(a, 2 * k + 1));
        assert(hex_string(b)[2 * k + 1] == hex_char_at(b, 2 * k + 1));
        assert(hex_char_at(a, 2 * k) == hex_digit(a[k] as int / 16));
        assert(hex_char_at(a, 2 * k + 1) == hex_digit(a[k] as int % 16));
        assert(hex_char_at(b, 2 * k) == hex_digit(b[k] as int / 16));
        assert(hex_char_at(b, 2 * k + 1) == hex_digit(b[k] as int % 16));
        lemma_hex_digit_injective(a[k] as int / 16, b[k] as int / 16);
        lemma_hex_digit_injective(a[k] as int % 16, b[k] as int % 16);
    }
    assert(a =~= b);
}

/// Renders `bytes` as lowercase hexadecimal, two digits per byte.
pub fn to_hex(bytes: &[u8]) -> (text: String)
    ensures
        text@ == hex_string(bytes@),
{
    let digits = "0123456789abcdef";
    proof {
        reveal_strlit("0123456789abcdef");
        assert(digits@ =~= hex_alphabet());
    }
    let mut text = String::new();
    let mut i: usize = 0;
    while i < bytes.len()
        invariant
            i <= bytes.len(),
            digits@ == hex_alphabet(),
            digits.is_ascii(),
            text@ == hex_string(bytes@.take(i as int)),
        decreases bytes.len() - i,
    {
        let byte = bytes[i];
        let high: usize = (byte / 16) as usize;
        let low: usize = (byte % 16) as usize;
        let ghost before = text@;
        text.append(digits.substring_ascii(high, high + 1));
        text.append(digits.substring_ascii(low, low + 1));
        proof {
            let grown = bytes@.take(i as int + 1);
            assert(text@ =~= before + seq![hex_digit(high as int)] + seq![hex_digit(low as int)]);
            assert(grown[i as int] == byte);
            assert forall|k: int| 0 <= k < 2 * i implies hex_char_at(grown, k) == hex_char_at(
                bytes@.take(i as int),
                k,
            ) by {
                assert(grown[k / 2] == bytes@.take(i as int)[k / 2]);
            }
            assert(text@ =~= hex_string(grown));
        }
        i += 1;
    }
    proof {
        assert(bytes@.take(i as int) =~= bytes@);
    }
    text
}

} // verus!
