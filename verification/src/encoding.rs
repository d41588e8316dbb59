//! The byte string that a block's digest is taken over.
//!
//! The five hashed fields are written in a fixed order, each one framed so
//! that it can be read back without knowing the others: a number as its
//! decimal digits followed by `:`, a text as the decimal count of its UTF-8
//! bytes, `:`, and then the bytes themselves. No two different field tuples
//! are written as the same bytes.

use vstd::prelude::*;
use vstd::string::StringSliceAdditionalSpecFns;
use vstd::utf8::encode_utf8;
use vstd::utf8::encode_utf8_decode_utf8;

verus! {

/// The byte `:` that closes a number.
pub const FIELD_END: u8 = 58;

/// The byte `0`, the first of the ten decimal digits.
pub const DIGIT_ZERO: u8 = 48;

/// Whether a byte is one of the ASCII digits `0` to `9`.
pub open spec fn is_digit(byte: u8) -> bool {
    DIGIT_ZERO <= byte <= DIGIT_ZERO + 9
}

/// The decimal digits of `n` in ASCII, most significant first, without
/// leading zeros; zero is the single digit `0`.
pub open spec fn decimal(n: nat) -> Seq<u8>
    decreases n,
{
    if n < 10 {
        seq![(DIGIT_ZERO + n) as u8]
    } else {
        decimal(n / 10).push((DIGIT_ZERO + n % 10) as u8)
    }
}

/// The number that a run of ASCII digits denotes.
pub open spec fn decimal_value(digits: Seq<u8>) -> nat
    decreases digits.len(),
{
    if digits.len() == 0 {
        0
    } else {
        10 * decimal_value(digits.drop_last()) + (digits.last() - DIGIT_ZERO) as nat
    }
}

/// A number as it stands in the encoding: its digits, then `:`.
pub open spec fn number_field(n: nat) -> Seq<u8> {
    decimal(n).push(FIELD_END)
}

/// A text as it stands in the encoding: the count of its UTF-8 bytes as a
/// number, then the bytes.
pub open spec fn text_field(text: Seq<char>) -> Seq<u8> {
    number_field(encode_utf8(text).len()) + encode_utf8(text)
}

/// The bytes that are hashed for a block with these field values.
pub open spec fn preimage(
    index: nat,
    timestamp: nat,
    previous_hash: Seq<char>,
    payload: Seq<char>,
    nonce: nat,
) -> Seq<u8> {
    number_field(index) + (number_field(timestamp) + (text_field(previous_hash) + (text_field(
        payload,
    ) + number_field(nonce))))
}

/// `decimal` writes at least one byte, and only digits.
pub proof fn lemma_decimal_is_digits(n: nat)
    ensures
        decimal(n).len() >= 1,
        forall|i: int| 0 <= i < decimal(n).len() ==> is_digit(#[trigger] decimal(n)[i]),
    decreases n,
{
    if n >= 10 {
        lemma_decimal_is_digits(n / 10);
    }
}

/// Reading the digits of `n` back gives `n`.
pub proof fn lemma_decimal_value(n: nat)
    ensures
        decimal_value(decimal(n)) == n,
    decreases n,
{
    if n < 10 {
        let digits = decimal(n);
        assert(digits.drop_last() =~= Seq::<u8>::empty());
        assert(decimal_value(digits.drop_last()) == 0);
    } else {
        lemma_decimal_value(n / 10);
        let digits = decimal(n);
        assert(digits.drop_last() =~= decimal(n / 10));
    }
}

/// Different numbers have different digits.
pub proof fn lemma_decimal_injective(x: nat, y: nat)
    requires
        decimal(x) == decimal(y),
    ensures
        x == y,
{
    lemma_decimal_value(x);
    lemma_decimal_value(y);
}

/// A number at the head of a byte string can be read in one way only:
/// if two framed numbers, each followed by anything, are the same bytes,
/// then the numbers agree and so does what follows them.
pub proof fn lemma_number_field_unique(x: nat, after_x: Seq<u8>, y: nat, after_y: Seq<u8>)
    requires
        number_field(x) + after_x == number_field(y) + after_y,
    ensures
        x == y,
        after_x == after_y,
{
    let bytes = number_field(x) + after_x;
    let dx = decimal(x);
    let dy = decimal(y);
    lemma_decimal_is_digits(x);
    lemma_decimal_is_digits(y);
    assert forall|i: int| 0 <= i < dx.len() implies bytes[i] == dx[i] by {
        assert(number_field(x)[i] == dx[i]);
    }
    assert(bytes[dx.len() as int] == FIELD_END) by {
        assert(number_field(x)[dx.len() as int] == FIELD_END);
    }
    let other = number_field(y) + after_y;
    assert forall|i: int| 0 <= i < dy.len() implies other[i] == dy[i] by {
        assert(number_field(y)[i] == dy[i]);
    }
    assert(other[dy.len() as int] == FIELD_END) by {
        assert(number_field(y)[dy.len() as int] == FIELD_END);
    }
    if dx.len() < dy.len() {
        assert(is_digit(dy[dx.len() as int]));
        assert(false);
    }
    if dy.len() < dx.len() {
        assert(is_digit(dx[dy.len() as int]));
        assert(false);
    }
    assert(dx =~= dy);
    lemma_decimal_injective(x, y);
    assert(after_x =~= bytes.skip(dx.len() as int + 1));
    assert(after_y =~= other.skip(dy.len() as int + 1));
}

/// A text at the head of a byte string can be read in one way only.
pub proof fn lemma_text_field_unique(
    s: Seq<char>,
    after_s: Seq<u8>,
    t: Seq<char>,
    after_t: Seq<u8>,
)
    requires
        text_field(s) + after_s == text_field(t) + after_t,
    ensures
        s == t,
        after_s == after_t,
{
    let bs = encode_utf8(s);
    let bt = encode_utf8(t);
    assert(text_field(s) + after_s =~= number_field(bs.len()) + (bs + after_s));
    assert(text_field(t) + after_t =~= number_field(bt.len()) + (bt + after_t));
    lemma_number_field_unique(bs.len(), bs + after_s, bt.len(), bt + after_t);
    assert(bs =~= (bs + after_s).take(bs.len() as int));
    assert(bt =~= (bt + after_t).take(bt.len() as int));
    assert(after_s =~= (bs + after_s).skip(bs.len() as int));
    assert(after_t =~= (bt + after_t).skip(bt.len() as int));
    encode_utf8_decode_utf8(s);
    encode_utf8_decode_utf8(t);
}

/// The encoding is unambiguous: field tuples that are written as the same
/// bytes are the same tuple.
pub proof fn lemma_preimage_injective(
    index_a: nat,
    timestamp_a: nat,
    previous_hash_a: Seq<char>,
    payload_a: Seq<char>,
    nonce_a: nat,
    index_b: nat,
    timestamp_b: nat,
    previous_hash_b: Seq<char>,
    payload_b: Seq<char>,
    nonce_b: nat,
)
    requires
        preimage(index_a, timestamp_a, previous_hash_a, payload_a, nonce_a) == preimage(
            index_b,
            timestamp_b,
            previous_hash_b,
            payload_b,
            nonce_b,
        ),
    ensures
        index_a == index_b,
        timestamp_a == timestamp_b,
        previous_hash_a == previous_hash_b,
        payload_a == payload_b,
        nonce_a == nonce_b,
{
    let tail_a3 = text_field(payload_a) + number_field(nonce_a);
    let tail_b3 = text_field(payload_b) + number_field(nonce_b);
    let tail_a2 = text_field(previous_hash_a) + tail_a3;
    let tail_b2 = text_field(previous_hash_b) + tail_b3;
    let tail_a1 = number_field(timestamp_a) + tail_a2;
    let tail_b1 = number_field(timestamp_b) + tail_b2;
    lemma_number_field_unique(index_a, tail_a1, index_b, tail_b1);
    lemma_number_field_unique(timestamp_a, tail_a2, timestamp_b, tail_b2);
    lemma_text_field_unique(previous_hash_a, tail_a3, previous_hash_b, tail_b3);
    lemma_text_field_unique(
        payload_a,
        number_field(nonce_a),
        payload_b,
        number_field(nonce_b),
    );
    let none = Seq::<u8>::empty();
    assert(number_field(nonce_a) + none =~= number_field(nonce_a));
    assert(number_field(nonce_b) + none =~= number_field(nonce_b));
    lemma_number_field_unique(nonce_a, none, nonce_b, none);
}

/// Appends the decimal digits of `n` to `out`.
fn push_decimal(out: &mut Vec<u8>, n: u64)
    ensures
        final(out)@ == old(out)@ + decimal(n as nat),
    decreases n,
{
    if n >= 10 {
        push_decimal(out, n / 10);
    }
    let digit: u8 = DIGIT_ZERO + (n % 10) as u8;
    out.push(digit);
    proof {
        if n >= 10 {
            assert(final(out)@ =~= old(out)@ + decimal(n as nat));
        } else {
            assert(final(out)@ =~= old(out)@ + decimal(n as nat));
        }
    }
}

/// Appends a framed number to `out`.
fn push_number(out: &mut Vec<u8>, n: u64)
    ensures
        final(out)@ == old(out)@ + number_field(n as nat),
{
    push_decimal(out, n);
    out.push(FIELD_END);
    proof {
        assert(final(out)@ =~= old(out)@ + number_field(n as nat));
    }
}

/// Appends a framed text to `out`.
fn push_text(out: &mut Vec<u8>, text: &str)
    ensures
        final(out)@ == old(out)@ + text_field(text@),
{
    let bytes = text.as_bytes();
    push_number(out, bytes.len() as u64);
    out.extend_from_slice(bytes);
    proof {
        assert(final(out)@ =~= old(out)@ + text_field(text@));
    }
}

/// Writes the bytes that are hashed for a block with these field values.
pub fn encode_fields(
    index: u64,
    timestamp: u64,
    previous_hash: &str,
    payload: &str,
    nonce: u64,
) -> (bytes: Vec<u8>)
    ensures
        bytes@ == preimage(
            index as nat,
            timestamp as nat,
            previous_hash@,
            payload@,
            nonce as nat,
        ),
{
    let mut bytes: Vec<u8> = Vec::new();
    push_number(&mut bytes, index);
    push_number(&mut bytes, timestamp);
    push_text(&mut bytes, previous_hash);
    push_text(&mut bytes, payload);
    push_number(&mut bytes, nonce);
    proof {
        assert(bytes@ =~= preimage(
            index as nat,
            timestamp as nat,
            previous_hash@,
            payload@,
            nonce as nat,
        ));
    }
    bytes
}

} // verus!
