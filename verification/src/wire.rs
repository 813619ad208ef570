//! Byte-level model of the wire format: one spec function per token shape,
//! the decimal notation used inside headers and length prefixes, and the
//! lemmas that pin down how a token can be read back.

use vstd::prelude::*;
use crate::types::RedisType;
use vstd::utf8::encode_utf8;

verus! {

/// The two-byte line terminator that closes every token.
pub open spec fn crlf() -> Seq<u8> {
    seq![13u8, 10u8]
}

/// Decimal notation of `n`, most significant digit first, with no leading
/// zeros beyond the value itself (`0` is written as the single digit `0`).
pub open spec fn dec_digits(n: nat) -> Seq<u8>
    decreases n,
{
    if n < 10 {
        seq![(48 + n) as u8]
    } else {
        dec_digits(n / 10) + seq![(48 + n % 10) as u8]
    }
}

/// The number a run of decimal digit bytes denotes.
pub open spec fn dec_value(digits: Seq<u8>) -> nat
    decreases digits.len(),
{
    if digits.len() == 0 {
        0
    } else {
        (dec_value(digits.drop_last()) * 10 + (digits.last() - 48)) as nat
    }
}

/// Decimal notation of a signed value: a leading `-` for negatives.
pub open spec fn dec_int(v: int) -> Seq<u8> {
    if v < 0 {
        seq![45u8] + dec_digits((-v) as nat)
    } else {
        dec_digits(v as nat)
    }
}

/// True when the payload holds neither byte of the line terminator, so it is
/// safe to emit on a single line.
pub open spec fn crlf_free(s: Seq<u8>) -> bool {
    forall|i: int| 0 <= i < s.len() ==> s[i] != 13u8 && s[i] != 10u8
}

pub open spec fn boolean_token(b: bool) -> Seq<u8> {
    seq![RedisType::BOOLEAN as u8] + (if b {
        seq![116u8]
    } else {
        seq![102u8]
    }) + crlf()
}

pub open spec fn integer_token(v: int) -> Seq<u8> {
    seq![RedisType::INTEGER as u8] + dec_int(v) + crlf()
}

pub open spec fn big_number_token(digits: Seq<u8>) -> Seq<u8> {
    seq![RedisType::BIG_NUMBER as u8] + digits + crlf()
}

pub open spec fn double_token(text: Seq<u8>) -> Seq<u8> {
    seq![RedisType::DOUBLE as u8] + text + crlf()
}

pub open spec fn simple_string_token(s: Seq<u8>) -> Seq<u8> {
    seq![RedisType::SIMPLE_STRING as u8] + s + crlf()
}

pub open spec fn bulk_string_token(payload: Seq<u8>) -> Seq<u8> {
    seq![RedisType::BULK_STRING as u8] + dec_digits(payload.len()) + crlf() + payload + crlf()
}

pub open spec fn null_token() -> Seq<u8> {
    seq![RedisType::NULL as u8] + crlf()
}

pub open spec fn array_header_token(count: nat) -> Seq<u8> {
    seq![RedisType::ARRAY as u8] + dec_digits(count) + crlf()
}

pub open spec fn map_header_token(count: nat) -> Seq<u8> {
    seq![RedisType::MAP as u8] + dec_digits(count) + crlf()
}

/// A single character on the wire: one that would break line framing (a
/// carriage return or line feed) travels length-prefixed as a bulk string,
/// every other character verbatim as a simple string.
pub open spec fn char_token(c: char) -> Seq<u8> {
    if c == '\r' || c == '\n' {
        bulk_string_token(encode_utf8(seq![c]))
    } else {
        simple_string_token(encode_utf8(seq![c]))
    }
}

/// The count a composite header announces: a missing count defaults to zero.
pub open spec fn header_count(len: Option<usize>) -> nat {
    match len {
        Some(n) => n as nat,
        None => 0,
    }
}

/// Every byte of a decimal notation is a digit, the notation is never empty,
/// and only the value zero starts with the digit zero.
pub proof fn lemma_dec_digits_shape(n: nat)
    ensures
        dec_digits(n).len() >= 1,
        forall|i: int| 0 <= i < dec_digits(n).len() ==> 48 <= #[trigger] dec_digits(n)[i] <= 57,
        n > 0 ==> dec_digits(n)[0] != 48,
    decreases n,
{
    if n >= 10 {
        lemma_dec_digits_shape(n / 10);
    }
}

/// Reading a decimal notation back yields the number it was written from.
pub proof fn lemma_dec_digits_value(n: nat)
    ensures
        dec_value(dec_digits(n)) == n,
    decreases n,
{
    if n < 10 {
        let s = dec_digits(n);
        assert(s.drop_last() =~= Seq::<u8>::empty());
        assert(s.last() == (48 + n) as u8);
        assert(dec_value(s.drop_last()) == 0);
        assert(dec_value(s) == (0 * 10 + ((48 + n) as u8 - 48)) as nat);
        assert(dec_value(s) == n);
    } else {
        lemma_dec_digits_value(n / 10);
        let s = dec_digits(n);
        let d = (48 + n % 10) as u8;
        assert(s.drop_last() =~= dec_digits(n / 10));
        assert(s.last() == d);
        assert(dec_value(s) == ((n / 10) * 10 + n % 10) as nat);
        assert((n / 10) * 10 + n % 10 == n) by (nonlinear_arith);
    }
}

/// Law: boolean encoding is total and bijective — `true` and `false` map
/// exactly to the two distinct tokens `#t` and `#f`, each closed by one
/// terminator.
pub proof fn lemma_boolean_bijective()
    ensures
        boolean_token(true) =~= seq![35u8, 116u8, 13u8, 10u8],
        boolean_token(false) =~= seq![35u8, 102u8, 13u8, 10u8],
        boolean_token(true) != boolean_token(false),
{
    assert(boolean_token(true) =~= seq![35u8, 116u8, 13u8, 10u8]);
    assert(boolean_token(false) =~= seq![35u8, 102u8, 13u8, 10u8]);
    assert(boolean_token(true)[1] == 116u8 && boolean_token(false)[1] == 102u8);
}

/// Law: the null token is exactly the null tag plus one terminator — three
/// bytes, independent of what kind of value was absent.
pub proof fn lemma_null_constant()
    ensures
        null_token() =~= seq![95u8, 13u8, 10u8],
{
}

/// Law: a bulk-string token announces exactly the payload's byte length, and
/// reading it back yields the original payload. The digits after the tag are
/// digits (never terminator bytes), they denote the payload's length, the
/// payload follows the first terminator, and exactly one terminator closes
/// the token.
pub proof fn lemma_bulk_string_round_trip(payload: Seq<u8>)
    ensures
        ({
            let t = bulk_string_token(payload);
            let d = dec_digits(payload.len());
            &&& t.len() == 1 + d.len() + 2 + payload.len() + 2
            &&& t[0] == 36u8
            &&& t.subrange(1, 1 + d.len() as int) == d
            &&& dec_value(d) == payload.len()
            &&& (forall|i: int| 1 <= i < 1 + d.len() ==> 48 <= #[trigger] t[i] <= 57)
            &&& t[1 + d.len() as int] == 13u8
            &&& t[2 + d.len() as int] == 10u8
            &&& t.subrange(3 + d.len() as int, 3 + d.len() + payload.len() as int) == payload
            &&& t.subrange(t.len() - 2, t.len() as int) == crlf()
        }),
{
    let t = bulk_string_token(payload);
    let d = dec_digits(payload.len());
    lemma_dec_digits_shape(payload.len());
    lemma_dec_digits_value(payload.len());
    assert(t =~= seq![36u8] + d + crlf() + payload + crlf());
    assert(t.subrange(1, 1 + d.len() as int) =~= d);
    assert(t.subrange(3 + d.len() as int, 3 + d.len() + payload.len() as int) =~= payload);
    assert(t.subrange(t.len() - 2, t.len() as int) =~= crlf());
}

} // verus!
