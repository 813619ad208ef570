//! The primitive writer: emits one complete, self-terminating wire token per
//! call into an in-memory byte buffer, and one dispatch method per value
//! category of the visitor contract. Every method states the exact bytes it
//! appends, in terms of the token model in `wire`.

use vstd::prelude::*;
use crate::error::Error;
use crate::wire::{
    array_header_token, big_number_token, boolean_token, bulk_string_token, char_token, crlf,
    crlf_free, dec_digits, dec_int, double_token, header_count, integer_token, map_header_token,
    null_token, simple_string_token,
};
use vstd::utf8::{char_is_scalar, char_u32_cast, encode_scalar, encode_utf8, valid_utf8};

verus! {

/// The UTF-8 encoding of a one-character sequence is the encoding of that
/// character's scalar value alone.
proof fn lemma_encode_utf8_single(c: char)
    ensures
        encode_utf8(seq![c]) == encode_scalar(c as u32),
{
    reveal_with_fuel(encode_utf8, 2);
    assert(seq![c].drop_first() =~= Seq::<char>::empty());
    assert(seq![c][0] == c);
    assert(encode_utf8(seq![c]) =~= encode_scalar(c as u32));
}

/// The UTF-8 bytes of a single character.
fn utf8_bytes_of_char(c: char) -> (v: Vec<u8>)
    ensures
        v@ == encode_utf8(seq![c]),
{
    let u = c as u32;
    proof {
        char_is_scalar(c);
    }
    let mut v: Vec<u8> = Vec::new();
    if u <= 0x7f {
        v.push((u & 0x7F) as u8);
    } else if u <= 0x7ff {
        v.push(0xC0u8 | (((u >> 6) & 0x1F) as u8));
        v.push(0x80u8 | ((u & 0x3F) as u8));
    } else if u <= 0xffff {
        v.push(0xE0u8 | (((u >> 12) & 0x0F) as u8));
        v.push(0x80u8 | (((u >> 6) & 0x3F) as u8));
        v.push(0x80u8 | ((u & 0x3F) as u8));
    } else {
        v.push(0xF0u8 | (((u >> 18) & 0x7) as u8));
        v.push(0x80u8 | (((u >> 12) & 0x3F) as u8));
        v.push(0x80u8 | (((u >> 6) & 0x3F) as u8));
        v.push(0x80u8 | ((u & 0x3F) as u8));
    }
    proof {
        lemma_encode_utf8_single(c);
        assert(v@ =~= encode_scalar(u));
    }
    v
}

/// The encoding of a character other than the two line-terminator characters
/// never holds a terminator byte, so it is safe in simple-string framing.
proof fn lemma_char_utf8_crlf_free(c: char)
    requires
        c != '\r',
        c != '\n',
    ensures
        crlf_free(encode_utf8(seq![c])),
{
    char_is_scalar(c);
    let u = c as u32;
    char_u32_cast(c, u);
    assert(u != 13 && u != 10);
    lemma_encode_utf8_single(c);
    if u <= 0x7f {
        assert((u & 0x7F) == u) by (bit_vector)
            requires
                u <= 0x7f,
        ;
    } else {
        assert(0xC0u8 | (((u >> 6) & 0x1F) as u8) >= 0xC0) by (bit_vector);
        assert(0xE0u8 | (((u >> 12) & 0x0F) as u8) >= 0xE0) by (bit_vector);
        assert(0xF0u8 | (((u >> 18) & 0x7) as u8) >= 0xF0) by (bit_vector);
        assert(0x80u8 | ((u & 0x3F) as u8) >= 0x80) by (bit_vector);
        assert(0x80u8 | (((u >> 6) & 0x3F) as u8) >= 0x80) by (bit_vector);
        assert(0x80u8 | (((u >> 12) & 0x3F) as u8) >= 0x80) by (bit_vector);
    }
}

/// Relies on `std::str::from_utf8`: it succeeds exactly on the byte
/// sequences that are valid UTF-8.
#[verifier::external_body]
fn utf8_check(v: &[u8]) -> (r: bool)
    ensures
        r == valid_utf8(v@),
{
    std::str::from_utf8(v).is_ok()
}

/// A writer that appends wire tokens to an in-memory buffer. One encoding
/// pass owns the writer for its whole duration; the buffer only ever grows.
pub struct Serializer {
    buf: Vec<u8>,
}

impl View for Serializer {
    type V = Seq<u8>;

    closed spec fn view(&self) -> Seq<u8> {
        self.buf@
    }
}

impl Serializer {
    /// A writer with an empty output buffer.
    pub fn new() -> (s: Serializer)
        ensures
            s@ == Seq::<u8>::empty(),
    {
        Serializer { buf: Vec::new() }
    }

    /// The bytes written so far.
    pub fn output(&self) -> (r: &Vec<u8>)
        ensures
            r@ == self@,
    {
        &self.buf
    }

    /// Gives up the writer and hands the written bytes over.
    pub fn into_bytes(self) -> (r: Vec<u8>)
        ensures
            r@ == self@,
    {
        self.buf
    }

    /// Appends the line terminator.
    fn push_crlf(&mut self)
        ensures
            final(self)@ == old(self)@ + crlf(),
    {
        self.buf.push(13u8);
        self.buf.push(10u8);
        assert(self.buf@ =~= old(self)@ + crlf());
    }

    /// Appends a slice of payload bytes verbatim.
    fn push_slice(&mut self, bytes: &[u8])
        ensures
            final(self)@ == old(self)@ + bytes@,
    {
        self.buf.extend_from_slice(bytes);
        proof {
            assert forall|i: int|
                old(self)@.len() <= i < self.buf@.len() implies self.buf@[i] == bytes@[i - old(
                self,
            )@.len()] by {
                assert(vstd::pervasive::cloned::<u8>(bytes@[i - old(self)@.len()], self.buf@[i]));
            }
            assert(self.buf@ =~= old(self)@ + bytes@);
        }
    }

    /// Appends the decimal notation of `n`, most significant digit first.
    fn push_dec_u64(&mut self, n: u64)
        ensures
            final(self)@ == old(self)@ + dec_digits(n as nat),
        decreases n,
    {
        if n >= 10 {
            self.push_dec_u64(n / 10);
        }
        self.buf.push(48u8 + (n % 10) as u8);
        assert(self.buf@ =~= old(self)@ + dec_digits(n as nat));
    }

    /// Appends the decimal notation of a length or count.
    fn push_dec_usize(&mut self, n: usize)
        ensures
            final(self)@ == old(self)@ + dec_digits(n as nat),
    {
        assert((n as u64) as nat == n as nat);
        self.push_dec_u64(n as u64);
    }

    /// Emits an integer token: the integer tag, the decimal notation of the
    /// value with a leading `-` for negatives, terminator.
    pub fn write_integer(&mut self, value: i64) -> (r: Result<(), Error>)
        ensures
            r is Ok,
            final(self)@ == old(self)@ + integer_token(value as int),
    {
        self.buf.push(58u8);
        if value < 0 {
            self.buf.push(45u8);
            let magnitude: u64 = (-(value as i128)) as u64;
            assert(magnitude as nat == (-(value as int)) as nat);
            self.push_dec_u64(magnitude);
        } else {
            self.push_dec_u64(value as u64);
        }
        self.push_crlf();
        assert(self.buf@ =~= old(self)@ + integer_token(value as int));
        Ok(())
    }

    /// Emits a big-number token: the big-number tag, the caller-supplied
    /// decimal text verbatim, terminator. The writer does not validate the
    /// text.
    pub fn write_big_number(&mut self, value: &[u8]) -> (r: Result<(), Error>)
        ensures
            r is Ok,
            final(self)@ == old(self)@ + big_number_token(value@),
    {
        self.buf.push(40u8);
        self.push_slice(value);
        self.push_crlf();
        assert(self.buf@ =~= old(self)@ + big_number_token(value@));
        Ok(())
    }

    /// Emits a double token: the double tag, the caller-supplied canonical
    /// decimal text of the value verbatim, terminator. Turning a
    /// floating-point value into that text is the caller's business; the
    /// writer only frames it.
    pub fn write_double(&mut self, value: &[u8]) -> (r: Result<(), Error>)
        ensures
            r is Ok,
            final(self)@ == old(self)@ + double_token(value@),
    {
        self.buf.push(44u8);
        self.push_slice(value);
        self.push_crlf();
        assert(self.buf@ =~= old(self)@ + double_token(value@));
        Ok(())
    }

    /// Emits a boolean token: the boolean tag, `t` or `f`, terminator.
    pub fn write_boolean(&mut self, value: bool) -> (r: Result<(), Error>)
        ensures
            r is Ok,
            final(self)@ == old(self)@ + boolean_token(value),
    {
        self.buf.push(35u8);
        self.buf.push(if value { 116u8 } else { 102u8 });
        self.push_crlf();
        assert(self.buf@ =~= old(self)@ + boolean_token(value));
        Ok(())
    }

    /// Emits a simple-string token: the simple-string tag, the payload
    /// verbatim, terminator. The caller must keep terminator bytes out of the
    /// payload — simple-string framing has no length prefix, so such a byte
    /// would end the token early.
    pub fn write_simple_string(&mut self, value: &[u8]) -> (r: Result<(), Error>)
        requires
            crlf_free(value@),
        ensures
            r is Ok,
            final(self)@ == old(self)@ + simple_string_token(value@),
    {
        self.buf.push(43u8);
        self.push_slice(value);
        self.push_crlf();
        assert(self.buf@ =~= old(self)@ + simple_string_token(value@));
        Ok(())
    }

    /// Emits a bulk-string token: the bulk-string tag, the payload's byte
    /// length in decimal, terminator, the payload itself, terminator. The
    /// length counts bytes, never characters.
    pub fn write_bulk_string(&mut self, value: &[u8]) -> (r: Result<(), Error>)
        ensures
            r is Ok,
            final(self)@ == old(self)@ + bulk_string_token(value@),
    {
        self.buf.push(36u8);
        self.push_dec_usize(value.len());
        self.push_crlf();
        self.push_slice(value);
        self.push_crlf();
        assert(self.buf@ =~= old(self)@ + bulk_string_token(value@));
        Ok(())
    }

    /// Emits the null token: the null tag, terminator, no payload.
    pub fn write_null(&mut self) -> (r: Result<(), Error>)
        ensures
            r is Ok,
            final(self)@ == old(self)@ + null_token(),
    {
        self.buf.push(95u8);
        self.push_crlf();
        assert(self.buf@ =~= old(self)@ + null_token());
        Ok(())
    }

    /// Emits an array header: the array tag, the element count in decimal
    /// (zero when absent), terminator. The caller owes exactly that many
    /// element tokens afterwards.
    pub fn write_array_header(&mut self, len: Option<usize>) -> (r: Result<(), Error>)
        ensures
            r is Ok,
            final(self)@ == old(self)@ + array_header_token(header_count(len)),
    {
        let n = match len {
            Some(n) => n,
            None => 0,
        };
        self.buf.push(42u8);
        self.push_dec_usize(n);
        self.push_crlf();
        assert(self.buf@ =~= old(self)@ + array_header_token(header_count(len)));
        Ok(())
    }

    /// Emits a map header: the map tag, the pair count in decimal (zero when
    /// absent), terminator. The caller owes exactly that many key-then-value
    /// token pairs afterwards; the count counts pairs, not items.
    pub fn write_map_header(&mut self, len: Option<usize>) -> (r: Result<(), Error>)
        ensures
            r is Ok,
            final(self)@ == old(self)@ + map_header_token(header_count(len)),
    {
        let n = match len {
            Some(n) => n,
            None => 0,
        };
        self.buf.push(37u8);
        self.push_dec_usize(n);
        self.push_crlf();
        assert(self.buf@ =~= old(self)@ + map_header_token(header_count(len)));
        Ok(())
    }

    /// A boolean travels as a boolean token.
    pub fn serialize_bool(&mut self, v: bool) -> (r: Result<(), Error>)
        ensures
            r is Ok,
            final(self)@ == old(self)@ + boolean_token(v),
    {
        self.write_boolean(v)
    }

    /// A signed 8-bit value travels as an integer token.
    pub fn serialize_i8(&mut self, v: i8) -> (r: Result<(), Error>)
        ensures
            r is Ok,
            final(self)@ == old(self)@ + integer_token(v as int),
    {
        self.write_integer(v as i64)
    }

    /// A signed 16-bit value travels as an integer token.
    pub fn serialize_i16(&mut self, v: i16) -> (r: Result<(), Error>)
        ensures
            r is Ok,
            final(self)@ == old(self)@ + integer_token(v as int),
    {
        self.write_integer(v as i64)
    }

    /// A signed 32-bit value travels as an integer token.
    pub fn serialize_i32(&mut self, v: i32) -> (r: Result<(), Error>)
        ensures
            r is Ok,
            final(self)@ == old(self)@ + integer_token(v as int),
    {
        self.write_integer(v as i64)
    }

    /// A signed 64-bit value travels as an integer token.
    pub fn serialize_i64(&mut self, v: i64) -> (r: Result<(), Error>)
        ensures
            r is Ok,
            final(self)@ == old(self)@ + integer_token(v as int),
    {
        self.write_integer(v)
    }

    /// An unsigned 8-bit value fits a signed integer token.
    pub fn serialize_u8(&mut self, v: u8) -> (r: Result<(), Error>)
        ensures
            r is Ok,
            final(self)@ == old(self)@ + integer_token(v as int),
    {
        self.write_integer(v as i64)
    }

    /// An unsigned 16-bit value fits a signed integer token.
    pub fn serialize_u16(&mut self, v: u16) -> (r: Result<(), Error>)
        ensures
            r is Ok,
            final(self)@ == old(self)@ + integer_token(v as int),
    {
        self.write_integer(v as i64)
    }

    /// An unsigned 32-bit value travels as a big-number token, although it
    /// would fit a signed integer token: a deliberate routing choice kept
    /// for wire compatibility.
    pub fn serialize_u32(&mut self, v: u32) -> (r: Result<(), Error>)
        ensures
            r is Ok,
            final(self)@ == old(self)@ + big_number_token(dec_digits(v as nat)),
    {
        self.buf.push(40u8);
        self.push_dec_u64(v as u64);
        self.push_crlf();
        assert(self.buf@ =~= old(self)@ + big_number_token(dec_digits(v as nat)));
        Ok(())
    }

    /// An unsigned 64-bit value that fits the signed 64-bit range travels as
    /// an integer token; one beyond that range cannot round-trip through a
    /// signed 64-bit integer, so it travels as a big-number token.
    pub fn serialize_u64(&mut self, v: u64) -> (r: Result<(), Error>)
        ensures
            r is Ok,
            v <= i64::MAX ==> final(self)@ == old(self)@ + integer_token(v as int),
            v > i64::MAX ==> final(self)@ == old(self)@ + big_number_token(dec_digits(v as nat)),
    {
        if v <= i64::MAX as u64 {
            self.write_integer(v as i64)
        } else {
            self.buf.push(40u8);
            self.push_dec_u64(v);
            self.push_crlf();
            assert(self.buf@ =~= old(self)@ + big_number_token(dec_digits(v as nat)));
            Ok(())
        }
    }

    /// A character that would break line framing (carriage return or line
    /// feed) travels length-prefixed as a bulk string; every other character
    /// travels as a simple string.
    pub fn serialize_char(&mut self, v: char) -> (r: Result<(), Error>)
        ensures
            r is Ok,
            final(self)@ == old(self)@ + char_token(v),
    {
        let bytes = utf8_bytes_of_char(v);
        if v == '\r' || v == '\n' {
            self.write_bulk_string(bytes.as_slice())
        } else {
            proof {
                lemma_char_utf8_crlf_free(v);
            }
            self.write_simple_string(bytes.as_slice())
        }
    }

    /// Text travels as a bulk string of its UTF-8 bytes; the length prefix
    /// counts those bytes, not the characters.
    pub fn serialize_str(&mut self, v: &str) -> (r: Result<(), Error>)
        ensures
            r is Ok,
            final(self)@ == old(self)@ + bulk_string_token(encode_utf8(v@)),
    {
        self.write_bulk_string(v.as_bytes())
    }

    /// A byte payload stands for text, so it must be valid UTF-8: a valid
    /// payload travels as a bulk string, an invalid one is rejected with the
    /// UTF-8 error and the output is left untouched.
    pub fn serialize_bytes(&mut self, v: &[u8]) -> (r: Result<(), Error>)
        ensures
            r is Ok <==> valid_utf8(v@),
            valid_utf8(v@) ==> final(self)@ == old(self)@ + bulk_string_token(v@),
            !valid_utf8(v@) ==> final(self)@ == old(self)@ && r == Err::<(), Error>(Error::Utf8),
    {
        if utf8_check(v) {
            self.write_bulk_string(v)
        } else {
            Err(Error::Utf8)
        }
    }

    /// An absent optional value travels as the null token.
    pub fn serialize_none(&mut self) -> (r: Result<(), Error>)
        ensures
            r is Ok,
            final(self)@ == old(self)@ + null_token(),
    {
        self.write_null()
    }

    /// A unit value travels as an empty sequence: an array header with count
    /// zero and nothing after it.
    pub fn serialize_unit(&mut self) -> (r: Result<(), Error>)
        ensures
            r is Ok,
            final(self)@ == old(self)@ + array_header_token(0),
    {
        self.write_array_header(None)
    }

    /// A named marker type with no fields travels as an empty map: a map
    /// header with count zero and nothing after it. Note the asymmetry with
    /// the unit value, which travels as an empty array.
    pub fn serialize_unit_struct(&mut self, _name: &str) -> (r: Result<(), Error>)
        ensures
            r is Ok,
            final(self)@ == old(self)@ + map_header_token(0),
    {
        self.write_map_header(Some(0))
    }

    /// A tagged choice that carries no data travels as a bulk string of the
    /// chosen alternative's name.
    pub fn serialize_unit_variant(
        &mut self,
        _name: &str,
        _variant_index: u32,
        variant: &str,
    ) -> (r: Result<(), Error>)
        ensures
            r is Ok,
            final(self)@ == old(self)@ + bulk_string_token(encode_utf8(variant@)),
    {
        self.write_bulk_string(variant.as_bytes())
    }

    /// A sequence of `len` elements opens with an array header; the caller
    /// then encodes exactly `len` elements.
    pub fn serialize_seq(&mut self, len: Option<usize>) -> (r: Result<(), Error>)
        ensures
            r is Ok,
            final(self)@ == old(self)@ + array_header_token(header_count(len)),
    {
        self.write_array_header(len)
    }

    /// A fixed-size tuple opens with an array header for its length.
    pub fn serialize_tuple(&mut self, len: usize) -> (r: Result<(), Error>)
        ensures
            r is Ok,
            final(self)@ == old(self)@ + array_header_token(len as nat),
    {
        self.write_array_header(Some(len))
    }

    /// A positional record opens with an array header for its field count.
    pub fn serialize_tuple_struct(&mut self, _name: &str, len: usize) -> (r: Result<(), Error>)
        ensures
            r is Ok,
            final(self)@ == old(self)@ + array_header_token(len as nat),
    {
        self.write_array_header(Some(len))
    }

    /// A positional record inside a tagged variant opens with an array
    /// header for its field count; the variant name itself is not recorded.
    pub fn serialize_tuple_variant(
        &mut self,
        _name: &str,
        _variant_index: u32,
        _variant: &str,
        len: usize,
    ) -> (r: Result<(), Error>)
        ensures
            r is Ok,
            final(self)@ == old(self)@ + array_header_token(len as nat),
    {
        self.write_array_header(Some(len))
    }

    /// A keyed mapping of `len` pairs opens with a map header; the caller
    /// then encodes each key directly followed by its value.
    pub fn serialize_map(&mut self, len: Option<usize>) -> (r: Result<(), Error>)
        ensures
            r is Ok,
            final(self)@ == old(self)@ + map_header_token(header_count(len)),
    {
        self.write_map_header(len)
    }

    /// A field-named record opens with a map header for its field count; each
    /// field name travels as a bulk string before its value.
    pub fn serialize_struct(&mut self, _name: &str, len: usize) -> (r: Result<(), Error>)
        ensures
            r is Ok,
            final(self)@ == old(self)@ + map_header_token(len as nat),
    {
        self.write_map_header(Some(len))
    }

    /// A field-named record inside a tagged variant opens with a map header;
    /// its field names travel as simple strings — an intentional asymmetry
    /// with the plain record.
    pub fn serialize_struct_variant(
        &mut self,
        _name: &str,
        _variant_index: u32,
        _variant: &str,
        len: usize,
    ) -> (r: Result<(), Error>)
        ensures
            r is Ok,
            final(self)@ == old(self)@ + map_header_token(len as nat),
    {
        self.write_map_header(Some(len))
    }
}

} // verus!

