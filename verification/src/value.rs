//! The composite encoder: a value tree covering every category of the
//! visitor contract, the spec of its full wire encoding, and the recursive
//! encoder that emits it. The central invariant — every composite header
//! announces exactly the number of element or pair encodings that follow —
//! is stated and proved here.

use vstd::prelude::*;
use crate::error::Error;
use crate::ser::Serializer;
use crate::wire::{
    array_header_token, big_number_token, boolean_token, bulk_string_token, char_token, crlf_free,
    double_token, integer_token, map_header_token, null_token, simple_string_token,
};

verus! {

/// One node of a value tree, one variant per category of the visitor
/// contract. An optional value has no variant of its own: a present value
/// encodes exactly as the value it wraps, and an absent one as `Null`; named
/// wrappers around a single inner value are likewise unwrapped by the
/// traversal before the encoder sees them.
pub enum RespValue {
    /// A boolean.
    Boolean(bool),
    /// A signed value that fits the 64-bit integer token.
    Integer(i64),
    /// A number given as decimal text, for values outside the signed 64-bit
    /// range.
    BigNumber(Vec<u8>),
    /// A floating-point value, given as its canonical decimal text.
    Double(Vec<u8>),
    /// A single character.
    Character(char),
    /// Text that travels without a length prefix.
    SimpleString(Vec<u8>),
    /// A byte payload that travels length-prefixed.
    BulkString(Vec<u8>),
    /// An absent value.
    Null,
    /// The unit value: no data, no name.
    Unit,
    /// A named marker type with no fields.
    UnitStruct,
    /// A tagged choice among named alternatives, carrying no data; holds the
    /// chosen alternative's name.
    UnitVariant(Vec<u8>),
    /// An ordered sequence, tuple or positional record.
    Array(Vec<RespValue>),
    /// A keyed mapping, in the order the source supplied its pairs.
    Mapping(Vec<(RespValue, RespValue)>),
    /// A field-named record: (field name, field value) in declaration order.
    Struct(Vec<(Vec<u8>, RespValue)>),
    /// A field-named record inside a tagged variant; its field names travel
    /// as simple strings instead of bulk strings.
    StructVariant(Vec<(Vec<u8>, RespValue)>),
}

/// Well-formedness: every payload that travels in simple-string framing —
/// a simple string, a variant record's field name, and the verbatim decimal
/// texts — is free of line-terminator bytes, recursively.
pub open spec fn wf(v: RespValue) -> bool
    decreases v,
{
    match v {
        RespValue::BigNumber(d) => crlf_free(d@),
        RespValue::Double(d) => crlf_free(d@),
        RespValue::SimpleString(s) => crlf_free(s@),
        RespValue::Array(es) => forall|i: int| 0 <= i < es@.len() ==> wf(#[trigger] es@[i]),
        RespValue::Mapping(ps) => forall|i: int|
            0 <= i < ps@.len() ==> wf(#[trigger] ps@[i].0) && wf(ps@[i].1),
        RespValue::Struct(fs) => forall|i: int| 0 <= i < fs@.len() ==> wf(#[trigger] fs@[i].1),
        RespValue::StructVariant(fs) => forall|i: int|
            0 <= i < fs@.len() ==> crlf_free(#[trigger] fs@[i].0@) && wf(fs@[i].1),
        _ => true,
    }
}

/// The full wire encoding of a value tree, depth first, pre order: every
/// composite opens with a header announcing its element or pair count,
/// followed by the encodings of exactly that many children.
pub open spec fn encoding(v: RespValue) -> Seq<u8>
    decreases v,
{
    match v {
        RespValue::Boolean(b) => boolean_token(b),
        RespValue::Integer(i) => integer_token(i as int),
        RespValue::BigNumber(d) => big_number_token(d@),
        RespValue::Double(d) => double_token(d@),
        RespValue::Character(c) => char_token(c),
        RespValue::SimpleString(s) => simple_string_token(s@),
        RespValue::BulkString(p) => bulk_string_token(p@),
        RespValue::Null => null_token(),
        RespValue::Unit => array_header_token(0),
        RespValue::UnitStruct => map_header_token(0),
        RespValue::UnitVariant(n) => bulk_string_token(n@),
        RespValue::Array(es) => array_header_token(es@.len()) + encode_elems(es@),
        RespValue::Mapping(ps) => map_header_token(ps@.len()) + encode_pairs(ps@),
        RespValue::Struct(fs) => map_header_token(fs@.len()) + encode_record_fields(fs@),
        RespValue::StructVariant(fs) => map_header_token(fs@.len()) + encode_variant_fields(fs@),
    }
}

/// The encodings of a sequence's elements, in order, with nothing between
/// them.
pub open spec fn encode_elems(es: Seq<RespValue>) -> Seq<u8>
    decreases es,
{
    if es.len() == 0 {
        Seq::<u8>::empty()
    } else {
        encoding(es[0]) + encode_elems(es.drop_first())
    }
}

/// Appending one element to a sequence appends exactly that element's
/// encoding to the sequence's encoding.
pub proof fn lemma_encode_elems_push(es: Seq<RespValue>, x: RespValue)
    ensures
        encode_elems(es.push(x)) == encode_elems(es) + encoding(x),
    decreases es.len(),
{
    if es.len() == 0 {
        reveal_with_fuel(encode_elems, 2);
        assert(es.push(x)[0] == x);
        assert(es.push(x).drop_first() =~= Seq::<RespValue>::empty());
        assert(encode_elems(es.push(x)) =~= encode_elems(es) + encoding(x));
    } else {
        lemma_encode_elems_push(es.drop_first(), x);
        assert(es.push(x).len() == es.len() + 1);
        assert(es.push(x).drop_first() =~= es.drop_first().push(x));
        assert(es.push(x)[0] == es[0]);
        assert(encode_elems(es.push(x)) == encoding(es[0]) + encode_elems(es.drop_first().push(x)));
        assert(encode_elems(es) == encoding(es[0]) + encode_elems(es.drop_first()));
        assert(encode_elems(es.push(x)) =~= encode_elems(es) + encoding(x));
    }
}

/// The encodings of a mapping's pairs: each key directly followed by its
/// value, pair after pair.
pub open spec fn encode_pairs(ps: Seq<(RespValue, RespValue)>) -> Seq<u8>
    decreases ps,
{
    if ps.len() == 0 {
        Seq::<u8>::empty()
    } else {
        encoding(ps[0].0) + encoding(ps[0].1) + encode_pairs(ps.drop_first())
    }
}

/// Appending one pair to a mapping appends exactly that key's encoding
/// directly followed by that value's encoding.
pub proof fn lemma_encode_pairs_push(ps: Seq<(RespValue, RespValue)>, x: (RespValue, RespValue))
    ensures
        encode_pairs(ps.push(x)) == encode_pairs(ps) + encoding(x.0) + encoding(x.1),
    decreases ps.len(),
{
    if ps.len() == 0 {
        reveal_with_fuel(encode_pairs, 2);
        assert(ps.push(x)[0] == x);
        assert(ps.push(x).drop_first() =~= Seq::<(RespValue, RespValue)>::empty());
        assert(encode_pairs(ps.push(x)) =~= encode_pairs(ps) + encoding(x.0) + encoding(x.1));
    } else {
        lemma_encode_pairs_push(ps.drop_first(), x);
        assert(ps.push(x).len() == ps.len() + 1);
        assert(ps.push(x).drop_first() =~= ps.drop_first().push(x));
        assert(ps.push(x)[0] == ps[0]);
        assert(encode_pairs(ps.push(x)) == encoding(ps[0].0) + encoding(ps[0].1) + encode_pairs(
            ps.drop_first().push(x),
        ));
        assert(encode_pairs(ps) == encoding(ps[0].0) + encoding(ps[0].1) + encode_pairs(
            ps.drop_first(),
        ));
        assert(encode_pairs(ps.push(x)) =~= encode_pairs(ps) + encoding(x.0) + encoding(x.1));
    }
}

/// The encodings of a record's fields: each field name as a bulk string,
/// directly followed by the field's value.
pub open spec fn encode_record_fields(fs: Seq<(Vec<u8>, RespValue)>) -> Seq<u8>
    decreases fs,
{
    if fs.len() == 0 {
        Seq::<u8>::empty()
    } else {
        bulk_string_token(fs[0].0@) + encoding(fs[0].1) + encode_record_fields(fs.drop_first())
    }
}

/// Appending one field to a record appends exactly its name as a bulk
/// string directly followed by its value's encoding.
pub proof fn lemma_encode_record_fields_push(fs: Seq<(Vec<u8>, RespValue)>, x: (Vec<u8>, RespValue))
    ensures
        encode_record_fields(fs.push(x)) == encode_record_fields(fs) + bulk_string_token(x.0@)
            + encoding(x.1),
    decreases fs.len(),
{
    if fs.len() == 0 {
        reveal_with_fuel(encode_record_fields, 2);
        assert(fs.push(x)[0] == x);
        assert(fs.push(x).drop_first() =~= Seq::<(Vec<u8>, RespValue)>::empty());
        assert(encode_record_fields(fs.push(x)) =~= encode_record_fields(fs) + bulk_string_token(
            x.0@,
        ) + encoding(x.1));
    } else {
        lemma_encode_record_fields_push(fs.drop_first(), x);
        assert(fs.push(x).len() == fs.len() + 1);
        assert(fs.push(x).drop_first() =~= fs.drop_first().push(x));
        assert(fs.push(x)[0] == fs[0]);
        assert(encode_record_fields(fs.push(x)) == bulk_string_token(fs[0].0@) + encoding(fs[0].1)
            + encode_record_fields(fs.drop_first().push(x)));
        assert(encode_record_fields(fs) == bulk_string_token(fs[0].0@) + encoding(fs[0].1)
            + encode_record_fields(fs.drop_first()));
        assert(encode_record_fields(fs.push(x)) =~= encode_record_fields(fs) + bulk_string_token(
            x.0@,
        ) + encoding(x.1));
    }
}

/// The encodings of a variant record's fields: each field name as a simple
/// string, directly followed by the field's value.
pub open spec fn encode_variant_fields(fs: Seq<(Vec<u8>, RespValue)>) -> Seq<u8>
    decreases fs,
{
    if fs.len() == 0 {
        Seq::<u8>::empty()
    } else {
        simple_string_token(fs[0].0@) + encoding(fs[0].1) + encode_variant_fields(fs.drop_first())
    }
}

/// Appending one field to a variant record appends exactly its name as a
/// simple string directly followed by its value's encoding.
pub proof fn lemma_encode_variant_fields_push(
    fs: Seq<(Vec<u8>, RespValue)>,
    x: (Vec<u8>, RespValue),
)
    ensures
        encode_variant_fields(fs.push(x)) == encode_variant_fields(fs) + simple_string_token(x.0@)
            + encoding(x.1),
    decreases fs.len(),
{
    if fs.len() == 0 {
        reveal_with_fuel(encode_variant_fields, 2);
        assert(fs.push(x)[0] == x);
        assert(fs.push(x).drop_first() =~= Seq::<(Vec<u8>, RespValue)>::empty());
        assert(encode_variant_fields(fs.push(x)) =~= encode_variant_fields(fs)
            + simple_string_token(x.0@) + encoding(x.1));
    } else {
        lemma_encode_variant_fields_push(fs.drop_first(), x);
        assert(fs.push(x).len() == fs.len() + 1);
        assert(fs.push(x).drop_first() =~= fs.drop_first().push(x));
        assert(fs.push(x)[0] == fs[0]);
        assert(encode_variant_fields(fs.push(x)) == simple_string_token(fs[0].0@) + encoding(
            fs[0].1,
        ) + encode_variant_fields(fs.drop_first().push(x)));
        assert(encode_variant_fields(fs) == simple_string_token(fs[0].0@) + encoding(fs[0].1)
            + encode_variant_fields(fs.drop_first()));
        assert(encode_variant_fields(fs.push(x)) =~= encode_variant_fields(fs)
            + simple_string_token(x.0@) + encoding(x.1));
    }
}

/// One encoded block per element of a sequence.
pub open spec fn element_blocks(es: Seq<RespValue>) -> Seq<Seq<u8>> {
    es.map_values(|v: RespValue| encoding(v))
}

/// One encoded block per pair of a mapping: the key's encoding directly
/// followed by the value's.
pub open spec fn pair_blocks(ps: Seq<(RespValue, RespValue)>) -> Seq<Seq<u8>> {
    ps.map_values(|p: (RespValue, RespValue)| encoding(p.0) + encoding(p.1))
}

/// Law: a sequence's encoding is its array header followed by the
/// concatenation of exactly one encoding per element, in order — the count
/// the header announces equals the number of element encodings emitted.
pub proof fn lemma_array_header_count(es: Vec<RespValue>)
    ensures
        encoding(RespValue::Array(es)) == array_header_token(es@.len()) + element_blocks(
            es@,
        ).flatten(),
        element_blocks(es@).len() == es@.len(),
{
    lemma_encode_elems_flatten(es@);
}

/// The element encodings, one sequence per element.
proof fn lemma_encode_elems_flatten(es: Seq<RespValue>)
    ensures
        encode_elems(es) == element_blocks(es).flatten(),
    decreases es.len(),
{
    if es.len() == 0 {
        assert(element_blocks(es) =~= Seq::<Seq<u8>>::empty());
        assert(encode_elems(es) =~= element_blocks(es).flatten());
    } else {
        lemma_encode_elems_flatten(es.drop_first());
        assert(element_blocks(es).drop_first() =~= element_blocks(es.drop_first()));
        assert(element_blocks(es).first() == encoding(es[0]));
        assert(element_blocks(es).flatten() == element_blocks(es).first() + element_blocks(
            es,
        ).drop_first().flatten());
        assert(encode_elems(es) =~= element_blocks(es).flatten());
    }
}

/// Law: a mapping's encoding is its map header followed by the concatenation
/// of exactly one block per pair, each block the key's encoding directly
/// followed by the value's — the count the header announces equals the
/// number of pairs emitted, and every source pair appears as one block.
pub proof fn lemma_map_header_count(ps: Vec<(RespValue, RespValue)>)
    ensures
        encoding(RespValue::Mapping(ps)) == map_header_token(ps@.len()) + pair_blocks(
            ps@,
        ).flatten(),
        pair_blocks(ps@).len() == ps@.len(),
{
    lemma_encode_pairs_flatten(ps@);
}

/// The pair encodings, one block per pair.
proof fn lemma_encode_pairs_flatten(ps: Seq<(RespValue, RespValue)>)
    ensures
        encode_pairs(ps) == pair_blocks(ps).flatten(),
    decreases ps.len(),
{
    if ps.len() == 0 {
        assert(pair_blocks(ps) =~= Seq::<Seq<u8>>::empty());
        assert(encode_pairs(ps) =~= pair_blocks(ps).flatten());
    } else {
        lemma_encode_pairs_flatten(ps.drop_first());
        assert(pair_blocks(ps).drop_first() =~= pair_blocks(ps.drop_first()));
        assert(pair_blocks(ps).first() == encoding(ps[0].0) + encoding(ps[0].1));
        assert(pair_blocks(ps).flatten() == pair_blocks(ps).first() + pair_blocks(
            ps,
        ).drop_first().flatten());
        assert(encode_pairs(ps) =~= pair_blocks(ps).flatten());
    }
}

/// Law: two mappings that hold the same pairs — in whatever order the source
/// collection supplied them — emit the same multiset of key-value blocks:
/// the emitted pairs match the source pairs exactly, order aside.
pub proof fn lemma_mapping_order_insensitive(
    ps1: Seq<(RespValue, RespValue)>,
    ps2: Seq<(RespValue, RespValue)>,
)
    requires
        ps1.to_multiset() == ps2.to_multiset(),
    ensures
        pair_blocks(ps1).to_multiset() == pair_blocks(ps2).to_multiset(),
    decreases ps1.len(),
{
    broadcast use vstd::seq_lib::group_to_multiset_ensures;
    broadcast use vstd::multiset::group_multiset_axioms;

    if ps1.len() == 0 {
        assert(ps1.to_multiset().len() == ps1.len());
        assert(ps2.to_multiset().len() == ps2.len());
        assert(ps2.len() == 0);
        assert(pair_blocks(ps1) =~= Seq::<Seq<u8>>::empty());
        assert(pair_blocks(ps2) =~= Seq::<Seq<u8>>::empty());
    } else {
        let x = ps1[0];
        assert(ps1.contains(x));
        assert(ps1.to_multiset().count(x) > 0);
        assert(ps2.contains(x));
        let j = choose|j: int| 0 <= j < ps2.len() && ps2[j] == x;
        assert(ps1.remove(0).to_multiset() == ps1.to_multiset().remove(x));
        assert(ps2.remove(j).to_multiset() == ps2.to_multiset().remove(x));
        lemma_mapping_order_insensitive(ps1.remove(0), ps2.remove(j));
        assert(pair_blocks(ps1.remove(0)) =~= pair_blocks(ps1).remove(0));
        assert(pair_blocks(ps2.remove(j)) =~= pair_blocks(ps2).remove(j));
        let b = encoding(x.0) + encoding(x.1);
        let m1 = pair_blocks(ps1).to_multiset();
        let m2 = pair_blocks(ps2).to_multiset();
        assert(pair_blocks(ps1)[0] == b);
        assert(pair_blocks(ps2)[j] == b);
        assert(pair_blocks(ps1).remove(0).to_multiset() == m1.remove(b));
        assert(pair_blocks(ps2).remove(j).to_multiset() == m2.remove(b));
        assert(m1.remove(b) == m2.remove(b));
        assert(pair_blocks(ps1).contains(b));
        assert(m1.count(b) > 0);
        assert(pair_blocks(ps2).contains(b));
        assert(m2.count(b) > 0);
        assert forall|c: Seq<u8>| m1.count(c) == m2.count(c) by {
            if c == b {
                assert(m1.remove(b).count(c) + 1 == m1.count(c));
                assert(m2.remove(b).count(c) + 1 == m2.count(c));
            } else {
                assert(m1.remove(b).count(c) == m1.count(c));
                assert(m2.remove(b).count(c) == m2.count(c));
            }
        }
        assert(m1 =~= m2);
    }
}

/// True when no byte of the payload is a line-terminator byte.
fn vec_crlf_free(s: &Vec<u8>) -> (b: bool)
    ensures
        b == crlf_free(s@),
{
    let mut i: usize = 0;
    while i < s.len()
        invariant
            i <= s@.len(),
            forall|k: int| 0 <= k < i ==> s@[k] != 13u8 && s@[k] != 10u8,
        decreases s@.len() - i,
    {
        if s[i] == 13u8 || s[i] == 10u8 {
            return false;
        }
        i = i + 1;
    }
    true
}

/// Decides well-formedness, so that a caller can test a value before asking
/// for its encoding.
#[verifier::loop_isolation(false)]
pub fn check_wf(v: &RespValue) -> (b: bool)
    ensures
        b == wf(*v),
    decreases *v,
{
    match v {
        RespValue::BigNumber(d) => vec_crlf_free(d),
        RespValue::Double(d) => vec_crlf_free(d),
        RespValue::SimpleString(p) => vec_crlf_free(p),
        RespValue::Array(es) => {
            let mut i: usize = 0;
            while i < es.len()
                invariant
                    i <= es@.len(),
                    forall|k: int| 0 <= k < i ==> wf(#[trigger] es@[k]),
                decreases es@.len() - i,
            {
                proof {
                    assert(decreases_to!(*es => es@));
                    assert(decreases_to!(es@ => es@[i as int]));
                }
                if !check_wf(&es[i]) {
                    return false;
                }
                i = i + 1;
            }
            true
        },
        RespValue::Mapping(ps) => {
            let mut i: usize = 0;
            while i < ps.len()
                invariant
                    i <= ps@.len(),
                    forall|k: int| 0 <= k < i ==> wf(#[trigger] ps@[k].0),
                    forall|k: int| 0 <= k < i ==> wf(#[trigger] ps@[k].1),
                decreases ps@.len() - i,
            {
                proof {
                    assert(decreases_to!(*ps => ps@));
                    assert(decreases_to!(ps@ => ps@[i as int]));
                    assert(decreases_to!(ps@[i as int] => ps@[i as int].0));
                    assert(decreases_to!(ps@[i as int] => ps@[i as int].1));
                }
                let pair = &ps[i];
                assert(*pair == ps@[i as int]);
                if !check_wf(&pair.0) {
                    return false;
                }
                if !check_wf(&pair.1) {
                    return false;
                }
                assert(wf(ps@[i as int].0));
                assert(wf(ps@[i as int].1));
                i = i + 1;
            }
            true
        },
        RespValue::Struct(fs) => {
            let mut i: usize = 0;
            while i < fs.len()
                invariant
                    i <= fs@.len(),
                    forall|k: int| 0 <= k < i ==> wf(#[trigger] fs@[k].1),
                decreases fs@.len() - i,
            {
                proof {
                    assert(decreases_to!(*fs => fs@));
                    assert(decreases_to!(fs@ => fs@[i as int]));
                    assert(decreases_to!(fs@[i as int] => fs@[i as int].1));
                }
                let field = &fs[i];
                assert(*field == fs@[i as int]);
                if !check_wf(&field.1) {
                    return false;
                }
                i = i + 1;
            }
            true
        },
        RespValue::StructVariant(fs) => {
            let mut i: usize = 0;
            while i < fs.len()
                invariant
                    i <= fs@.len(),
                    forall|k: int| 0 <= k < i ==> crlf_free(#[trigger] fs@[k].0@),
                    forall|k: int| 0 <= k < i ==> wf(#[trigger] fs@[k].1),
                decreases fs@.len() - i,
            {
                proof {
                    assert(decreases_to!(*fs => fs@));
                    assert(decreases_to!(fs@ => fs@[i as int]));
                    assert(decreases_to!(fs@[i as int] => fs@[i as int].1));
                }
                let field = &fs[i];
                assert(*field == fs@[i as int]);
                if !vec_crlf_free(&field.0) {
                    return false;
                }
                if !check_wf(&field.1) {
                    return false;
                }
                assert(crlf_free(fs@[i as int].0@));
                assert(wf(fs@[i as int].1));
                i = i + 1;
            }
            true
        },
        _ => true,
    }
}

/// Encodes the elements of a sequence, in order, nothing between them.
#[verifier::loop_isolation(false)]
fn encode_array_elems(s: &mut Serializer, es: &Vec<RespValue>) -> (r: Result<(), Error>)
    requires
        forall|k: int| 0 <= k < es@.len() ==> wf(#[trigger] es@[k]),
    ensures
        r is Ok,
        final(s)@ == old(s)@ + encode_elems(es@),
    decreases *es,
{
    proof {
        assert(es@.take(0) =~= Seq::<RespValue>::empty());
        assert(s@ =~= old(s)@ + encode_elems(es@.take(0)));
    }
    let mut i: usize = 0;
    while i < es.len()
        invariant
            i <= es@.len(),
            s@ == old(s)@ + encode_elems(es@.take(i as int)),
        decreases es@.len() - i,
    {
        proof {
            assert(decreases_to!(*es => es@));
            assert(decreases_to!(es@ => es@[i as int]));
        }
        let _ = encode_value(s, &es[i]);
        proof {
            lemma_encode_elems_push(es@.take(i as int), es@[i as int]);
            assert(es@.take(i as int).push(es@[i as int]) =~= es@.take(i as int + 1));
            assert(s@ =~= old(s)@ + encode_elems(es@.take(i as int + 1)));
        }
        i = i + 1;
    }
    proof {
        assert(es@.take(es@.len() as int) =~= es@);
    }
    Ok(())
}

/// Encodes the pairs of a mapping: each key directly followed by its value.
#[verifier::loop_isolation(false)]
fn encode_mapping_pairs(s: &mut Serializer, ps: &Vec<(RespValue, RespValue)>) -> (r: Result<
    (),
    Error,
>)
    requires
        forall|k: int| 0 <= k < ps@.len() ==> wf(#[trigger] ps@[k].0) && wf(ps@[k].1),
    ensures
        r is Ok,
        final(s)@ == old(s)@ + encode_pairs(ps@),
    decreases *ps,
{
    proof {
        assert(ps@.take(0) =~= Seq::<(RespValue, RespValue)>::empty());
        assert(s@ =~= old(s)@ + encode_pairs(ps@.take(0)));
    }
    let mut i: usize = 0;
    while i < ps.len()
        invariant
            i <= ps@.len(),
            s@ == old(s)@ + encode_pairs(ps@.take(i as int)),
        decreases ps@.len() - i,
    {
        proof {
            assert(decreases_to!(*ps => ps@));
            assert(decreases_to!(ps@ => ps@[i as int]));
            assert(decreases_to!(ps@[i as int] => ps@[i as int].0));
            assert(decreases_to!(ps@[i as int] => ps@[i as int].1));
        }
        let pair = &ps[i];
        assert(*pair == ps@[i as int]);
        let _ = encode_value(s, &pair.0);
        let _ = encode_value(s, &pair.1);
        proof {
            lemma_encode_pairs_push(ps@.take(i as int), ps@[i as int]);
            assert(ps@.take(i as int).push(ps@[i as int]) =~= ps@.take(i as int + 1));
            assert(s@ =~= old(s)@ + encode_pairs(ps@.take(i as int + 1)));
        }
        i = i + 1;
    }
    proof {
        assert(ps@.take(ps@.len() as int) =~= ps@);
    }
    Ok(())
}

/// Encodes the fields of a record: each name as a bulk string, directly
/// followed by the field's value.
#[verifier::loop_isolation(false)]
fn encode_struct_fields(s: &mut Serializer, fs: &Vec<(Vec<u8>, RespValue)>) -> (r: Result<
    (),
    Error,
>)
    requires
        forall|k: int| 0 <= k < fs@.len() ==> wf(#[trigger] fs@[k].1),
    ensures
        r is Ok,
        final(s)@ == old(s)@ + encode_record_fields(fs@),
    decreases *fs,
{
    proof {
        assert(fs@.take(0) =~= Seq::<(Vec<u8>, RespValue)>::empty());
        assert(s@ =~= old(s)@ + encode_record_fields(fs@.take(0)));
    }
    let mut i: usize = 0;
    while i < fs.len()
        invariant
            i <= fs@.len(),
            s@ == old(s)@ + encode_record_fields(fs@.take(i as int)),
        decreases fs@.len() - i,
    {
        proof {
            assert(decreases_to!(*fs => fs@));
            assert(decreases_to!(fs@ => fs@[i as int]));
            assert(decreases_to!(fs@[i as int] => fs@[i as int].1));
        }
        let field = &fs[i];
        assert(*field == fs@[i as int]);
        let _ = s.write_bulk_string(field.0.as_slice());
        let _ = encode_value(s, &field.1);
        proof {
            lemma_encode_record_fields_push(fs@.take(i as int), fs@[i as int]);
            assert(fs@.take(i as int).push(fs@[i as int]) =~= fs@.take(i as int + 1));
            assert(s@ =~= old(s)@ + encode_record_fields(fs@.take(i as int + 1)));
        }
        i = i + 1;
    }
    proof {
        assert(fs@.take(fs@.len() as int) =~= fs@);
    }
    Ok(())
}

/// Encodes the fields of a variant record: each name as a simple string,
/// directly followed by the field's value.
#[verifier::loop_isolation(false)]
fn encode_variant_struct_fields(s: &mut Serializer, fs: &Vec<(Vec<u8>, RespValue)>) -> (r: Result<
    (),
    Error,
>)
    requires
        forall|k: int| 0 <= k < fs@.len() ==> crlf_free(#[trigger] fs@[k].0@) && wf(fs@[k].1),
    ensures
        r is Ok,
        final(s)@ == old(s)@ + encode_variant_fields(fs@),
    decreases *fs,
{
    proof {
        assert(fs@.take(0) =~= Seq::<(Vec<u8>, RespValue)>::empty());
        assert(s@ =~= old(s)@ + encode_variant_fields(fs@.take(0)));
    }
    let mut i: usize = 0;
    while i < fs.len()
        invariant
            i <= fs@.len(),
            s@ == old(s)@ + encode_variant_fields(fs@.take(i as int)),
        decreases fs@.len() - i,
    {
        proof {
            assert(decreases_to!(*fs => fs@));
            assert(decreases_to!(fs@ => fs@[i as int]));
            assert(decreases_to!(fs@[i as int] => fs@[i as int].1));
        }
        let field = &fs[i];
        assert(*field == fs@[i as int]);
        let _ = s.write_simple_string(field.0.as_slice());
        let _ = encode_value(s, &field.1);
        proof {
            lemma_encode_variant_fields_push(fs@.take(i as int), fs@[i as int]);
            assert(fs@.take(i as int).push(fs@[i as int]) =~= fs@.take(i as int + 1));
            assert(s@ =~= old(s)@ + encode_variant_fields(fs@.take(i as int + 1)));
        }
        i = i + 1;
    }
    proof {
        assert(fs@.take(fs@.len() as int) =~= fs@);
    }
    Ok(())
}

/// Encodes one well-formed value tree, depth first, pre order, appending its
/// full encoding to the writer's output.
pub fn encode_value(s: &mut Serializer, v: &RespValue) -> (r: Result<(), Error>)
    requires
        wf(*v),
    ensures
        r is Ok,
        final(s)@ == old(s)@ + encoding(*v),
    decreases *v,
{
    match v {
        RespValue::Boolean(b) => s.write_boolean(*b),
        RespValue::Integer(i) => s.write_integer(*i),
        RespValue::BigNumber(d) => s.write_big_number(d.as_slice()),
        RespValue::Double(d) => s.write_double(d.as_slice()),
        RespValue::Character(c) => s.serialize_char(*c),
        RespValue::SimpleString(p) => s.write_simple_string(p.as_slice()),
        RespValue::BulkString(p) => s.write_bulk_string(p.as_slice()),
        RespValue::Null => s.write_null(),
        RespValue::Unit => s.serialize_unit(),
        RespValue::UnitStruct => s.write_map_header(Some(0)),
        RespValue::UnitVariant(n) => s.write_bulk_string(n.as_slice()),
        RespValue::Array(es) => {
            let _ = s.write_array_header(Some(es.len()));
            let e = encode_array_elems(s, es);
            proof {
                assert(s@ =~= old(s)@ + encoding(*v));
            }
            Ok(())
        },
        RespValue::Mapping(ps) => {
            let _ = s.write_map_header(Some(ps.len()));
            let e = encode_mapping_pairs(s, ps);
            proof {
                assert(s@ =~= old(s)@ + encoding(*v));
            }
            Ok(())
        },
        RespValue::Struct(fs) => {
            let _ = s.write_map_header(Some(fs.len()));
            let e = encode_struct_fields(s, fs);
            proof {
                assert(s@ =~= old(s)@ + encoding(*v));
            }
            Ok(())
        },
        RespValue::StructVariant(fs) => {
            let _ = s.write_map_header(Some(fs.len()));
            let e = encode_variant_struct_fields(s, fs);
            proof {
                assert(s@ =~= old(s)@ + encoding(*v));
            }
            Ok(())
        },
    }
}

/// Encodes a value after testing it for well-formedness: an ill-formed value
/// is rejected with the line-terminator error and the output is left
/// untouched.
pub fn encode_checked(s: &mut Serializer, v: &RespValue) -> (r: Result<(), Error>)
    ensures
        r is Ok <==> wf(*v),
        wf(*v) ==> final(s)@ == old(s)@ + encoding(*v),
        !wf(*v) ==> final(s)@ == old(s)@ && r == Err::<(), Error>(Error::Terminator),
{
    if check_wf(v) {
        encode_value(s, v)
    } else {
        Err(Error::Terminator)
    }
}

/// Encodes a value into a freshly allocated buffer and returns the bytes:
/// the convenience entry point over `encode_value`.
pub fn to_bytes(v: &RespValue) -> (r: Result<Vec<u8>, Error>)
    ensures
        r is Ok <==> wf(*v),
        r matches Ok(b) ==> b@ == encoding(*v),
        !wf(*v) ==> r == Err::<Vec<u8>, Error>(Error::Terminator),
{
    let mut s = Serializer::new();
    match encode_checked(&mut s, v) {
        Ok(()) => Ok(s.into_bytes()),
        Err(e) => Err(e),
    }
}

} // verus!
