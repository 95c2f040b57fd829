//! The per-value binary codec shared by both trace formats.
//!
//! Each value is written as one tag byte followed by its fields; child
//! values are written recursively, so the encoding's nesting mirrors the
//! value's nesting.  The specification encoder [`enc_value`] is the single
//! source of truth: the executable encoder is proved to produce exactly its
//! bytes, the executable decoder is proved to match the specification
//! decoder [`dec_value`], and [`lemma_dec_value`] proves that decoding an
//! encoding yields the encoded value.

use vstd::prelude::*;

use vstd::utf8::is_scalar;

use crate::model::{models_of, lemma_models_of, ValueModel};
use crate::types::{Place, TypeId, ValueRecord};
use crate::wire::{
    dec_bool, dec_bytes, dec_i64, dec_id, dec_str, dec_u64, enc_bool, enc_bytes, enc_str, le64,
    lemma_dec_bool, lemma_dec_bytes, lemma_dec_i64, lemma_dec_id, lemma_dec_str, lemma_dec_u64,
    lemma_subrange_split, lemma_subrange_split3, lemma_subrange_split4, lemma_subrange_split5,
    push_bool, push_bytes, push_str, push_u64, read_bool, read_bytes, read_i64, read_id, read_str,
    read_u64, str_fits,
};

verus! {

broadcast use vstd::utf8::char_is_scalar, vstd::utf8::char_u32_cast;

pub const TAG_INT: u8 = 1;

pub const TAG_FLOAT: u8 = 2;

pub const TAG_BOOL: u8 = 3;

pub const TAG_STRING: u8 = 4;

pub const TAG_SEQUENCE: u8 = 5;

pub const TAG_TUPLE: u8 = 6;

pub const TAG_STRUCT: u8 = 7;

pub const TAG_VARIANT: u8 = 8;

pub const TAG_REFERENCE: u8 = 9;

pub const TAG_RAW: u8 = 10;

pub const TAG_CHAR: u8 = 11;

pub const TAG_ERROR: u8 = 12;

pub const TAG_NULL: u8 = 13;

pub const TAG_CELL: u8 = 14;

pub const TAG_BIGINT: u8 = 15;

/// Specification decoder for a character stored as its Unicode scalar value.
pub open spec fn dec_char(s: Seq<u8>, pos: int) -> Option<(char, int)> {
    match dec_u64(s, pos) {
        Option::Some((n, p)) => {
            if n <= u32::MAX as u64 && is_scalar(n as u32) {
                Some(((n as u32) as char, p))
            } else {
                None
            }
        },
        Option::None => None,
    }
}

/// Decoding an encoded character placed at `pos` yields the character.
pub proof fn lemma_dec_char(s: Seq<u8>, pos: int, c: char)
    requires
        0 <= pos,
        pos + 8 <= s.len(),
        s.subrange(pos, pos + 8) == le64((c as u32) as u64),
    ensures
        dec_char(s, pos) == Some((c, pos + 8)),
{
    lemma_dec_u64(s, pos, (c as u32) as u64);
}

/// Relies on `char::from_u32`: it accepts exactly the Unicode scalar values,
/// and the accepted character casts back to the given number.
#[verifier::external_body]
fn char_from_u32(x: u32) -> (r: Option<char>)
    ensures
        r is Some <==> is_scalar(x),
        r matches Some(c) ==> c == x as char && c as u32 == x,
{
    char::from_u32(x)
}

/// Reads a character at `pos`.
pub fn read_char(buf: &Vec<u8>, pos: usize) -> (r: Option<(char, usize)>)
    ensures
        match r {
            Option::Some((c, p)) => dec_char(buf@, pos as int) == Some((c, p as int)) && pos < p
                <= buf@.len(),
            Option::None => dec_char(buf@, pos as int) is None,
        },
{
    match read_u64(buf, pos) {
        Option::Some((n, p)) => {
            if n <= u32::MAX as u64 {
                match char_from_u32(n as u32) {
                    Option::Some(c) => Some((c, p)),
                    Option::None => None,
                }
            } else {
                None
            }
        },
        Option::None => None,
    }
}

/// Specification encoder for a value.
pub open spec fn enc_value(v: ValueModel) -> Seq<u8>
    decreases v, 0int,
{
    match v {
        ValueModel::Int { i, type_id } => seq![TAG_INT] + le64(i as u64) + le64(type_id as u64),
        ValueModel::Float { f_bits, type_id } => seq![TAG_FLOAT] + le64(f_bits) + le64(
            type_id as u64,
        ),
        ValueModel::Bool { b, type_id } => seq![TAG_BOOL] + enc_bool(b) + le64(type_id as u64),
        ValueModel::String { text, type_id } => seq![TAG_STRING] + enc_str(text) + le64(
            type_id as u64,
        ),
        ValueModel::Sequence { elements, is_slice, type_id } => seq![TAG_SEQUENCE] + le64(
            elements.len() as usize as u64,
        ) + enc_values_from(elements, 0) + enc_bool(is_slice) + le64(type_id as u64),
        ValueModel::Tuple { elements, type_id } => seq![TAG_TUPLE] + le64(
            elements.len() as usize as u64,
        ) + enc_values_from(elements, 0) + le64(type_id as u64),
        ValueModel::Struct { field_values, type_id } => seq![TAG_STRUCT] + le64(
            field_values.len() as usize as u64,
        ) + enc_values_from(field_values, 0) + le64(type_id as u64),
        ValueModel::Variant { discriminator, contents, type_id } => seq![TAG_VARIANT] + enc_str(
            discriminator,
        ) + enc_value(*contents) + le64(type_id as u64),
        ValueModel::Reference { dereferenced, address, mutable, type_id } => seq![TAG_REFERENCE]
            + enc_value(*dereferenced) + le64(address) + enc_bool(mutable) + le64(type_id as u64),
        ValueModel::Raw { r, type_id } => seq![TAG_RAW] + enc_str(r) + le64(type_id as u64),
        ValueModel::Error { msg, type_id } => seq![TAG_ERROR] + enc_str(msg) + le64(type_id as u64),
        ValueModel::Char { c, type_id } => seq![TAG_CHAR] + le64((c as u32) as u64) + le64(
            type_id as u64,
        ),
        ValueModel::Null { type_id } => seq![TAG_NULL] + le64(type_id as u64),
        ValueModel::Cell { place } => seq![TAG_CELL] + le64(place),
        ValueModel::BigInt { b, negative, type_id } => seq![TAG_BIGINT] + enc_bytes(b) + enc_bool(
            negative,
        ) + le64(type_id as u64),
    }
}

/// Concatenated encodings of the values from index `i` on.
pub open spec fn enc_values_from(vs: Seq<ValueModel>, i: int) -> Seq<u8>
    decreases vs, vs.len() - i,
{
    if i < 0 || i >= vs.len() {
        Seq::empty()
    } else {
        enc_value(vs[i]) + enc_values_from(vs, i + 1)
    }
}

/// True when every length occurring in the value fits the platform's index
/// type, so that its length prefixes store the lengths exactly.  Every value
/// built in memory satisfies it.
pub open spec fn value_fits(v: ValueModel) -> bool
    decreases v, 0int,
{
    match v {
        ValueModel::String { text, .. } => str_fits(text),
        ValueModel::Sequence { elements, .. } => elements.len() <= usize::MAX && values_fit_from(
            elements,
            0,
        ),
        ValueModel::Tuple { elements, .. } => elements.len() <= usize::MAX && values_fit_from(
            elements,
            0,
        ),
        ValueModel::Struct { field_values, .. } => field_values.len() <= usize::MAX
            && values_fit_from(field_values, 0),
        ValueModel::Variant { discriminator, contents, .. } => str_fits(discriminator)
            && value_fits(*contents),
        ValueModel::Reference { dereferenced, .. } => value_fits(*dereferenced),
        ValueModel::Raw { r, .. } => str_fits(r),
        ValueModel::Error { msg, .. } => str_fits(msg),
        ValueModel::BigInt { b, .. } => b.len() <= usize::MAX,
        _ => true,
    }
}

/// True when every value from index `i` on fits.
pub open spec fn values_fit_from(vs: Seq<ValueModel>, i: int) -> bool
    decreases vs, vs.len() - i,
{
    if i < 0 || i >= vs.len() {
        true
    } else {
        value_fits(vs[i]) && values_fit_from(vs, i + 1)
    }
}

/// Specification decoder for a value.
pub open spec fn dec_value(s: Seq<u8>, pos: int) -> Option<(ValueModel, int)>
    decreases s.len() - pos, 0int,
{
    if pos < 0 || pos >= s.len() {
        None
    } else {
        let tag = s[pos];
        let p = pos + 1;
        if tag == TAG_INT {
            match dec_i64(s, p) {
                Option::Some((i, p2)) => match dec_id(s, p2) {
                    Option::Some((type_id, p3)) => Some((ValueModel::Int { i, type_id }, p3)),
                    Option::None => None,
                },
                Option::None => None,
            }
        } else if tag == TAG_FLOAT {
            match dec_u64(s, p) {
                Option::Some((f_bits, p2)) => match dec_id(s, p2) {
                    Option::Some((type_id, p3)) => Some(
                        (ValueModel::Float { f_bits, type_id }, p3),
                    ),
                    Option::None => None,
                },
                Option::None => None,
            }
        } else if tag == TAG_BOOL {
            match dec_bool(s, p) {
                Option::Some((b, p2)) => match dec_id(s, p2) {
                    Option::Some((type_id, p3)) => Some((ValueModel::Bool { b, type_id }, p3)),
                    Option::None => None,
                },
                Option::None => None,
            }
        } else if tag == TAG_STRING {
            match dec_str(s, p) {
                Option::Some((text, p2)) => match dec_id(s, p2) {
                    Option::Some((type_id, p3)) => Some((ValueModel::String { text, type_id }, p3)),
                    Option::None => None,
                },
                Option::None => None,
            }
        } else if tag == TAG_SEQUENCE {
            match dec_u64(s, p) {
                Option::Some((n, p2)) => match dec_values(s, p2, n as int) {
                    Option::Some((elements, p3)) => match dec_bool(s, p3) {
                        Option::Some((is_slice, p4)) => match dec_id(s, p4) {
                            Option::Some((type_id, p5)) => Some(
                                (ValueModel::Sequence { elements, is_slice, type_id }, p5),
                            ),
                            Option::None => None,
                        },
                        Option::None => None,
                    },
                    Option::None => None,
                },
                Option::None => None,
            }
        } else if tag == TAG_TUPLE {
            match dec_u64(s, p) {
                Option::Some((n, p2)) => match dec_values(s, p2, n as int) {
                    Option::Some((elements, p3)) => match dec_id(s, p3) {
                        Option::Some((type_id, p4)) => Some(
                            (ValueModel::Tuple { elements, type_id }, p4),
                        ),
                        Option::None => None,
                    },
                    Option::None => None,
                },
                Option::None => None,
            }
        } else if tag == TAG_STRUCT {
            match dec_u64(s, p) {
                Option::Some((n, p2)) => match dec_values(s, p2, n as int) {
                    Option::Some((field_values, p3)) => match dec_id(s, p3) {
                        Option::Some((type_id, p4)) => Some(
                            (ValueModel::Struct { field_values, type_id }, p4),
                        ),
                        Option::None => None,
                    },
                    Option::None => None,
                },
                Option::None => None,
            }
        } else if tag == TAG_VARIANT {
            match dec_str(s, p) {
                Option::Some((discriminator, p2)) => {
                    if p2 <= pos || p2 > s.len() {
                        None
                    } else {
                        match dec_value(s, p2) {
                            Option::Some((contents, p3)) => match dec_id(s, p3) {
                                Option::Some((type_id, p4)) => Some(
                                    (
                                        ValueModel::Variant {
                                            discriminator,
                                            contents: Box::new(contents),
                                            type_id,
                                        },
                                        p4,
                                    ),
                                ),
                                Option::None => None,
                            },
                            Option::None => None,
                        }
                    }
                },
                Option::None => None,
            }
        } else if tag == TAG_REFERENCE {
            match dec_value(s, p) {
                Option::Some((dereferenced, p2)) => match dec_u64(s, p2) {
                    Option::Some((address, p3)) => match dec_bool(s, p3) {
                        Option::Some((mutable, p4)) => match dec_id(s, p4) {
                            Option::Some((type_id, p5)) => Some(
                                (
                                    ValueModel::Reference {
                                        dereferenced: Box::new(dereferenced),
                                        address,
                                        mutable,
                                        type_id,
                                    },
                                    p5,
                                ),
                            ),
                            Option::None => None,
                        },
                        Option::None => None,
                    },
                    Option::None => None,
                },
                Option::None => None,
            }
        } else if tag == TAG_RAW {
            match dec_str(s, p) {
                Option::Some((r, p2)) => match dec_id(s, p2) {
                    Option::Some((type_id, p3)) => Some((ValueModel::Raw { r, type_id }, p3)),
                    Option::None => None,
                },
                Option::None => None,
            }
        } else if tag == TAG_ERROR {
            match dec_str(s, p) {
                Option::Some((msg, p2)) => match dec_id(s, p2) {
                    Option::Some((type_id, p3)) => Some((ValueModel::Error { msg, type_id }, p3)),
                    Option::None => None,
                },
                Option::None => None,
            }
        } else if tag == TAG_CHAR {
            match dec_char(s, p) {
                Option::Some((c, p2)) => match dec_id(s, p2) {
                    Option::Some((type_id, p3)) => Some((ValueModel::Char { c, type_id }, p3)),
                    Option::None => None,
                },
                Option::None => None,
            }
        } else if tag == TAG_NULL {
            match dec_id(s, p) {
                Option::Some((type_id, p2)) => Some((ValueModel::Null { type_id }, p2)),
                Option::None => None,
            }
        } else if tag == TAG_CELL {
            match dec_u64(s, p) {
                Option::Some((place, p2)) => Some((ValueModel::Cell { place }, p2)),
                Option::None => None,
            }
        } else if tag == TAG_BIGINT {
            match dec_bytes(s, p) {
                Option::Some((b, p2)) => match dec_bool(s, p2) {
                    Option::Some((negative, p3)) => match dec_id(s, p3) {
                        Option::Some((type_id, p4)) => Some(
                            (ValueModel::BigInt { b, negative, type_id }, p4),
                        ),
                        Option::None => None,
                    },
                    Option::None => None,
                },
                Option::None => None,
            }
        } else {
            None
        }
    }
}

/// Specification decoder for `n` consecutive values.
pub open spec fn dec_values(s: Seq<u8>, pos: int, n: int) -> Option<(Seq<ValueModel>, int)>
    decreases s.len() - pos, n,
{
    if n <= 0 {
        if 0 <= pos <= s.len() {
            Some((Seq::empty(), pos))
        } else {
            None
        }
    } else {
        match dec_value(s, pos) {
            Option::Some((v, p)) => {
                if p <= pos || p > s.len() {
                    None
                } else {
                    match dec_values(s, p, n - 1) {
                        Option::Some((vs, q)) => Some((seq![v] + vs, q)),
                        Option::None => None,
                    }
                }
            },
            Option::None => None,
        }
    }
}

/// Every encoded value takes at least one byte.
pub proof fn lemma_enc_value_min_len(v: ValueModel)
    ensures
        enc_value(v).len() >= 1,
{
}

/// Shared shape of the central decoding lemmas: the encoding of `v` sits at
/// `pos` inside `s`.
pub open spec fn enc_at(s: Seq<u8>, pos: int, v: ValueModel) -> bool {
    &&& 0 <= pos
    &&& pos + enc_value(v).len() <= s.len()
    &&& s.subrange(pos, pos + enc_value(v).len()) == enc_value(v)
}

/// `lemma_dec_value`, for the value variants without children.
#[verifier::rlimit(60)]
#[verifier::spinoff_prover]
proof fn lemma_dec_value_leaf(s: Seq<u8>, pos: int, v: ValueModel)
    requires
        value_fits(v),
        enc_at(s, pos, v),
        !(v is Sequence),
        !(v is Tuple),
        !(v is Struct),
        !(v is Variant),
        !(v is Reference),
    ensures
        dec_value(s, pos) == Some((v, pos + enc_value(v).len())),
{
    let e = enc_value(v);
    assert(s[pos] == e[0]);
    match v {
        ValueModel::Int { i, type_id } => {
            lemma_subrange_split3(s, pos, seq![TAG_INT], le64(i as u64), le64(type_id as u64));
            lemma_dec_i64(s, pos + 1, i);
            lemma_dec_id(s, pos + 9, type_id);
        },
        ValueModel::Float { f_bits, type_id } => {
            lemma_subrange_split3(s, pos, seq![TAG_FLOAT], le64(f_bits), le64(type_id as u64));
            lemma_dec_u64(s, pos + 1, f_bits);
            lemma_dec_id(s, pos + 9, type_id);
        },
        ValueModel::Bool { b, type_id } => {
            lemma_subrange_split3(s, pos, seq![TAG_BOOL], enc_bool(b), le64(type_id as u64));
            lemma_dec_bool(s, pos + 1, b);
            lemma_dec_id(s, pos + 2, type_id);
        },
        ValueModel::String { text, type_id } => {
            lemma_subrange_split3(s, pos, seq![TAG_STRING], enc_str(text), le64(type_id as u64));
            lemma_dec_str(s, pos + 1, text);
            lemma_dec_id(s, pos + 1 + enc_str(text).len(), type_id);
        },
        ValueModel::Raw { r, type_id } => {
            lemma_subrange_split3(s, pos, seq![TAG_RAW], enc_str(r), le64(type_id as u64));
            lemma_dec_str(s, pos + 1, r);
            lemma_dec_id(s, pos + 1 + enc_str(r).len(), type_id);
        },
        ValueModel::Error { msg, type_id } => {
            lemma_subrange_split3(s, pos, seq![TAG_ERROR], enc_str(msg), le64(type_id as u64));
            lemma_dec_str(s, pos + 1, msg);
            lemma_dec_id(s, pos + 1 + enc_str(msg).len(), type_id);
        },
        ValueModel::Char { c, type_id } => {
            lemma_subrange_split3(
                s,
                pos,
                seq![TAG_CHAR],
                le64((c as u32) as u64),
                le64(type_id as u64),
            );
            lemma_dec_char(s, pos + 1, c);
            lemma_dec_id(s, pos + 9, type_id);
        },
        ValueModel::Null { type_id } => {
            lemma_subrange_split(s, pos, seq![TAG_NULL], le64(type_id as u64));
            lemma_dec_id(s, pos + 1, type_id);
        },
        ValueModel::Cell { place } => {
            lemma_subrange_split(s, pos, seq![TAG_CELL], le64(place));
            lemma_dec_u64(s, pos + 1, place);
        },
        ValueModel::BigInt { b, negative, type_id } => {
            lemma_subrange_split4(
                s,
                pos,
                seq![TAG_BIGINT],
                enc_bytes(b),
                enc_bool(negative),
                le64(type_id as u64),
            );
            lemma_dec_bytes(s, pos + 1, b);
            let p2 = pos + 1 + enc_bytes(b).len();
            lemma_dec_bool(s, p2, negative);
            lemma_dec_id(s, p2 + 1, type_id);
        },
        _ => (),
    }
}

/// `lemma_dec_value`, for ordered-children values.
#[verifier::rlimit(80)]
#[verifier::spinoff_prover]
proof fn lemma_dec_value_children(s: Seq<u8>, pos: int, v: ValueModel)
    requires
        value_fits(v),
        enc_at(s, pos, v),
        v is Sequence || v is Tuple || v is Struct,
    ensures
        dec_value(s, pos) == Some((v, pos + enc_value(v).len())),
    decreases v, 0int,
{
    let e = enc_value(v);
    assert(s[pos] == e[0]);
    match v {
        ValueModel::Sequence { elements, is_slice, type_id } => {
            let n = elements.len() as usize as u64;
            lemma_subrange_split5(
                s,
                pos,
                seq![TAG_SEQUENCE],
                le64(n),
                enc_values_from(elements, 0),
                enc_bool(is_slice),
                le64(type_id as u64),
            );
            lemma_dec_u64(s, pos + 1, n);
            let p2 = pos + 9;
            let body = enc_values_from(elements, 0).len();
            lemma_dec_values(s, p2, elements, 0);
            assert(elements.subrange(0, elements.len() as int) =~= elements);
            lemma_dec_bool(s, p2 + body, is_slice);
            lemma_dec_id(s, p2 + body + 1, type_id);
        },
        ValueModel::Tuple { elements, type_id } => {
            let n = elements.len() as usize as u64;
            lemma_subrange_split4(
                s,
                pos,
                seq![TAG_TUPLE],
                le64(n),
                enc_values_from(elements, 0),
                le64(type_id as u64),
            );
            lemma_dec_u64(s, pos + 1, n);
            let p2 = pos + 9;
            let body = enc_values_from(elements, 0).len();
            lemma_dec_values(s, p2, elements, 0);
            assert(elements.subrange(0, elements.len() as int) =~= elements);
            lemma_dec_id(s, p2 + body, type_id);
        },
        ValueModel::Struct { field_values, type_id } => {
            let n = field_values.len() as usize as u64;
            lemma_subrange_split4(
                s,
                pos,
                seq![TAG_STRUCT],
                le64(n),
                enc_values_from(field_values, 0),
                le64(type_id as u64),
            );
            lemma_dec_u64(s, pos + 1, n);
            let p2 = pos + 9;
            let body = enc_values_from(field_values, 0).len();
            lemma_dec_values(s, p2, field_values, 0);
            assert(field_values.subrange(0, field_values.len() as int) =~= field_values);
            lemma_dec_id(s, p2 + body, type_id);
        },
        _ => (),
    }
}

/// `lemma_dec_value`, for values with one nested value.
#[verifier::rlimit(80)]
#[verifier::spinoff_prover]
proof fn lemma_dec_value_nested(s: Seq<u8>, pos: int, v: ValueModel)
    requires
        value_fits(v),
        enc_at(s, pos, v),
        v is Variant || v is Reference,
    ensures
        dec_value(s, pos) == Some((v, pos + enc_value(v).len())),
    decreases v, 0int,
{
    let e = enc_value(v);
    assert(s[pos] == e[0]);
    match v {
        ValueModel::Variant { discriminator, contents, type_id } => {
            lemma_subrange_split4(
                s,
                pos,
                seq![TAG_VARIANT],
                enc_str(discriminator),
                enc_value(*contents),
                le64(type_id as u64),
            );
            lemma_dec_str(s, pos + 1, discriminator);
            let p2 = pos + 1 + enc_str(discriminator).len();
            lemma_enc_value_min_len(*contents);
            lemma_dec_value(s, p2, *contents);
            lemma_dec_id(s, p2 + enc_value(*contents).len(), type_id);
        },
        ValueModel::Reference { dereferenced, address, mutable, type_id } => {
            lemma_subrange_split5(
                s,
                pos,
                seq![TAG_REFERENCE],
                enc_value(*dereferenced),
                le64(address),
                enc_bool(mutable),
                le64(type_id as u64),
            );
            lemma_dec_value(s, pos + 1, *dereferenced);
            let p2 = pos + 1 + enc_value(*dereferenced).len();
            lemma_dec_u64(s, p2, address);
            lemma_dec_bool(s, p2 + 8, mutable);
            lemma_dec_id(s, p2 + 9, type_id);
        },
        _ => (),
    }
}

/// Decoding an encoded value placed at `pos` yields the encoded value.
pub proof fn lemma_dec_value(s: Seq<u8>, pos: int, v: ValueModel)
    requires
        value_fits(v),
        enc_at(s, pos, v),
    ensures
        dec_value(s, pos) == Some((v, pos + enc_value(v).len())),
    decreases v, 1int,
{
    if v is Sequence || v is Tuple || v is Struct {
        lemma_dec_value_children(s, pos, v);
    } else if v is Variant || v is Reference {
        lemma_dec_value_nested(s, pos, v);
    } else {
        lemma_dec_value_leaf(s, pos, v);
    }
}

/// Decoding the concatenated encodings of the values from index `i` on
/// yields those values.
pub proof fn lemma_dec_values(s: Seq<u8>, pos: int, vs: Seq<ValueModel>, i: int)
    requires
        0 <= pos,
        0 <= i <= vs.len(),
        values_fit_from(vs, i),
        pos + enc_values_from(vs, i).len() <= s.len(),
        s.subrange(pos, pos + enc_values_from(vs, i).len()) == enc_values_from(vs, i),
    ensures
        dec_values(s, pos, vs.len() - i) == Some(
            (vs.subrange(i, vs.len() as int), pos + enc_values_from(vs, i).len()),
        ),
    decreases vs, vs.len() - i,
{
    if i == vs.len() {
        assert(vs.subrange(i, vs.len() as int) =~= Seq::<ValueModel>::empty());
    } else {
        lemma_subrange_split(s, pos, enc_value(vs[i]), enc_values_from(vs, i + 1));
        lemma_dec_value(s, pos, vs[i]);
        lemma_enc_value_min_len(vs[i]);
        let p2 = pos + enc_value(vs[i]).len();
        lemma_dec_values(s, p2, vs, i + 1);
        assert(seq![vs[i]] + vs.subrange(i + 1, vs.len() as int) =~= vs.subrange(
            i,
            vs.len() as int,
        ));
    }
}

/// Appends the encoding of `v`.
#[verifier::loop_isolation(false)]
pub fn enc_value_exec(out: &mut Vec<u8>, v: &ValueRecord)
    ensures
        final(out)@ == old(out)@ + enc_value(v.model()),
    decreases *v, 1int,
{
    match v {
        ValueRecord::Int { i, type_id } => {
            out.push(TAG_INT);
            push_u64(out, #[verifier::truncate] (*i as u64));
            push_u64(out, type_id.0 as u64);
            proof {
                assert(out@ =~= old(out)@ + enc_value(v.model()));
            }
        },
        ValueRecord::Float { f_bits, type_id } => {
            out.push(TAG_FLOAT);
            push_u64(out, *f_bits);
            push_u64(out, type_id.0 as u64);
            proof {
                assert(out@ =~= old(out)@ + enc_value(v.model()));
            }
        },
        ValueRecord::Bool { b, type_id } => {
            out.push(TAG_BOOL);
            push_bool(out, *b);
            push_u64(out, type_id.0 as u64);
            proof {
                assert(out@ =~= old(out)@ + enc_value(v.model()));
            }
        },
        ValueRecord::String { text, type_id } => {
            out.push(TAG_STRING);
            push_str(out, text.as_str());
            push_u64(out, type_id.0 as u64);
            proof {
                assert(out@ =~= old(out)@ + enc_value(v.model()));
            }
        },
        ValueRecord::Sequence { elements, is_slice, type_id } => {
            out.push(TAG_SEQUENCE);
            push_u64(out, elements.len() as u64);
            enc_values_exec(out, v, elements);
            push_bool(out, *is_slice);
            push_u64(out, type_id.0 as u64);
            proof {
                lemma_models_of(elements@);
                assert(out@ =~= old(out)@ + enc_value(v.model()));
            }
        },
        ValueRecord::Tuple { elements, type_id } => {
            out.push(TAG_TUPLE);
            push_u64(out, elements.len() as u64);
            enc_values_exec(out, v, elements);
            push_u64(out, type_id.0 as u64);
            proof {
                lemma_models_of(elements@);
                assert(out@ =~= old(out)@ + enc_value(v.model()));
            }
        },
        ValueRecord::Struct { field_values, type_id } => {
            out.push(TAG_STRUCT);
            push_u64(out, field_values.len() as u64);
            enc_values_exec(out, v, field_values);
            push_u64(out, type_id.0 as u64);
            proof {
                lemma_models_of(field_values@);
                assert(out@ =~= old(out)@ + enc_value(v.model()));
            }
        },
        ValueRecord::Variant { discriminator, contents, type_id } => {
            out.push(TAG_VARIANT);
            push_str(out, discriminator.as_str());
            enc_value_exec(out, &**contents);
            push_u64(out, type_id.0 as u64);
            proof {
                assert(out@ =~= old(out)@ + enc_value(v.model()));
            }
        },
        ValueRecord::Reference { dereferenced, address, mutable, type_id } => {
            out.push(TAG_REFERENCE);
            enc_value_exec(out, &**dereferenced);
            push_u64(out, *address);
            push_bool(out, *mutable);
            push_u64(out, type_id.0 as u64);
            proof {
                assert(out@ =~= old(out)@ + enc_value(v.model()));
            }
        },
        ValueRecord::Raw { r, type_id } => {
            out.push(TAG_RAW);
            push_str(out, r.as_str());
            push_u64(out, type_id.0 as u64);
            proof {
                assert(out@ =~= old(out)@ + enc_value(v.model()));
            }
        },
        ValueRecord::Error { msg, type_id } => {
            out.push(TAG_ERROR);
            push_str(out, msg.as_str());
            push_u64(out, type_id.0 as u64);
            proof {
                assert(out@ =~= old(out)@ + enc_value(v.model()));
            }
        },
        ValueRecord::Char { c, type_id } => {
            out.push(TAG_CHAR);
            push_u64(out, (*c as u32) as u64);
            push_u64(out, type_id.0 as u64);
            proof {
                assert(out@ =~= old(out)@ + enc_value(v.model()));
            }
        },
        ValueRecord::Null { type_id } => {
            out.push(TAG_NULL);
            push_u64(out, type_id.0 as u64);
            proof {
                assert(out@ =~= old(out)@ + enc_value(v.model()));
            }
        },
        ValueRecord::Cell { place } => {
            out.push(TAG_CELL);
            push_u64(out, place.0);
            proof {
                assert(out@ =~= old(out)@ + enc_value(v.model()));
            }
        },
        ValueRecord::BigInt { b, negative, type_id } => {
            out.push(TAG_BIGINT);
            push_bytes(out, b);
            push_bool(out, *negative);
            push_u64(out, type_id.0 as u64);
            proof {
                assert(out@ =~= old(out)@ + enc_value(v.model()));
            }
        },
    }
}

/// Appends the encodings of all values in `elements`, which are children of
/// the value `parent`.
#[verifier::loop_isolation(false)]
fn enc_values_exec(out: &mut Vec<u8>, parent: &ValueRecord, elements: &Vec<ValueRecord>)
    requires
        decreases_to!(*parent => *elements),
    ensures
        final(out)@ == old(out)@ + enc_values_from(models_of(elements@), 0),
    decreases *parent, 0int,
{
    let ghost ms = models_of(elements@);
    proof {
        lemma_models_of(elements@);
    }
    let n = elements.len();
    let mut j: usize = 0;
    while j < n
        invariant
            j <= n,
            out@ + enc_values_from(ms, j as int) == old(out)@ + enc_values_from(ms, 0),
        decreases n - j,
    {
        proof {
            assert(decreases_to!(*elements => elements@));
            assert(decreases_to!(elements@ => elements@[j as int]));
            assert(decreases_to!(*parent => elements@[j as int]));
        }
        let ghost prev = out@;
        enc_value_exec(out, &elements[j]);
        proof {
            assert(enc_values_from(ms, j as int) == enc_value(ms[j as int]) + enc_values_from(
                ms,
                j + 1,
            ));
            assert(out@ + enc_values_from(ms, j + 1) =~= prev + enc_values_from(ms, j as int));
        }
        j = j + 1;
    }
    proof {
        assert(out@ =~= out@ + enc_values_from(ms, n as int));
    }
}

/// Joins a freshly decoded list of values onto an already decoded prefix.
pub open spec fn prepend_values(ms: Seq<ValueModel>, o: Option<(Seq<ValueModel>, int)>) -> Option<
    (Seq<ValueModel>, int),
> {
    match o {
        Option::Some((vs, p)) => Some((ms + vs, p)),
        Option::None => None,
    }
}

/// Reads one value at `pos`.
#[verifier::loop_isolation(false)]
pub fn dec_value_exec(buf: &Vec<u8>, pos: usize) -> (r: Option<(ValueRecord, usize)>)
    ensures
        match r {
            Option::Some((v, p)) => dec_value(buf@, pos as int) == Some((v.model(), p as int))
                && pos < p <= buf@.len(),
            Option::None => dec_value(buf@, pos as int) is None,
        },
    decreases buf@.len() - pos, 0int,
{
    if pos >= buf.len() {
        return None;
    }
    let tag = buf[pos];
    let p = pos + 1;
    if tag == TAG_INT {
        match read_i64(buf, p) {
            Option::Some((i, p2)) => match read_id(buf, p2) {
                Option::Some((type_id, p3)) => Some(
                    (ValueRecord::Int { i, type_id: TypeId(type_id) }, p3),
                ),
                Option::None => None,
            },
            Option::None => None,
        }
    } else if tag == TAG_FLOAT {
        match read_u64(buf, p) {
            Option::Some((f_bits, p2)) => match read_id(buf, p2) {
                Option::Some((type_id, p3)) => Some(
                    (ValueRecord::Float { f_bits, type_id: TypeId(type_id) }, p3),
                ),
                Option::None => None,
            },
            Option::None => None,
        }
    } else if tag == TAG_BOOL {
        match read_bool(buf, p) {
            Option::Some((b, p2)) => match read_id(buf, p2) {
                Option::Some((type_id, p3)) => Some(
                    (ValueRecord::Bool { b, type_id: TypeId(type_id) }, p3),
                ),
                Option::None => None,
            },
            Option::None => None,
        }
    } else if tag == TAG_STRING {
        match read_str(buf, p) {
            Option::Some((text, p2)) => match read_id(buf, p2) {
                Option::Some((type_id, p3)) => Some(
                    (ValueRecord::String { text, type_id: TypeId(type_id) }, p3),
                ),
                Option::None => None,
            },
            Option::None => None,
        }
    } else if tag == TAG_SEQUENCE {
        match read_u64(buf, p) {
            Option::Some((n, p2)) => match dec_values_exec(buf, p2, n) {
                Option::Some((elements, p3)) => match read_bool(buf, p3) {
                    Option::Some((is_slice, p4)) => match read_id(buf, p4) {
                        Option::Some((type_id, p5)) => Some(
                            (
                                ValueRecord::Sequence {
                                    elements,
                                    is_slice,
                                    type_id: TypeId(type_id),
                                },
                                p5,
                            ),
                        ),
                        Option::None => None,
                    },
                    Option::None => None,
                },
                Option::None => None,
            },
            Option::None => None,
        }
    } else if tag == TAG_TUPLE {
        match read_u64(buf, p) {
            Option::Some((n, p2)) => match dec_values_exec(buf, p2, n) {
                Option::Some((elements, p3)) => match read_id(buf, p3) {
                    Option::Some((type_id, p4)) => Some(
                        (ValueRecord::Tuple { elements, type_id: TypeId(type_id) }, p4),
                    ),
                    Option::None => None,
                },
                Option::None => None,
            },
            Option::None => None,
        }
    } else if tag == TAG_STRUCT {
        match read_u64(buf, p) {
            Option::Some((n, p2)) => match dec_values_exec(buf, p2, n) {
                Option::Some((field_values, p3)) => match read_id(buf, p3) {
                    Option::Some((type_id, p4)) => Some(
                        (ValueRecord::Struct { field_values, type_id: TypeId(type_id) }, p4),
                    ),
                    Option::None => None,
                },
                Option::None => None,
            },
            Option::None => None,
        }
    } else if tag == TAG_VARIANT {
        match read_str(buf, p) {
            Option::Some((discriminator, p2)) => match dec_value_exec(buf, p2) {
                Option::Some((contents, p3)) => match read_id(buf, p3) {
                    Option::Some((type_id, p4)) => Some(
                        (
                            ValueRecord::Variant {
                                discriminator,
                                contents: Box::new(contents),
                                type_id: TypeId(type_id),
                            },
                            p4,
                        ),
                    ),
                    Option::None => None,
                },
                Option::None => None,
            },
            Option::None => None,
        }
    } else if tag == TAG_REFERENCE {
        match dec_value_exec(buf, p) {
            Option::Some((dereferenced, p2)) => match read_u64(buf, p2) {
                Option::Some((address, p3)) => match read_bool(buf, p3) {
                    Option::Some((mutable, p4)) => match read_id(buf, p4) {
                        Option::Some((type_id, p5)) => Some(
                            (
                                ValueRecord::Reference {
                                    dereferenced: Box::new(dereferenced),
                                    address,
                                    mutable,
                                    type_id: TypeId(type_id),
                                },
                                p5,
                            ),
                        ),
                        Option::None => None,
                    },
                    Option::None => None,
                },
                Option::None => None,
            },
            Option::None => None,
        }
    } else if tag == TAG_RAW {
        match read_str(buf, p) {
            Option::Some((r, p2)) => match read_id(buf, p2) {
                Option::Some((type_id, p3)) => Some(
                    (ValueRecord::Raw { r, type_id: TypeId(type_id) }, p3),
                ),
                Option::None => None,
            },
            Option::None => None,
        }
    } else if tag == TAG_ERROR {
        match read_str(buf, p) {
            Option::Some((msg, p2)) => match read_id(buf, p2) {
                Option::Some((type_id, p3)) => Some(
                    (ValueRecord::Error { msg, type_id: TypeId(type_id) }, p3),
                ),
                Option::None => None,
            },
            Option::None => None,
        }
    } else if tag == TAG_CHAR {
        match read_char(buf, p) {
            Option::Some((c, p2)) => match read_id(buf, p2) {
                Option::Some((type_id, p3)) => Some(
                    (ValueRecord::Char { c, type_id: TypeId(type_id) }, p3),
                ),
                Option::None => None,
            },
            Option::None => None,
        }
    } else if tag == TAG_NULL {
        match read_id(buf, p) {
            Option::Some((type_id, p2)) => Some(
                (ValueRecord::Null { type_id: TypeId(type_id) }, p2),
            ),
            Option::None => None,
        }
    } else if tag == TAG_CELL {
        match read_u64(buf, p) {
            Option::Some((place, p2)) => Some((ValueRecord::Cell { place: Place(place) }, p2)),
            Option::None => None,
        }
    } else if tag == TAG_BIGINT {
        match read_bytes(buf, p) {
            Option::Some((b, p2)) => match read_bool(buf, p2) {
                Option::Some((negative, p3)) => match read_id(buf, p3) {
                    Option::Some((type_id, p4)) => Some(
                        (ValueRecord::BigInt { b, negative, type_id: TypeId(type_id) }, p4),
                    ),
                    Option::None => None,
                },
                Option::None => None,
            },
            Option::None => None,
        }
    } else {
        None
    }
}

/// Reads `n` consecutive values starting at `pos`.
#[verifier::loop_isolation(false)]
pub fn dec_values_exec(buf: &Vec<u8>, pos: usize, n: u64) -> (r: Option<(Vec<ValueRecord>, usize)>)
    requires
        pos <= buf@.len(),
    ensures
        match r {
            Option::Some((vs, p)) => dec_values(buf@, pos as int, n as int) == Some(
                (models_of(vs@), p as int),
            ) && pos <= p <= buf@.len(),
            Option::None => dec_values(buf@, pos as int, n as int) is None,
        },
    decreases buf@.len() - pos, 1int,
{
    let mut acc: Vec<ValueRecord> = Vec::new();
    let mut cur: usize = pos;
    let mut i: u64 = 0;
    while i < n
        invariant
            0 <= i <= n,
            pos <= cur <= buf@.len(),
            i > 0 ==> pos < cur,
            prepend_values(models_of(acc@), dec_values(buf@, cur as int, (n - i) as int))
                == dec_values(buf@, pos as int, n as int),
        decreases n - i,
    {
        let ghost prev_models = models_of(acc@);
        match dec_value_exec(buf, cur) {
            Option::Some((v, p)) => {
                proof {
                    lemma_models_of(acc@);
                    lemma_models_of(acc@.push(v));
                    assert(models_of(acc@.push(v)) =~= prev_models + seq![v.model()]);
                    match dec_values(buf@, p as int, (n - i - 1) as int) {
                        Option::Some((vs, q)) => {
                            assert((prev_models + seq![v.model()]) + vs =~= prev_models + (
                            seq![v.model()] + vs));
                        },
                        Option::None => (),
                    }
                }
                acc.push(v);
                cur = p;
            },
            Option::None => {
                return None;
            },
        }
        i = i + 1;
    }
    proof {
        assert(dec_values(buf@, cur as int, 0) == Some((Seq::<ValueModel>::empty(), cur as int)));
        assert(models_of(acc@) + Seq::<ValueModel>::empty() =~= models_of(acc@));
    }
    Some((acc, cur))
}

} // verus!
