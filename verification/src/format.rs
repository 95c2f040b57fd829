//! The two trace file formats and their shared magic header.
//!
//! Both files start with the same five magic bytes followed by a version
//! byte and two reserved zero bytes.  Version zero is the legacy format: one
//! length-prefixed, zero-elision-packed message holding the whole event list
//! behind a leading count.  Version one is the streaming format: the
//! concatenated per-event encodings, compressed as one seekable stream, with
//! no outer count — readers decode until the decompressed bytes end.
//!
//! The legacy format predates the `Char` value variant, so a `Char` written
//! through it is degraded to a `Raw` value holding the character's string
//! form and reads back as that `Raw` value; the streaming format keeps
//! `Char` values exact.

use vstd::prelude::*;

use crate::codec::{
    enc_value, enc_values_from, value_fits, values_fit_from, TAG_RAW,
};
use crate::event_codec::{
    dec_events_n, dec_events_to_end, enc_args_from, enc_event, enc_event_exec, enc_events_from,
    event_fits, events_fit_from, lemma_dec_events_n, lemma_dec_events_to_end, push_events,
    enc_full_value,
};
use crate::model::{
    event_models_of, models_of, EventModel, FieldModel, FullValueModel, RValueModel, TypeInfoModel,
    TypeModel, ValueModel,
};
use crate::pack::{lemma_unpack_pack, pack, pack_exec, unpack_exec, unpack_to_end, zero_run};
use crate::types::{
    RValue, TraceLowLevelEvent, TypeSpecificInfo, ValueRecord,
};
use crate::wire::{
    dec_u64, le64, lemma_dec_u64, lemma_subrange_split, lemma_subrange_split3, push_bool,
    push_bytes, push_str, push_u64, read_u64, str_fits, subrange_vec,
};

verus! {

broadcast use vstd::utf8::encode_utf8_valid_utf8;

/// Why a trace could not be encoded or decoded.
#[derive(Clone, Copy, Debug, PartialEq, Eq, Structural)]
pub enum TraceError {
    /// The first eight bytes match neither known file header.
    UnknownFormat,
    /// The payload does not parse under the detected format's rules.
    Malformed,
    /// An identifier does not fit the legacy format's signed 64-bit fields.
    IdOutOfRange,
    /// The compressed stream could not be produced or read.
    Compression,
    /// The requested strategy is handled outside this library.
    UnsupportedFormat,
}

/// The eight header bytes of the legacy format: the five magic bytes, the
/// version byte zero, and two reserved zero bytes.
pub open spec fn header_v0() -> Seq<u8> {
    seq![0xC0u8, 0xDEu8, 0x72u8, 0xACu8, 0xE2u8, 0x00u8, 0x00u8, 0x00u8]
}

/// The eight header bytes of the streaming format: the same magic, version
/// byte one, and two reserved zero bytes.
pub open spec fn header_v1() -> Seq<u8> {
    seq![0xC0u8, 0xDEu8, 0x72u8, 0xACu8, 0xE2u8, 0x01u8, 0x00u8, 0x00u8]
}

/// Appends the legacy header.
pub fn push_header_v0(out: &mut Vec<u8>)
    ensures
        final(out)@ == old(out)@ + header_v0(),
{
    out.push(0xC0);
    out.push(0xDE);
    out.push(0x72);
    out.push(0xAC);
    out.push(0xE2);
    out.push(0x00);
    out.push(0x00);
    out.push(0x00);
    proof {
        assert(out@ =~= old(out)@ + header_v0());
    }
}

/// Appends the streaming header.
pub fn push_header_v1(out: &mut Vec<u8>)
    ensures
        final(out)@ == old(out)@ + header_v1(),
{
    out.push(0xC0);
    out.push(0xDE);
    out.push(0x72);
    out.push(0xAC);
    out.push(0xE2);
    out.push(0x01);
    out.push(0x00);
    out.push(0x00);
    proof {
        assert(out@ =~= old(out)@ + header_v1());
    }
}

/// Tests whether `data` starts with the legacy header.
pub fn has_header_v0(data: &Vec<u8>) -> (r: bool)
    ensures
        r == (data@.len() >= 8 && data@.subrange(0, 8) == header_v0()),
{
    let r = data.len() >= 8 && data[0] == 0xC0 && data[1] == 0xDE && data[2] == 0x72 && data[3]
        == 0xAC && data[4] == 0xE2 && data[5] == 0x00 && data[6] == 0x00 && data[7] == 0x00;
    proof {
        if data@.len() >= 8 {
            assert(data@.subrange(0, 8) =~= header_v0() <==> (data@[0] == 0xC0u8 && data@[1]
                == 0xDEu8 && data@[2] == 0x72u8 && data@[3] == 0xACu8 && data@[4] == 0xE2u8
                && data@[5] == 0x00u8 && data@[6] == 0x00u8 && data@[7] == 0x00u8));
        }
    }
    r
}

/// Tests whether `data` starts with the streaming header.
pub fn has_header_v1(data: &Vec<u8>) -> (r: bool)
    ensures
        r == (data@.len() >= 8 && data@.subrange(0, 8) == header_v1()),
{
    let r = data.len() >= 8 && data[0] == 0xC0 && data[1] == 0xDE && data[2] == 0x72 && data[3]
        == 0xAC && data[4] == 0xE2 && data[5] == 0x01 && data[6] == 0x00 && data[7] == 0x00;
    proof {
        if data@.len() >= 8 {
            assert(data@.subrange(0, 8) =~= header_v1() <==> (data@[0] == 0xC0u8 && data@[1]
                == 0xDEu8 && data@[2] == 0x72u8 && data@[3] == 0xACu8 && data@[4] == 0xE2u8
                && data@[5] == 0x01u8 && data@[6] == 0x00u8 && data@[7] == 0x00u8));
        }
    }
    r
}

/// The legacy form of a value: a `Char` becomes a `Raw` holding the
/// character's string form; everything else is kept, with children degraded
/// recursively.
pub open spec fn degrade_value(v: ValueModel) -> ValueModel
    decreases v, 0int,
{
    match v {
        ValueModel::Char { c, type_id } => ValueModel::Raw { r: seq![c], type_id },
        ValueModel::Sequence { elements, is_slice, type_id } => ValueModel::Sequence {
            elements: degrade_values_from(elements, 0),
            is_slice,
            type_id,
        },
        ValueModel::Tuple { elements, type_id } => ValueModel::Tuple {
            elements: degrade_values_from(elements, 0),
            type_id,
        },
        ValueModel::Struct { field_values, type_id } => ValueModel::Struct {
            field_values: degrade_values_from(field_values, 0),
            type_id,
        },
        ValueModel::Variant { discriminator, contents, type_id } => ValueModel::Variant {
            discriminator,
            contents: Box::new(degrade_value(*contents)),
            type_id,
        },
        ValueModel::Reference { dereferenced, address, mutable, type_id } => ValueModel::Reference {
            dereferenced: Box::new(degrade_value(*dereferenced)),
            address,
            mutable,
            type_id,
        },
        _ => v,
    }
}

/// The legacy forms of the values from index `i` on.
pub open spec fn degrade_values_from(vs: Seq<ValueModel>, i: int) -> Seq<ValueModel>
    decreases vs, vs.len() - i,
{
    if i < 0 || i >= vs.len() {
        Seq::empty()
    } else {
        seq![degrade_value(vs[i])] + degrade_values_from(vs, i + 1)
    }
}

/// The legacy form of a bound value.
pub open spec fn degrade_full_value(a: FullValueModel) -> FullValueModel {
    FullValueModel { variable_id: a.variable_id, value: degrade_value(a.value) }
}

/// The legacy forms of the bound values from index `i` on.
pub open spec fn degrade_args_from(args: Seq<FullValueModel>, i: int) -> Seq<FullValueModel>
    decreases args.len() - i,
{
    if i < 0 || i >= args.len() {
        Seq::empty()
    } else {
        seq![degrade_full_value(args[i])] + degrade_args_from(args, i + 1)
    }
}

/// The legacy form of an event: every value in it is degraded.
pub open spec fn degrade_event(e: EventModel) -> EventModel {
    match e {
        EventModel::Value { value } => EventModel::Value { value: degrade_full_value(value) },
        EventModel::Call { function_id, args } => EventModel::Call {
            function_id,
            args: degrade_args_from(args, 0),
        },
        EventModel::Return { return_value } => EventModel::Return {
            return_value: degrade_value(return_value),
        },
        EventModel::CompoundValue { place, value } => EventModel::CompoundValue {
            place,
            value: degrade_value(value),
        },
        EventModel::CellValue { place, value } => EventModel::CellValue {
            place,
            value: degrade_value(value),
        },
        EventModel::AssignCell { place, new_value } => EventModel::AssignCell {
            place,
            new_value: degrade_value(new_value),
        },
        _ => e,
    }
}

/// The legacy forms of the events from index `i` on.
pub open spec fn degrade_events_from(es: Seq<EventModel>, i: int) -> Seq<EventModel>
    decreases es.len() - i,
{
    if i < 0 || i >= es.len() {
        Seq::empty()
    } else {
        seq![degrade_event(es[i])] + degrade_events_from(es, i + 1)
    }
}

/// Every value from index `i` on fits exactly when each one fits.
pub proof fn lemma_values_fit_iff(vs: Seq<ValueModel>, i: int)
    requires
        0 <= i <= vs.len(),
    ensures
        values_fit_from(vs, i) <==> (forall|j: int| i <= j < vs.len() ==> value_fits(#[trigger] vs[j])),
    decreases vs.len() - i,
{
    if i < vs.len() {
        lemma_values_fit_iff(vs, i + 1);
    }
}

/// Every argument from index `i` on fits exactly when each one fits.
pub proof fn lemma_args_fit_iff(args: Seq<FullValueModel>, i: int)
    requires
        0 <= i <= args.len(),
    ensures
        crate::event_codec::args_fit_from(args, i) <==> (forall|j: int|
            i <= j < args.len() ==> value_fits(#[trigger] args[j].value)),
    decreases args.len() - i,
{
    if i < args.len() {
        lemma_args_fit_iff(args, i + 1);
    }
}

/// Every event from index `i` on fits exactly when each one fits.
pub proof fn lemma_events_fit_iff(es: Seq<EventModel>, i: int)
    requires
        0 <= i <= es.len(),
    ensures
        events_fit_from(es, i) <==> (forall|j: int| i <= j < es.len() ==> event_fits(#[trigger] es[j])),
    decreases es.len() - i,
{
    if i < es.len() {
        lemma_events_fit_iff(es, i + 1);
    }
}

/// How `degrade_values_from` relates to indexing.
pub proof fn lemma_degrade_values_index(vs: Seq<ValueModel>, i: int)
    requires
        0 <= i <= vs.len(),
    ensures
        degrade_values_from(vs, i).len() == vs.len() - i,
        forall|j: int|
            0 <= j < vs.len() - i ==> #[trigger] degrade_values_from(vs, i)[j] == degrade_value(
                vs[i + j],
            ),
    decreases vs.len() - i,
{
    if i < vs.len() {
        lemma_degrade_values_index(vs, i + 1);
    }
}

/// How `degrade_args_from` relates to indexing.
pub proof fn lemma_degrade_args_index(args: Seq<FullValueModel>, i: int)
    requires
        0 <= i <= args.len(),
    ensures
        degrade_args_from(args, i).len() == args.len() - i,
        forall|j: int|
            0 <= j < args.len() - i ==> #[trigger] degrade_args_from(args, i)[j]
                == degrade_full_value(args[i + j]),
    decreases args.len() - i,
{
    if i < args.len() {
        lemma_degrade_args_index(args, i + 1);
    }
}

/// How `degrade_events_from` relates to indexing.
pub proof fn lemma_degrade_events_index(es: Seq<EventModel>, i: int)
    requires
        0 <= i <= es.len(),
    ensures
        degrade_events_from(es, i).len() == es.len() - i,
        forall|j: int|
            0 <= j < es.len() - i ==> #[trigger] degrade_events_from(es, i)[j] == degrade_event(
                es[i + j],
            ),
    decreases es.len() - i,
{
    if i < es.len() {
        lemma_degrade_events_index(es, i + 1);
    }
}

/// Degrading keeps a value's lengths within bounds.
pub proof fn lemma_degrade_value_fits(v: ValueModel)
    requires
        value_fits(v),
    ensures
        value_fits(degrade_value(v)),
    decreases v, 1int,
{
    match v {
        ValueModel::Char { c, type_id } => {
            assert(seq![c].drop_first() =~= Seq::<char>::empty());
            assert(vstd::utf8::encode_utf8(Seq::<char>::empty()) =~= Seq::<u8>::empty());
            assert(vstd::utf8::encode_utf8(seq![c]) =~= vstd::utf8::encode_scalar(c as u32));
            assert(vstd::utf8::encode_scalar(c as u32).len() <= 4);
        },
        ValueModel::Sequence { elements, .. } => {
            lemma_degrade_values_fit(elements, 0);
        },
        ValueModel::Tuple { elements, .. } => {
            lemma_degrade_values_fit(elements, 0);
        },
        ValueModel::Struct { field_values, .. } => {
            lemma_degrade_values_fit(field_values, 0);
        },
        ValueModel::Variant { contents, .. } => {
            lemma_degrade_value_fits(*contents);
        },
        ValueModel::Reference { dereferenced, .. } => {
            lemma_degrade_value_fits(*dereferenced);
        },
        _ => (),
    }
}

/// Degrading keeps every value's lengths within bounds.
pub proof fn lemma_degrade_values_fit(vs: Seq<ValueModel>, i: int)
    requires
        0 <= i <= vs.len(),
        values_fit_from(vs, i),
    ensures
        degrade_values_from(vs, i).len() == vs.len() - i,
        values_fit_from(degrade_values_from(vs, i), 0),
    decreases vs, 0int,
{
    let d = degrade_values_from(vs, i);
    lemma_degrade_values_index(vs, i);
    lemma_values_fit_iff(vs, i);
    assert forall|j: int| 0 <= j < d.len() implies value_fits(#[trigger] d[j]) by {
        assert(value_fits(vs[i + j]));
        lemma_degrade_value_fits(vs[i + j]);
    }
    lemma_values_fit_iff(d, 0);
}

/// Degrading keeps an event's lengths within bounds.
pub proof fn lemma_degrade_event_fits(e: EventModel)
    requires
        event_fits(e),
    ensures
        event_fits(degrade_event(e)),
{
    match e {
        EventModel::Value { value } => {
            lemma_degrade_value_fits(value.value);
        },
        EventModel::Call { args, .. } => {
            lemma_degrade_args_fit(args, 0);
        },
        EventModel::Return { return_value } => {
            lemma_degrade_value_fits(return_value);
        },
        EventModel::CompoundValue { value, .. } => {
            lemma_degrade_value_fits(value);
        },
        EventModel::CellValue { value, .. } => {
            lemma_degrade_value_fits(value);
        },
        EventModel::AssignCell { new_value, .. } => {
            lemma_degrade_value_fits(new_value);
        },
        _ => (),
    }
}

/// Degrading keeps every argument's lengths within bounds.
pub proof fn lemma_degrade_args_fit(args: Seq<FullValueModel>, i: int)
    requires
        0 <= i <= args.len(),
        crate::event_codec::args_fit_from(args, i),
    ensures
        degrade_args_from(args, i).len() == args.len() - i,
        crate::event_codec::args_fit_from(degrade_args_from(args, i), 0),
{
    let d = degrade_args_from(args, i);
    lemma_degrade_args_index(args, i);
    lemma_args_fit_iff(args, i);
    assert forall|j: int| 0 <= j < d.len() implies value_fits(#[trigger] d[j].value) by {
        assert(value_fits(args[i + j].value));
        lemma_degrade_value_fits(args[i + j].value);
    }
    lemma_args_fit_iff(d, 0);
}

/// Degrading keeps every event's lengths within bounds.
pub proof fn lemma_degrade_events_fit(es: Seq<EventModel>, i: int)
    requires
        0 <= i <= es.len(),
        events_fit_from(es, i),
    ensures
        degrade_events_from(es, i).len() == es.len() - i,
        events_fit_from(degrade_events_from(es, i), 0),
{
    let d = degrade_events_from(es, i);
    lemma_degrade_events_index(es, i);
    lemma_events_fit_iff(es, i);
    assert forall|j: int| 0 <= j < d.len() implies event_fits(#[trigger] d[j]) by {
        assert(event_fits(es[i + j]));
        lemma_degrade_event_fits(es[i + j]);
    }
    lemma_events_fit_iff(d, 0);
}

/// True when every identifier in a value fits the legacy format's signed
/// 64-bit wire fields.
pub open spec fn v0_value_ok(v: ValueModel) -> bool
    decreases v, 0int,
{
    match v {
        ValueModel::Int { type_id, .. } => type_id <= i64::MAX as usize,
        ValueModel::Float { type_id, .. } => type_id <= i64::MAX as usize,
        ValueModel::Bool { type_id, .. } => type_id <= i64::MAX as usize,
        ValueModel::String { type_id, .. } => type_id <= i64::MAX as usize,
        ValueModel::Sequence { elements, type_id, .. } => type_id <= i64::MAX as usize
            && v0_values_ok_from(elements, 0),
        ValueModel::Tuple { elements, type_id } => type_id <= i64::MAX as usize
            && v0_values_ok_from(elements, 0),
        ValueModel::Struct { field_values, type_id } => type_id <= i64::MAX as usize
            && v0_values_ok_from(field_values, 0),
        ValueModel::Variant { contents, type_id, .. } => type_id <= i64::MAX as usize
            && v0_value_ok(*contents),
        ValueModel::Reference { dereferenced, type_id, .. } => type_id <= i64::MAX as usize
            && v0_value_ok(*dereferenced),
        ValueModel::Raw { type_id, .. } => type_id <= i64::MAX as usize,
        ValueModel::Error { type_id, .. } => type_id <= i64::MAX as usize,
        ValueModel::Char { type_id, .. } => type_id <= i64::MAX as usize,
        ValueModel::Null { type_id } => type_id <= i64::MAX as usize,
        ValueModel::Cell { .. } => true,
        ValueModel::BigInt { type_id, .. } => type_id <= i64::MAX as usize,
    }
}

/// True when every identifier of every value from index `i` on fits.
pub open spec fn v0_values_ok_from(vs: Seq<ValueModel>, i: int) -> bool
    decreases vs, vs.len() - i,
{
    if i < 0 || i >= vs.len() {
        true
    } else {
        v0_value_ok(vs[i]) && v0_values_ok_from(vs, i + 1)
    }
}

/// Every value from index `i` on is in range exactly when each one is.
pub proof fn lemma_v0_values_ok_iff(vs: Seq<ValueModel>, i: int)
    requires
        0 <= i <= vs.len(),
    ensures
        v0_values_ok_from(vs, i) <==> (forall|j: int|
            i <= j < vs.len() ==> v0_value_ok(#[trigger] vs[j])),
    decreases vs.len() - i,
{
    if i < vs.len() {
        lemma_v0_values_ok_iff(vs, i + 1);
    }
}

/// True when every identifier of every argument from index `i` on fits.
pub open spec fn v0_args_ok_from(args: Seq<FullValueModel>, i: int) -> bool
    decreases args.len() - i,
{
    if i < 0 || i >= args.len() {
        true
    } else {
        args[i].variable_id <= i64::MAX as usize && v0_value_ok(args[i].value) && v0_args_ok_from(
            args,
            i + 1,
        )
    }
}

/// Every argument from index `i` on is in range exactly when each one is.
pub proof fn lemma_v0_args_ok_iff(args: Seq<FullValueModel>, i: int)
    requires
        0 <= i <= args.len(),
    ensures
        v0_args_ok_from(args, i) <==> (forall|j: int|
            i <= j < args.len() ==> (#[trigger] args[j].variable_id <= i64::MAX as usize
                && v0_value_ok(args[j].value))),
    decreases args.len() - i,
{
    if i < args.len() {
        lemma_v0_args_ok_iff(args, i + 1);
    }
}

/// True when every identifier from index `i` on fits.
pub open spec fn v0_ids_ok_from(ids: Seq<usize>, i: int) -> bool
    decreases ids.len() - i,
{
    if i < 0 || i >= ids.len() {
        true
    } else {
        ids[i] <= i64::MAX as usize && v0_ids_ok_from(ids, i + 1)
    }
}

/// Every identifier from index `i` on is in range exactly when each one is.
pub proof fn lemma_v0_ids_ok_iff(ids: Seq<usize>, i: int)
    requires
        0 <= i <= ids.len(),
    ensures
        v0_ids_ok_from(ids, i) <==> (forall|j: int|
            i <= j < ids.len() ==> (#[trigger] ids[j]) <= i64::MAX as usize),
    decreases ids.len() - i,
{
    if i < ids.len() {
        lemma_v0_ids_ok_iff(ids, i + 1);
    }
}

/// True when every field's type identifier from index `i` on fits.
pub open spec fn v0_fields_ok_from(fs: Seq<FieldModel>, i: int) -> bool
    decreases fs.len() - i,
{
    if i < 0 || i >= fs.len() {
        true
    } else {
        fs[i].type_id <= i64::MAX as usize && v0_fields_ok_from(fs, i + 1)
    }
}

/// Every field from index `i` on is in range exactly when each one is.
pub proof fn lemma_v0_fields_ok_iff(fs: Seq<FieldModel>, i: int)
    requires
        0 <= i <= fs.len(),
    ensures
        v0_fields_ok_from(fs, i) <==> (forall|j: int|
            i <= j < fs.len() ==> (#[trigger] fs[j].type_id) <= i64::MAX as usize),
    decreases fs.len() - i,
{
    if i < fs.len() {
        lemma_v0_fields_ok_iff(fs, i + 1);
    }
}

/// True when every identifier in a type declaration fits.
pub open spec fn v0_type_ok(t: TypeModel) -> bool {
    match t.specific_info {
        TypeInfoModel::NoInfo => true,
        TypeInfoModel::Struct { fields } => v0_fields_ok_from(fields, 0),
        TypeInfoModel::Pointer { dereference_type_id } => dereference_type_id <= i64::MAX as usize,
    }
}

/// True when every identifier in an assignment provenance fits.
pub open spec fn v0_rvalue_ok(r: RValueModel) -> bool {
    match r {
        RValueModel::Simple(id) => id <= i64::MAX as usize,
        RValueModel::Compound(ids) => v0_ids_ok_from(ids, 0),
    }
}

/// True when every identifier in an event fits the legacy format's signed
/// 64-bit wire fields.
pub open spec fn v0_event_ok(e: EventModel) -> bool {
    match e {
        EventModel::Step { path_id, .. } => path_id <= i64::MAX as usize,
        EventModel::Type { typ } => v0_type_ok(typ),
        EventModel::Value { value } => value.variable_id <= i64::MAX as usize && v0_value_ok(
            value.value,
        ),
        EventModel::Function { path_id, .. } => path_id <= i64::MAX as usize,
        EventModel::Call { function_id, args } => function_id <= i64::MAX as usize
            && v0_args_ok_from(args, 0),
        EventModel::Return { return_value } => v0_value_ok(return_value),
        EventModel::BindVariable { variable_id, .. } => variable_id <= i64::MAX as usize,
        EventModel::Assignment { to, from, .. } => to <= i64::MAX as usize && v0_rvalue_ok(from),
        EventModel::DropVariables { variable_ids } => v0_ids_ok_from(variable_ids, 0),
        EventModel::DropVariable { variable_id } => variable_id <= i64::MAX as usize,
        EventModel::CompoundValue { value, .. } => v0_value_ok(value),
        EventModel::CellValue { value, .. } => v0_value_ok(value),
        EventModel::AssignCompoundItem { index, .. } => index <= i64::MAX as usize,
        EventModel::AssignCell { new_value, .. } => v0_value_ok(new_value),
        EventModel::VariableCell { variable_id, .. } => variable_id <= i64::MAX as usize,
        _ => true,
    }
}

/// True when every identifier of every event from index `i` on fits.
pub open spec fn v0_events_ok_from(es: Seq<EventModel>, i: int) -> bool
    decreases es.len() - i,
{
    if i < 0 || i >= es.len() {
        true
    } else {
        v0_event_ok(es[i]) && v0_events_ok_from(es, i + 1)
    }
}

/// Every event from index `i` on is in range exactly when each one is.
pub proof fn lemma_v0_events_ok_iff(es: Seq<EventModel>, i: int)
    requires
        0 <= i <= es.len(),
    ensures
        v0_events_ok_from(es, i) <==> (forall|j: int|
            i <= j < es.len() ==> v0_event_ok(#[trigger] es[j])),
    decreases es.len() - i,
{
    if i < es.len() {
        lemma_v0_events_ok_iff(es, i + 1);
    }
}

/// Checks that every identifier in the value fits the legacy wire fields.
#[verifier::loop_isolation(false)]
pub fn v0_value_ok_exec(v: &ValueRecord) -> (r: bool)
    ensures
        r == v0_value_ok(v.model()),
    decreases *v, 1int,
{
    let bound = i64::MAX as usize;
    match v {
        ValueRecord::Int { type_id, .. } => type_id.0 <= bound,
        ValueRecord::Float { type_id, .. } => type_id.0 <= bound,
        ValueRecord::Bool { type_id, .. } => type_id.0 <= bound,
        ValueRecord::String { type_id, .. } => type_id.0 <= bound,
        ValueRecord::Sequence { elements, type_id, .. } => type_id.0 <= bound && v0_values_ok_exec(
            v,
            elements,
        ),
        ValueRecord::Tuple { elements, type_id } => type_id.0 <= bound && v0_values_ok_exec(
            v,
            elements,
        ),
        ValueRecord::Struct { field_values, type_id } => type_id.0 <= bound && v0_values_ok_exec(
            v,
            field_values,
        ),
        ValueRecord::Variant { contents, type_id, .. } => type_id.0 <= bound && v0_value_ok_exec(
            &**contents,
        ),
        ValueRecord::Reference { dereferenced, type_id, .. } => type_id.0 <= bound
            && v0_value_ok_exec(&**dereferenced),
        ValueRecord::Raw { type_id, .. } => type_id.0 <= bound,
        ValueRecord::Error { type_id, .. } => type_id.0 <= bound,
        ValueRecord::Char { type_id, .. } => type_id.0 <= bound,
        ValueRecord::Null { type_id } => type_id.0 <= bound,
        ValueRecord::Cell { .. } => true,
        ValueRecord::BigInt { type_id, .. } => type_id.0 <= bound,
    }
}

/// Checks that every identifier in the child values fits.
#[verifier::loop_isolation(false)]
fn v0_values_ok_exec(parent: &ValueRecord, elements: &Vec<ValueRecord>) -> (r: bool)
    requires
        decreases_to!(*parent => *elements),
    ensures
        r == v0_values_ok_from(models_of(elements@), 0),
    decreases *parent, 0int,
{
    let ghost ms = models_of(elements@);
    proof {
        crate::model::lemma_models_of(elements@);
        lemma_v0_values_ok_iff(ms, 0);
    }
    let n = elements.len();
    let mut j: usize = 0;
    while j < n
        invariant
            j <= n,
            forall|k: int| 0 <= k < j as int ==> v0_value_ok(#[trigger] ms[k]),
        decreases n - j,
    {
        proof {
            assert(decreases_to!(*elements => elements@));
            assert(decreases_to!(elements@ => elements@[j as int]));
            assert(decreases_to!(*parent => elements@[j as int]));
            assert(ms[j as int] == elements@[j as int].model());
        }
        if !v0_value_ok_exec(&elements[j]) {
            proof {
                assert(!v0_value_ok(ms[j as int]));
            }
            return false;
        }
        j = j + 1;
    }
    true
}

/// Checks that every identifier in the event fits the legacy wire fields.
#[verifier::loop_isolation(false)]
#[verifier::rlimit(100)]
pub fn v0_event_ok_exec(e: &TraceLowLevelEvent) -> (r: bool)
    ensures
        r == v0_event_ok(e.model()),
{
    let bound = i64::MAX as usize;
    match e {
        TraceLowLevelEvent::Step(rec) => rec.path_id.0 <= bound,
        TraceLowLevelEvent::Type(t) => {
            match &t.specific_info {
                TypeSpecificInfo::NoInfo => true,
                TypeSpecificInfo::Struct { fields } => {
                    let ghost fm = crate::model::field_models_of(fields@);
                    proof {
                        lemma_v0_fields_ok_iff(fm, 0);
                    }
                    let n = fields.len();
                    let mut j: usize = 0;
                    while j < n
                        invariant
                            j <= n,
                            forall|k: int| 0 <= k < j as int ==> (#[trigger] fm[k].type_id)
                                <= i64::MAX as usize,
                        decreases n - j,
                    {
                        proof {
                            assert(fm[j as int] == fields@[j as int].model());
                        }
                        if fields[j].type_id.0 > bound {
                            proof {
                                assert(fm[j as int].type_id > i64::MAX as usize);
                                assert(!v0_fields_ok_from(fm, 0));
                                assert(t.model().specific_info == (TypeInfoModel::Struct {
                                    fields: fm,
                                }));
                            }
                            return false;
                        }
                        j = j + 1;
                    }
                    proof {
                        assert(v0_fields_ok_from(fm, 0));
                        assert(t.model().specific_info == (TypeInfoModel::Struct { fields: fm }));
                    }
                    true
                },
                TypeSpecificInfo::Pointer { dereference_type_id } => dereference_type_id.0
                    <= bound,
            }
        },
        TraceLowLevelEvent::Value(v) => v.variable_id.0 <= bound && v0_value_ok_exec(&v.value),
        TraceLowLevelEvent::Function(f) => f.path_id.0 <= bound,
        TraceLowLevelEvent::Call(c) => {
            if c.function_id.0 > bound {
                return false;
            }
            let ghost am = crate::model::arg_models_of(c.args@);
            proof {
                lemma_v0_args_ok_iff(am, 0);
            }
            let n = c.args.len();
            let mut j: usize = 0;
            while j < n
                invariant
                    j <= n,
                    forall|k: int| 0 <= k < j as int ==> (#[trigger] am[k].variable_id)
                        <= i64::MAX as usize && v0_value_ok(am[k].value),
                decreases n - j,
            {
                proof {
                    assert(am[j as int] == c.args@[j as int].model());
                }
                if c.args[j].variable_id.0 > bound {
                    proof {
                        assert(!(am[j as int].variable_id <= i64::MAX as usize));
                        assert(!v0_args_ok_from(am, 0));
                    }
                    return false;
                }
                if !v0_value_ok_exec(&c.args[j].value) {
                    proof {
                        assert(!v0_value_ok(am[j as int].value));
                        assert(!v0_args_ok_from(am, 0)) by {
                            if v0_args_ok_from(am, 0) {
                                assert(am[j as int].variable_id <= i64::MAX as usize
                                    && v0_value_ok(am[j as int].value));
                            }
                        }
                    }
                    return false;
                }
                j = j + 1;
            }
            proof {
                assert(v0_args_ok_from(am, 0));
            }
            true
        },
        TraceLowLevelEvent::Return(r) => v0_value_ok_exec(&r.return_value),
        TraceLowLevelEvent::BindVariable(b) => b.variable_id.0 <= bound,
        TraceLowLevelEvent::Assignment(a) => {
            if a.to.0 > bound {
                return false;
            }
            match &a.from {
                RValue::Simple(id) => id.0 <= bound,
                RValue::Compound(ids) => {
                    let ghost im = crate::model::id_models_of(ids@);
                    proof {
                        lemma_v0_ids_ok_iff(im, 0);
                    }
                    let n = ids.len();
                    let mut j: usize = 0;
                    while j < n
                        invariant
                            j <= n,
                            forall|k: int| 0 <= k < j as int ==> (#[trigger] im[k])
                                <= i64::MAX as usize,
                        decreases n - j,
                    {
                        proof {
                            assert(im[j as int] == ids@[j as int].0);
                        }
                        if ids[j].0 > bound {
                            proof {
                                assert(im[j as int] > i64::MAX as usize);
                                assert(!v0_ids_ok_from(im, 0));
                            }
                            return false;
                        }
                        j = j + 1;
                    }
                    proof {
                        assert(v0_ids_ok_from(im, 0));
                    }
                    true
                },
            }
        },
        TraceLowLevelEvent::DropVariables(ids) => {
            let ghost im = crate::model::id_models_of(ids@);
            proof {
                lemma_v0_ids_ok_iff(im, 0);
            }
            let n = ids.len();
            let mut j: usize = 0;
            while j < n
                invariant
                    j <= n,
                    forall|k: int| 0 <= k < j as int ==> (#[trigger] im[k]) <= i64::MAX as usize,
                decreases n - j,
            {
                proof {
                    assert(im[j as int] == ids@[j as int].0);
                }
                if ids[j].0 > bound {
                    proof {
                        assert(im[j as int] > i64::MAX as usize);
                        assert(!v0_ids_ok_from(im, 0));
                    }
                    return false;
                }
                j = j + 1;
            }
            proof {
                assert(v0_ids_ok_from(im, 0));
            }
            true
        },
        TraceLowLevelEvent::DropVariable(id) => id.0 <= bound,
        TraceLowLevelEvent::CompoundValue(c) => v0_value_ok_exec(&c.value),
        TraceLowLevelEvent::CellValue(c) => v0_value_ok_exec(&c.value),
        TraceLowLevelEvent::AssignCompoundItem(a) => a.index <= bound,
        TraceLowLevelEvent::AssignCell(a) => v0_value_ok_exec(&a.new_value),
        TraceLowLevelEvent::VariableCell(v) => v.variable_id.0 <= bound,
        _ => true,
    }
}

/// Checks that every identifier in every event fits the legacy wire fields.
#[verifier::loop_isolation(false)]
pub fn v0_events_ok_exec(events: &Vec<TraceLowLevelEvent>) -> (r: bool)
    ensures
        r == v0_events_ok_from(event_models_of(events@), 0),
{
    let ghost ms = event_models_of(events@);
    proof {
        lemma_v0_events_ok_iff(ms, 0);
    }
    let n = events.len();
    let mut j: usize = 0;
    while j < n
        invariant
            j <= n,
            forall|k: int| 0 <= k < j as int ==> v0_event_ok(#[trigger] ms[k]),
        decreases n - j,
    {
        proof {
            assert(ms[j as int] == events@[j as int].model());
        }
        if !v0_event_ok_exec(&events[j]) {
            proof {
                assert(!v0_event_ok(ms[j as int]));
            }
            return false;
        }
        j = j + 1;
    }
    true
}

/// Relies on `char::to_string`: the string of exactly this one character.
#[verifier::external_body]
fn char_to_string(c: char) -> (r: String)
    ensures
        r@ == seq![c],
{
    c.to_string()
}

/// Appends the legacy encoding of `v`: its degraded form's encoding.
#[verifier::loop_isolation(false)]
#[verifier::rlimit(100)]
#[verifier::spinoff_prover]
pub fn enc_value_v0_exec(out: &mut Vec<u8>, v: &ValueRecord)
    ensures
        final(out)@ == old(out)@ + enc_value(degrade_value(v.model())),
    decreases *v, 1int,
{
    match v {
        ValueRecord::Char { c, type_id } => {
            out.push(TAG_RAW);
            let text = char_to_string(*c);
            push_str(out, text.as_str());
            push_u64(out, type_id.0 as u64);
            proof {
                assert(out@ =~= old(out)@ + enc_value(degrade_value(v.model())));
            }
        },
        ValueRecord::Sequence { elements, is_slice, type_id } => {
            out.push(crate::codec::TAG_SEQUENCE);
            push_u64(out, elements.len() as u64);
            enc_values_v0_exec(out, v, elements);
            push_bool(out, *is_slice);
            push_u64(out, type_id.0 as u64);
            proof {
                crate::model::lemma_models_of(elements@);
                lemma_degrade_values_index(models_of(elements@), 0);
                assert(out@ =~= old(out)@ + enc_value(degrade_value(v.model())));
            }
        },
        ValueRecord::Tuple { elements, type_id } => {
            out.push(crate::codec::TAG_TUPLE);
            push_u64(out, elements.len() as u64);
            enc_values_v0_exec(out, v, elements);
            push_u64(out, type_id.0 as u64);
            proof {
                crate::model::lemma_models_of(elements@);
                lemma_degrade_values_index(models_of(elements@), 0);
                assert(out@ =~= old(out)@ + enc_value(degrade_value(v.model())));
            }
        },
        ValueRecord::Struct { field_values, type_id } => {
            out.push(crate::codec::TAG_STRUCT);
            push_u64(out, field_values.len() as u64);
            enc_values_v0_exec(out, v, field_values);
            push_u64(out, type_id.0 as u64);
            proof {
                crate::model::lemma_models_of(field_values@);
                lemma_degrade_values_index(models_of(field_values@), 0);
                assert(out@ =~= old(out)@ + enc_value(degrade_value(v.model())));
            }
        },
        ValueRecord::Variant { discriminator, contents, type_id } => {
            out.push(crate::codec::TAG_VARIANT);
            push_str(out, discriminator.as_str());
            enc_value_v0_exec(out, &**contents);
            push_u64(out, type_id.0 as u64);
            proof {
                assert(out@ =~= old(out)@ + enc_value(degrade_value(v.model())));
            }
        },
        ValueRecord::Reference { dereferenced, address, mutable, type_id } => {
            out.push(crate::codec::TAG_REFERENCE);
            enc_value_v0_exec(out, &**dereferenced);
            push_u64(out, *address);
            push_bool(out, *mutable);
            push_u64(out, type_id.0 as u64);
            proof {
                assert(out@ =~= old(out)@ + enc_value(degrade_value(v.model())));
            }
        },
        _ => {
            let ghost m = v.model();
            proof {
                assert(degrade_value(m) == m);
            }
            crate::codec::enc_value_exec(out, v);
        },
    }
}

/// Appends the legacy encodings of all values in `elements`, which are
/// children of the value `parent`.
#[verifier::loop_isolation(false)]
fn enc_values_v0_exec(out: &mut Vec<u8>, parent: &ValueRecord, elements: &Vec<ValueRecord>)
    requires
        decreases_to!(*parent => *elements),
    ensures
        final(out)@ == old(out)@ + enc_values_from(degrade_values_from(models_of(elements@), 0), 0),
    decreases *parent, 0int,
{
    let ghost dms = degrade_values_from(models_of(elements@), 0);
    proof {
        crate::model::lemma_models_of(elements@);
        lemma_degrade_values_index(models_of(elements@), 0);
    }
    let n = elements.len();
    let mut j: usize = 0;
    while j < n
        invariant
            j <= n,
            out@ + enc_values_from(dms, j as int) == old(out)@ + enc_values_from(dms, 0),
        decreases n - j,
    {
        proof {
            assert(decreases_to!(*elements => elements@));
            assert(decreases_to!(elements@ => elements@[j as int]));
            assert(decreases_to!(*parent => elements@[j as int]));
        }
        let ghost prev = out@;
        enc_value_v0_exec(out, &elements[j]);
        proof {
            assert(dms[j as int] == degrade_value(models_of(elements@)[j as int]));
            assert(out@ + enc_values_from(dms, j + 1) =~= prev + enc_values_from(dms, j as int));
        }
        j = j + 1;
    }
    proof {
        assert(out@ =~= out@ + enc_values_from(dms, n as int));
    }
}

/// Appends the legacy encoding of one event: its degraded form's encoding.
#[verifier::loop_isolation(false)]
#[verifier::rlimit(100)]
#[verifier::spinoff_prover]
pub fn enc_event_v0_exec(out: &mut Vec<u8>, e: &TraceLowLevelEvent)
    ensures
        final(out)@ == old(out)@ + enc_event(degrade_event(e.model())),
{
    match e {
        TraceLowLevelEvent::Value(v) => {
            out.push(crate::event_codec::EV_VALUE);
            push_u64(out, v.variable_id.0 as u64);
            enc_value_v0_exec(out, &v.value);
            proof {
                assert(out@ =~= old(out)@ + enc_event(degrade_event(e.model())));
            }
        },
        TraceLowLevelEvent::Call(c) => {
            out.push(crate::event_codec::EV_CALL);
            push_u64(out, c.function_id.0 as u64);
            push_u64(out, c.args.len() as u64);
            let ghost dargs = degrade_args_from(crate::model::arg_models_of(c.args@), 0);
            proof {
                lemma_degrade_args_index(crate::model::arg_models_of(c.args@), 0);
            }
            let n = c.args.len();
            let ghost base = out@;
            let mut j: usize = 0;
            while j < n
                invariant
                    j <= n,
                    out@ + enc_args_from(dargs, j as int) == base + enc_args_from(dargs, 0),
                decreases n - j,
            {
                let ghost prev = out@;
                push_u64(out, c.args[j].variable_id.0 as u64);
                enc_value_v0_exec(out, &c.args[j].value);
                proof {
                    assert(dargs[j as int] == degrade_full_value(
                        crate::model::arg_models_of(c.args@)[j as int],
                    ));
                    assert(out@ =~= prev + enc_full_value(dargs[j as int]));
                    assert(out@ + enc_args_from(dargs, j + 1) =~= prev + enc_args_from(
                        dargs,
                        j as int,
                    ));
                }
                j = j + 1;
            }
            proof {
                assert(out@ =~= out@ + enc_args_from(dargs, n as int));
                assert(out@ =~= old(out)@ + enc_event(degrade_event(e.model())));
            }
        },
        TraceLowLevelEvent::Return(r) => {
            out.push(crate::event_codec::EV_RETURN);
            enc_value_v0_exec(out, &r.return_value);
            proof {
                assert(out@ =~= old(out)@ + enc_event(degrade_event(e.model())));
            }
        },
        TraceLowLevelEvent::CompoundValue(c) => {
            out.push(crate::event_codec::EV_COMPOUND_VALUE);
            push_u64(out, c.place.0);
            enc_value_v0_exec(out, &c.value);
            proof {
                assert(out@ =~= old(out)@ + enc_event(degrade_event(e.model())));
            }
        },
        TraceLowLevelEvent::CellValue(c) => {
            out.push(crate::event_codec::EV_CELL_VALUE);
            push_u64(out, c.place.0);
            enc_value_v0_exec(out, &c.value);
            proof {
                assert(out@ =~= old(out)@ + enc_event(degrade_event(e.model())));
            }
        },
        TraceLowLevelEvent::AssignCell(a) => {
            out.push(crate::event_codec::EV_ASSIGN_CELL);
            push_u64(out, a.place.0);
            enc_value_v0_exec(out, &a.new_value);
            proof {
                assert(out@ =~= old(out)@ + enc_event(degrade_event(e.model())));
            }
        },
        _ => {
            proof {
                assert(degrade_event(e.model()) == e.model());
            }
            enc_event_exec(out, e);
        },
    }
}

/// Appends the legacy encodings of all events.
#[verifier::loop_isolation(false)]
pub fn push_events_v0(out: &mut Vec<u8>, events: &Vec<TraceLowLevelEvent>)
    ensures
        final(out)@ == old(out)@ + enc_events_from(
            degrade_events_from(event_models_of(events@), 0),
            0,
        ),
{
    let ghost dms = degrade_events_from(event_models_of(events@), 0);
    proof {
        lemma_degrade_events_index(event_models_of(events@), 0);
    }
    let n = events.len();
    let mut j: usize = 0;
    while j < n
        invariant
            j <= n,
            out@ + enc_events_from(dms, j as int) == old(out)@ + enc_events_from(dms, 0),
        decreases n - j,
    {
        let ghost prev = out@;
        enc_event_v0_exec(out, &events[j]);
        proof {
            assert(dms[j as int] == degrade_event(event_models_of(events@)[j as int]));
            assert(out@ + enc_events_from(dms, j + 1) =~= prev + enc_events_from(dms, j as int));
        }
        j = j + 1;
    }
    proof {
        assert(out@ =~= out@ + enc_events_from(dms, n as int));
    }
}

/// What compressing a byte sequence with the seekable-zstd encoder under its
/// default options returns; the result depends on the bytes alone.
pub uninterp spec fn zstd_frame_of(data: Seq<u8>) -> Seq<u8>;

/// Relies on zeekstd's `Encoder` (seekable zstd): under the default options,
/// compressing a whole in-memory buffer in one call consumes all of it,
/// never fails (the writer is infallible), and its result is a function of
/// the input bytes alone.
#[verifier::external_body]
fn zstd_compress(data: &Vec<u8>) -> (out: Vec<u8>)
    ensures
        out@ == zstd_frame_of(data@),
{
    let mut out: Vec<u8> = Vec::new();
    let mut enc = zeekstd::Encoder::new(&mut out).unwrap();
    enc.compress(data.as_slice()).unwrap();
    enc.finish().unwrap();
    out
}

/// Relies on zeekstd's `Decoder`: reading a seekable-zstd stream produced by
/// the encoder to its end yields exactly the bytes that were compressed.
#[verifier::external_body]
fn zstd_decompress(data: &Vec<u8>) -> (r: Result<Vec<u8>, TraceError>)
    ensures
        r matches Ok(out) ==> forall|orig: Seq<u8>| data@ == zstd_frame_of(orig) ==> out@ == orig,
        r is Err ==> forall|orig: Seq<u8>| data@ != zstd_frame_of(orig),
{
    let src = zeekstd::BytesWrapper::new(data.as_slice());
    let mut dec = match zeekstd::Decoder::new(src) {
        Ok(d) => d,
        Err(_) => return Err(TraceError::Compression),
    };
    let mut out: Vec<u8> = Vec::new();
    if std::io::Read::read_to_end(&mut dec, &mut out).is_err() {
        return Err(TraceError::Compression);
    }
    Ok(out)
}

/// The legacy payload of an event sequence: the event count, then the
/// degraded events.
pub open spec fn v0_payload(ms: Seq<EventModel>) -> Seq<u8> {
    le64(ms.len() as usize as u64) + enc_events_from(degrade_events_from(ms, 0), 0)
}

/// The bytes of a legacy trace file holding the events `ms`.
pub open spec fn spec_encode_v0(ms: Seq<EventModel>) -> Seq<u8> {
    header_v0() + le64(v0_payload(ms).len() as usize as u64) + pack(v0_payload(ms))
}

/// The bytes of a streaming trace file holding the events `ms`.
pub open spec fn spec_encode_v1(ms: Seq<EventModel>) -> Seq<u8> {
    header_v1() + zstd_frame_of(enc_events_from(ms, 0))
}

/// Encodes `events` as a legacy trace file.  Fails exactly when some
/// identifier does not fit the legacy wire fields.
pub fn encode_trace_v0(events: &Vec<TraceLowLevelEvent>) -> (r: Result<Vec<u8>, TraceError>)
    ensures
        r is Ok <==> v0_events_ok_from(event_models_of(events@), 0),
        r matches Ok(out) ==> out@ == spec_encode_v0(event_models_of(events@)),
        r is Ok ==> v0_payload(event_models_of(events@)).len() <= usize::MAX,
        r matches Err(e) ==> e == TraceError::IdOutOfRange,
{
    if !v0_events_ok_exec(events) {
        return Err(TraceError::IdOutOfRange);
    }
    let mut payload: Vec<u8> = Vec::new();
    push_u64(&mut payload, events.len() as u64);
    push_events_v0(&mut payload, events);
    let mut out: Vec<u8> = Vec::new();
    push_header_v0(&mut out);
    push_u64(&mut out, payload.len() as u64);
    pack_exec(&mut out, &payload);
    proof {
        assert(out@ =~= spec_encode_v0(event_models_of(events@)));
    }
    Ok(out)
}

/// Encodes `events` as a streaming trace file.  Always succeeds.
pub fn encode_trace_v1(events: &Vec<TraceLowLevelEvent>) -> (r: Result<Vec<u8>, TraceError>)
    ensures
        r matches Ok(out) && out@ == spec_encode_v1(event_models_of(events@)),
{
    let mut payload: Vec<u8> = Vec::new();
    push_events(&mut payload, events);
    let mut frame = zstd_compress(&payload);
    let mut out: Vec<u8> = Vec::new();
    push_header_v1(&mut out);
    out.append(&mut frame);
    proof {
        assert(out@ =~= spec_encode_v1(event_models_of(events@)));
    }
    Ok(out)
}

/// Everything the legacy decoding pipeline finds in an encoded file.
#[verifier::rlimit(100)]
#[verifier::spinoff_prover]
proof fn lemma_v0_decode_facts(data: Seq<u8>, ms: Seq<EventModel>)
    requires
        events_fit_from(ms, 0),
        ms.len() <= usize::MAX,
        v0_payload(ms).len() <= usize::MAX,
        data == spec_encode_v0(ms),
    ensures
        data.len() >= 8 && data.subrange(0, 8) == header_v0(),
        dec_u64(data, 8) == Some((v0_payload(ms).len() as usize as u64, 16int)),
        unpack_to_end(data, 16) == Some(v0_payload(ms)),
        v0_payload(ms).len() >= 8,
        v0_payload(ms).len() as usize as u64 == v0_payload(ms).len(),
        dec_u64(v0_payload(ms), 0) == Some((ms.len() as usize as u64, 8int)),
        dec_events_n(v0_payload(ms), 8, ms.len() as int) == Some(
            (degrade_events_from(ms, 0), v0_payload(ms).len() as int),
        ),
{
    let pl = v0_payload(ms);
    let dms = degrade_events_from(ms, 0);
    lemma_degrade_events_fit(ms, 0);
    assert(pl == le64(ms.len() as usize as u64) + enc_events_from(dms, 0));
    assert(pl.subrange(0, pl.len() as int) =~= pl);
    lemma_subrange_split(pl, 0, le64(ms.len() as usize as u64), enc_events_from(dms, 0));
    lemma_dec_u64(pl, 0, ms.len() as usize as u64);
    lemma_dec_events_n(pl, 8, dms, 0);
    assert(dms.subrange(0, dms.len() as int) =~= dms);
    assert(data == header_v0() + le64(pl.len() as usize as u64) + pack(pl));
    assert(data.subrange(0, data.len() as int) =~= data);
    lemma_subrange_split3(data, 0, header_v0(), le64(pl.len() as usize as u64), pack(pl));
    lemma_dec_u64(data, 8, pl.len() as usize as u64);
    lemma_unpack_pack(data, 16, pl);
}

/// A buffer that holds the legacy encoding of the events `ms`, all of which
/// are within the format's limits.
pub open spec fn v0_encoding_of(gd: Seq<u8>, ms: Seq<EventModel>) -> bool {
    &&& events_fit_from(ms, 0)
    &&& ms.len() <= usize::MAX
    &&& v0_payload(ms).len() <= usize::MAX
    &&& gd == spec_encode_v0(ms)
}

/// A buffer without the legacy header holds no legacy encoding.
#[verifier::spinoff_prover]
proof fn lemma_v0_reject_header(gd: Seq<u8>)
    requires
        !(gd.len() >= 8 && gd.subrange(0, 8) == header_v0()),
    ensures
        forall|ms: Seq<EventModel>| !#[trigger] v0_encoding_of(gd, ms),
{
    assert forall|ms: Seq<EventModel>| !#[trigger] v0_encoding_of(gd, ms) by {
        if v0_encoding_of(gd, ms) {
            lemma_v0_decode_facts(gd, ms);
        }
    }
}

/// A buffer whose length field does not read holds no legacy encoding.
#[verifier::spinoff_prover]
proof fn lemma_v0_reject_len(gd: Seq<u8>)
    requires
        dec_u64(gd, 8) is None,
    ensures
        forall|ms: Seq<EventModel>| !#[trigger] v0_encoding_of(gd, ms),
{
    assert forall|ms: Seq<EventModel>| !#[trigger] v0_encoding_of(gd, ms) by {
        if v0_encoding_of(gd, ms) {
            lemma_v0_decode_facts(gd, ms);
        }
    }
}

/// A buffer whose packed payload does not unpack holds no legacy encoding.
#[verifier::spinoff_prover]
proof fn lemma_v0_reject_unpack(gd: Seq<u8>)
    requires
        unpack_to_end(gd, 16) is None,
    ensures
        forall|ms: Seq<EventModel>| !#[trigger] v0_encoding_of(gd, ms),
{
    assert forall|ms: Seq<EventModel>| !#[trigger] v0_encoding_of(gd, ms) by {
        if v0_encoding_of(gd, ms) {
            lemma_v0_decode_facts(gd, ms);
        }
    }
}

/// A buffer whose stored length disagrees with its payload holds no legacy
/// encoding.
#[verifier::spinoff_prover]
proof fn lemma_v0_reject_plen(gd: Seq<u8>, pl: Seq<u8>, plen: u64)
    requires
        unpack_to_end(gd, 16) == Some(pl),
        dec_u64(gd, 8) matches Some((x, _)) && x == plen,
        pl.len() <= usize::MAX,
        pl.len() != plen as int,
    ensures
        forall|ms: Seq<EventModel>| !#[trigger] v0_encoding_of(gd, ms),
{
    assert forall|ms: Seq<EventModel>| !#[trigger] v0_encoding_of(gd, ms) by {
        if v0_encoding_of(gd, ms) {
            lemma_v0_decode_facts(gd, ms);
        }
    }
}

/// A buffer whose payload does not parse as a counted event list holds no
/// legacy encoding.
#[verifier::spinoff_prover]
proof fn lemma_v0_reject_payload(gd: Seq<u8>, pl: Seq<u8>)
    requires
        unpack_to_end(gd, 16) == Some(pl),
        dec_u64(pl, 0) matches Some((count, p)) ==> dec_events_n(pl, 8, count as int)
            matches Some((es, end)) ==> end != pl.len(),
    ensures
        forall|ms: Seq<EventModel>| !#[trigger] v0_encoding_of(gd, ms),
{
    assert forall|ms: Seq<EventModel>| !#[trigger] v0_encoding_of(gd, ms) by {
        if v0_encoding_of(gd, ms) {
            lemma_v0_decode_facts(gd, ms);
        }
    }
}

/// Whatever legacy encoding a buffer holds, the decoded events are the
/// degraded form of the encoded ones.
#[verifier::spinoff_prover]
proof fn lemma_v0_accept(gd: Seq<u8>, pl: Seq<u8>, count: u64, esm: Seq<EventModel>)
    requires
        unpack_to_end(gd, 16) == Some(pl),
        dec_u64(pl, 0) matches Some((c, p)) && c == count && p == 8,
        dec_events_n(pl, 8, count as int) matches Some((es, end)) && es == esm && end == pl.len(),
    ensures
        forall|ms: Seq<EventModel>|
            #[trigger] v0_encoding_of(gd, ms) ==> esm == degrade_events_from(ms, 0),
{
    assert forall|ms: Seq<EventModel>|
        #[trigger] v0_encoding_of(gd, ms) implies esm == degrade_events_from(ms, 0) by {
        lemma_v0_decode_facts(gd, ms);
    }
}

/// Decodes a legacy trace file.  A buffer whose first eight bytes do not
/// form the legacy header is rejected as an unknown format; every buffer
/// produced by `encode_trace_v0` decodes to the degraded form of the events
/// that were encoded.
pub fn decode_trace_v0(data: &Vec<u8>) -> (r: Result<Vec<TraceLowLevelEvent>, TraceError>)
    ensures
        !(data@.len() >= 8 && data@.subrange(0, 8) == header_v0()) ==> r == Err::<
            Vec<TraceLowLevelEvent>,
            TraceError,
        >(TraceError::UnknownFormat),
        forall|ms: Seq<EventModel>|
            #[trigger] v0_encoding_of(data@, ms) ==> (r matches Ok(es) && event_models_of(es@)
                == degrade_events_from(ms, 0)),
{
    let ghost gd = data@;
    if !has_header_v0(data) {
        proof {
            lemma_v0_reject_header(gd);
        }
        return Err(TraceError::UnknownFormat);
    }
    let plen = match read_u64(data, 8) {
        Option::Some((x, _)) => x,
        Option::None => {
            proof {
                lemma_v0_reject_len(gd);
            }
            return Err(TraceError::Malformed);
        },
    };
    let payload = match unpack_exec(data, 16) {
        Option::Some(p) => p,
        Option::None => {
            proof {
                lemma_v0_reject_unpack(gd);
            }
            return Err(TraceError::Malformed);
        },
    };
    if payload.len() as u64 != plen {
        proof {
            lemma_v0_reject_plen(gd, payload@, plen);
        }
        return Err(TraceError::Malformed);
    }
    let count = match read_u64(&payload, 0) {
        Option::Some((x, p)) => {
            if p != 8 {
                proof {
                    lemma_v0_reject_payload(gd, payload@);
                }
                return Err(TraceError::Malformed);
            }
            x
        },
        Option::None => {
            proof {
                lemma_v0_reject_payload(gd, payload@);
            }
            return Err(TraceError::Malformed);
        },
    };
    let (es, end) = match crate::event_codec::read_events_n(&payload, 8, count) {
        Option::Some(x) => x,
        Option::None => {
            proof {
                lemma_v0_reject_payload(gd, payload@);
            }
            return Err(TraceError::Malformed);
        },
    };
    if end != payload.len() {
        proof {
            lemma_v0_reject_payload(gd, payload@);
        }
        return Err(TraceError::Malformed);
    }
    proof {
        lemma_v0_accept(gd, payload@, count, event_models_of(es@));
    }
    Ok(es)
}

/// Everything the streaming decoding pipeline finds in an encoded file.
#[verifier::rlimit(100)]
#[verifier::spinoff_prover]
proof fn lemma_v1_decode_facts(data: Seq<u8>, ms: Seq<EventModel>)
    requires
        events_fit_from(ms, 0),
        data == spec_encode_v1(ms),
    ensures
        data.len() >= 8 && data.subrange(0, 8) == header_v1(),
        data.subrange(8, data.len() as int) == zstd_frame_of(enc_events_from(ms, 0)),
        dec_events_to_end(enc_events_from(ms, 0), 0) == Some(ms),
{
    assert(data == header_v1() + zstd_frame_of(enc_events_from(ms, 0)));
    assert(data.subrange(0, data.len() as int) =~= data);
    lemma_subrange_split(data, 0, header_v1(), zstd_frame_of(enc_events_from(ms, 0)));
    let s = enc_events_from(ms, 0);
    assert(s.subrange(0, s.len() as int) =~= s);
    lemma_dec_events_to_end(s, 0, ms, 0);
    assert(ms.subrange(0, ms.len() as int) =~= ms);
}

/// Decodes a streaming trace file.  A buffer whose first eight bytes do not
/// form the streaming header is rejected as an unknown format; every buffer
/// produced by `encode_trace_v1` decodes to exactly the events that were
/// encoded.
#[verifier::rlimit(100)]
#[verifier::spinoff_prover]
pub fn decode_trace_v1(data: &Vec<u8>) -> (r: Result<Vec<TraceLowLevelEvent>, TraceError>)
    ensures
        !(data@.len() >= 8 && data@.subrange(0, 8) == header_v1()) ==> r == Err::<
            Vec<TraceLowLevelEvent>,
            TraceError,
        >(TraceError::UnknownFormat),
        forall|ms: Seq<EventModel>|
            events_fit_from(ms, 0) && data@ == #[trigger] spec_encode_v1(ms) ==> (r matches Ok(es)
                && event_models_of(es@) == ms),
{
    let ghost gd = data@;
    if !has_header_v1(data) {
        proof {
            assert forall|ms: Seq<EventModel>|
                !(events_fit_from(ms, 0) && gd == spec_encode_v1(ms)) by {
                if events_fit_from(ms, 0) && gd == spec_encode_v1(ms) {
                    lemma_v1_decode_facts(gd, ms);
                }
            }
        }
        return Err(TraceError::UnknownFormat);
    }
    let frame = subrange_vec(data, 8, data.len());
    let raw = match zstd_decompress(&frame) {
        Result::Ok(x) => x,
        Result::Err(_) => {
            proof {
                assert forall|ms: Seq<EventModel>|
                    !(events_fit_from(ms, 0) && gd == spec_encode_v1(ms)) by {
                    if events_fit_from(ms, 0) && gd == spec_encode_v1(ms) {
                        lemma_v1_decode_facts(gd, ms);
                        assert(frame@ == zstd_frame_of(enc_events_from(ms, 0)));
                    }
                }
            }
            return Err(TraceError::Compression);
        },
    };
    let es = match crate::event_codec::read_events_to_end(&raw, 0) {
        Option::Some(x) => x,
        Option::None => {
            proof {
                assert forall|ms: Seq<EventModel>|
                    !(events_fit_from(ms, 0) && gd == spec_encode_v1(ms)) by {
                    if events_fit_from(ms, 0) && gd == spec_encode_v1(ms) {
                        lemma_v1_decode_facts(gd, ms);
                        assert(frame@ == zstd_frame_of(enc_events_from(ms, 0)));
                        assert(raw@ == enc_events_from(ms, 0));
                    }
                }
            }
            return Err(TraceError::Malformed);
        },
    };
    proof {
        assert forall|ms: Seq<EventModel>|
            events_fit_from(ms, 0) && gd == #[trigger] spec_encode_v1(ms) implies
            event_models_of(es@) == ms by {
            lemma_v1_decode_facts(gd, ms);
            assert(frame@ == zstd_frame_of(enc_events_from(ms, 0)));
            assert(raw@ == enc_events_from(ms, 0));
        }
    }
    Ok(es)
}

/// Decodes a binary trace file of either version, detected by its header.
#[verifier::rlimit(100)]
#[verifier::spinoff_prover]
pub fn decode_trace_auto(data: &Vec<u8>) -> (r: Result<Vec<TraceLowLevelEvent>, TraceError>)
    ensures
        !(data@.len() >= 8 && (data@.subrange(0, 8) == header_v0() || data@.subrange(0, 8)
            == header_v1())) ==> r == Err::<Vec<TraceLowLevelEvent>, TraceError>(
            TraceError::UnknownFormat,
        ),
        forall|ms: Seq<EventModel>|
            #[trigger] v0_encoding_of(data@, ms) ==> (r matches Ok(es) && event_models_of(es@)
                == degrade_events_from(ms, 0)),
        forall|ms: Seq<EventModel>|
            events_fit_from(ms, 0) && data@ == #[trigger] spec_encode_v1(ms) ==> (r matches Ok(es)
                && event_models_of(es@) == ms),
{
    let ghost gd = data@;
    if has_header_v0(data) {
        let r = decode_trace_v0(data);
        proof {
            assert forall|ms: Seq<EventModel>|
                !(events_fit_from(ms, 0) && gd == spec_encode_v1(ms)) by {
                if events_fit_from(ms, 0) && gd == spec_encode_v1(ms) {
                    lemma_v1_decode_facts(gd, ms);
                    assert(gd.subrange(0, 8)[5] == header_v1()[5]);
                    assert(gd.subrange(0, 8)[5] == header_v0()[5]);
                }
            }
        }
        r
    } else if has_header_v1(data) {
        let r = decode_trace_v1(data);
        proof {
            lemma_v0_reject_header(gd);
        }
        r
    } else {
        proof {
            lemma_v0_reject_header(gd);
            assert forall|ms: Seq<EventModel>|
                !(events_fit_from(ms, 0) && gd == spec_encode_v1(ms)) by {
                if events_fit_from(ms, 0) && gd == spec_encode_v1(ms) {
                    lemma_v1_decode_facts(gd, ms);
                }
            }
        }
        Err(TraceError::UnknownFormat)
    }
}

/// Round trip of the streaming payload: decoding the concatenated event
/// encodings yields the encoded events.
pub proof fn lemma_streaming_round_trip(ms: Seq<EventModel>)
    requires
        events_fit_from(ms, 0),
    ensures
        dec_events_to_end(enc_events_from(ms, 0), 0) == Some(ms),
{
    let s = enc_events_from(ms, 0);
    assert(s.subrange(0, s.len() as int) =~= s);
    lemma_dec_events_to_end(s, 0, ms, 0);
    assert(ms.subrange(0, ms.len() as int) =~= ms);
}

/// Round trip of the legacy file: unpacking the packed payload of an
/// encoded file restores the payload, and decoding the payload yields the
/// degraded form of the encoded events.
pub proof fn lemma_legacy_round_trip(ms: Seq<EventModel>)
    requires
        events_fit_from(ms, 0),
        ms.len() <= usize::MAX,
        v0_payload(ms).len() <= usize::MAX,
    ensures
        unpack_to_end(spec_encode_v0(ms), 16) == Some(v0_payload(ms)),
        dec_u64(v0_payload(ms), 0) == Some((ms.len() as usize as u64, 8int)),
        dec_events_n(v0_payload(ms), 8, ms.len() as int) == Some(
            (degrade_events_from(ms, 0), v0_payload(ms).len() as int),
        ),
{
    lemma_v0_decode_facts(spec_encode_v0(ms), ms);
}

} // verus!
