//! The per-event binary codec: one tag byte per event variant, followed by
//! the event's fields.  Values inside events use [`crate::codec`]; lists
//! (call arguments, dropped variables, assembly lines, struct fields) are
//! written as a count followed by the elements.

use vstd::prelude::*;

use crate::codec::{
    dec_value, dec_values, enc_at, enc_value, enc_values_from, lemma_dec_value,
    lemma_enc_value_min_len, value_fits, values_fit_from,
};
use crate::codec::{dec_value_exec, enc_value_exec};
use crate::model::{
    arg_models_of, event_models_of, field_models_of, id_models_of, str_models_of, EventModel,
    FieldModel, FullValueModel, RValueModel, TypeInfoModel, TypeModel,
};
use crate::types::{
    AssignCellRecord, AssignCompoundItemRecord, AssignmentRecord, BindVariableRecord, CallRecord,
    CellValueRecord, CompoundValueRecord, FieldTypeRecord, FullValueRecord, FunctionId,
    FunctionRecord, Line, PathId, Place, RValue, RecordEvent, ReturnRecord, StepRecord, ThreadId,
    TraceLowLevelEvent, TypeId, TypeRecord, TypeSpecificInfo, VariableCellRecord, VariableId,
};
use crate::types::{EventLogKind, PassBy, TypeKind};
use crate::wire::{
    dec_i64, dec_id, dec_str, dec_u64, enc_str, le64, lemma_dec_i64, lemma_dec_id, lemma_dec_str,
    lemma_dec_u64, lemma_subrange_split, lemma_subrange_split3, lemma_subrange_split4, push_str,
    push_u64, read_i64, read_id, read_str, read_u64, str_fits,
};

verus! {

/// The byte that stands for a type kind on the wire.
pub open spec fn type_kind_byte(k: TypeKind) -> u8 {
    match k {
        TypeKind::SeqKind => 1u8,
        TypeKind::SetKind => 2u8,
        TypeKind::HashSet => 3u8,
        TypeKind::OrderedSet => 4u8,
        TypeKind::Array => 5u8,
        TypeKind::Varargs => 6u8,
        TypeKind::Struct => 7u8,
        TypeKind::Int => 8u8,
        TypeKind::Float => 9u8,
        TypeKind::String => 10u8,
        TypeKind::CString => 11u8,
        TypeKind::Char => 12u8,
        TypeKind::Bool => 13u8,
        TypeKind::Literal => 14u8,
        TypeKind::Ref => 15u8,
        TypeKind::Recursion => 16u8,
        TypeKind::Raw => 17u8,
        TypeKind::Enum => 18u8,
        TypeKind::Enum16 => 19u8,
        TypeKind::Enum32 => 20u8,
        TypeKind::C => 21u8,
        TypeKind::TableKind => 22u8,
        TypeKind::Union => 23u8,
        TypeKind::Pointer => 24u8,
        TypeKind::Error => 25u8,
        TypeKind::FunctionKind => 26u8,
        TypeKind::TypeValue => 27u8,
        TypeKind::Tuple => 28u8,
        TypeKind::Variant => 29u8,
        TypeKind::Html => 30u8,
        TypeKind::NoneKind => 31u8,
        TypeKind::NonExpanded => 32u8,
        TypeKind::Any => 33u8,
        TypeKind::Slice => 34u8,
    }
}

/// The type kind a wire byte stands for, if any.
pub open spec fn type_kind_of(b: u8) -> Option<TypeKind> {
    if b == 1u8 {
        Some(TypeKind::SeqKind)
    } else if b == 2u8 {
        Some(TypeKind::SetKind)
    } else if b == 3u8 {
        Some(TypeKind::HashSet)
    } else if b == 4u8 {
        Some(TypeKind::OrderedSet)
    } else if b == 5u8 {
        Some(TypeKind::Array)
    } else if b == 6u8 {
        Some(TypeKind::Varargs)
    } else if b == 7u8 {
        Some(TypeKind::Struct)
    } else if b == 8u8 {
        Some(TypeKind::Int)
    } else if b == 9u8 {
        Some(TypeKind::Float)
    } else if b == 10u8 {
        Some(TypeKind::String)
    } else if b == 11u8 {
        Some(TypeKind::CString)
    } else if b == 12u8 {
        Some(TypeKind::Char)
    } else if b == 13u8 {
        Some(TypeKind::Bool)
    } else if b == 14u8 {
        Some(TypeKind::Literal)
    } else if b == 15u8 {
        Some(TypeKind::Ref)
    } else if b == 16u8 {
        Some(TypeKind::Recursion)
    } else if b == 17u8 {
        Some(TypeKind::Raw)
    } else if b == 18u8 {
        Some(TypeKind::Enum)
    } else if b == 19u8 {
        Some(TypeKind::Enum16)
    } else if b == 20u8 {
        Some(TypeKind::Enum32)
    } else if b == 21u8 {
        Some(TypeKind::C)
    } else if b == 22u8 {
        Some(TypeKind::TableKind)
    } else if b == 23u8 {
        Some(TypeKind::Union)
    } else if b == 24u8 {
        Some(TypeKind::Pointer)
    } else if b == 25u8 {
        Some(TypeKind::Error)
    } else if b == 26u8 {
        Some(TypeKind::FunctionKind)
    } else if b == 27u8 {
        Some(TypeKind::TypeValue)
    } else if b == 28u8 {
        Some(TypeKind::Tuple)
    } else if b == 29u8 {
        Some(TypeKind::Variant)
    } else if b == 30u8 {
        Some(TypeKind::Html)
    } else if b == 31u8 {
        Some(TypeKind::NoneKind)
    } else if b == 32u8 {
        Some(TypeKind::NonExpanded)
    } else if b == 33u8 {
        Some(TypeKind::Any)
    } else if b == 34u8 {
        Some(TypeKind::Slice)
    } else {
        None
    }
}

/// The wire byte of a type kind always reads back as that kind.
pub broadcast proof fn lemma_type_kind_roundtrip(k: TypeKind)
    ensures
        type_kind_of(#[trigger] type_kind_byte(k)) == Some(k),
{
}

/// The byte that stands for an event-log kind on the wire.
pub open spec fn event_log_kind_byte(k: EventLogKind) -> u8 {
    match k {
        EventLogKind::Write => 1u8,
        EventLogKind::WriteFile => 2u8,
        EventLogKind::WriteOther => 3u8,
        EventLogKind::Read => 4u8,
        EventLogKind::ReadFile => 5u8,
        EventLogKind::ReadOther => 6u8,
        EventLogKind::ReadDir => 7u8,
        EventLogKind::OpenDir => 8u8,
        EventLogKind::CloseDir => 9u8,
        EventLogKind::Socket => 10u8,
        EventLogKind::Open => 11u8,
        EventLogKind::Error => 12u8,
        EventLogKind::TraceLogEvent => 13u8,
        EventLogKind::EvmEvent => 14u8,
    }
}

/// The event-log kind a wire byte stands for, if any.
pub open spec fn event_log_kind_of(b: u8) -> Option<EventLogKind> {
    if b == 1u8 {
        Some(EventLogKind::Write)
    } else if b == 2u8 {
        Some(EventLogKind::WriteFile)
    } else if b == 3u8 {
        Some(EventLogKind::WriteOther)
    } else if b == 4u8 {
        Some(EventLogKind::Read)
    } else if b == 5u8 {
        Some(EventLogKind::ReadFile)
    } else if b == 6u8 {
        Some(EventLogKind::ReadOther)
    } else if b == 7u8 {
        Some(EventLogKind::ReadDir)
    } else if b == 8u8 {
        Some(EventLogKind::OpenDir)
    } else if b == 9u8 {
        Some(EventLogKind::CloseDir)
    } else if b == 10u8 {
        Some(EventLogKind::Socket)
    } else if b == 11u8 {
        Some(EventLogKind::Open)
    } else if b == 12u8 {
        Some(EventLogKind::Error)
    } else if b == 13u8 {
        Some(EventLogKind::TraceLogEvent)
    } else if b == 14u8 {
        Some(EventLogKind::EvmEvent)
    } else {
        None
    }
}

/// The wire byte of an event-log kind always reads back as that kind.
pub broadcast proof fn lemma_event_log_kind_roundtrip(k: EventLogKind)
    ensures
        event_log_kind_of(#[trigger] event_log_kind_byte(k)) == Some(k),
{
}

/// The byte that stands for a pass-by mode on the wire.
pub open spec fn pass_by_byte(k: PassBy) -> u8 {
    match k {
        PassBy::Value => 1u8,
        PassBy::Reference => 2u8,
    }
}

/// The pass-by mode a wire byte stands for, if any.
pub open spec fn pass_by_of(b: u8) -> Option<PassBy> {
    if b == 1u8 {
        Some(PassBy::Value)
    } else if b == 2u8 {
        Some(PassBy::Reference)
    } else {
        None
    }
}

/// The wire byte of a pass-by mode always reads back as that mode.
pub broadcast proof fn lemma_pass_by_roundtrip(k: PassBy)
    ensures
        pass_by_of(#[trigger] pass_by_byte(k)) == Some(k),
{
}

/// Specification encoder for a value bound to a variable.
pub open spec fn enc_full_value(a: FullValueModel) -> Seq<u8> {
    le64(a.variable_id as u64) + enc_value(a.value)
}

/// Specification decoder for a value bound to a variable.
pub open spec fn dec_full_value(s: Seq<u8>, pos: int) -> Option<(FullValueModel, int)> {
    match dec_id(s, pos) {
        Option::Some((variable_id, p)) => match dec_value(s, p) {
            Option::Some((value, p2)) => {
                if p2 <= p || p2 > s.len() {
                    None
                } else {
                    Some((FullValueModel { variable_id, value }, p2))
                }
            },
            Option::None => None,
        },
        Option::None => None,
    }
}

/// Decoding an encoded bound value placed at `pos` yields the bound value.
#[verifier::rlimit(100)]
#[verifier::spinoff_prover]
pub proof fn lemma_dec_full_value(s: Seq<u8>, pos: int, a: FullValueModel)
    requires
        0 <= pos,
        value_fits(a.value),
        pos + enc_full_value(a).len() <= s.len(),
        s.subrange(pos, pos + enc_full_value(a).len()) == enc_full_value(a),
    ensures
        dec_full_value(s, pos) == Some((a, pos + enc_full_value(a).len())),
{
    lemma_subrange_split(s, pos, le64(a.variable_id as u64), enc_value(a.value));
    lemma_dec_id(s, pos, a.variable_id);
    lemma_enc_value_min_len(a.value);
    lemma_dec_value(s, pos + 8, a.value);
}

/// Concatenated encodings of the argument list from index `i` on.
pub open spec fn enc_args_from(args: Seq<FullValueModel>, i: int) -> Seq<u8>
    decreases args.len() - i,
{
    if i < 0 || i >= args.len() {
        Seq::empty()
    } else {
        enc_full_value(args[i]) + enc_args_from(args, i + 1)
    }
}

/// True when every argument value from index `i` on fits.
pub open spec fn args_fit_from(args: Seq<FullValueModel>, i: int) -> bool
    decreases args.len() - i,
{
    if i < 0 || i >= args.len() {
        true
    } else {
        value_fits(args[i].value) && args_fit_from(args, i + 1)
    }
}

/// Specification decoder for `n` consecutive bound values.
pub open spec fn dec_args(s: Seq<u8>, pos: int, n: int) -> Option<(Seq<FullValueModel>, int)>
    decreases n,
{
    if n <= 0 {
        if 0 <= pos <= s.len() {
            Some((Seq::empty(), pos))
        } else {
            None
        }
    } else {
        match dec_full_value(s, pos) {
            Option::Some((a, p)) => {
                if p <= pos || p > s.len() {
                    None
                } else {
                    match dec_args(s, p, n - 1) {
                        Option::Some((args, q)) => Some((seq![a] + args, q)),
                        Option::None => None,
                    }
                }
            },
            Option::None => None,
        }
    }
}

/// Decoding the concatenated encodings of the arguments from index `i` on
/// yields those arguments.
#[verifier::rlimit(100)]
#[verifier::spinoff_prover]
pub proof fn lemma_dec_args(s: Seq<u8>, pos: int, args: Seq<FullValueModel>, i: int)
    requires
        0 <= pos,
        0 <= i <= args.len(),
        args_fit_from(args, i),
        pos + enc_args_from(args, i).len() <= s.len(),
        s.subrange(pos, pos + enc_args_from(args, i).len()) == enc_args_from(args, i),
    ensures
        dec_args(s, pos, args.len() - i) == Some(
            (args.subrange(i, args.len() as int), pos + enc_args_from(args, i).len()),
        ),
    decreases args.len() - i,
{
    if i == args.len() {
        assert(args.subrange(i, args.len() as int) =~= Seq::<FullValueModel>::empty());
    } else {
        lemma_subrange_split(s, pos, enc_full_value(args[i]), enc_args_from(args, i + 1));
        lemma_dec_full_value(s, pos, args[i]);
        let p2 = pos + enc_full_value(args[i]).len();
        lemma_enc_value_min_len(args[i].value);
        lemma_dec_args(s, p2, args, i + 1);
        assert(seq![args[i]] + args.subrange(i + 1, args.len() as int) =~= args.subrange(
            i,
            args.len() as int,
        ));
    }
}

/// Concatenated encodings of the strings from index `i` on.
pub open spec fn enc_strs_from(ss: Seq<Seq<char>>, i: int) -> Seq<u8>
    decreases ss.len() - i,
{
    if i < 0 || i >= ss.len() {
        Seq::empty()
    } else {
        enc_str(ss[i]) + enc_strs_from(ss, i + 1)
    }
}

/// True when every string from index `i` on fits.
pub open spec fn strs_fit_from(ss: Seq<Seq<char>>, i: int) -> bool
    decreases ss.len() - i,
{
    if i < 0 || i >= ss.len() {
        true
    } else {
        str_fits(ss[i]) && strs_fit_from(ss, i + 1)
    }
}

/// Specification decoder for `n` consecutive strings.
pub open spec fn dec_strs(s: Seq<u8>, pos: int, n: int) -> Option<(Seq<Seq<char>>, int)>
    decreases n,
{
    if n <= 0 {
        if 0 <= pos <= s.len() {
            Some((Seq::empty(), pos))
        } else {
            None
        }
    } else {
        match dec_str(s, pos) {
            Option::Some((t, p)) => {
                if p <= pos || p > s.len() {
                    None
                } else {
                    match dec_strs(s, p, n - 1) {
                        Option::Some((ts, q)) => Some((seq![t] + ts, q)),
                        Option::None => None,
                    }
                }
            },
            Option::None => None,
        }
    }
}

/// Decoding the concatenated encodings of the strings from index `i` on
/// yields those strings.
#[verifier::rlimit(100)]
#[verifier::spinoff_prover]
pub proof fn lemma_dec_strs(s: Seq<u8>, pos: int, ss: Seq<Seq<char>>, i: int)
    requires
        0 <= pos,
        0 <= i <= ss.len(),
        strs_fit_from(ss, i),
        pos + enc_strs_from(ss, i).len() <= s.len(),
        s.subrange(pos, pos + enc_strs_from(ss, i).len()) == enc_strs_from(ss, i),
    ensures
        dec_strs(s, pos, ss.len() - i) == Some(
            (ss.subrange(i, ss.len() as int), pos + enc_strs_from(ss, i).len()),
        ),
    decreases ss.len() - i,
{
    if i == ss.len() {
        assert(ss.subrange(i, ss.len() as int) =~= Seq::<Seq<char>>::empty());
    } else {
        lemma_subrange_split(s, pos, enc_str(ss[i]), enc_strs_from(ss, i + 1));
        lemma_dec_str(s, pos, ss[i]);
        let p2 = pos + enc_str(ss[i]).len();
        lemma_dec_strs(s, p2, ss, i + 1);
        assert(seq![ss[i]] + ss.subrange(i + 1, ss.len() as int) =~= ss.subrange(
            i,
            ss.len() as int,
        ));
    }
}

/// Concatenated encodings of the identifiers from index `i` on.
pub open spec fn enc_ids_from(ids: Seq<usize>, i: int) -> Seq<u8>
    decreases ids.len() - i,
{
    if i < 0 || i >= ids.len() {
        Seq::empty()
    } else {
        le64(ids[i] as u64) + enc_ids_from(ids, i + 1)
    }
}

/// Specification decoder for `n` consecutive identifiers.
pub open spec fn dec_ids(s: Seq<u8>, pos: int, n: int) -> Option<(Seq<usize>, int)>
    decreases n,
{
    if n <= 0 {
        if 0 <= pos <= s.len() {
            Some((Seq::empty(), pos))
        } else {
            None
        }
    } else {
        match dec_id(s, pos) {
            Option::Some((id, p)) => {
                if p > s.len() {
                    None
                } else {
                    match dec_ids(s, p, n - 1) {
                        Option::Some((ids, q)) => Some((seq![id] + ids, q)),
                        Option::None => None,
                    }
                }
            },
            Option::None => None,
        }
    }
}

/// Decoding the concatenated encodings of the identifiers from index `i` on
/// yields those identifiers.
#[verifier::rlimit(100)]
#[verifier::spinoff_prover]
pub proof fn lemma_dec_ids(s: Seq<u8>, pos: int, ids: Seq<usize>, i: int)
    requires
        0 <= pos,
        0 <= i <= ids.len(),
        pos + enc_ids_from(ids, i).len() <= s.len(),
        s.subrange(pos, pos + enc_ids_from(ids, i).len()) == enc_ids_from(ids, i),
    ensures
        dec_ids(s, pos, ids.len() - i) == Some(
            (ids.subrange(i, ids.len() as int), pos + enc_ids_from(ids, i).len()),
        ),
    decreases ids.len() - i,
{
    if i == ids.len() {
        assert(ids.subrange(i, ids.len() as int) =~= Seq::<usize>::empty());
    } else {
        lemma_subrange_split(s, pos, le64(ids[i] as u64), enc_ids_from(ids, i + 1));
        lemma_dec_id(s, pos, ids[i]);
        let p2 = pos + 8;
        lemma_dec_ids(s, p2, ids, i + 1);
        assert(seq![ids[i]] + ids.subrange(i + 1, ids.len() as int) =~= ids.subrange(
            i,
            ids.len() as int,
        ));
    }
}

/// Specification encoder for one struct-field declaration.
pub open spec fn enc_field(f: FieldModel) -> Seq<u8> {
    enc_str(f.name) + le64(f.type_id as u64)
}

/// Specification decoder for one struct-field declaration.
pub open spec fn dec_field(s: Seq<u8>, pos: int) -> Option<(FieldModel, int)> {
    match dec_str(s, pos) {
        Option::Some((name, p)) => match dec_id(s, p) {
            Option::Some((type_id, p2)) => Some((FieldModel { name, type_id }, p2)),
            Option::None => None,
        },
        Option::None => None,
    }
}

/// Decoding an encoded field declaration placed at `pos` yields the field.
#[verifier::rlimit(100)]
#[verifier::spinoff_prover]
pub proof fn lemma_dec_field(s: Seq<u8>, pos: int, f: FieldModel)
    requires
        0 <= pos,
        str_fits(f.name),
        pos + enc_field(f).len() <= s.len(),
        s.subrange(pos, pos + enc_field(f).len()) == enc_field(f),
    ensures
        dec_field(s, pos) == Some((f, pos + enc_field(f).len())),
{
    lemma_subrange_split(s, pos, enc_str(f.name), le64(f.type_id as u64));
    lemma_dec_str(s, pos, f.name);
    lemma_dec_id(s, pos + enc_str(f.name).len(), f.type_id);
}

/// Concatenated encodings of the field declarations from index `i` on.
pub open spec fn enc_fields_from(fs: Seq<FieldModel>, i: int) -> Seq<u8>
    decreases fs.len() - i,
{
    if i < 0 || i >= fs.len() {
        Seq::empty()
    } else {
        enc_field(fs[i]) + enc_fields_from(fs, i + 1)
    }
}

/// True when every field name from index `i` on fits.
pub open spec fn fields_fit_from(fs: Seq<FieldModel>, i: int) -> bool
    decreases fs.len() - i,
{
    if i < 0 || i >= fs.len() {
        true
    } else {
        str_fits(fs[i].name) && fields_fit_from(fs, i + 1)
    }
}

/// Specification decoder for `n` consecutive field declarations.
pub open spec fn dec_fields(s: Seq<u8>, pos: int, n: int) -> Option<(Seq<FieldModel>, int)>
    decreases n,
{
    if n <= 0 {
        if 0 <= pos <= s.len() {
            Some((Seq::empty(), pos))
        } else {
            None
        }
    } else {
        match dec_field(s, pos) {
            Option::Some((f, p)) => {
                if p <= pos || p > s.len() {
                    None
                } else {
                    match dec_fields(s, p, n - 1) {
                        Option::Some((fs, q)) => Some((seq![f] + fs, q)),
                        Option::None => None,
                    }
                }
            },
            Option::None => None,
        }
    }
}

/// Decoding the concatenated encodings of the fields from index `i` on
/// yields those fields.
#[verifier::rlimit(100)]
#[verifier::spinoff_prover]
pub proof fn lemma_dec_fields(s: Seq<u8>, pos: int, fs: Seq<FieldModel>, i: int)
    requires
        0 <= pos,
        0 <= i <= fs.len(),
        fields_fit_from(fs, i),
        pos + enc_fields_from(fs, i).len() <= s.len(),
        s.subrange(pos, pos + enc_fields_from(fs, i).len()) == enc_fields_from(fs, i),
    ensures
        dec_fields(s, pos, fs.len() - i) == Some(
            (fs.subrange(i, fs.len() as int), pos + enc_fields_from(fs, i).len()),
        ),
    decreases fs.len() - i,
{
    if i == fs.len() {
        assert(fs.subrange(i, fs.len() as int) =~= Seq::<FieldModel>::empty());
    } else {
        lemma_subrange_split(s, pos, enc_field(fs[i]), enc_fields_from(fs, i + 1));
        lemma_dec_field(s, pos, fs[i]);
        let p2 = pos + enc_field(fs[i]).len();
        lemma_dec_fields(s, p2, fs, i + 1);
        assert(seq![fs[i]] + fs.subrange(i + 1, fs.len() as int) =~= fs.subrange(
            i,
            fs.len() as int,
        ));
    }
}

/// Specification encoder for the kind-specific part of a type declaration.
pub open spec fn enc_type_info(info: TypeInfoModel) -> Seq<u8> {
    match info {
        TypeInfoModel::NoInfo => seq![0u8],
        TypeInfoModel::Struct { fields } => seq![1u8] + le64(fields.len() as usize as u64)
            + enc_fields_from(fields, 0),
        TypeInfoModel::Pointer { dereference_type_id } => seq![2u8] + le64(
            dereference_type_id as u64,
        ),
    }
}

/// Specification decoder for the kind-specific part of a type declaration.
pub open spec fn dec_type_info(s: Seq<u8>, pos: int) -> Option<(TypeInfoModel, int)> {
    if pos < 0 || pos >= s.len() {
        None
    } else {
        let tag = s[pos];
        let p = pos + 1;
        if tag == 0u8 {
            Some((TypeInfoModel::NoInfo, p))
        } else if tag == 1u8 {
            match dec_u64(s, p) {
                Option::Some((n, p2)) => match dec_fields(s, p2, n as int) {
                    Option::Some((fields, p3)) => Some((TypeInfoModel::Struct { fields }, p3)),
                    Option::None => None,
                },
                Option::None => None,
            }
        } else if tag == 2u8 {
            match dec_id(s, p) {
                Option::Some((dereference_type_id, p2)) => Some(
                    (TypeInfoModel::Pointer { dereference_type_id }, p2),
                ),
                Option::None => None,
            }
        } else {
            None
        }
    }
}

/// True when a type declaration's strings and field list fit.
pub open spec fn type_fits(t: TypeModel) -> bool {
    &&& str_fits(t.lang_type)
    &&& match t.specific_info {
        TypeInfoModel::Struct { fields } => fields.len() <= usize::MAX && fields_fit_from(
            fields,
            0,
        ),
        _ => true,
    }
}

/// Specification encoder for a type declaration.
pub open spec fn enc_type(t: TypeModel) -> Seq<u8> {
    seq![type_kind_byte(t.kind)] + enc_str(t.lang_type) + enc_type_info(t.specific_info)
}

/// Specification decoder for a type declaration.
pub open spec fn dec_type(s: Seq<u8>, pos: int) -> Option<(TypeModel, int)> {
    if pos < 0 || pos >= s.len() {
        None
    } else {
        match type_kind_of(s[pos]) {
            Option::Some(kind) => match dec_str(s, pos + 1) {
                Option::Some((lang_type, p)) => match dec_type_info(s, p) {
                    Option::Some((specific_info, p2)) => Some(
                        (TypeModel { kind, lang_type, specific_info }, p2),
                    ),
                    Option::None => None,
                },
                Option::None => None,
            },
            Option::None => None,
        }
    }
}

/// Decoding an encoded type declaration placed at `pos` yields the type.
#[verifier::rlimit(100)]
#[verifier::spinoff_prover]
pub proof fn lemma_dec_type(s: Seq<u8>, pos: int, t: TypeModel)
    requires
        0 <= pos,
        type_fits(t),
        pos + enc_type(t).len() <= s.len(),
        s.subrange(pos, pos + enc_type(t).len()) == enc_type(t),
    ensures
        dec_type(s, pos) == Some((t, pos + enc_type(t).len())),
{
    let e = enc_type(t);
    assert(s[pos] == s.subrange(pos, pos + e.len())[0]);
    assert(s[pos] == type_kind_byte(t.kind));
    lemma_subrange_split3(
        s,
        pos,
        seq![type_kind_byte(t.kind)],
        enc_str(t.lang_type),
        enc_type_info(t.specific_info),
    );
    lemma_type_kind_roundtrip(t.kind);
    lemma_dec_str(s, pos + 1, t.lang_type);
    let p = pos + 1 + enc_str(t.lang_type).len();
    let info = t.specific_info;
    assert(s.subrange(p, p + enc_type_info(info).len()) == enc_type_info(info));
    assert(s[p] == s.subrange(p, p + enc_type_info(info).len())[0]);
    match info {
        TypeInfoModel::NoInfo => {
            assert(s[p] == enc_type_info(info)[0]);
        },
        TypeInfoModel::Struct { fields } => {
            let n = fields.len() as usize as u64;
            assert(s[p] == 1u8);
            lemma_subrange_split3(s, p, seq![1u8], le64(n), enc_fields_from(fields, 0));
            lemma_dec_u64(s, p + 1, n);
            lemma_dec_fields(s, p + 9, fields, 0);
            assert(fields.subrange(0, fields.len() as int) =~= fields);
        },
        TypeInfoModel::Pointer { dereference_type_id } => {
            assert(s[p] == 2u8);
            lemma_subrange_split(s, p, seq![2u8], le64(dereference_type_id as u64));
            lemma_dec_id(s, p + 1, dereference_type_id);
        },
    }
}

/// Specification encoder for an assignment's provenance.
pub open spec fn enc_rvalue(r: RValueModel) -> Seq<u8> {
    match r {
        RValueModel::Simple(id) => seq![1u8] + le64(id as u64),
        RValueModel::Compound(ids) => seq![2u8] + le64(ids.len() as usize as u64) + enc_ids_from(
            ids,
            0,
        ),
    }
}

/// Specification decoder for an assignment's provenance.
pub open spec fn dec_rvalue(s: Seq<u8>, pos: int) -> Option<(RValueModel, int)> {
    if pos < 0 || pos >= s.len() {
        None
    } else {
        let tag = s[pos];
        let p = pos + 1;
        if tag == 1u8 {
            match dec_id(s, p) {
                Option::Some((id, p2)) => Some((RValueModel::Simple(id), p2)),
                Option::None => None,
            }
        } else if tag == 2u8 {
            match dec_u64(s, p) {
                Option::Some((n, p2)) => match dec_ids(s, p2, n as int) {
                    Option::Some((ids, p3)) => Some((RValueModel::Compound(ids), p3)),
                    Option::None => None,
                },
                Option::None => None,
            }
        } else {
            None
        }
    }
}

/// True when an assignment provenance's identifier list fits.
pub open spec fn rvalue_fits(r: RValueModel) -> bool {
    match r {
        RValueModel::Simple(_) => true,
        RValueModel::Compound(ids) => ids.len() <= usize::MAX,
    }
}

/// Decoding an encoded provenance placed at `pos` yields the provenance.
#[verifier::rlimit(100)]
#[verifier::spinoff_prover]
pub proof fn lemma_dec_rvalue(s: Seq<u8>, pos: int, r: RValueModel)
    requires
        0 <= pos,
        rvalue_fits(r),
        pos + enc_rvalue(r).len() <= s.len(),
        s.subrange(pos, pos + enc_rvalue(r).len()) == enc_rvalue(r),
    ensures
        dec_rvalue(s, pos) == Some((r, pos + enc_rvalue(r).len())),
{
    assert(s[pos] == enc_rvalue(r)[0]);
    match r {
        RValueModel::Simple(id) => {
            lemma_subrange_split(s, pos, seq![1u8], le64(id as u64));
            lemma_dec_id(s, pos + 1, id);
        },
        RValueModel::Compound(ids) => {
            let n = ids.len() as usize as u64;
            lemma_subrange_split3(s, pos, seq![2u8], le64(n), enc_ids_from(ids, 0));
            lemma_dec_u64(s, pos + 1, n);
            lemma_dec_ids(s, pos + 9, ids, 0);
            assert(ids.subrange(0, ids.len() as int) =~= ids);
        },
    }
}

pub const EV_STEP: u8 = 1;

pub const EV_PATH: u8 = 2;

pub const EV_VARIABLE_NAME: u8 = 3;

pub const EV_VARIABLE: u8 = 4;

pub const EV_TYPE: u8 = 5;

pub const EV_VALUE: u8 = 6;

pub const EV_FUNCTION: u8 = 7;

pub const EV_CALL: u8 = 8;

pub const EV_RETURN: u8 = 9;

pub const EV_EVENT: u8 = 10;

pub const EV_ASM: u8 = 11;

pub const EV_BIND_VARIABLE: u8 = 12;

pub const EV_ASSIGNMENT: u8 = 13;

pub const EV_DROP_VARIABLES: u8 = 14;

pub const EV_DROP_VARIABLE: u8 = 15;

pub const EV_COMPOUND_VALUE: u8 = 16;

pub const EV_CELL_VALUE: u8 = 17;

pub const EV_ASSIGN_COMPOUND_ITEM: u8 = 18;

pub const EV_ASSIGN_CELL: u8 = 19;

pub const EV_VARIABLE_CELL: u8 = 20;

pub const EV_DROP_LAST_STEP: u8 = 21;

pub const EV_THREAD_START: u8 = 22;

pub const EV_THREAD_EXIT: u8 = 23;

pub const EV_THREAD_SWITCH: u8 = 24;

/// Specification encoder for one trace event.
pub open spec fn enc_event(e: EventModel) -> Seq<u8> {
    match e {
        EventModel::Step { path_id, line } => seq![EV_STEP] + le64(path_id as u64) + le64(
            line as u64,
        ),
        EventModel::Path { path } => seq![EV_PATH] + enc_str(path),
        EventModel::VariableName { name } => seq![EV_VARIABLE_NAME] + enc_str(name),
        EventModel::Variable { name } => seq![EV_VARIABLE] + enc_str(name),
        EventModel::Type { typ } => seq![EV_TYPE] + enc_type(typ),
        EventModel::Value { value } => seq![EV_VALUE] + enc_full_value(value),
        EventModel::Function { name, path_id, line } => seq![EV_FUNCTION] + enc_str(name) + le64(
            path_id as u64,
        ) + le64(line as u64),
        EventModel::Call { function_id, args } => seq![EV_CALL] + le64(function_id as u64) + le64(
            args.len() as usize as u64,
        ) + enc_args_from(args, 0),
        EventModel::Return { return_value } => seq![EV_RETURN] + enc_value(return_value),
        EventModel::Event { kind, metadata, content } => seq![EV_EVENT] + seq![
            event_log_kind_byte(kind),
        ] + enc_str(metadata) + enc_str(content),
        EventModel::Asm { instructions } => seq![EV_ASM] + le64(
            instructions.len() as usize as u64,
        ) + enc_strs_from(instructions, 0),
        EventModel::BindVariable { variable_id, place } => seq![EV_BIND_VARIABLE] + le64(
            variable_id as u64,
        ) + le64(place),
        EventModel::Assignment { to, pass_by, from } => seq![EV_ASSIGNMENT] + le64(to as u64)
            + seq![pass_by_byte(pass_by)] + enc_rvalue(from),
        EventModel::DropVariables { variable_ids } => seq![EV_DROP_VARIABLES] + le64(
            variable_ids.len() as usize as u64,
        ) + enc_ids_from(variable_ids, 0),
        EventModel::DropVariable { variable_id } => seq![EV_DROP_VARIABLE] + le64(
            variable_id as u64,
        ),
        EventModel::CompoundValue { place, value } => seq![EV_COMPOUND_VALUE] + le64(place)
            + enc_value(value),
        EventModel::CellValue { place, value } => seq![EV_CELL_VALUE] + le64(place) + enc_value(
            value,
        ),
        EventModel::AssignCompoundItem { place, index, item_place } => seq![
            EV_ASSIGN_COMPOUND_ITEM,
        ] + le64(place) + le64(index as u64) + le64(item_place),
        EventModel::AssignCell { place, new_value } => seq![EV_ASSIGN_CELL] + le64(place)
            + enc_value(new_value),
        EventModel::VariableCell { variable_id, place } => seq![EV_VARIABLE_CELL] + le64(
            variable_id as u64,
        ) + le64(place),
        EventModel::DropLastStep => seq![EV_DROP_LAST_STEP],
        EventModel::ThreadStart { thread_id } => seq![EV_THREAD_START] + le64(thread_id),
        EventModel::ThreadExit { thread_id } => seq![EV_THREAD_EXIT] + le64(thread_id),
        EventModel::ThreadSwitch { thread_id } => seq![EV_THREAD_SWITCH] + le64(thread_id),
    }
}

/// True when every length occurring in the event fits the platform's index
/// type.  Every event built in memory satisfies it.
pub open spec fn event_fits(e: EventModel) -> bool {
    match e {
        EventModel::Path { path } => str_fits(path),
        EventModel::VariableName { name } => str_fits(name),
        EventModel::Variable { name } => str_fits(name),
        EventModel::Type { typ } => type_fits(typ),
        EventModel::Value { value } => value_fits(value.value),
        EventModel::Function { name, .. } => str_fits(name),
        EventModel::Call { args, .. } => args.len() <= usize::MAX && args_fit_from(args, 0),
        EventModel::Return { return_value } => value_fits(return_value),
        EventModel::Event { metadata, content, .. } => str_fits(metadata) && str_fits(content),
        EventModel::Asm { instructions } => instructions.len() <= usize::MAX && strs_fit_from(
            instructions,
            0,
        ),
        EventModel::Assignment { from, .. } => rvalue_fits(from),
        EventModel::DropVariables { variable_ids } => variable_ids.len() <= usize::MAX,
        EventModel::CompoundValue { value, .. } => value_fits(value),
        EventModel::CellValue { value, .. } => value_fits(value),
        EventModel::AssignCell { new_value, .. } => value_fits(new_value),
        _ => true,
    }
}

/// Specification decoder for one trace event.
pub open spec fn dec_event(s: Seq<u8>, pos: int) -> Option<(EventModel, int)> {
    if pos < 0 || pos >= s.len() {
        None
    } else {
        let tag = s[pos];
        let p = pos + 1;
        if tag == EV_STEP {
            match dec_id(s, p) {
                Option::Some((path_id, p2)) => match dec_i64(s, p2) {
                    Option::Some((line, p3)) => Some((EventModel::Step { path_id, line }, p3)),
                    Option::None => None,
                },
                Option::None => None,
            }
        } else if tag == EV_PATH {
            match dec_str(s, p) {
                Option::Some((path, p2)) => Some((EventModel::Path { path }, p2)),
                Option::None => None,
            }
        } else if tag == EV_VARIABLE_NAME {
            match dec_str(s, p) {
                Option::Some((name, p2)) => Some((EventModel::VariableName { name }, p2)),
                Option::None => None,
            }
        } else if tag == EV_VARIABLE {
            match dec_str(s, p) {
                Option::Some((name, p2)) => Some((EventModel::Variable { name }, p2)),
                Option::None => None,
            }
        } else if tag == EV_TYPE {
            match dec_type(s, p) {
                Option::Some((typ, p2)) => Some((EventModel::Type { typ }, p2)),
                Option::None => None,
            }
        } else if tag == EV_VALUE {
            match dec_full_value(s, p) {
                Option::Some((value, p2)) => Some((EventModel::Value { value }, p2)),
                Option::None => None,
            }
        } else if tag == EV_FUNCTION {
            match dec_str(s, p) {
                Option::Some((name, p2)) => match dec_id(s, p2) {
                    Option::Some((path_id, p3)) => match dec_i64(s, p3) {
                        Option::Some((line, p4)) => Some(
                            (EventModel::Function { name, path_id, line }, p4),
                        ),
                        Option::None => None,
                    },
                    Option::None => None,
                },
                Option::None => None,
            }
        } else if tag == EV_CALL {
            match dec_id(s, p) {
                Option::Some((function_id, p2)) => match dec_u64(s, p2) {
                    Option::Some((n, p3)) => match dec_args(s, p3, n as int) {
                        Option::Some((args, p4)) => Some(
                            (EventModel::Call { function_id, args }, p4),
                        ),
                        Option::None => None,
                    },
                    Option::None => None,
                },
                Option::None => None,
            }
        } else if tag == EV_RETURN {
            match dec_value(s, p) {
                Option::Some((return_value, p2)) => Some(
                    (EventModel::Return { return_value }, p2),
                ),
                Option::None => None,
            }
        } else if tag == EV_EVENT {
            if p < s.len() && event_log_kind_of(s[p]) is Some {
                let kind = event_log_kind_of(s[p])->Some_0;
                match dec_str(s, p + 1) {
                    Option::Some((metadata, p2)) => match dec_str(s, p2) {
                        Option::Some((content, p3)) => Some(
                            (EventModel::Event { kind, metadata, content }, p3),
                        ),
                        Option::None => None,
                    },
                    Option::None => None,
                }
            } else {
                None
            }
        } else if tag == EV_ASM {
            match dec_u64(s, p) {
                Option::Some((n, p2)) => match dec_strs(s, p2, n as int) {
                    Option::Some((instructions, p3)) => Some(
                        (EventModel::Asm { instructions }, p3),
                    ),
                    Option::None => None,
                },
                Option::None => None,
            }
        } else if tag == EV_BIND_VARIABLE {
            match dec_id(s, p) {
                Option::Some((variable_id, p2)) => match dec_u64(s, p2) {
                    Option::Some((place, p3)) => Some(
                        (EventModel::BindVariable { variable_id, place }, p3),
                    ),
                    Option::None => None,
                },
                Option::None => None,
            }
        } else if tag == EV_ASSIGNMENT {
            match dec_id(s, p) {
                Option::Some((to, p2)) => {
                    if p2 < s.len() && pass_by_of(s[p2]) is Some {
                        let pass_by = pass_by_of(s[p2])->Some_0;
                        match dec_rvalue(s, p2 + 1) {
                            Option::Some((from, p3)) => Some(
                                (EventModel::Assignment { to, pass_by, from }, p3),
                            ),
                            Option::None => None,
                        }
                    } else {
                        None
                    }
                },
                Option::None => None,
            }
        } else if tag == EV_DROP_VARIABLES {
            match dec_u64(s, p) {
                Option::Some((n, p2)) => match dec_ids(s, p2, n as int) {
                    Option::Some((variable_ids, p3)) => Some(
                        (EventModel::DropVariables { variable_ids }, p3),
                    ),
                    Option::None => None,
                },
                Option::None => None,
            }
        } else if tag == EV_DROP_VARIABLE {
            match dec_id(s, p) {
                Option::Some((variable_id, p2)) => Some(
                    (EventModel::DropVariable { variable_id }, p2),
                ),
                Option::None => None,
            }
        } else if tag == EV_COMPOUND_VALUE {
            match dec_u64(s, p) {
                Option::Some((place, p2)) => match dec_value(s, p2) {
                    Option::Some((value, p3)) => Some(
                        (EventModel::CompoundValue { place, value }, p3),
                    ),
                    Option::None => None,
                },
                Option::None => None,
            }
        } else if tag == EV_CELL_VALUE {
            match dec_u64(s, p) {
                Option::Some((place, p2)) => match dec_value(s, p2) {
                    Option::Some((value, p3)) => Some((EventModel::CellValue { place, value }, p3)),
                    Option::None => None,
                },
                Option::None => None,
            }
        } else if tag == EV_ASSIGN_COMPOUND_ITEM {
            match dec_u64(s, p) {
                Option::Some((place, p2)) => match dec_id(s, p2) {
                    Option::Some((index, p3)) => match dec_u64(s, p3) {
                        Option::Some((item_place, p4)) => Some(
                            (EventModel::AssignCompoundItem { place, index, item_place }, p4),
                        ),
                        Option::None => None,
                    },
                    Option::None => None,
                },
                Option::None => None,
            }
        } else if tag == EV_ASSIGN_CELL {
            match dec_u64(s, p) {
                Option::Some((place, p2)) => match dec_value(s, p2) {
                    Option::Some((new_value, p3)) => Some(
                        (EventModel::AssignCell { place, new_value }, p3),
                    ),
                    Option::None => None,
                },
                Option::None => None,
            }
        } else if tag == EV_VARIABLE_CELL {
            match dec_id(s, p) {
                Option::Some((variable_id, p2)) => match dec_u64(s, p2) {
                    Option::Some((place, p3)) => Some(
                        (EventModel::VariableCell { variable_id, place }, p3),
                    ),
                    Option::None => None,
                },
                Option::None => None,
            }
        } else if tag == EV_DROP_LAST_STEP {
            Some((EventModel::DropLastStep, p))
        } else if tag == EV_THREAD_START {
            match dec_u64(s, p) {
                Option::Some((thread_id, p2)) => Some((EventModel::ThreadStart { thread_id }, p2)),
                Option::None => None,
            }
        } else if tag == EV_THREAD_EXIT {
            match dec_u64(s, p) {
                Option::Some((thread_id, p2)) => Some((EventModel::ThreadExit { thread_id }, p2)),
                Option::None => None,
            }
        } else if tag == EV_THREAD_SWITCH {
            match dec_u64(s, p) {
                Option::Some((thread_id, p2)) => Some((EventModel::ThreadSwitch { thread_id }, p2)),
                Option::None => None,
            }
        } else {
            None
        }
    }
}

/// Every encoded event takes at least one byte.
pub proof fn lemma_enc_event_min_len(e: EventModel)
    ensures
        enc_event(e).len() >= 1,
{
}

/// Shared shape of the event decoding lemmas: the encoding of `e` sits at
/// `pos` inside `s`.
pub open spec fn event_enc_at(s: Seq<u8>, pos: int, e: EventModel) -> bool {
    &&& 0 <= pos
    &&& pos + enc_event(e).len() <= s.len()
    &&& s.subrange(pos, pos + enc_event(e).len()) == enc_event(e)
}

/// `lemma_dec_event`, for the events that carry only fixed-width numbers.
#[verifier::rlimit(100)]
#[verifier::spinoff_prover]
proof fn lemma_dec_event_plain(s: Seq<u8>, pos: int, e: EventModel)
    requires
        event_fits(e),
        event_enc_at(s, pos, e),
        e is Step || e is BindVariable || e is DropVariable || e is AssignCompoundItem
            || e is VariableCell || e is DropLastStep || e is ThreadStart || e is ThreadExit
            || e is ThreadSwitch,
    ensures
        dec_event(s, pos) == Some((e, pos + enc_event(e).len())),
{
    let en = enc_event(e);
    assert(s[pos] == en[0]);
    match e {
        EventModel::Step { path_id, line } => {
            lemma_subrange_split3(s, pos, seq![EV_STEP], le64(path_id as u64), le64(line as u64));
            lemma_dec_id(s, pos + 1, path_id);
            lemma_dec_i64(s, pos + 9, line);
        },
        EventModel::BindVariable { variable_id, place } => {
            lemma_subrange_split3(
                s,
                pos,
                seq![EV_BIND_VARIABLE],
                le64(variable_id as u64),
                le64(place),
            );
            lemma_dec_id(s, pos + 1, variable_id);
            lemma_dec_u64(s, pos + 9, place);
        },
        EventModel::DropVariable { variable_id } => {
            lemma_subrange_split(s, pos, seq![EV_DROP_VARIABLE], le64(variable_id as u64));
            lemma_dec_id(s, pos + 1, variable_id);
        },
        EventModel::AssignCompoundItem { place, index, item_place } => {
            lemma_subrange_split4(
                s,
                pos,
                seq![EV_ASSIGN_COMPOUND_ITEM],
                le64(place),
                le64(index as u64),
                le64(item_place),
            );
            lemma_dec_u64(s, pos + 1, place);
            lemma_dec_id(s, pos + 9, index);
            lemma_dec_u64(s, pos + 17, item_place);
        },
        EventModel::VariableCell { variable_id, place } => {
            lemma_subrange_split3(
                s,
                pos,
                seq![EV_VARIABLE_CELL],
                le64(variable_id as u64),
                le64(place),
            );
            lemma_dec_id(s, pos + 1, variable_id);
            lemma_dec_u64(s, pos + 9, place);
        },
        EventModel::DropLastStep => (),
        EventModel::ThreadStart { thread_id } => {
            lemma_subrange_split(s, pos, seq![EV_THREAD_START], le64(thread_id));
            lemma_dec_u64(s, pos + 1, thread_id);
        },
        EventModel::ThreadExit { thread_id } => {
            lemma_subrange_split(s, pos, seq![EV_THREAD_EXIT], le64(thread_id));
            lemma_dec_u64(s, pos + 1, thread_id);
        },
        EventModel::ThreadSwitch { thread_id } => {
            lemma_subrange_split(s, pos, seq![EV_THREAD_SWITCH], le64(thread_id));
            lemma_dec_u64(s, pos + 1, thread_id);
        },
        _ => (),
    }
}

/// `lemma_dec_event`, for the events that carry strings.
#[verifier::rlimit(60)]
#[verifier::spinoff_prover]
proof fn lemma_dec_event_text(s: Seq<u8>, pos: int, e: EventModel)
    requires
        event_fits(e),
        event_enc_at(s, pos, e),
        e is Path || e is VariableName || e is Variable || e is Function || e is Event,
    ensures
        dec_event(s, pos) == Some((e, pos + enc_event(e).len())),
{
    let en = enc_event(e);
    assert(s[pos] == en[0]);
    match e {
        EventModel::Path { path } => {
            lemma_subrange_split(s, pos, seq![EV_PATH], enc_str(path));
            lemma_dec_str(s, pos + 1, path);
        },
        EventModel::VariableName { name } => {
            lemma_subrange_split(s, pos, seq![EV_VARIABLE_NAME], enc_str(name));
            lemma_dec_str(s, pos + 1, name);
        },
        EventModel::Variable { name } => {
            lemma_subrange_split(s, pos, seq![EV_VARIABLE], enc_str(name));
            lemma_dec_str(s, pos + 1, name);
        },
        EventModel::Function { name, path_id, line } => {
            lemma_subrange_split4(
                s,
                pos,
                seq![EV_FUNCTION],
                enc_str(name),
                le64(path_id as u64),
                le64(line as u64),
            );
            lemma_dec_str(s, pos + 1, name);
            let p2 = pos + 1 + enc_str(name).len();
            lemma_dec_id(s, p2, path_id);
            lemma_dec_i64(s, p2 + 8, line);
        },
        EventModel::Event { kind, metadata, content } => {
            lemma_subrange_split4(
                s,
                pos,
                seq![EV_EVENT],
                seq![event_log_kind_byte(kind)],
                enc_str(metadata),
                enc_str(content),
            );
            assert(s[pos + 1] == seq![event_log_kind_byte(kind)][0]);
            lemma_event_log_kind_roundtrip(kind);
            lemma_dec_str(s, pos + 2, metadata);
            lemma_dec_str(s, pos + 2 + enc_str(metadata).len(), content);
        },
        _ => (),
    }
}

/// `lemma_dec_event`, for the events that carry one value.
#[verifier::rlimit(60)]
#[verifier::spinoff_prover]
proof fn lemma_dec_event_value(s: Seq<u8>, pos: int, e: EventModel)
    requires
        event_fits(e),
        event_enc_at(s, pos, e),
        e is Value || e is Return || e is CompoundValue || e is CellValue || e is AssignCell,
    ensures
        dec_event(s, pos) == Some((e, pos + enc_event(e).len())),
{
    let en = enc_event(e);
    assert(s[pos] == en[0]);
    match e {
        EventModel::Value { value } => {
            lemma_subrange_split(s, pos, seq![EV_VALUE], enc_full_value(value));
            lemma_dec_full_value(s, pos + 1, value);
        },
        EventModel::Return { return_value } => {
            lemma_subrange_split(s, pos, seq![EV_RETURN], enc_value(return_value));
            lemma_dec_value(s, pos + 1, return_value);
        },
        EventModel::CompoundValue { place, value } => {
            lemma_subrange_split3(s, pos, seq![EV_COMPOUND_VALUE], le64(place), enc_value(value));
            lemma_dec_u64(s, pos + 1, place);
            lemma_dec_value(s, pos + 9, value);
        },
        EventModel::CellValue { place, value } => {
            lemma_subrange_split3(s, pos, seq![EV_CELL_VALUE], le64(place), enc_value(value));
            lemma_dec_u64(s, pos + 1, place);
            lemma_dec_value(s, pos + 9, value);
        },
        EventModel::AssignCell { place, new_value } => {
            lemma_subrange_split3(s, pos, seq![EV_ASSIGN_CELL], le64(place), enc_value(new_value));
            lemma_dec_u64(s, pos + 1, place);
            lemma_dec_value(s, pos + 9, new_value);
        },
        _ => (),
    }
}

/// `lemma_dec_event`, for type declarations and calls.
#[verifier::rlimit(100)]
#[verifier::spinoff_prover]
proof fn lemma_dec_event_decl(s: Seq<u8>, pos: int, e: EventModel)
    requires
        event_fits(e),
        event_enc_at(s, pos, e),
        e is Type || e is Call,
    ensures
        dec_event(s, pos) == Some((e, pos + enc_event(e).len())),
{
    let en = enc_event(e);
    assert(s[pos] == en[0]);
    match e {
        EventModel::Type { typ } => {
            lemma_subrange_split(s, pos, seq![EV_TYPE], enc_type(typ));
            lemma_dec_type(s, pos + 1, typ);
        },
        EventModel::Call { function_id, args } => {
            let n = args.len() as usize as u64;
            lemma_subrange_split4(
                s,
                pos,
                seq![EV_CALL],
                le64(function_id as u64),
                le64(n),
                enc_args_from(args, 0),
            );
            lemma_dec_id(s, pos + 1, function_id);
            lemma_dec_u64(s, pos + 9, n);
            lemma_dec_args(s, pos + 17, args, 0);
            assert(args.subrange(0, args.len() as int) =~= args);
        },
        _ => (),
    }
}

/// `lemma_dec_event`, for the events that carry lists of names.
#[verifier::rlimit(100)]
#[verifier::spinoff_prover]
proof fn lemma_dec_event_list(s: Seq<u8>, pos: int, e: EventModel)
    requires
        event_fits(e),
        event_enc_at(s, pos, e),
        e is Asm || e is Assignment || e is DropVariables,
    ensures
        dec_event(s, pos) == Some((e, pos + enc_event(e).len())),
{
    let en = enc_event(e);
    assert(s[pos] == en[0]);
    match e {
        EventModel::Asm { instructions } => {
            let n = instructions.len() as usize as u64;
            lemma_subrange_split3(s, pos, seq![EV_ASM], le64(n), enc_strs_from(instructions, 0));
            lemma_dec_u64(s, pos + 1, n);
            lemma_dec_strs(s, pos + 9, instructions, 0);
            assert(instructions.subrange(0, instructions.len() as int) =~= instructions);
        },
        EventModel::Assignment { to, pass_by, from } => {
            lemma_subrange_split4(
                s,
                pos,
                seq![EV_ASSIGNMENT],
                le64(to as u64),
                seq![pass_by_byte(pass_by)],
                enc_rvalue(from),
            );
            lemma_dec_id(s, pos + 1, to);
            assert(s[pos + 9] == seq![pass_by_byte(pass_by)][0]);
            lemma_pass_by_roundtrip(pass_by);
            lemma_dec_rvalue(s, pos + 10, from);
        },
        EventModel::DropVariables { variable_ids } => {
            let n = variable_ids.len() as usize as u64;
            lemma_subrange_split3(
                s,
                pos,
                seq![EV_DROP_VARIABLES],
                le64(n),
                enc_ids_from(variable_ids, 0),
            );
            lemma_dec_u64(s, pos + 1, n);
            lemma_dec_ids(s, pos + 9, variable_ids, 0);
            assert(variable_ids.subrange(0, variable_ids.len() as int) =~= variable_ids);
        },
        _ => (),
    }
}

/// Decoding an encoded event placed at `pos` yields the encoded event.
pub proof fn lemma_dec_event(s: Seq<u8>, pos: int, e: EventModel)
    requires
        event_fits(e),
        event_enc_at(s, pos, e),
    ensures
        dec_event(s, pos) == Some((e, pos + enc_event(e).len())),
{
    if e is Step || e is BindVariable || e is DropVariable || e is AssignCompoundItem
        || e is VariableCell || e is DropLastStep || e is ThreadStart || e is ThreadExit
        || e is ThreadSwitch {
        lemma_dec_event_plain(s, pos, e);
    } else if e is Path || e is VariableName || e is Variable || e is Function || e is Event {
        lemma_dec_event_text(s, pos, e);
    } else if e is Value || e is Return || e is CompoundValue || e is CellValue
        || e is AssignCell {
        lemma_dec_event_value(s, pos, e);
    } else if e is Type || e is Call {
        lemma_dec_event_decl(s, pos, e);
    } else {
        lemma_dec_event_list(s, pos, e);
    }
}

/// Concatenated encodings of the events from index `i` on.
pub open spec fn enc_events_from(es: Seq<EventModel>, i: int) -> Seq<u8>
    decreases es.len() - i,
{
    if i < 0 || i >= es.len() {
        Seq::empty()
    } else {
        enc_event(es[i]) + enc_events_from(es, i + 1)
    }
}

/// True when every event from index `i` on fits.
pub open spec fn events_fit_from(es: Seq<EventModel>, i: int) -> bool
    decreases es.len() - i,
{
    if i < 0 || i >= es.len() {
        true
    } else {
        event_fits(es[i]) && events_fit_from(es, i + 1)
    }
}

/// Specification decoder for a stream of events that fills the buffer from
/// `pos` to its end.
pub open spec fn dec_events_to_end(s: Seq<u8>, pos: int) -> Option<Seq<EventModel>>
    decreases s.len() - pos,
{
    if pos == s.len() {
        Some(Seq::empty())
    } else if pos < 0 || pos > s.len() {
        None
    } else {
        match dec_event(s, pos) {
            Option::Some((e, p)) => {
                if p <= pos || p > s.len() {
                    None
                } else {
                    match dec_events_to_end(s, p) {
                        Option::Some(es) => Some(seq![e] + es),
                        Option::None => None,
                    }
                }
            },
            Option::None => None,
        }
    }
}

/// Specification decoder for `n` consecutive events.
pub open spec fn dec_events_n(s: Seq<u8>, pos: int, n: int) -> Option<(Seq<EventModel>, int)>
    decreases n,
{
    if n <= 0 {
        if 0 <= pos <= s.len() {
            Some((Seq::empty(), pos))
        } else {
            None
        }
    } else {
        match dec_event(s, pos) {
            Option::Some((e, p)) => {
                if p <= pos || p > s.len() {
                    None
                } else {
                    match dec_events_n(s, p, n - 1) {
                        Option::Some((es, q)) => Some((seq![e] + es, q)),
                        Option::None => None,
                    }
                }
            },
            Option::None => None,
        }
    }
}

/// Decoding a buffer that holds exactly the encodings of the events from
/// index `i` on yields those events.
#[verifier::rlimit(100)]
#[verifier::spinoff_prover]
pub proof fn lemma_dec_events_to_end(s: Seq<u8>, pos: int, es: Seq<EventModel>, i: int)
    requires
        0 <= pos <= s.len(),
        0 <= i <= es.len(),
        events_fit_from(es, i),
        s.subrange(pos, s.len() as int) == enc_events_from(es, i),
    ensures
        dec_events_to_end(s, pos) == Some(es.subrange(i, es.len() as int)),
    decreases es.len() - i,
{
    if i == es.len() {
        assert(es.subrange(i, es.len() as int) =~= Seq::<EventModel>::empty());
        assert(pos == s.len());
    } else {
        assert(s.subrange(pos, s.len() as int).len() == enc_events_from(es, i).len());
        lemma_subrange_split(s, pos, enc_event(es[i]), enc_events_from(es, i + 1));
        lemma_dec_event(s, pos, es[i]);
        lemma_enc_event_min_len(es[i]);
        let p2 = pos + enc_event(es[i]).len();
        assert(s.subrange(p2, s.len() as int) =~= s.subrange(
            p2,
            p2 + enc_events_from(es, i + 1).len(),
        ));
        lemma_dec_events_to_end(s, p2, es, i + 1);
        assert(seq![es[i]] + es.subrange(i + 1, es.len() as int) =~= es.subrange(
            i,
            es.len() as int,
        ));
    }
}

/// Decoding the concatenated encodings of the events from index `i` on
/// yields those events.
#[verifier::rlimit(100)]
#[verifier::spinoff_prover]
pub proof fn lemma_dec_events_n(s: Seq<u8>, pos: int, es: Seq<EventModel>, i: int)
    requires
        0 <= pos,
        0 <= i <= es.len(),
        events_fit_from(es, i),
        pos + enc_events_from(es, i).len() <= s.len(),
        s.subrange(pos, pos + enc_events_from(es, i).len()) == enc_events_from(es, i),
    ensures
        dec_events_n(s, pos, es.len() - i) == Some(
            (es.subrange(i, es.len() as int), pos + enc_events_from(es, i).len()),
        ),
    decreases es.len() - i,
{
    if i == es.len() {
        assert(es.subrange(i, es.len() as int) =~= Seq::<EventModel>::empty());
    } else {
        lemma_subrange_split(s, pos, enc_event(es[i]), enc_events_from(es, i + 1));
        lemma_dec_event(s, pos, es[i]);
        lemma_enc_event_min_len(es[i]);
        let p2 = pos + enc_event(es[i]).len();
        lemma_dec_events_n(s, p2, es, i + 1);
        assert(seq![es[i]] + es.subrange(i + 1, es.len() as int) =~= es.subrange(
            i,
            es.len() as int,
        ));
    }
}

/// Converts a type kind to its wire byte.
pub fn type_kind_byte_exec(k: TypeKind) -> (r: u8)
    ensures
        r == type_kind_byte(k),
{
    match k {
        TypeKind::SeqKind => 1u8,
        TypeKind::SetKind => 2u8,
        TypeKind::HashSet => 3u8,
        TypeKind::OrderedSet => 4u8,
        TypeKind::Array => 5u8,
        TypeKind::Varargs => 6u8,
        TypeKind::Struct => 7u8,
        TypeKind::Int => 8u8,
        TypeKind::Float => 9u8,
        TypeKind::String => 10u8,
        TypeKind::CString => 11u8,
        TypeKind::Char => 12u8,
        TypeKind::Bool => 13u8,
        TypeKind::Literal => 14u8,
        TypeKind::Ref => 15u8,
        TypeKind::Recursion => 16u8,
        TypeKind::Raw => 17u8,
        TypeKind::Enum => 18u8,
        TypeKind::Enum16 => 19u8,
        TypeKind::Enum32 => 20u8,
        TypeKind::C => 21u8,
        TypeKind::TableKind => 22u8,
        TypeKind::Union => 23u8,
        TypeKind::Pointer => 24u8,
        TypeKind::Error => 25u8,
        TypeKind::FunctionKind => 26u8,
        TypeKind::TypeValue => 27u8,
        TypeKind::Tuple => 28u8,
        TypeKind::Variant => 29u8,
        TypeKind::Html => 30u8,
        TypeKind::NoneKind => 31u8,
        TypeKind::NonExpanded => 32u8,
        TypeKind::Any => 33u8,
        TypeKind::Slice => 34u8,
    }
}

/// Converts a wire byte back to a type kind.
pub fn type_kind_of_exec(b: u8) -> (r: Option<TypeKind>)
    ensures
        r == type_kind_of(b),
{
    if b >= 1 && b <= 34 {
        Some(
            if b == 1 {
                TypeKind::SeqKind
            } else if b == 2 {
                TypeKind::SetKind
            } else if b == 3 {
                TypeKind::HashSet
            } else if b == 4 {
                TypeKind::OrderedSet
            } else if b == 5 {
                TypeKind::Array
            } else if b == 6 {
                TypeKind::Varargs
            } else if b == 7 {
                TypeKind::Struct
            } else if b == 8 {
                TypeKind::Int
            } else if b == 9 {
                TypeKind::Float
            } else if b == 10 {
                TypeKind::String
            } else if b == 11 {
                TypeKind::CString
            } else if b == 12 {
                TypeKind::Char
            } else if b == 13 {
                TypeKind::Bool
            } else if b == 14 {
                TypeKind::Literal
            } else if b == 15 {
                TypeKind::Ref
            } else if b == 16 {
                TypeKind::Recursion
            } else if b == 17 {
                TypeKind::Raw
            } else if b == 18 {
                TypeKind::Enum
            } else if b == 19 {
                TypeKind::Enum16
            } else if b == 20 {
                TypeKind::Enum32
            } else if b == 21 {
                TypeKind::C
            } else if b == 22 {
                TypeKind::TableKind
            } else if b == 23 {
                TypeKind::Union
            } else if b == 24 {
                TypeKind::Pointer
            } else if b == 25 {
                TypeKind::Error
            } else if b == 26 {
                TypeKind::FunctionKind
            } else if b == 27 {
                TypeKind::TypeValue
            } else if b == 28 {
                TypeKind::Tuple
            } else if b == 29 {
                TypeKind::Variant
            } else if b == 30 {
                TypeKind::Html
            } else if b == 31 {
                TypeKind::NoneKind
            } else if b == 32 {
                TypeKind::NonExpanded
            } else if b == 33 {
                TypeKind::Any
            } else {
                TypeKind::Slice
            },
        )
    } else {
        None
    }
}

/// Converts an event-log kind to its wire byte.
pub fn event_log_kind_byte_exec(k: EventLogKind) -> (r: u8)
    ensures
        r == event_log_kind_byte(k),
{
    match k {
        EventLogKind::Write => 1u8,
        EventLogKind::WriteFile => 2u8,
        EventLogKind::WriteOther => 3u8,
        EventLogKind::Read => 4u8,
        EventLogKind::ReadFile => 5u8,
        EventLogKind::ReadOther => 6u8,
        EventLogKind::ReadDir => 7u8,
        EventLogKind::OpenDir => 8u8,
        EventLogKind::CloseDir => 9u8,
        EventLogKind::Socket => 10u8,
        EventLogKind::Open => 11u8,
        EventLogKind::Error => 12u8,
        EventLogKind::TraceLogEvent => 13u8,
        EventLogKind::EvmEvent => 14u8,
    }
}

/// Converts a wire byte back to an event-log kind.
pub fn event_log_kind_of_exec(b: u8) -> (r: Option<EventLogKind>)
    ensures
        r == event_log_kind_of(b),
{
    if b >= 1 && b <= 14 {
        Some(
            if b == 1 {
                EventLogKind::Write
            } else if b == 2 {
                EventLogKind::WriteFile
            } else if b == 3 {
                EventLogKind::WriteOther
            } else if b == 4 {
                EventLogKind::Read
            } else if b == 5 {
                EventLogKind::ReadFile
            } else if b == 6 {
                EventLogKind::ReadOther
            } else if b == 7 {
                EventLogKind::ReadDir
            } else if b == 8 {
                EventLogKind::OpenDir
            } else if b == 9 {
                EventLogKind::CloseDir
            } else if b == 10 {
                EventLogKind::Socket
            } else if b == 11 {
                EventLogKind::Open
            } else if b == 12 {
                EventLogKind::Error
            } else if b == 13 {
                EventLogKind::TraceLogEvent
            } else {
                EventLogKind::EvmEvent
            },
        )
    } else {
        None
    }
}

/// Converts a pass-by mode to its wire byte.
pub fn pass_by_byte_exec(k: PassBy) -> (r: u8)
    ensures
        r == pass_by_byte(k),
{
    match k {
        PassBy::Value => 1u8,
        PassBy::Reference => 2u8,
    }
}

/// Converts a wire byte back to a pass-by mode.
pub fn pass_by_of_exec(b: u8) -> (r: Option<PassBy>)
    ensures
        r == pass_by_of(b),
{
    if b == 1 {
        Some(PassBy::Value)
    } else if b == 2 {
        Some(PassBy::Reference)
    } else {
        None
    }
}

/// Appends the encoding of one bound value.
pub fn push_full_value(out: &mut Vec<u8>, a: &FullValueRecord)
    ensures
        final(out)@ == old(out)@ + enc_full_value(a.model()),
{
    push_u64(out, a.variable_id.0 as u64);
    enc_value_exec(out, &a.value);
    proof {
        assert(out@ =~= old(out)@ + enc_full_value(a.model()));
    }
}

/// Appends the encodings of all bound values in `args`.
#[verifier::loop_isolation(false)]
pub fn push_args(out: &mut Vec<u8>, args: &Vec<FullValueRecord>)
    ensures
        final(out)@ == old(out)@ + enc_args_from(arg_models_of(args@), 0),
{
    let ghost ms = arg_models_of(args@);
    let n = args.len();
    let mut j: usize = 0;
    while j < n
        invariant
            j <= n,
            out@ + enc_args_from(ms, j as int) == old(out)@ + enc_args_from(ms, 0),
        decreases n - j,
    {
        let ghost prev = out@;
        push_full_value(out, &args[j]);
        proof {
            assert(out@ + enc_args_from(ms, j + 1) =~= prev + enc_args_from(ms, j as int));
        }
        j = j + 1;
    }
    proof {
        assert(out@ =~= out@ + enc_args_from(ms, n as int));
    }
}

/// Appends the encodings of all strings in `ss`.
#[verifier::loop_isolation(false)]
pub fn push_strs(out: &mut Vec<u8>, ss: &Vec<String>)
    ensures
        final(out)@ == old(out)@ + enc_strs_from(str_models_of(ss@), 0),
{
    let ghost ms = str_models_of(ss@);
    let n = ss.len();
    let mut j: usize = 0;
    while j < n
        invariant
            j <= n,
            out@ + enc_strs_from(ms, j as int) == old(out)@ + enc_strs_from(ms, 0),
        decreases n - j,
    {
        let ghost prev = out@;
        push_str(out, ss[j].as_str());
        proof {
            assert(out@ + enc_strs_from(ms, j + 1) =~= prev + enc_strs_from(ms, j as int));
        }
        j = j + 1;
    }
    proof {
        assert(out@ =~= out@ + enc_strs_from(ms, n as int));
    }
}

/// Appends the encodings of all identifiers in `ids`.
#[verifier::loop_isolation(false)]
pub fn push_ids(out: &mut Vec<u8>, ids: &Vec<VariableId>)
    ensures
        final(out)@ == old(out)@ + enc_ids_from(id_models_of(ids@), 0),
{
    let ghost ms = id_models_of(ids@);
    let n = ids.len();
    let mut j: usize = 0;
    while j < n
        invariant
            j <= n,
            out@ + enc_ids_from(ms, j as int) == old(out)@ + enc_ids_from(ms, 0),
        decreases n - j,
    {
        let ghost prev = out@;
        push_u64(out, ids[j].0 as u64);
        proof {
            assert(out@ + enc_ids_from(ms, j + 1) =~= prev + enc_ids_from(ms, j as int));
        }
        j = j + 1;
    }
    proof {
        assert(out@ =~= out@ + enc_ids_from(ms, n as int));
    }
}

/// Appends the encodings of all field declarations in `fs`.
#[verifier::loop_isolation(false)]
pub fn push_fields(out: &mut Vec<u8>, fs: &Vec<FieldTypeRecord>)
    ensures
        final(out)@ == old(out)@ + enc_fields_from(field_models_of(fs@), 0),
{
    let ghost ms = field_models_of(fs@);
    let n = fs.len();
    let mut j: usize = 0;
    while j < n
        invariant
            j <= n,
            out@ + enc_fields_from(ms, j as int) == old(out)@ + enc_fields_from(ms, 0),
        decreases n - j,
    {
        let ghost prev = out@;
        push_str(out, fs[j].name.as_str());
        push_u64(out, fs[j].type_id.0 as u64);
        proof {
            assert(out@ + enc_fields_from(ms, j + 1) =~= prev + enc_fields_from(ms, j as int));
        }
        j = j + 1;
    }
    proof {
        assert(out@ =~= out@ + enc_fields_from(ms, n as int));
    }
}

/// Appends the encoding of a type declaration.
pub fn push_type(out: &mut Vec<u8>, t: &TypeRecord)
    ensures
        final(out)@ == old(out)@ + enc_type(t.model()),
{
    out.push(type_kind_byte_exec(t.kind));
    push_str(out, t.lang_type.as_str());
    match &t.specific_info {
        TypeSpecificInfo::NoInfo => {
            out.push(0u8);
        },
        TypeSpecificInfo::Struct { fields } => {
            out.push(1u8);
            push_u64(out, fields.len() as u64);
            push_fields(out, fields);
        },
        TypeSpecificInfo::Pointer { dereference_type_id } => {
            out.push(2u8);
            push_u64(out, dereference_type_id.0 as u64);
        },
    }
    proof {
        assert(out@ =~= old(out)@ + enc_type(t.model()));
    }
}

/// Appends the encoding of an assignment provenance.
pub fn push_rvalue(out: &mut Vec<u8>, r: &RValue)
    ensures
        final(out)@ == old(out)@ + enc_rvalue(r.model()),
{
    match r {
        RValue::Simple(id) => {
            out.push(1u8);
            push_u64(out, id.0 as u64);
        },
        RValue::Compound(ids) => {
            out.push(2u8);
            push_u64(out, ids.len() as u64);
            push_ids(out, ids);
        },
    }
    proof {
        assert(out@ =~= old(out)@ + enc_rvalue(r.model()));
    }
}

/// Appends the encoding of one trace event.
#[verifier::rlimit(100)]
#[verifier::spinoff_prover]
pub fn enc_event_exec(out: &mut Vec<u8>, e: &TraceLowLevelEvent)
    ensures
        final(out)@ == old(out)@ + enc_event(e.model()),
{
    match e {
        TraceLowLevelEvent::Step(rec) => {
            out.push(EV_STEP);
            push_u64(out, rec.path_id.0 as u64);
            push_u64(out, #[verifier::truncate] (rec.line.0 as u64));
        },
        TraceLowLevelEvent::Path(p) => {
            out.push(EV_PATH);
            push_str(out, p.as_str());
        },
        TraceLowLevelEvent::VariableName(n) => {
            out.push(EV_VARIABLE_NAME);
            push_str(out, n.as_str());
        },
        TraceLowLevelEvent::Variable(n) => {
            out.push(EV_VARIABLE);
            push_str(out, n.as_str());
        },
        TraceLowLevelEvent::Type(t) => {
            out.push(EV_TYPE);
            push_type(out, t);
        },
        TraceLowLevelEvent::Value(v) => {
            out.push(EV_VALUE);
            push_full_value(out, v);
        },
        TraceLowLevelEvent::Function(f) => {
            out.push(EV_FUNCTION);
            push_str(out, f.name.as_str());
            push_u64(out, f.path_id.0 as u64);
            push_u64(out, #[verifier::truncate] (f.line.0 as u64));
        },
        TraceLowLevelEvent::Call(c) => {
            out.push(EV_CALL);
            push_u64(out, c.function_id.0 as u64);
            push_u64(out, c.args.len() as u64);
            push_args(out, &c.args);
        },
        TraceLowLevelEvent::Return(r) => {
            out.push(EV_RETURN);
            enc_value_exec(out, &r.return_value);
        },
        TraceLowLevelEvent::Event(ev) => {
            out.push(EV_EVENT);
            out.push(event_log_kind_byte_exec(ev.kind));
            push_str(out, ev.metadata.as_str());
            push_str(out, ev.content.as_str());
        },
        TraceLowLevelEvent::Asm(lines) => {
            out.push(EV_ASM);
            push_u64(out, lines.len() as u64);
            push_strs(out, lines);
        },
        TraceLowLevelEvent::BindVariable(b) => {
            out.push(EV_BIND_VARIABLE);
            push_u64(out, b.variable_id.0 as u64);
            push_u64(out, b.place.0);
        },
        TraceLowLevelEvent::Assignment(a) => {
            out.push(EV_ASSIGNMENT);
            push_u64(out, a.to.0 as u64);
            out.push(pass_by_byte_exec(a.pass_by));
            push_rvalue(out, &a.from);
        },
        TraceLowLevelEvent::DropVariables(ids) => {
            out.push(EV_DROP_VARIABLES);
            push_u64(out, ids.len() as u64);
            push_ids(out, ids);
        },
        TraceLowLevelEvent::DropVariable(id) => {
            out.push(EV_DROP_VARIABLE);
            push_u64(out, id.0 as u64);
        },
        TraceLowLevelEvent::CompoundValue(c) => {
            out.push(EV_COMPOUND_VALUE);
            push_u64(out, c.place.0);
            enc_value_exec(out, &c.value);
        },
        TraceLowLevelEvent::CellValue(c) => {
            out.push(EV_CELL_VALUE);
            push_u64(out, c.place.0);
            enc_value_exec(out, &c.value);
        },
        TraceLowLevelEvent::AssignCompoundItem(a) => {
            out.push(EV_ASSIGN_COMPOUND_ITEM);
            push_u64(out, a.place.0);
            push_u64(out, a.index as u64);
            push_u64(out, a.item_place.0);
        },
        TraceLowLevelEvent::AssignCell(a) => {
            out.push(EV_ASSIGN_CELL);
            push_u64(out, a.place.0);
            enc_value_exec(out, &a.new_value);
        },
        TraceLowLevelEvent::VariableCell(v) => {
            out.push(EV_VARIABLE_CELL);
            push_u64(out, v.variable_id.0 as u64);
            push_u64(out, v.place.0);
        },
        TraceLowLevelEvent::DropLastStep => {
            out.push(EV_DROP_LAST_STEP);
        },
        TraceLowLevelEvent::ThreadStart(t) => {
            out.push(EV_THREAD_START);
            push_u64(out, t.0);
        },
        TraceLowLevelEvent::ThreadExit(t) => {
            out.push(EV_THREAD_EXIT);
            push_u64(out, t.0);
        },
        TraceLowLevelEvent::ThreadSwitch(t) => {
            out.push(EV_THREAD_SWITCH);
            push_u64(out, t.0);
        },
    }
    proof {
        assert(out@ =~= old(out)@ + enc_event(e.model()));
    }
}

/// Reads one bound value at `pos`.
pub fn read_full_value(buf: &Vec<u8>, pos: usize) -> (r: Option<(FullValueRecord, usize)>)
    ensures
        match r {
            Option::Some((a, p)) => dec_full_value(buf@, pos as int) == Some(
                (a.model(), p as int),
            ) && pos < p <= buf@.len(),
            Option::None => dec_full_value(buf@, pos as int) is None,
        },
{
    match read_id(buf, pos) {
        Option::Some((variable_id, p)) => match dec_value_exec(buf, p) {
            Option::Some((value, p2)) => Some(
                (FullValueRecord { variable_id: VariableId(variable_id), value }, p2),
            ),
            Option::None => None,
        },
        Option::None => None,
    }
}

/// Joins a freshly decoded argument list onto an already decoded prefix.
pub open spec fn prepend_args(
    ms: Seq<FullValueModel>,
    o: Option<(Seq<FullValueModel>, int)>,
) -> Option<(Seq<FullValueModel>, int)> {
    match o {
        Option::Some((vs, p)) => Some((ms + vs, p)),
        Option::None => None,
    }
}

/// Reads `n` consecutive bound values starting at `pos`.
#[verifier::loop_isolation(false)]
pub fn read_args(buf: &Vec<u8>, pos: usize, n: u64) -> (r: Option<(Vec<FullValueRecord>, usize)>)
    requires
        pos <= buf@.len(),
    ensures
        match r {
            Option::Some((vs, p)) => dec_args(buf@, pos as int, n as int) == Some(
                (arg_models_of(vs@), p as int),
            ) && pos <= p <= buf@.len(),
            Option::None => dec_args(buf@, pos as int, n as int) is None,
        },
{
    let mut acc: Vec<FullValueRecord> = Vec::new();
    let mut cur: usize = pos;
    let mut i: u64 = 0;
    while i < n
        invariant
            0 <= i <= n,
            pos <= cur <= buf@.len(),
            prepend_args(arg_models_of(acc@), dec_args(buf@, cur as int, (n - i) as int))
                == dec_args(buf@, pos as int, n as int),
        decreases n - i,
    {
        let ghost prev_models = arg_models_of(acc@);
        match read_full_value(buf, cur) {
            Option::Some((a, p)) => {
                proof {
                    assert(arg_models_of(acc@.push(a)) =~= prev_models + seq![a.model()]);
                    match dec_args(buf@, p as int, (n - i - 1) as int) {
                        Option::Some((vs, q)) => {
                            assert((prev_models + seq![a.model()]) + vs =~= prev_models + (
                            seq![a.model()] + vs));
                        },
                        Option::None => (),
                    }
                }
                acc.push(a);
                cur = p;
            },
            Option::None => {
                return None;
            },
        }
        i = i + 1;
    }
    proof {
        assert(arg_models_of(acc@) + Seq::<FullValueModel>::empty() =~= arg_models_of(acc@));
    }
    Some((acc, cur))
}

/// Joins a freshly decoded string list onto an already decoded prefix.
pub open spec fn prepend_strs(ms: Seq<Seq<char>>, o: Option<(Seq<Seq<char>>, int)>) -> Option<
    (Seq<Seq<char>>, int),
> {
    match o {
        Option::Some((vs, p)) => Some((ms + vs, p)),
        Option::None => None,
    }
}

/// Reads `n` consecutive strings starting at `pos`.
#[verifier::loop_isolation(false)]
pub fn read_strs(buf: &Vec<u8>, pos: usize, n: u64) -> (r: Option<(Vec<String>, usize)>)
    requires
        pos <= buf@.len(),
    ensures
        match r {
            Option::Some((vs, p)) => dec_strs(buf@, pos as int, n as int) == Some(
                (str_models_of(vs@), p as int),
            ) && pos <= p <= buf@.len(),
            Option::None => dec_strs(buf@, pos as int, n as int) is None,
        },
{
    let mut acc: Vec<String> = Vec::new();
    let mut cur: usize = pos;
    let mut i: u64 = 0;
    while i < n
        invariant
            0 <= i <= n,
            pos <= cur <= buf@.len(),
            prepend_strs(str_models_of(acc@), dec_strs(buf@, cur as int, (n - i) as int))
                == dec_strs(buf@, pos as int, n as int),
        decreases n - i,
    {
        let ghost prev_models = str_models_of(acc@);
        match read_str(buf, cur) {
            Option::Some((t, p)) => {
                proof {
                    assert(str_models_of(acc@.push(t)) =~= prev_models + seq![t@]);
                    match dec_strs(buf@, p as int, (n - i - 1) as int) {
                        Option::Some((vs, q)) => {
                            assert((prev_models + seq![t@]) + vs =~= prev_models + (seq![t@] + vs));
                        },
                        Option::None => (),
                    }
                }
                acc.push(t);
                cur = p;
            },
            Option::None => {
                return None;
            },
        }
        i = i + 1;
    }
    proof {
        assert(str_models_of(acc@) + Seq::<Seq<char>>::empty() =~= str_models_of(acc@));
    }
    Some((acc, cur))
}

/// Joins a freshly decoded identifier list onto an already decoded prefix.
pub open spec fn prepend_ids(ms: Seq<usize>, o: Option<(Seq<usize>, int)>) -> Option<
    (Seq<usize>, int),
> {
    match o {
        Option::Some((vs, p)) => Some((ms + vs, p)),
        Option::None => None,
    }
}

/// Reads `n` consecutive identifiers starting at `pos`.
#[verifier::loop_isolation(false)]
pub fn read_ids(buf: &Vec<u8>, pos: usize, n: u64) -> (r: Option<(Vec<VariableId>, usize)>)
    requires
        pos <= buf@.len(),
    ensures
        match r {
            Option::Some((vs, p)) => dec_ids(buf@, pos as int, n as int) == Some(
                (id_models_of(vs@), p as int),
            ) && pos <= p <= buf@.len(),
            Option::None => dec_ids(buf@, pos as int, n as int) is None,
        },
{
    let mut acc: Vec<VariableId> = Vec::new();
    let mut cur: usize = pos;
    let mut i: u64 = 0;
    while i < n
        invariant
            0 <= i <= n,
            pos <= cur <= buf@.len(),
            prepend_ids(id_models_of(acc@), dec_ids(buf@, cur as int, (n - i) as int)) == dec_ids(
                buf@,
                pos as int,
                n as int,
            ),
        decreases n - i,
    {
        let ghost prev_models = id_models_of(acc@);
        match read_id(buf, cur) {
            Option::Some((id, p)) => {
                proof {
                    assert(id_models_of(acc@.push(VariableId(id))) =~= prev_models + seq![id]);
                    match dec_ids(buf@, p as int, (n - i - 1) as int) {
                        Option::Some((vs, q)) => {
                            assert((prev_models + seq![id]) + vs =~= prev_models + (seq![id] + vs));
                        },
                        Option::None => (),
                    }
                }
                acc.push(VariableId(id));
                cur = p;
            },
            Option::None => {
                return None;
            },
        }
        i = i + 1;
    }
    proof {
        assert(id_models_of(acc@) + Seq::<usize>::empty() =~= id_models_of(acc@));
    }
    Some((acc, cur))
}

/// Joins a freshly decoded field list onto an already decoded prefix.
pub open spec fn prepend_fields(ms: Seq<FieldModel>, o: Option<(Seq<FieldModel>, int)>) -> Option<
    (Seq<FieldModel>, int),
> {
    match o {
        Option::Some((vs, p)) => Some((ms + vs, p)),
        Option::None => None,
    }
}

/// Reads `n` consecutive field declarations starting at `pos`.
#[verifier::loop_isolation(false)]
pub fn read_fields(buf: &Vec<u8>, pos: usize, n: u64) -> (r: Option<(Vec<FieldTypeRecord>, usize)>)
    requires
        pos <= buf@.len(),
    ensures
        match r {
            Option::Some((vs, p)) => dec_fields(buf@, pos as int, n as int) == Some(
                (field_models_of(vs@), p as int),
            ) && pos <= p <= buf@.len(),
            Option::None => dec_fields(buf@, pos as int, n as int) is None,
        },
{
    let mut acc: Vec<FieldTypeRecord> = Vec::new();
    let mut cur: usize = pos;
    let mut i: u64 = 0;
    while i < n
        invariant
            0 <= i <= n,
            pos <= cur <= buf@.len(),
            prepend_fields(field_models_of(acc@), dec_fields(buf@, cur as int, (n - i) as int))
                == dec_fields(buf@, pos as int, n as int),
        decreases n - i,
    {
        let ghost prev_models = field_models_of(acc@);
        match read_str(buf, cur) {
            Option::Some((name, p)) => match read_id(buf, p) {
                Option::Some((type_id, p2)) => {
                    let f = FieldTypeRecord { name, type_id: TypeId(type_id) };
                    proof {
                        assert(field_models_of(acc@.push(f)) =~= prev_models + seq![f.model()]);
                        match dec_fields(buf@, p2 as int, (n - i - 1) as int) {
                            Option::Some((vs, q)) => {
                                assert((prev_models + seq![f.model()]) + vs =~= prev_models + (
                                seq![f.model()] + vs));
                            },
                            Option::None => (),
                        }
                    }
                    acc.push(f);
                    cur = p2;
                },
                Option::None => {
                    return None;
                },
            },
            Option::None => {
                return None;
            },
        }
        i = i + 1;
    }
    proof {
        assert(field_models_of(acc@) + Seq::<FieldModel>::empty() =~= field_models_of(acc@));
    }
    Some((acc, cur))
}

/// Reads a type declaration at `pos`.
#[verifier::rlimit(100)]
#[verifier::spinoff_prover]
pub fn read_type(buf: &Vec<u8>, pos: usize) -> (r: Option<(TypeRecord, usize)>)
    ensures
        match r {
            Option::Some((t, p)) => dec_type(buf@, pos as int) == Some((t.model(), p as int))
                && pos < p <= buf@.len(),
            Option::None => dec_type(buf@, pos as int) is None,
        },
{
    if pos >= buf.len() {
        return None;
    }
    let kind = match type_kind_of_exec(buf[pos]) {
        Option::Some(k) => k,
        Option::None => {
            return None;
        },
    };
    let (lang_type, p) = match read_str(buf, pos + 1) {
        Option::Some(x) => x,
        Option::None => {
            return None;
        },
    };
    if p >= buf.len() {
        return None;
    }
    let tag = buf[p];
    if tag == 0 {
        Some((TypeRecord { kind, lang_type, specific_info: TypeSpecificInfo::NoInfo }, p + 1))
    } else if tag == 1 {
        match read_u64(buf, p + 1) {
            Option::Some((n, p2)) => match read_fields(buf, p2, n) {
                Option::Some((fields, p3)) => Some(
                    (
                        TypeRecord {
                            kind,
                            lang_type,
                            specific_info: TypeSpecificInfo::Struct { fields },
                        },
                        p3,
                    ),
                ),
                Option::None => None,
            },
            Option::None => None,
        }
    } else if tag == 2 {
        match read_id(buf, p + 1) {
            Option::Some((dereference_type_id, p2)) => Some(
                (
                    TypeRecord {
                        kind,
                        lang_type,
                        specific_info: TypeSpecificInfo::Pointer {
                            dereference_type_id: TypeId(dereference_type_id),
                        },
                    },
                    p2,
                ),
            ),
            Option::None => None,
        }
    } else {
        None
    }
}

/// Reads an assignment provenance at `pos`.
pub fn read_rvalue(buf: &Vec<u8>, pos: usize) -> (r: Option<(RValue, usize)>)
    ensures
        match r {
            Option::Some((v, p)) => dec_rvalue(buf@, pos as int) == Some((v.model(), p as int))
                && pos < p <= buf@.len(),
            Option::None => dec_rvalue(buf@, pos as int) is None,
        },
{
    if pos >= buf.len() {
        return None;
    }
    let tag = buf[pos];
    if tag == 1 {
        match read_id(buf, pos + 1) {
            Option::Some((id, p)) => Some((RValue::Simple(VariableId(id)), p)),
            Option::None => None,
        }
    } else if tag == 2 {
        match read_u64(buf, pos + 1) {
            Option::Some((n, p)) => match read_ids(buf, p, n) {
                Option::Some((ids, p2)) => Some((RValue::Compound(ids), p2)),
                Option::None => None,
            },
            Option::None => None,
        }
    } else {
        None
    }
}

/// Reads one trace event at `pos`.
#[verifier::rlimit(100)]
#[verifier::spinoff_prover]
pub fn dec_event_exec(buf: &Vec<u8>, pos: usize) -> (r: Option<(TraceLowLevelEvent, usize)>)
    ensures
        match r {
            Option::Some((e, p)) => dec_event(buf@, pos as int) == Some((e.model(), p as int))
                && pos < p <= buf@.len(),
            Option::None => dec_event(buf@, pos as int) is None,
        },
{
    if pos >= buf.len() {
        return None;
    }
    let tag = buf[pos];
    let p = pos + 1;
    if tag == EV_STEP {
        match read_id(buf, p) {
            Option::Some((path_id, p2)) => match read_i64(buf, p2) {
                Option::Some((line, p3)) => Some(
                    (
                        TraceLowLevelEvent::Step(
                            StepRecord { path_id: PathId(path_id), line: Line(line) },
                        ),
                        p3,
                    ),
                ),
                Option::None => None,
            },
            Option::None => None,
        }
    } else if tag == EV_PATH {
        match read_str(buf, p) {
            Option::Some((path, p2)) => Some((TraceLowLevelEvent::Path(path), p2)),
            Option::None => None,
        }
    } else if tag == EV_VARIABLE_NAME {
        match read_str(buf, p) {
            Option::Some((name, p2)) => Some((TraceLowLevelEvent::VariableName(name), p2)),
            Option::None => None,
        }
    } else if tag == EV_VARIABLE {
        match read_str(buf, p) {
            Option::Some((name, p2)) => Some((TraceLowLevelEvent::Variable(name), p2)),
            Option::None => None,
        }
    } else if tag == EV_TYPE {
        match read_type(buf, p) {
            Option::Some((t, p2)) => Some((TraceLowLevelEvent::Type(t), p2)),
            Option::None => None,
        }
    } else if tag == EV_VALUE {
        match read_full_value(buf, p) {
            Option::Some((v, p2)) => Some((TraceLowLevelEvent::Value(v), p2)),
            Option::None => None,
        }
    } else if tag == EV_FUNCTION {
        match read_str(buf, p) {
            Option::Some((name, p2)) => match read_id(buf, p2) {
                Option::Some((path_id, p3)) => match read_i64(buf, p3) {
                    Option::Some((line, p4)) => Some(
                        (
                            TraceLowLevelEvent::Function(
                                FunctionRecord { name, path_id: PathId(path_id), line: Line(line) },
                            ),
                            p4,
                        ),
                    ),
                    Option::None => None,
                },
                Option::None => None,
            },
            Option::None => None,
        }
    } else if tag == EV_CALL {
        match read_id(buf, p) {
            Option::Some((function_id, p2)) => match read_u64(buf, p2) {
                Option::Some((n, p3)) => match read_args(buf, p3, n) {
                    Option::Some((args, p4)) => Some(
                        (
                            TraceLowLevelEvent::Call(
                                CallRecord { function_id: FunctionId(function_id), args },
                            ),
                            p4,
                        ),
                    ),
                    Option::None => None,
                },
                Option::None => None,
            },
            Option::None => None,
        }
    } else if tag == EV_RETURN {
        match dec_value_exec(buf, p) {
            Option::Some((return_value, p2)) => Some(
                (TraceLowLevelEvent::Return(ReturnRecord { return_value }), p2),
            ),
            Option::None => None,
        }
    } else if tag == EV_EVENT {
        if p >= buf.len() {
            return None;
        }
        match event_log_kind_of_exec(buf[p]) {
            Option::Some(kind) => match read_str(buf, p + 1) {
                Option::Some((metadata, p2)) => match read_str(buf, p2) {
                    Option::Some((content, p3)) => Some(
                        (
                            TraceLowLevelEvent::Event(RecordEvent { kind, metadata, content }),
                            p3,
                        ),
                    ),
                    Option::None => None,
                },
                Option::None => None,
            },
            Option::None => None,
        }
    } else if tag == EV_ASM {
        match read_u64(buf, p) {
            Option::Some((n, p2)) => match read_strs(buf, p2, n) {
                Option::Some((instructions, p3)) => Some(
                    (TraceLowLevelEvent::Asm(instructions), p3),
                ),
                Option::None => None,
            },
            Option::None => None,
        }
    } else if tag == EV_BIND_VARIABLE {
        match read_id(buf, p) {
            Option::Some((variable_id, p2)) => match read_u64(buf, p2) {
                Option::Some((place, p3)) => Some(
                    (
                        TraceLowLevelEvent::BindVariable(
                            BindVariableRecord {
                                variable_id: VariableId(variable_id),
                                place: Place(place),
                            },
                        ),
                        p3,
                    ),
                ),
                Option::None => None,
            },
            Option::None => None,
        }
    } else if tag == EV_ASSIGNMENT {
        match read_id(buf, p) {
            Option::Some((to, p2)) => {
                if p2 >= buf.len() {
                    return None;
                }
                match pass_by_of_exec(buf[p2]) {
                    Option::Some(pass_by) => match read_rvalue(buf, p2 + 1) {
                        Option::Some((from, p3)) => Some(
                            (
                                TraceLowLevelEvent::Assignment(
                                    AssignmentRecord { to: VariableId(to), pass_by, from },
                                ),
                                p3,
                            ),
                        ),
                        Option::None => None,
                    },
                    Option::None => None,
                }
            },
            Option::None => None,
        }
    } else if tag == EV_DROP_VARIABLES {
        match read_u64(buf, p) {
            Option::Some((n, p2)) => match read_ids(buf, p2, n) {
                Option::Some((variable_ids, p3)) => Some(
                    (TraceLowLevelEvent::DropVariables(variable_ids), p3),
                ),
                Option::None => None,
            },
            Option::None => None,
        }
    } else if tag == EV_DROP_VARIABLE {
        match read_id(buf, p) {
            Option::Some((variable_id, p2)) => Some(
                (TraceLowLevelEvent::DropVariable(VariableId(variable_id)), p2),
            ),
            Option::None => None,
        }
    } else if tag == EV_COMPOUND_VALUE {
        match read_u64(buf, p) {
            Option::Some((place, p2)) => match dec_value_exec(buf, p2) {
                Option::Some((value, p3)) => Some(
                    (
                        TraceLowLevelEvent::CompoundValue(
                            CompoundValueRecord { place: Place(place), value },
                        ),
                        p3,
                    ),
                ),
                Option::None => None,
            },
            Option::None => None,
        }
    } else if tag == EV_CELL_VALUE {
        match read_u64(buf, p) {
            Option::Some((place, p2)) => match dec_value_exec(buf, p2) {
                Option::Some((value, p3)) => Some(
                    (
                        TraceLowLevelEvent::CellValue(
                            CellValueRecord { place: Place(place), value },
                        ),
                        p3,
                    ),
                ),
                Option::None => None,
            },
            Option::None => None,
        }
    } else if tag == EV_ASSIGN_COMPOUND_ITEM {
        match read_u64(buf, p) {
            Option::Some((place, p2)) => match read_id(buf, p2) {
                Option::Some((index, p3)) => match read_u64(buf, p3) {
                    Option::Some((item_place, p4)) => Some(
                        (
                            TraceLowLevelEvent::AssignCompoundItem(
                                AssignCompoundItemRecord {
                                    place: Place(place),
                                    index,
                                    item_place: Place(item_place),
                                },
                            ),
                            p4,
                        ),
                    ),
                    Option::None => None,
                },
                Option::None => None,
            },
            Option::None => None,
        }
    } else if tag == EV_ASSIGN_CELL {
        match read_u64(buf, p) {
            Option::Some((place, p2)) => match dec_value_exec(buf, p2) {
                Option::Some((new_value, p3)) => Some(
                    (
                        TraceLowLevelEvent::AssignCell(
                            AssignCellRecord { place: Place(place), new_value },
                        ),
                        p3,
                    ),
                ),
                Option::None => None,
            },
            Option::None => None,
        }
    } else if tag == EV_VARIABLE_CELL {
        match read_id(buf, p) {
            Option::Some((variable_id, p2)) => match read_u64(buf, p2) {
                Option::Some((place, p3)) => Some(
                    (
                        TraceLowLevelEvent::VariableCell(
                            VariableCellRecord {
                                variable_id: VariableId(variable_id),
                                place: Place(place),
                            },
                        ),
                        p3,
                    ),
                ),
                Option::None => None,
            },
            Option::None => None,
        }
    } else if tag == EV_DROP_LAST_STEP {
        Some((TraceLowLevelEvent::DropLastStep, p))
    } else if tag == EV_THREAD_START {
        match read_u64(buf, p) {
            Option::Some((thread_id, p2)) => Some(
                (TraceLowLevelEvent::ThreadStart(ThreadId(thread_id)), p2),
            ),
            Option::None => None,
        }
    } else if tag == EV_THREAD_EXIT {
        match read_u64(buf, p) {
            Option::Some((thread_id, p2)) => Some(
                (TraceLowLevelEvent::ThreadExit(ThreadId(thread_id)), p2),
            ),
            Option::None => None,
        }
    } else if tag == EV_THREAD_SWITCH {
        match read_u64(buf, p) {
            Option::Some((thread_id, p2)) => Some(
                (TraceLowLevelEvent::ThreadSwitch(ThreadId(thread_id)), p2),
            ),
            Option::None => None,
        }
    } else {
        None
    }
}

/// Appends the encodings of all events in `events`.
#[verifier::loop_isolation(false)]
pub fn push_events(out: &mut Vec<u8>, events: &Vec<TraceLowLevelEvent>)
    ensures
        final(out)@ == old(out)@ + enc_events_from(event_models_of(events@), 0),
{
    let ghost ms = event_models_of(events@);
    let n = events.len();
    let mut j: usize = 0;
    while j < n
        invariant
            j <= n,
            out@ + enc_events_from(ms, j as int) == old(out)@ + enc_events_from(ms, 0),
        decreases n - j,
    {
        let ghost prev = out@;
        enc_event_exec(out, &events[j]);
        proof {
            assert(out@ + enc_events_from(ms, j + 1) =~= prev + enc_events_from(ms, j as int));
        }
        j = j + 1;
    }
    proof {
        assert(out@ =~= out@ + enc_events_from(ms, n as int));
    }
}

/// Joins a freshly decoded event list onto an already decoded prefix.
pub open spec fn prepend_events(ms: Seq<EventModel>, o: Option<Seq<EventModel>>) -> Option<
    Seq<EventModel>,
> {
    match o {
        Option::Some(es) => Some(ms + es),
        Option::None => None,
    }
}

/// Reads events from `pos` until the end of the buffer.
#[verifier::loop_isolation(false)]
pub fn read_events_to_end(buf: &Vec<u8>, pos: usize) -> (r: Option<Vec<TraceLowLevelEvent>>)
    requires
        pos <= buf@.len(),
    ensures
        match r {
            Option::Some(es) => dec_events_to_end(buf@, pos as int) == Some(
                event_models_of(es@),
            ),
            Option::None => dec_events_to_end(buf@, pos as int) is None,
        },
{
    let mut acc: Vec<TraceLowLevelEvent> = Vec::new();
    let mut cur: usize = pos;
    while cur < buf.len()
        invariant
            pos <= cur <= buf@.len(),
            prepend_events(event_models_of(acc@), dec_events_to_end(buf@, cur as int))
                == dec_events_to_end(buf@, pos as int),
        decreases buf@.len() - cur,
    {
        let ghost prev_models = event_models_of(acc@);
        match dec_event_exec(buf, cur) {
            Option::Some((e, p)) => {
                proof {
                    assert(event_models_of(acc@.push(e)) =~= prev_models + seq![e.model()]);
                    match dec_events_to_end(buf@, p as int) {
                        Option::Some(es) => {
                            assert((prev_models + seq![e.model()]) + es =~= prev_models + (
                            seq![e.model()] + es));
                        },
                        Option::None => (),
                    }
                }
                acc.push(e);
                cur = p;
            },
            Option::None => {
                return None;
            },
        }
    }
    proof {
        assert(event_models_of(acc@) + Seq::<EventModel>::empty() =~= event_models_of(acc@));
    }
    Some(acc)
}

/// Joins a freshly decoded counted event list onto an already decoded prefix.
pub open spec fn prepend_events_n(ms: Seq<EventModel>, o: Option<(Seq<EventModel>, int)>) -> Option<
    (Seq<EventModel>, int),
> {
    match o {
        Option::Some((es, p)) => Some((ms + es, p)),
        Option::None => None,
    }
}

/// Reads `n` consecutive events starting at `pos`.
#[verifier::loop_isolation(false)]
pub fn read_events_n(buf: &Vec<u8>, pos: usize, n: u64) -> (r: Option<
    (Vec<TraceLowLevelEvent>, usize),
>)
    requires
        pos <= buf@.len(),
    ensures
        match r {
            Option::Some((es, p)) => dec_events_n(buf@, pos as int, n as int) == Some(
                (event_models_of(es@), p as int),
            ) && pos <= p <= buf@.len(),
            Option::None => dec_events_n(buf@, pos as int, n as int) is None,
        },
{
    let mut acc: Vec<TraceLowLevelEvent> = Vec::new();
    let mut cur: usize = pos;
    let mut i: u64 = 0;
    while i < n
        invariant
            0 <= i <= n,
            pos <= cur <= buf@.len(),
            prepend_events_n(event_models_of(acc@), dec_events_n(buf@, cur as int, (n - i) as int))
                == dec_events_n(buf@, pos as int, n as int),
        decreases n - i,
    {
        let ghost prev_models = event_models_of(acc@);
        match dec_event_exec(buf, cur) {
            Option::Some((e, p)) => {
                proof {
                    assert(event_models_of(acc@.push(e)) =~= prev_models + seq![e.model()]);
                    match dec_events_n(buf@, p as int, (n - i - 1) as int) {
                        Option::Some((es, q)) => {
                            assert((prev_models + seq![e.model()]) + es =~= prev_models + (
                            seq![e.model()] + es));
                        },
                        Option::None => (),
                    }
                }
                acc.push(e);
                cur = p;
            },
            Option::None => {
                return None;
            },
        }
        i = i + 1;
    }
    proof {
        assert(event_models_of(acc@) + Seq::<EventModel>::empty() =~= event_models_of(acc@));
    }
    Some((acc, cur))
}

} // verus!
