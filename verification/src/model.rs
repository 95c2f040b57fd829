//! Mathematical models of the data types in [`crate::types`].
//!
//! Contracts in this crate are stated over these models rather than over the
//! executable types: a model replaces every `String` by its character
//! sequence and every `Vec` by its element sequence, so that two records
//! that carry the same data have equal models.

use vstd::prelude::*;

use crate::types::{
    AssignCellRecord, AssignCompoundItemRecord, AssignmentRecord, BindVariableRecord, CallRecord,
    CellValueRecord, CompoundValueRecord, EventLogKind, FieldTypeRecord, FullValueRecord,
    FunctionRecord, PassBy, RValue, RecordEvent, ReturnRecord, StepRecord, TraceLowLevelEvent,
    TraceMetadata, TypeKind, TypeRecord, TypeSpecificInfo, ValueRecord, VariableId,
};

verus! {

/// Model of a recorded value.
#[verifier::ext_equal]
pub enum ValueModel {
    Int { i: i64, type_id: usize },
    Float { f_bits: u64, type_id: usize },
    Bool { b: bool, type_id: usize },
    String { text: Seq<char>, type_id: usize },
    Sequence { elements: Seq<ValueModel>, is_slice: bool, type_id: usize },
    Tuple { elements: Seq<ValueModel>, type_id: usize },
    Struct { field_values: Seq<ValueModel>, type_id: usize },
    Variant { discriminator: Seq<char>, contents: Box<ValueModel>, type_id: usize },
    Reference { dereferenced: Box<ValueModel>, address: u64, mutable: bool, type_id: usize },
    Raw { r: Seq<char>, type_id: usize },
    Error { msg: Seq<char>, type_id: usize },
    Char { c: char, type_id: usize },
    Null { type_id: usize },
    Cell { place: u64 },
    BigInt { b: Seq<u8>, negative: bool, type_id: usize },
}

/// Model of a value together with its variable.
#[verifier::ext_equal]
pub struct FullValueModel {
    pub variable_id: usize,
    pub value: ValueModel,
}

/// Model of a struct field declaration.
#[verifier::ext_equal]
pub struct FieldModel {
    pub name: Seq<char>,
    pub type_id: usize,
}

/// Model of the kind-specific part of a type declaration.
#[verifier::ext_equal]
pub enum TypeInfoModel {
    NoInfo,
    Struct { fields: Seq<FieldModel> },
    Pointer { dereference_type_id: usize },
}

/// Model of a type declaration.
#[verifier::ext_equal]
pub struct TypeModel {
    pub kind: TypeKind,
    pub lang_type: Seq<char>,
    pub specific_info: TypeInfoModel,
}

/// Model of an assignment's provenance.
#[verifier::ext_equal]
pub enum RValueModel {
    Simple(usize),
    Compound(Seq<usize>),
}

/// Model of one entry of the execution log.
#[verifier::ext_equal]
pub enum EventModel {
    Step { path_id: usize, line: i64 },
    Path { path: Seq<char> },
    VariableName { name: Seq<char> },
    Variable { name: Seq<char> },
    Type { typ: TypeModel },
    Value { value: FullValueModel },
    Function { name: Seq<char>, path_id: usize, line: i64 },
    Call { function_id: usize, args: Seq<FullValueModel> },
    Return { return_value: ValueModel },
    Event { kind: EventLogKind, metadata: Seq<char>, content: Seq<char> },
    Asm { instructions: Seq<Seq<char>> },
    BindVariable { variable_id: usize, place: u64 },
    Assignment { to: usize, pass_by: PassBy, from: RValueModel },
    DropVariables { variable_ids: Seq<usize> },
    DropVariable { variable_id: usize },
    CompoundValue { place: u64, value: ValueModel },
    CellValue { place: u64, value: ValueModel },
    AssignCompoundItem { place: u64, index: usize, item_place: u64 },
    AssignCell { place: u64, new_value: ValueModel },
    VariableCell { variable_id: usize, place: u64 },
    DropLastStep,
    ThreadStart { thread_id: u64 },
    ThreadExit { thread_id: u64 },
    ThreadSwitch { thread_id: u64 },
}

/// Model of the trace metadata.
#[verifier::ext_equal]
pub struct MetadataModel {
    pub program: Seq<char>,
    pub args: Seq<Seq<char>>,
    pub workdir: Seq<char>,
}

/// Models of every value in a sequence, in order.
pub open spec fn models_of(s: Seq<ValueRecord>) -> Seq<ValueModel>
    decreases s,
{
    if s.len() == 0 {
        Seq::empty()
    } else {
        seq![s[0].model()] + models_of(s.subrange(1, s.len() as int))
    }
}

/// How `models_of` relates to indexing.
pub broadcast proof fn lemma_models_of(s: Seq<ValueRecord>)
    ensures
        #[trigger] models_of(s).len() == s.len(),
        forall|j: int| 0 <= j < s.len() ==> models_of(s)[j] == s[j].model(),
    decreases s.len(),
{
    if s.len() > 0 {
        lemma_models_of(s.subrange(1, s.len() as int));
        assert forall|j: int| 0 <= j < s.len() implies models_of(s)[j] == s[j].model() by {
            if j > 0 {
                assert(s.subrange(1, s.len() as int)[j - 1] == s[j]);
            }
        }
    }
}

impl ValueRecord {
    /// The mathematical value that this record stands for.
    pub open spec fn model(self) -> ValueModel
        decreases self,
        via Self::model_decreases
    {
        match self {
            ValueRecord::Int { i, type_id } => ValueModel::Int { i, type_id: type_id.0 },
            ValueRecord::Float { f_bits, type_id } => ValueModel::Float {
                f_bits,
                type_id: type_id.0,
            },
            ValueRecord::Bool { b, type_id } => ValueModel::Bool { b, type_id: type_id.0 },
            ValueRecord::String { text, type_id } => ValueModel::String {
                text: text@,
                type_id: type_id.0,
            },
            ValueRecord::Sequence { elements, is_slice, type_id } => ValueModel::Sequence {
                elements: models_of(elements@),
                is_slice,
                type_id: type_id.0,
            },
            ValueRecord::Tuple { elements, type_id } => ValueModel::Tuple {
                elements: models_of(elements@),
                type_id: type_id.0,
            },
            ValueRecord::Struct { field_values, type_id } => ValueModel::Struct {
                field_values: models_of(field_values@),
                type_id: type_id.0,
            },
            ValueRecord::Variant { discriminator, contents, type_id } => ValueModel::Variant {
                discriminator: discriminator@,
                contents: Box::new((*contents).model()),
                type_id: type_id.0,
            },
            ValueRecord::Reference { dereferenced, address, mutable, type_id } => {
                ValueModel::Reference {
                    dereferenced: Box::new((*dereferenced).model()),
                    address,
                    mutable,
                    type_id: type_id.0,
                }
            },
            ValueRecord::Raw { r, type_id } => ValueModel::Raw { r: r@, type_id: type_id.0 },
            ValueRecord::Error { msg, type_id } => ValueModel::Error {
                msg: msg@,
                type_id: type_id.0,
            },
            ValueRecord::Char { c, type_id } => ValueModel::Char { c, type_id: type_id.0 },
            ValueRecord::Null { type_id } => ValueModel::Null { type_id: type_id.0 },
            ValueRecord::Cell { place } => ValueModel::Cell { place: place.0 },
            ValueRecord::BigInt { b, negative, type_id } => ValueModel::BigInt {
                b: b@,
                negative,
                type_id: type_id.0,
            },
        }
    }

    #[via_fn]
    proof fn model_decreases(self) {
        match self {
            ValueRecord::Sequence { elements, .. } => {
                assert(decreases_to!(elements => elements@));
            },
            ValueRecord::Tuple { elements, .. } => {
                assert(decreases_to!(elements => elements@));
            },
            ValueRecord::Struct { field_values, .. } => {
                assert(decreases_to!(field_values => field_values@));
            },
            _ => (),
        }
    }
}

impl FullValueRecord {
    /// The mathematical value that this record stands for.
    pub open spec fn model(self) -> FullValueModel {
        FullValueModel { variable_id: self.variable_id.0, value: self.value.model() }
    }
}

/// Models of a sequence of argument records, in order.
pub open spec fn arg_models_of(s: Seq<FullValueRecord>) -> Seq<FullValueModel> {
    s.map_values(|a: FullValueRecord| a.model())
}

/// The character sequences of a sequence of strings, in order.
pub open spec fn str_models_of(s: Seq<String>) -> Seq<Seq<char>> {
    s.map_values(|x: String| x@)
}

/// The raw indices of a sequence of variable identifiers, in order.
pub open spec fn id_models_of(s: Seq<VariableId>) -> Seq<usize> {
    s.map_values(|x: VariableId| x.0)
}

impl FieldTypeRecord {
    /// The mathematical value that this record stands for.
    pub open spec fn model(self) -> FieldModel {
        FieldModel { name: self.name@, type_id: self.type_id.0 }
    }
}

/// Models of a sequence of field declarations, in order.
pub open spec fn field_models_of(s: Seq<FieldTypeRecord>) -> Seq<FieldModel> {
    s.map_values(|f: FieldTypeRecord| f.model())
}

impl TypeSpecificInfo {
    /// The mathematical value that this record stands for.
    pub open spec fn model(self) -> TypeInfoModel {
        match self {
            TypeSpecificInfo::NoInfo => TypeInfoModel::NoInfo,
            TypeSpecificInfo::Struct { fields } => TypeInfoModel::Struct {
                fields: field_models_of(fields@),
            },
            TypeSpecificInfo::Pointer { dereference_type_id } => TypeInfoModel::Pointer {
                dereference_type_id: dereference_type_id.0,
            },
        }
    }
}

impl TypeRecord {
    /// The mathematical value that this record stands for.
    pub open spec fn model(self) -> TypeModel {
        TypeModel {
            kind: self.kind,
            lang_type: self.lang_type@,
            specific_info: self.specific_info.model(),
        }
    }
}

impl RValue {
    /// The mathematical value that this record stands for.
    pub open spec fn model(self) -> RValueModel {
        match self {
            RValue::Simple(v) => RValueModel::Simple(v.0),
            RValue::Compound(vs) => RValueModel::Compound(id_models_of(vs@)),
        }
    }
}

impl TraceLowLevelEvent {
    /// The mathematical value that this event stands for.
    pub open spec fn model(self) -> EventModel {
        match self {
            TraceLowLevelEvent::Step(s) => EventModel::Step { path_id: s.path_id.0, line: s.line.0 },
            TraceLowLevelEvent::Path(p) => EventModel::Path { path: p@ },
            TraceLowLevelEvent::VariableName(n) => EventModel::VariableName { name: n@ },
            TraceLowLevelEvent::Variable(n) => EventModel::Variable { name: n@ },
            TraceLowLevelEvent::Type(t) => EventModel::Type { typ: t.model() },
            TraceLowLevelEvent::Value(v) => EventModel::Value { value: v.model() },
            TraceLowLevelEvent::Function(f) => EventModel::Function {
                name: f.name@,
                path_id: f.path_id.0,
                line: f.line.0,
            },
            TraceLowLevelEvent::Call(c) => EventModel::Call {
                function_id: c.function_id.0,
                args: arg_models_of(c.args@),
            },
            TraceLowLevelEvent::Return(r) => EventModel::Return {
                return_value: r.return_value.model(),
            },
            TraceLowLevelEvent::Event(e) => EventModel::Event {
                kind: e.kind,
                metadata: e.metadata@,
                content: e.content@,
            },
            TraceLowLevelEvent::Asm(a) => EventModel::Asm { instructions: str_models_of(a@) },
            TraceLowLevelEvent::BindVariable(b) => EventModel::BindVariable {
                variable_id: b.variable_id.0,
                place: b.place.0,
            },
            TraceLowLevelEvent::Assignment(a) => EventModel::Assignment {
                to: a.to.0,
                pass_by: a.pass_by,
                from: a.from.model(),
            },
            TraceLowLevelEvent::DropVariables(vs) => EventModel::DropVariables {
                variable_ids: id_models_of(vs@),
            },
            TraceLowLevelEvent::DropVariable(v) => EventModel::DropVariable { variable_id: v.0 },
            TraceLowLevelEvent::CompoundValue(c) => EventModel::CompoundValue {
                place: c.place.0,
                value: c.value.model(),
            },
            TraceLowLevelEvent::CellValue(c) => EventModel::CellValue {
                place: c.place.0,
                value: c.value.model(),
            },
            TraceLowLevelEvent::AssignCompoundItem(a) => EventModel::AssignCompoundItem {
                place: a.place.0,
                index: a.index,
                item_place: a.item_place.0,
            },
            TraceLowLevelEvent::AssignCell(a) => EventModel::AssignCell {
                place: a.place.0,
                new_value: a.new_value.model(),
            },
            TraceLowLevelEvent::VariableCell(v) => EventModel::VariableCell {
                variable_id: v.variable_id.0,
                place: v.place.0,
            },
            TraceLowLevelEvent::DropLastStep => EventModel::DropLastStep,
            TraceLowLevelEvent::ThreadStart(t) => EventModel::ThreadStart { thread_id: t.0 },
            TraceLowLevelEvent::ThreadExit(t) => EventModel::ThreadExit { thread_id: t.0 },
            TraceLowLevelEvent::ThreadSwitch(t) => EventModel::ThreadSwitch { thread_id: t.0 },
        }
    }
}

/// Models of a sequence of events, in order.
pub open spec fn event_models_of(s: Seq<TraceLowLevelEvent>) -> Seq<EventModel> {
    s.map_values(|e: TraceLowLevelEvent| e.model())
}

impl TraceMetadata {
    /// The mathematical value that this record stands for.
    pub open spec fn model(self) -> MetadataModel {
        MetadataModel { program: self.program@, args: str_models_of(self.args@), workdir: self.workdir@ }
    }
}

impl Clone for ValueRecord {
    /// A deep copy; the copy stands for the same mathematical value.
    #[verifier::loop_isolation(false)]
    fn clone(&self) -> (r: Self)
        ensures
            r.model() == self.model(),
        decreases *self,
    {
        match self {
            ValueRecord::Int { i, type_id } => ValueRecord::Int { i: *i, type_id: *type_id },
            ValueRecord::Float { f_bits, type_id } => ValueRecord::Float {
                f_bits: *f_bits,
                type_id: *type_id,
            },
            ValueRecord::Bool { b, type_id } => ValueRecord::Bool { b: *b, type_id: *type_id },
            ValueRecord::String { text, type_id } => ValueRecord::String {
                text: text.clone(),
                type_id: *type_id,
            },
            ValueRecord::Sequence { elements, is_slice, type_id } => {
                let res = ValueRecord::Sequence {
                    elements: clone_values(self, elements),
                    is_slice: *is_slice,
                    type_id: *type_id,
                };
                proof {
                    assert(res.model() =~= self.model());
                }
                res
            },
            ValueRecord::Tuple { elements, type_id } => {
                let res = ValueRecord::Tuple {
                    elements: clone_values(self, elements),
                    type_id: *type_id,
                };
                proof {
                    assert(res.model() =~= self.model());
                }
                res
            },
            ValueRecord::Struct { field_values, type_id } => {
                let res = ValueRecord::Struct {
                    field_values: clone_values(self, field_values),
                    type_id: *type_id,
                };
                proof {
                    assert(res.model() =~= self.model());
                }
                res
            },
            ValueRecord::Variant { discriminator, contents, type_id } => ValueRecord::Variant {
                discriminator: discriminator.clone(),
                contents: Box::new((&**contents).clone()),
                type_id: *type_id,
            },
            ValueRecord::Reference { dereferenced, address, mutable, type_id } => {
                ValueRecord::Reference {
                    dereferenced: Box::new((&**dereferenced).clone()),
                    address: *address,
                    mutable: *mutable,
                    type_id: *type_id,
                }
            },
            ValueRecord::Raw { r, type_id } => ValueRecord::Raw {
                r: r.clone(),
                type_id: *type_id,
            },
            ValueRecord::Error { msg, type_id } => ValueRecord::Error {
                msg: msg.clone(),
                type_id: *type_id,
            },
            ValueRecord::Char { c, type_id } => ValueRecord::Char { c: *c, type_id: *type_id },
            ValueRecord::Null { type_id } => ValueRecord::Null { type_id: *type_id },
            ValueRecord::Cell { place } => ValueRecord::Cell { place: *place },
            ValueRecord::BigInt { b, negative, type_id } => ValueRecord::BigInt {
                b: b.clone(),
                negative: *negative,
                type_id: *type_id,
            },
        }
    }
}

/// Deep copies of all values in `elements`, which are children of `parent`.
#[verifier::loop_isolation(false)]
fn clone_values(parent: &ValueRecord, elements: &Vec<ValueRecord>) -> (r: Vec<ValueRecord>)
    requires
        decreases_to!(*parent => *elements),
    ensures
        models_of(r@) == models_of(elements@),
    decreases *parent, 0int,
{
    let mut out: Vec<ValueRecord> = Vec::new();
    let mut j: usize = 0;
    while j < elements.len()
        invariant
            j <= elements.len(),
            out@.len() == j as int,
            forall|k: int| 0 <= k < j as int ==> out@[k].model() == elements@[k].model(),
        decreases elements.len() - j,
    {
        proof {
            assert(decreases_to!(*elements => elements@));
            assert(decreases_to!(elements@ => elements@[j as int]));
            assert(decreases_to!(*parent => elements@[j as int]));
        }
        let e = elements[j].clone();
        out.push(e);
        j = j + 1;
    }
    proof {
        lemma_models_of(out@);
        lemma_models_of(elements@);
        assert(models_of(out@) =~= models_of(elements@));
    }
    out
}

impl Clone for FullValueRecord {
    /// A deep copy; the copy stands for the same bound value.
    fn clone(&self) -> (r: Self)
        ensures
            r.model() == self.model(),
    {
        FullValueRecord { variable_id: self.variable_id, value: self.value.clone() }
    }
}

} // verus!
