//! The event and value data model of the trace log.
//!
//! A trace is a forward-only sequence of [`TraceLowLevelEvent`]s.  Every name
//! (source path, function, variable, type) is interned: the first sighting
//! emits a declaration event and assigns the next dense identifier in that
//! namespace, and later events refer to the name only by its identifier.

use vstd::prelude::*;

verus! {

/// A one-based source line number.
#[derive(Clone, Copy, Debug, PartialEq, Eq, Structural)]
pub struct Line(pub i64);

/// Identifier of an interned source path: a dense, zero-based index.
#[derive(Clone, Copy, Debug, PartialEq, Eq, Structural)]
pub struct PathId(pub usize);

/// Identifier of an interned function: a dense, zero-based index.
/// Identifier zero is reserved for the implicit top-level pseudo-function.
#[derive(Clone, Copy, Debug, PartialEq, Eq, Structural)]
pub struct FunctionId(pub usize);

/// Identifier of an interned variable name: a dense, zero-based index.
#[derive(Clone, Copy, Debug, PartialEq, Eq, Structural)]
pub struct VariableId(pub usize);

/// Identifier of an interned type: a dense, zero-based index.
/// Identifier zero is reserved for the `None` type.
#[derive(Clone, Copy, Debug, PartialEq, Eq, Structural)]
pub struct TypeId(pub usize);

/// An opaque integer addressing a mutable storage cell, independent of any value.
#[derive(Clone, Copy, Debug, PartialEq, Eq, Structural)]
pub struct Place(pub u64);

/// Identifier of a thread of the traced program.
#[derive(Clone, Copy, Debug, PartialEq, Eq, Structural)]
pub struct ThreadId(pub u64);

/// The kind of a recorded type.  `SeqKind`, `SetKind` and `NoneKind` carry a
/// `Kind` suffix only because the bare words belong to the verifier.
#[derive(Clone, Copy, Debug, PartialEq, Eq, Structural)]
pub enum TypeKind {
    SeqKind,
    SetKind,
    HashSet,
    OrderedSet,
    Array,
    Varargs,
    Struct,
    Int,
    Float,
    String,
    CString,
    Char,
    Bool,
    Literal,
    Ref,
    Recursion,
    Raw,
    Enum,
    Enum16,
    Enum32,
    C,
    TableKind,
    Union,
    Pointer,
    Error,
    FunctionKind,
    TypeValue,
    Tuple,
    Variant,
    Html,
    NoneKind,
    NonExpanded,
    Any,
    Slice,
}

/// The kind of a free-form instrumentation event.
#[derive(Clone, Copy, Debug, PartialEq, Eq, Structural)]
pub enum EventLogKind {
    Write,
    WriteFile,
    WriteOther,
    Read,
    ReadFile,
    ReadOther,
    ReadDir,
    OpenDir,
    CloseDir,
    Socket,
    Open,
    Error,
    TraceLogEvent,
    EvmEvent,
}

/// How the right-hand side of an assignment was passed.
#[derive(Clone, Copy, Debug, PartialEq, Eq, Structural)]
pub enum PassBy {
    Value,
    Reference,
}

/// A field of a struct type: its name and the identifier of its type.
#[derive(Debug, PartialEq)]
pub struct FieldTypeRecord {
    pub name: String,
    pub type_id: TypeId,
}

/// Extra, kind-specific information carried by a type declaration.
#[derive(Debug, PartialEq)]
pub enum TypeSpecificInfo {
    NoInfo,
    Struct { fields: Vec<FieldTypeRecord> },
    Pointer { dereference_type_id: TypeId },
}

/// A declared type: its kind, its language-specific name, and optional
/// kind-specific details.
#[derive(Debug, PartialEq)]
pub struct TypeRecord {
    pub kind: TypeKind,
    pub lang_type: String,
    pub specific_info: TypeSpecificInfo,
}

/// A recorded runtime value.  Values nest arbitrarily: `Sequence`, `Tuple`,
/// `Struct`, `Variant` and `Reference` contain child values.  Every variant
/// except `Cell` carries the identifier of its declared type.  The `Null`
/// variant records the absence of a value (it is spelled `Null` because the
/// natural word belongs to the verifier).  A `Float` holds the IEEE 754 bit
/// pattern of the observed number, so that equality of recorded values stays
/// exact.
#[derive(Debug, PartialEq)]
pub enum ValueRecord {
    Int { i: i64, type_id: TypeId },
    Float { f_bits: u64, type_id: TypeId },
    Bool { b: bool, type_id: TypeId },
    String { text: String, type_id: TypeId },
    Sequence { elements: Vec<ValueRecord>, is_slice: bool, type_id: TypeId },
    Tuple { elements: Vec<ValueRecord>, type_id: TypeId },
    Struct { field_values: Vec<ValueRecord>, type_id: TypeId },
    Variant { discriminator: String, contents: Box<ValueRecord>, type_id: TypeId },
    Reference { dereferenced: Box<ValueRecord>, address: u64, mutable: bool, type_id: TypeId },
    Raw { r: String, type_id: TypeId },
    Error { msg: String, type_id: TypeId },
    Char { c: char, type_id: TypeId },
    Null { type_id: TypeId },
    Cell { place: Place },
    BigInt { b: Vec<u8>, negative: bool, type_id: TypeId },
}

/// A value together with the variable it was observed in.
#[derive(Debug, PartialEq)]
pub struct FullValueRecord {
    pub variable_id: VariableId,
    pub value: ValueRecord,
}

/// One step of execution: a position in a source file.
#[derive(Clone, Copy, Debug, PartialEq, Eq, Structural)]
pub struct StepRecord {
    pub path_id: PathId,
    pub line: Line,
}

/// A function declaration: its name and its declaration site.
#[derive(Debug, PartialEq)]
pub struct FunctionRecord {
    pub name: String,
    pub path_id: PathId,
    pub line: Line,
}

/// A call of a declared function, with the argument values.
#[derive(Debug, PartialEq)]
pub struct CallRecord {
    pub function_id: FunctionId,
    pub args: Vec<FullValueRecord>,
}

/// A return from the current call, with the returned value.
#[derive(Debug, PartialEq)]
pub struct ReturnRecord {
    pub return_value: ValueRecord,
}

/// A free-form instrumentation event, for example observed output.
#[derive(Debug, PartialEq)]
pub struct RecordEvent {
    pub kind: EventLogKind,
    pub metadata: String,
    pub content: String,
}

/// The provenance of an assignment's right-hand side: either exactly one
/// source variable, or a set of contributing source variables.
#[derive(Debug, PartialEq)]
pub enum RValue {
    Simple(VariableId),
    Compound(Vec<VariableId>),
}

/// An assignment of a value derived from other variables to a variable.
#[derive(Debug, PartialEq)]
pub struct AssignmentRecord {
    pub to: VariableId,
    pub pass_by: PassBy,
    pub from: RValue,
}

/// Binding of a variable to a storage cell.
#[derive(Clone, Copy, Debug, PartialEq, Eq, Structural)]
pub struct BindVariableRecord {
    pub variable_id: VariableId,
    pub place: Place,
}

/// Declaration of a compound value stored in a cell.
#[derive(Debug, PartialEq)]
pub struct CompoundValueRecord {
    pub place: Place,
    pub value: ValueRecord,
}

/// Declaration of a scalar value stored in a cell.
#[derive(Debug, PartialEq)]
pub struct CellValueRecord {
    pub place: Place,
    pub value: ValueRecord,
}

/// Mutation of one item of a compound value: the item at `index` in the
/// compound at `place` now lives in the cell `item_place`.
#[derive(Clone, Copy, Debug, PartialEq, Eq, Structural)]
pub struct AssignCompoundItemRecord {
    pub place: Place,
    pub index: usize,
    pub item_place: Place,
}

/// Mutation of the value stored in a cell.
#[derive(Debug, PartialEq)]
pub struct AssignCellRecord {
    pub place: Place,
    pub new_value: ValueRecord,
}

/// Binding of a variable name to the cell that holds its value.
#[derive(Clone, Copy, Debug, PartialEq, Eq, Structural)]
pub struct VariableCellRecord {
    pub variable_id: VariableId,
    pub place: Place,
}

/// One entry of the recorded execution log.
#[derive(Debug, PartialEq)]
pub enum TraceLowLevelEvent {
    Step(StepRecord),
    Path(String),
    VariableName(String),
    Variable(String),
    Type(TypeRecord),
    Value(FullValueRecord),
    Function(FunctionRecord),
    Call(CallRecord),
    Return(ReturnRecord),
    Event(RecordEvent),
    Asm(Vec<String>),
    BindVariable(BindVariableRecord),
    Assignment(AssignmentRecord),
    DropVariables(Vec<VariableId>),
    DropVariable(VariableId),
    CompoundValue(CompoundValueRecord),
    CellValue(CellValueRecord),
    AssignCompoundItem(AssignCompoundItemRecord),
    AssignCell(AssignCellRecord),
    VariableCell(VariableCellRecord),
    DropLastStep,
    ThreadStart(ThreadId),
    ThreadExit(ThreadId),
    ThreadSwitch(ThreadId),
}

/// The side information about a traced run: the traced program, its
/// arguments, and the working directory it ran in.
#[derive(Debug, PartialEq)]
pub struct TraceMetadata {
    pub program: String,
    pub args: Vec<String>,
    pub workdir: String,
}

/// The reserved identifier of the `None` type, registered by `start`.
pub fn none_type_id() -> (r: TypeId)
    ensures
        r.0 == 0,
{
    TypeId(0)
}

/// The distinguished value that records the absence of a value.
pub fn none_value() -> (r: ValueRecord)
    ensures
        r == (ValueRecord::Null { type_id: TypeId(0) }),
{
    ValueRecord::Null { type_id: TypeId(0) }
}

/// The reserved identifier of the implicit top-level pseudo-function,
/// registered by `start`.
pub fn top_level_function_id() -> (r: FunctionId)
    ensures
        r.0 == 0,
{
    FunctionId(0)
}

} // verus!
