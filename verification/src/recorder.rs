//! The recording state machine.
//!
//! A [`Tracer`] accepts high-level recording calls, interns every name it
//! sees into a dense, zero-based identifier, and appends the corresponding
//! events to its log.  Its well-formedness invariant [`Tracer::wf`] ties the
//! interning tables to the log: the number of declaration events of each
//! namespace equals the table's length, and every event refers only to
//! identifiers declared strictly earlier in the log — a reader can stop
//! after any prefix and still hold a consistent trace.

use vstd::prelude::*;

use crate::model::{
    arg_models_of, event_models_of, id_models_of, lemma_models_of, models_of, str_models_of,
    EventModel, TypeInfoModel, ValueModel,
};
use crate::types::{
    AssignCellRecord, AssignCompoundItemRecord, AssignmentRecord, BindVariableRecord, CallRecord,
    CellValueRecord, CompoundValueRecord, EventLogKind, FullValueRecord, FunctionId,
    FunctionRecord, Line, PassBy, PathId, Place, RValue, RecordEvent, ReturnRecord, StepRecord,
    ThreadId, TraceLowLevelEvent, TypeId, TypeKind, TypeRecord, TypeSpecificInfo,
    ValueRecord, VariableCellRecord, VariableId,
};

verus! {

/// No two entries are the same character sequence.
pub open spec fn distinct_strs(s: Seq<Seq<char>>) -> bool {
    forall|i: int, j: int| 0 <= i < j < s.len() ==> s[i] != s[j]
}

/// The names of the declared functions, in declaration order.
pub open spec fn function_names(fs: Seq<FunctionRecord>) -> Seq<Seq<char>> {
    fs.map_values(|f: FunctionRecord| f.name@)
}

/// The interning tables and side metadata shared by every recorder.
pub struct AbstractTraceWriterData {
    pub workdir: String,
    pub program: String,
    pub args: Vec<String>,
    pub path_list: Vec<String>,
    pub function_list: Vec<FunctionRecord>,
    pub variable_list: Vec<String>,
    pub type_list: Vec<String>,
}

impl AbstractTraceWriterData {
    /// A fresh table set for the given run metadata.
    pub fn new(program: &str, args: &Vec<String>, workdir: &str) -> (r: AbstractTraceWriterData)
        ensures
            r.program@ == program@,
            str_models_of(r.args@) == str_models_of(args@),
            r.workdir@ == workdir@,
            r.path_list@.len() == 0,
            r.function_list@.len() == 0,
            r.variable_list@.len() == 0,
            r.type_list@.len() == 0,
            r.wf(),
    {
        let r = AbstractTraceWriterData {
            workdir: workdir.to_owned(),
            program: program.to_owned(),
            args: clone_strings(args),
            path_list: Vec::new(),
            function_list: Vec::new(),
            variable_list: Vec::new(),
            type_list: Vec::new(),
        };
        proof {
            assert(str_models_of(r.path_list@) =~= Seq::<Seq<char>>::empty());
        }
        r
    }

    /// The tables are consistent: names are interned at most once, and every
    /// declared function points into the path table.
    pub open spec fn wf(&self) -> bool {
        &&& distinct_strs(str_models_of(self.path_list@))
        &&& distinct_strs(function_names(self.function_list@))
        &&& distinct_strs(str_models_of(self.variable_list@))
        &&& distinct_strs(str_models_of(self.type_list@))
        &&& forall|i: int|
            0 <= i < self.function_list@.len() ==> (#[trigger] self.function_list@[i]).path_id.0
                < self.path_list@.len()
    }
}

/// Copies a list of strings.
#[verifier::loop_isolation(false)]
pub fn clone_strings(v: &Vec<String>) -> (r: Vec<String>)
    ensures
        str_models_of(r@) == str_models_of(v@),
{
    let mut r: Vec<String> = Vec::new();
    let mut i: usize = 0;
    while i < v.len()
        invariant
            i <= v@.len(),
            r@.len() == i as int,
            forall|k: int| 0 <= k < i as int ==> r@[k]@ == v@[k]@,
        decreases v@.len() - i,
    {
        r.push(v[i].clone());
        i = i + 1;
    }
    proof {
        assert(str_models_of(r@) =~= str_models_of(v@));
    }
    r
}

/// Finds the index of `x` in a table of interned strings.
#[verifier::loop_isolation(false)]
fn find_str(list: &Vec<String>, x: &str) -> (r: Option<usize>)
    ensures
        match r {
            Option::Some(i) => i < list@.len() && list@[i as int]@ == x@,
            Option::None => !str_models_of(list@).contains(x@),
        },
{
    let xs = x.to_owned();
    let mut i: usize = 0;
    while i < list.len()
        invariant
            i <= list@.len(),
            xs@ == x@,
            forall|k: int| 0 <= k < i as int ==> str_models_of(list@)[k] != x@,
        decreases list@.len() - i,
    {
        if list[i] == xs {
            proof {
                assert(list@[i as int]@ == x@);
            }
            return Some(i);
        }
        proof {
            assert(str_models_of(list@)[i as int] == list@[i as int]@);
        }
        i = i + 1;
    }
    proof {
        if str_models_of(list@).contains(x@) {
            let k = choose|k: int|
                0 <= k < str_models_of(list@).len() && str_models_of(list@)[k] == x@;
            assert(str_models_of(list@)[k] != x@);
        }
    }
    None
}

/// Finds the index of the function named `x` in the function table.
#[verifier::loop_isolation(false)]
fn find_function(list: &Vec<FunctionRecord>, x: &str) -> (r: Option<usize>)
    ensures
        match r {
            Option::Some(i) => i < list@.len() && list@[i as int].name@ == x@,
            Option::None => !function_names(list@).contains(x@),
        },
{
    let xs = x.to_owned();
    let mut i: usize = 0;
    while i < list.len()
        invariant
            i <= list@.len(),
            xs@ == x@,
            forall|k: int| 0 <= k < i as int ==> function_names(list@)[k] != x@,
        decreases list@.len() - i,
    {
        if list[i].name == xs {
            proof {
                assert(list@[i as int].name@ == x@);
            }
            return Some(i);
        }
        proof {
            assert(function_names(list@)[i as int] == list@[i as int].name@);
        }
        i = i + 1;
    }
    proof {
        if function_names(list@).contains(x@) {
            let k = choose|k: int|
                0 <= k < function_names(list@).len() && function_names(list@)[k] == x@;
            assert(function_names(list@)[k] != x@);
        }
    }
    None
}

/// The number of path declaration events in the log.
pub open spec fn count_paths(ms: Seq<EventModel>) -> int
    decreases ms.len(),
{
    if ms.len() == 0 {
        0
    } else {
        count_paths(ms.drop_last()) + if ms.last() is Path {
            1int
        } else {
            0int
        }
    }
}

/// The number of function declaration events in the log.
pub open spec fn count_functions(ms: Seq<EventModel>) -> int
    decreases ms.len(),
{
    if ms.len() == 0 {
        0
    } else {
        count_functions(ms.drop_last()) + if ms.last() is Function {
            1int
        } else {
            0int
        }
    }
}

/// The number of variable-name declaration events in the log.
pub open spec fn count_variables(ms: Seq<EventModel>) -> int
    decreases ms.len(),
{
    if ms.len() == 0 {
        0
    } else {
        count_variables(ms.drop_last()) + if ms.last() is VariableName {
            1int
        } else {
            0int
        }
    }
}

/// The number of type declaration events in the log.
pub open spec fn count_types(ms: Seq<EventModel>) -> int
    decreases ms.len(),
{
    if ms.len() == 0 {
        0
    } else {
        count_types(ms.drop_last()) + if ms.last() is Type {
            1int
        } else {
            0int
        }
    }
}

/// How each declaration count changes when one event is appended.
pub broadcast proof fn lemma_counts_push(ms: Seq<EventModel>, e: EventModel)
    ensures
        count_paths(#[trigger] ms.push(e)) == count_paths(ms) + if e is Path {
            1int
        } else {
            0int
        },
        count_functions(ms.push(e)) == count_functions(ms) + if e is Function {
            1int
        } else {
            0int
        },
        count_variables(ms.push(e)) == count_variables(ms) + if e is VariableName {
            1int
        } else {
            0int
        },
        count_types(ms.push(e)) == count_types(ms) + if e is Type {
            1int
        } else {
            0int
        },
{
    assert(ms.push(e).drop_last() =~= ms);
    assert(ms.push(e).last() == e);
}

/// True when every type identifier in the value is below `nt`.
pub open spec fn value_refs_ok(v: ValueModel, nt: int) -> bool
    decreases v, 0int,
{
    match v {
        ValueModel::Int { type_id, .. } => type_id < nt,
        ValueModel::Float { type_id, .. } => type_id < nt,
        ValueModel::Bool { type_id, .. } => type_id < nt,
        ValueModel::String { type_id, .. } => type_id < nt,
        ValueModel::Sequence { elements, type_id, .. } => type_id < nt && values_refs_ok_from(
            elements,
            0,
            nt,
        ),
        ValueModel::Tuple { elements, type_id } => type_id < nt && values_refs_ok_from(
            elements,
            0,
            nt,
        ),
        ValueModel::Struct { field_values, type_id } => type_id < nt && values_refs_ok_from(
            field_values,
            0,
            nt,
        ),
        ValueModel::Variant { contents, type_id, .. } => type_id < nt && value_refs_ok(
            *contents,
            nt,
        ),
        ValueModel::Reference { dereferenced, type_id, .. } => type_id < nt && value_refs_ok(
            *dereferenced,
            nt,
        ),
        ValueModel::Raw { type_id, .. } => type_id < nt,
        ValueModel::Error { type_id, .. } => type_id < nt,
        ValueModel::Char { type_id, .. } => type_id < nt,
        ValueModel::Null { type_id } => type_id < nt,
        ValueModel::Cell { .. } => true,
        ValueModel::BigInt { type_id, .. } => type_id < nt,
    }
}

/// True when every type identifier of every value from index `i` on is
/// below `nt`.
pub open spec fn values_refs_ok_from(vs: Seq<ValueModel>, i: int, nt: int) -> bool
    decreases vs, vs.len() - i,
{
    if i < 0 || i >= vs.len() {
        true
    } else {
        value_refs_ok(vs[i], nt) && values_refs_ok_from(vs, i + 1, nt)
    }
}

/// True when every identifier of every argument from index `i` on is
/// declared.
pub open spec fn args_refs_ok_from(
    args: Seq<crate::model::FullValueModel>,
    i: int,
    nv: int,
    nt: int,
) -> bool
    decreases args.len() - i,
{
    if i < 0 || i >= args.len() {
        true
    } else {
        args[i].variable_id < nv && value_refs_ok(args[i].value, nt) && args_refs_ok_from(
            args,
            i + 1,
            nv,
            nt,
        )
    }
}

/// True when every identifier from index `i` on is below `nv`.
pub open spec fn ids_below_from(ids: Seq<usize>, i: int, nv: int) -> bool
    decreases ids.len() - i,
{
    if i < 0 || i >= ids.len() {
        true
    } else {
        ids[i] < nv && ids_below_from(ids, i + 1, nv)
    }
}

/// True when every type identifier in a type declaration is below `nt`.
pub open spec fn type_refs_ok(t: crate::model::TypeModel, nt: int) -> bool {
    match t.specific_info {
        TypeInfoModel::NoInfo => true,
        TypeInfoModel::Struct { fields } => fields_refs_ok_from(fields, 0, nt),
        TypeInfoModel::Pointer { dereference_type_id } => dereference_type_id < nt,
    }
}

/// True when every field's type identifier from index `i` on is below `nt`.
pub open spec fn fields_refs_ok_from(fs: Seq<crate::model::FieldModel>, i: int, nt: int) -> bool
    decreases fs.len() - i,
{
    if i < 0 || i >= fs.len() {
        true
    } else {
        fs[i].type_id < nt && fields_refs_ok_from(fs, i + 1, nt)
    }
}

/// True when every identifier the event refers to was declared among the
/// first `np` paths, `nf` functions, `nv` variable names and `nt` types.
pub open spec fn refs_ok(e: EventModel, np: int, nf: int, nv: int, nt: int) -> bool {
    match e {
        EventModel::Step { path_id, .. } => path_id < np,
        EventModel::Path { .. } => true,
        EventModel::VariableName { .. } => true,
        EventModel::Variable { .. } => true,
        EventModel::Type { typ } => type_refs_ok(typ, nt),
        EventModel::Value { value } => value.variable_id < nv && value_refs_ok(value.value, nt),
        EventModel::Function { path_id, .. } => path_id < np,
        EventModel::Call { function_id, args } => function_id < nf && args_refs_ok_from(
            args,
            0,
            nv,
            nt,
        ),
        EventModel::Return { return_value } => value_refs_ok(return_value, nt),
        EventModel::Event { .. } => true,
        EventModel::Asm { .. } => true,
        EventModel::BindVariable { variable_id, .. } => variable_id < nv,
        EventModel::Assignment { to, from, .. } => to < nv && match from {
            crate::model::RValueModel::Simple(id) => id < nv,
            crate::model::RValueModel::Compound(ids) => ids_below_from(ids, 0, nv),
        },
        EventModel::DropVariables { variable_ids } => ids_below_from(variable_ids, 0, nv),
        EventModel::DropVariable { variable_id } => variable_id < nv,
        EventModel::CompoundValue { value, .. } => value_refs_ok(value, nt),
        EventModel::CellValue { value, .. } => value_refs_ok(value, nt),
        EventModel::AssignCompoundItem { .. } => true,
        EventModel::AssignCell { new_value, .. } => value_refs_ok(new_value, nt),
        EventModel::VariableCell { variable_id, .. } => variable_id < nv,
        EventModel::DropLastStep => true,
        EventModel::ThreadStart { .. } => true,
        EventModel::ThreadExit { .. } => true,
        EventModel::ThreadSwitch { .. } => true,
    }
}

/// The log is a forward-only definition-before-use record: every event
/// refers only to identifiers declared strictly earlier.
pub open spec fn stream_wf(ms: Seq<EventModel>) -> bool {
    forall|k: int|
        0 <= k < ms.len() ==> refs_ok(
            #[trigger] ms[k],
            count_paths(ms.subrange(0, k)),
            count_functions(ms.subrange(0, k)),
            count_variables(ms.subrange(0, k)),
            count_types(ms.subrange(0, k)),
        )
}

/// Appending an event whose references are declared keeps the log
/// definition-before-use.
pub broadcast proof fn lemma_stream_wf_push(ms: Seq<EventModel>, e: EventModel)
    requires
        stream_wf(ms),
        refs_ok(e, count_paths(ms), count_functions(ms), count_variables(ms), count_types(ms)),
    ensures
        stream_wf(#[trigger] ms.push(e)),
{
    let ns = ms.push(e);
    assert forall|k: int|
        0 <= k < ns.len() implies refs_ok(
        #[trigger] ns[k],
        count_paths(ns.subrange(0, k)),
        count_functions(ns.subrange(0, k)),
        count_variables(ns.subrange(0, k)),
        count_types(ns.subrange(0, k)),
    ) by {
        if k < ms.len() {
            assert(ns.subrange(0, k) =~= ms.subrange(0, k));
            assert(ns[k] == ms[k]);
        } else {
            assert(ns.subrange(0, k) =~= ms);
            assert(ns[k] == e);
        }
    }
}

/// Appending an event appends its model.
pub broadcast proof fn lemma_event_models_push(es: Seq<TraceLowLevelEvent>, e: TraceLowLevelEvent)
    ensures
        event_models_of(#[trigger] es.push(e)) == event_models_of(es).push(e.model()),
{
    assert(event_models_of(es.push(e)) =~= event_models_of(es).push(e.model()));
}

/// Interning a new name keeps the table free of duplicates.
pub broadcast proof fn lemma_distinct_push(s: Seq<Seq<char>>, x: Seq<char>)
    requires
        distinct_strs(s),
        !s.contains(x),
    ensures
        distinct_strs(#[trigger] s.push(x)),
{
    assert forall|i: int, j: int| 0 <= i < j < s.push(x).len() implies s.push(x)[i] != s.push(
        x,
    )[j] by {
        if j < s.len() {
        } else {
            assert(s.push(x)[j] == x);
            assert(s.push(x)[i] == s[i]);
        }
    }
}

/// Appending a string appends its character sequence to the table's model.
pub broadcast proof fn lemma_str_models_push(v: Seq<String>, x: String)
    ensures
        str_models_of(#[trigger] v.push(x)) == str_models_of(v).push(x@),
{
    assert(str_models_of(v.push(x)) =~= str_models_of(v).push(x@));
}

/// Appending a function record appends its name to the table's model.
pub broadcast proof fn lemma_function_names_push(v: Seq<FunctionRecord>, x: FunctionRecord)
    ensures
        function_names(#[trigger] v.push(x)) == function_names(v).push(x.name@),
{
    assert(function_names(v.push(x)) =~= function_names(v).push(x.name@));
}

/// The variable table after one name is interned against it.
pub open spec fn intern_step_table(vars: Seq<Seq<char>>, name: Seq<char>) -> Seq<Seq<char>> {
    if vars.contains(name) {
        vars
    } else {
        vars.push(name)
    }
}

/// The identifier one name receives against a variable table: its unique
/// index if the table holds it, the table's length otherwise.
pub open spec fn intern_step_id(vars: Seq<Seq<char>>, name: Seq<char>) -> usize {
    if vars.contains(name) {
        (choose|j: int| 0 <= j < vars.len() && vars[j] == name) as usize
    } else {
        vars.len() as usize
    }
}

/// The variable table after the names are interned in order.
pub open spec fn interned_table(vars: Seq<Seq<char>>, names: Seq<Seq<char>>) -> Seq<Seq<char>>
    decreases names.len(),
{
    if names.len() == 0 {
        vars
    } else {
        interned_table(intern_step_table(vars, names[0]), names.drop_first())
    }
}

/// The identifiers the names receive when interned in order.
pub open spec fn interned_ids(vars: Seq<Seq<char>>, names: Seq<Seq<char>>) -> Seq<usize>
    decreases names.len(),
{
    if names.len() == 0 {
        Seq::empty()
    } else {
        seq![intern_step_id(vars, names[0])] + interned_ids(
            intern_step_table(vars, names[0]),
            names.drop_first(),
        )
    }
}

/// The declaration events emitted when the names are interned in order: one
/// for each name the table does not hold yet.
pub open spec fn intern_events(vars: Seq<Seq<char>>, names: Seq<Seq<char>>) -> Seq<EventModel>
    decreases names.len(),
{
    if names.len() == 0 {
        Seq::empty()
    } else {
        (if vars.contains(names[0]) {
            Seq::<EventModel>::empty()
        } else {
            seq![EventModel::VariableName { name: names[0] }]
        }) + intern_events(intern_step_table(vars, names[0]), names.drop_first())
    }
}

/// Interning one more name extends the fold at its end.
pub proof fn lemma_intern_snoc(vars: Seq<Seq<char>>, names: Seq<Seq<char>>, x: Seq<char>)
    ensures
        interned_table(vars, names.push(x)) == intern_step_table(interned_table(vars, names), x),
        interned_ids(vars, names.push(x)) == interned_ids(vars, names).push(
            intern_step_id(interned_table(vars, names), x),
        ),
        intern_events(vars, names.push(x)) == intern_events(vars, names) + (if interned_table(
            vars,
            names,
        ).contains(x) {
            Seq::<EventModel>::empty()
        } else {
            seq![EventModel::VariableName { name: x }]
        }),
    decreases names.len(),
{
    if names.len() == 0 {
        assert(names.push(x)[0] == x);
        assert(names.push(x).drop_first() =~= Seq::<Seq<char>>::empty());
        assert(interned_table(intern_step_table(vars, x), Seq::<Seq<char>>::empty())
            == intern_step_table(vars, x));
        assert(interned_ids(intern_step_table(vars, x), Seq::<Seq<char>>::empty())
            == Seq::<usize>::empty());
        assert(intern_events(intern_step_table(vars, x), Seq::<Seq<char>>::empty())
            == Seq::<EventModel>::empty());
        assert(interned_table(vars, names) == vars);
        assert(interned_ids(vars, names.push(x)) =~= interned_ids(vars, names).push(
            intern_step_id(interned_table(vars, names), x),
        ));
        assert(intern_events(vars, names.push(x)) =~= intern_events(vars, names) + (
        if interned_table(vars, names).contains(x) {
            Seq::<EventModel>::empty()
        } else {
            seq![EventModel::VariableName { name: x }]
        }));
    } else {
        assert(names.push(x)[0] == names[0]);
        assert(names.push(x).drop_first() =~= names.drop_first().push(x));
        lemma_intern_snoc(intern_step_table(vars, names[0]), names.drop_first(), x);
        assert(interned_ids(vars, names.push(x)) =~= interned_ids(vars, names).push(
            intern_step_id(interned_table(vars, names), x),
        ));
        assert(intern_events(vars, names.push(x)) =~= intern_events(vars, names) + (
        if interned_table(vars, names).contains(x) {
            Seq::<EventModel>::empty()
        } else {
            seq![EventModel::VariableName { name: x }]
        }));
    }
}

/// The recording state machine: the interning tables, the run's metadata,
/// and the event log produced so far.
pub struct Tracer {
    pub data: AbstractTraceWriterData,
    pub events: Vec<TraceLowLevelEvent>,
}

impl Tracer {
    /// The recorder's invariant: consistent tables whose lengths equal the
    /// number of declaration events, over a definition-before-use log.
    pub open spec fn wf(&self) -> bool {
        let ms = event_models_of(self.events@);
        &&& self.data.wf()
        &&& count_paths(ms) == self.data.path_list@.len()
        &&& count_functions(ms) == self.data.function_list@.len()
        &&& count_variables(ms) == self.data.variable_list@.len()
        &&& count_types(ms) == self.data.type_list@.len()
        &&& stream_wf(ms)
    }

    /// The models of the recorded events.
    pub open spec fn log(&self) -> Seq<EventModel> {
        event_models_of(self.events@)
    }

    /// A fresh recorder for the given program, arguments and working
    /// directory; nothing is recorded yet.
    pub fn new(program: &str, args: &Vec<String>, workdir: &str) -> (r: Tracer)
        ensures
            r.wf(),
            r.log() == Seq::<EventModel>::empty(),
            r.data.path_list@.len() == 0,
            r.data.function_list@.len() == 0,
            r.data.variable_list@.len() == 0,
            r.data.type_list@.len() == 0,
            r.data.program@ == program@,
            str_models_of(r.data.args@) == str_models_of(args@),
            r.data.workdir@ == workdir@,
    {
        let r = Tracer { data: AbstractTraceWriterData::new(program, args, workdir), events: Vec::new() };
        proof {
            assert(event_models_of(r.events@) =~= Seq::<EventModel>::empty());
        }
        r
    }

    /// Looks up the path, interning it and emitting its declaration if it is
    /// new.  The identifiers are dense: the n-th distinct path receives
    /// identifier n-1, and a path seen before yields its old identifier
    /// without emitting anything.
    pub fn ensure_path_id(&mut self, path: &str) -> (r: PathId)
        requires
            old(self).wf(),
        ensures
            final(self).wf(),
            r.0 < final(self).data.path_list@.len(),
            str_models_of(final(self).data.path_list@)[r.0 as int] == path@,
            str_models_of(old(self).data.path_list@).contains(path@) ==> *final(self) == *old(self),
            !str_models_of(old(self).data.path_list@).contains(path@) ==> {
                &&& r.0 == old(self).data.path_list@.len()
                &&& str_models_of(final(self).data.path_list@) == str_models_of(
                    old(self).data.path_list@,
                ).push(path@)
                &&& final(self).log() == old(self).log().push(EventModel::Path { path: path@ })
                &&& final(self).data.function_list == old(self).data.function_list
                &&& final(self).data.variable_list == old(self).data.variable_list
                &&& final(self).data.type_list == old(self).data.type_list
            },
    {
        match find_str(&self.data.path_list, path) {
            Option::Some(i) => {
                proof {
                    assert(str_models_of(self.data.path_list@)[i as int] == self.data.path_list@[
                    i as int]@);
                    assert(str_models_of(self.data.path_list@).contains(path@));
                }
                PathId(i)
            },
            Option::None => {
                let id = self.data.path_list.len();
                self.data.path_list.push(path.to_owned());
                self.events.push(TraceLowLevelEvent::Path(path.to_owned()));
                proof {
                    broadcast use lemma_counts_push, lemma_stream_wf_push, lemma_event_models_push, lemma_str_models_push, lemma_distinct_push;

                    assert(str_models_of(final(self).data.path_list@)[id as int] == path@);
                }
                PathId(id)
            },
        }
    }

    /// Appends a path declaration event, also recording it in the path
    /// table.
    pub fn register_path(&mut self, path: &str)
        requires
            old(self).wf(),
            !str_models_of(old(self).data.path_list@).contains(path@),
        ensures
            final(self).wf(),
            str_models_of(final(self).data.path_list@) == str_models_of(
                old(self).data.path_list@,
            ).push(path@),
            final(self).log() == old(self).log().push(EventModel::Path { path: path@ }),
            final(self).data.function_list == old(self).data.function_list,
            final(self).data.variable_list == old(self).data.variable_list,
            final(self).data.type_list == old(self).data.type_list,
    {
        self.data.path_list.push(path.to_owned());
        self.events.push(TraceLowLevelEvent::Path(path.to_owned()));
        proof {
            broadcast use lemma_counts_push, lemma_stream_wf_push, lemma_event_models_push, lemma_str_models_push, lemma_distinct_push;

        }
    }

    /// Looks up the function by name, interning it and emitting its
    /// declaration (and, if needed, its path's declaration) if it is new.
    /// Functions are deduplicated by name alone.
    pub fn ensure_function_id(&mut self, function_name: &str, path: &str, line: Line) -> (r:
        FunctionId)
        requires
            old(self).wf(),
        ensures
            final(self).wf(),
            r.0 < final(self).data.function_list@.len(),
            function_names(final(self).data.function_list@)[r.0 as int] == function_name@,
            final(self).data.variable_list == old(self).data.variable_list,
            final(self).data.type_list == old(self).data.type_list,
            function_names(old(self).data.function_list@).contains(function_name@) ==> *final(self)
                == *old(self),
            !function_names(old(self).data.function_list@).contains(function_name@) ==> {
                &&& r.0 == old(self).data.function_list@.len()
                &&& function_names(final(self).data.function_list@) == function_names(
                    old(self).data.function_list@,
                ).push(function_name@)
                &&& str_models_of(final(self).data.path_list@) == (if str_models_of(
                    old(self).data.path_list@,
                ).contains(path@) {
                    str_models_of(old(self).data.path_list@)
                } else {
                    str_models_of(old(self).data.path_list@).push(path@)
                })
                &&& final(self).data.function_list@.last().line == line
                &&& final(self).data.function_list@.last().path_id.0 < final(self).data.path_list@.len()
                &&& str_models_of(final(self).data.path_list@)[final(self).data.function_list@.last().path_id.0 as int] == path@
                &&& final(self).log() == old(self).log() + (if str_models_of(
                    old(self).data.path_list@,
                ).contains(path@) {
                    Seq::<EventModel>::empty()
                } else {
                    seq![EventModel::Path { path: path@ }]
                }) + seq![
                    EventModel::Function {
                        name: function_name@,
                        path_id: final(self).data.function_list@.last().path_id.0,
                        line: line.0,
                    },
                ]
            },
    {
        match find_function(&self.data.function_list, function_name) {
            Option::Some(i) => {
                proof {
                    assert(function_names(self.data.function_list@)[i as int]
                        == self.data.function_list@[i as int].name@);
                    assert(function_names(self.data.function_list@).contains(function_name@));
                }
                FunctionId(i)
            },
            Option::None => {
                let ghost mid_log: Seq<EventModel>;
                let path_id = self.ensure_path_id(path);
                proof {
                    mid_log = self.log();
                }
                let id = self.data.function_list.len();
                self.data.function_list.push(
                    FunctionRecord { name: function_name.to_owned(), path_id, line },
                );
                self.events.push(
                    TraceLowLevelEvent::Function(
                        FunctionRecord { name: function_name.to_owned(), path_id, line },
                    ),
                );
                proof {
                    broadcast use lemma_counts_push, lemma_stream_wf_push, lemma_event_models_push, lemma_str_models_push, lemma_distinct_push, lemma_function_names_push;

                    assert(final(self).log() =~= old(self).log() + (if str_models_of(
                        old(self).data.path_list@,
                    ).contains(path@) {
                        Seq::<EventModel>::empty()
                    } else {
                        seq![EventModel::Path { path: path@ }]
                    }) + seq![
                        EventModel::Function {
                            name: function_name@,
                            path_id: path_id.0,
                            line: line.0,
                        },
                    ]);
                }
                FunctionId(id)
            },
        }
    }

    /// Appends a function declaration event (declaring its path first if
    /// needed), also recording it in the function table.  The name must be
    /// new; looking up or declaring is `ensure_function_id`'s job.
    pub fn register_function(&mut self, name: &str, path: &str, line: Line)
        requires
            old(self).wf(),
            !function_names(old(self).data.function_list@).contains(name@),
        ensures
            final(self).wf(),
            function_names(final(self).data.function_list@) == function_names(
                old(self).data.function_list@,
            ).push(name@),
            final(self).data.variable_list == old(self).data.variable_list,
            final(self).data.type_list == old(self).data.type_list,
            final(self).data.function_list@.last().line == line,
            final(self).data.function_list@.last().path_id.0 < final(self).data.path_list@.len(),
            str_models_of(final(self).data.path_list@)[final(self).data.function_list@.last().path_id.0 as int] == path@,
            final(self).log() == old(self).log() + (if str_models_of(
                old(self).data.path_list@,
            ).contains(path@) {
                Seq::<EventModel>::empty()
            } else {
                seq![EventModel::Path { path: path@ }]
            }) + seq![
                EventModel::Function {
                    name: name@,
                    path_id: final(self).data.function_list@.last().path_id.0,
                    line: line.0,
                },
            ],
    {
        let path_id = self.ensure_path_id(path);
        self.data.function_list.push(FunctionRecord { name: name.to_owned(), path_id, line });
        self.events.push(
            TraceLowLevelEvent::Function(FunctionRecord { name: name.to_owned(), path_id, line }),
        );
        proof {
            broadcast use lemma_counts_push, lemma_stream_wf_push, lemma_event_models_push, lemma_str_models_push, lemma_distinct_push, lemma_function_names_push;

            assert(final(self).log() =~= old(self).log() + (if str_models_of(
                old(self).data.path_list@,
            ).contains(path@) {
                Seq::<EventModel>::empty()
            } else {
                seq![EventModel::Path { path: path@ }]
            }) + seq![EventModel::Function { name: name@, path_id: path_id.0, line: line.0 }]);
        }
    }

    /// Looks up the type by its language-specific name, interning it and
    /// emitting its declaration if it is new.  Types are deduplicated by
    /// name alone: two kinds sharing a name share an identifier.
    pub fn ensure_type_id(&mut self, kind: TypeKind, lang_type: &str) -> (r: TypeId)
        requires
            old(self).wf(),
        ensures
            final(self).wf(),
            r.0 < final(self).data.type_list@.len(),
            str_models_of(final(self).data.type_list@)[r.0 as int] == lang_type@,
            final(self).data.path_list == old(self).data.path_list,
            final(self).data.function_list == old(self).data.function_list,
            final(self).data.variable_list == old(self).data.variable_list,
            str_models_of(old(self).data.type_list@).contains(lang_type@) ==> *final(self) == *old(self),
            !str_models_of(old(self).data.type_list@).contains(lang_type@) ==> {
                &&& r.0 == old(self).data.type_list@.len()
                &&& str_models_of(final(self).data.type_list@) == str_models_of(
                    old(self).data.type_list@,
                ).push(lang_type@)
                &&& final(self).log() == old(self).log().push(
                    EventModel::Type {
                        typ: crate::model::TypeModel {
                            kind,
                            lang_type: lang_type@,
                            specific_info: TypeInfoModel::NoInfo,
                        },
                    },
                )
            },
    {
        let typ = self.to_raw_type(kind, lang_type);
        self.ensure_raw_type_id(typ)
    }

    /// Looks up a full type declaration by its language-specific name,
    /// interning it and emitting the declaration if it is new.
    pub fn ensure_raw_type_id(&mut self, typ: TypeRecord) -> (r: TypeId)
        requires
            old(self).wf(),
            type_refs_ok(typ.model(), old(self).data.type_list@.len() as int),
        ensures
            final(self).wf(),
            r.0 < final(self).data.type_list@.len(),
            str_models_of(final(self).data.type_list@)[r.0 as int] == typ.lang_type@,
            final(self).data.path_list == old(self).data.path_list,
            final(self).data.function_list == old(self).data.function_list,
            final(self).data.variable_list == old(self).data.variable_list,
            str_models_of(old(self).data.type_list@).contains(typ.lang_type@) ==> *final(self)
                == *old(self),
            !str_models_of(old(self).data.type_list@).contains(typ.lang_type@) ==> {
                &&& r.0 == old(self).data.type_list@.len()
                &&& str_models_of(final(self).data.type_list@) == str_models_of(
                    old(self).data.type_list@,
                ).push(typ.lang_type@)
                &&& final(self).log() == old(self).log().push(EventModel::Type { typ: typ.model() })
            },
    {
        match find_str(&self.data.type_list, typ.lang_type.as_str()) {
            Option::Some(i) => {
                proof {
                    assert(str_models_of(self.data.type_list@)[i as int] == self.data.type_list@[
                    i as int]@);
                    assert(str_models_of(self.data.type_list@).contains(typ.lang_type@));
                }
                TypeId(i)
            },
            Option::None => {
                let id = self.data.type_list.len();
                self.data.type_list.push(typ.lang_type.clone());
                self.events.push(TraceLowLevelEvent::Type(typ));
                proof {
                    broadcast use lemma_counts_push, lemma_stream_wf_push, lemma_event_models_push, lemma_str_models_push, lemma_distinct_push;

                }
                TypeId(id)
            },
        }
    }

    /// Looks up the variable name, interning it and emitting its declaration
    /// if it is new.
    pub fn ensure_variable_id(&mut self, variable_name: &str) -> (r: VariableId)
        requires
            old(self).wf(),
        ensures
            final(self).wf(),
            r.0 < final(self).data.variable_list@.len(),
            str_models_of(final(self).data.variable_list@)[r.0 as int] == variable_name@,
            final(self).data.path_list == old(self).data.path_list,
            final(self).data.function_list == old(self).data.function_list,
            final(self).data.type_list == old(self).data.type_list,
            str_models_of(old(self).data.variable_list@).contains(variable_name@) ==> *final(self)
                == *old(self),
            !str_models_of(old(self).data.variable_list@).contains(variable_name@) ==> {
                &&& r.0 == old(self).data.variable_list@.len()
                &&& str_models_of(final(self).data.variable_list@) == str_models_of(
                    old(self).data.variable_list@,
                ).push(variable_name@)
                &&& final(self).log() == old(self).log().push(
                    EventModel::VariableName { name: variable_name@ },
                )
            },
    {
        match find_str(&self.data.variable_list, variable_name) {
            Option::Some(i) => {
                proof {
                    assert(str_models_of(self.data.variable_list@)[i as int]
                        == self.data.variable_list@[i as int]@);
                    assert(str_models_of(self.data.variable_list@).contains(variable_name@));
                }
                VariableId(i)
            },
            Option::None => {
                let id = self.data.variable_list.len();
                self.data.variable_list.push(variable_name.to_owned());
                self.events.push(TraceLowLevelEvent::VariableName(variable_name.to_owned()));
                proof {
                    broadcast use lemma_counts_push, lemma_stream_wf_push, lemma_event_models_push, lemma_str_models_push, lemma_distinct_push;

                }
                VariableId(id)
            },
        }
    }

    /// Appends a variable-name declaration event, also recording it in the
    /// variable table.  The name must be new.
    pub fn register_variable_name(&mut self, variable_name: &str)
        requires
            old(self).wf(),
            !str_models_of(old(self).data.variable_list@).contains(variable_name@),
        ensures
            final(self).wf(),
            str_models_of(final(self).data.variable_list@) == str_models_of(
                old(self).data.variable_list@,
            ).push(variable_name@),
            final(self).log() == old(self).log().push(
                EventModel::VariableName { name: variable_name@ },
            ),
            final(self).data.path_list == old(self).data.path_list,
            final(self).data.function_list == old(self).data.function_list,
            final(self).data.type_list == old(self).data.type_list,
    {
        self.data.variable_list.push(variable_name.to_owned());
        self.events.push(TraceLowLevelEvent::VariableName(variable_name.to_owned()));
        proof {
            broadcast use lemma_counts_push, lemma_stream_wf_push, lemma_event_models_push, lemma_str_models_push, lemma_distinct_push;

        }
    }

    /// Appends a variable-name declaration event; the older name of
    /// `register_variable_name`.
    pub fn register_variable_event(&mut self, variable_name: &str)
        requires
            old(self).wf(),
            !str_models_of(old(self).data.variable_list@).contains(variable_name@),
        ensures
            final(self).wf(),
            str_models_of(final(self).data.variable_list@) == str_models_of(
                old(self).data.variable_list@,
            ).push(variable_name@),
            final(self).log() == old(self).log().push(
                EventModel::VariableName { name: variable_name@ },
            ),
    {
        self.register_variable_name(variable_name);
    }

    /// Appends a step event at the given source position, declaring the path
    /// first if needed.
    pub fn register_step(&mut self, path: &str, line: Line)
        requires
            old(self).wf(),
        ensures
            final(self).wf(),
            final(self).data.function_list == old(self).data.function_list,
            final(self).data.variable_list == old(self).data.variable_list,
            final(self).data.type_list == old(self).data.type_list,
            exists|pid: usize|
                final(self).log() == old(self).log() + (if str_models_of(
                    old(self).data.path_list@,
                ).contains(path@) {
                    Seq::<EventModel>::empty()
                } else {
                    seq![EventModel::Path { path: path@ }]
                }) + seq![EventModel::Step { path_id: pid, line: line.0 }] && #[trigger] str_models_of(
                    final(self).data.path_list@,
                )[pid as int] == path@,
    {
        let path_id = self.ensure_path_id(path);
        self.events.push(TraceLowLevelEvent::Step(StepRecord { path_id, line }));
        proof {
            broadcast use lemma_counts_push, lemma_stream_wf_push, lemma_event_models_push;

            assert(final(self).log() =~= old(self).log() + (if str_models_of(
                old(self).data.path_list@,
            ).contains(path@) {
                Seq::<EventModel>::empty()
            } else {
                seq![EventModel::Path { path: path@ }]
            }) + seq![EventModel::Step { path_id: path_id.0, line: line.0 }]);
        }
    }

    /// The full-value events for the call arguments from index `i` on.
    pub open spec fn arg_value_events_from(args: Seq<crate::model::FullValueModel>, i: int) -> Seq<
        EventModel,
    >
        decreases args.len() - i,
    {
        if i < 0 || i >= args.len() {
            Seq::empty()
        } else {
            seq![EventModel::Value { value: args[i] }] + Self::arg_value_events_from(args, i + 1)
        }
    }

    /// Appends a call event.  For any function other than the top-level one,
    /// a full-value event for each argument and then a step event positioned
    /// at the function's declaration site are appended immediately before
    /// the call event itself; for the top-level function only the call event
    /// is appended.
    #[verifier::loop_isolation(false)]
    #[verifier::rlimit(100)]
    #[verifier::spinoff_prover]
    pub fn register_call(&mut self, function_id: FunctionId, args: Vec<FullValueRecord>)
        requires
            old(self).wf(),
            function_id.0 < old(self).data.function_list@.len(),
            args_refs_ok_from(
                arg_models_of(args@),
                0,
                old(self).data.variable_list@.len() as int,
                old(self).data.type_list@.len() as int,
            ),
        ensures
            final(self).wf(),
            final(self).data == old(self).data,
            function_id.0 != 0 ==> final(self).log() == old(self).log()
                + Self::arg_value_events_from(arg_models_of(args@), 0) + seq![
                EventModel::Step {
                    path_id: old(self).data.function_list@[function_id.0 as int].path_id.0,
                    line: old(self).data.function_list@[function_id.0 as int].line.0,
                },
                EventModel::Call { function_id: function_id.0, args: arg_models_of(args@) },
            ],
            function_id.0 == 0 ==> final(self).log() == old(self).log().push(
                EventModel::Call { function_id: 0, args: arg_models_of(args@) },
            ),
    {
        let ghost am = arg_models_of(args@);
        let ghost base = self.log();
        if function_id.0 != 0 {
            proof {
                lemma_args_refs_iff(
                    am,
                    0,
                    self.data.variable_list@.len() as int,
                    self.data.type_list@.len() as int,
                );
            }
            let n = args.len();
            let mut j: usize = 0;
            while j < n
                invariant
                    j <= n,
                    self.wf(),
                    self.data == old(self).data,
                    self.log() + Self::arg_value_events_from(am, j as int) == base
                        + Self::arg_value_events_from(am, 0),
                decreases n - j,
            {
                let ghost prev = self.log();
                let a = args[j].clone();
                self.events.push(TraceLowLevelEvent::Value(a));
                proof {
                    broadcast use lemma_counts_push, lemma_stream_wf_push, lemma_event_models_push;

                    assert(am[j as int] == args@[j as int].model());
                    assert(self.log() + Self::arg_value_events_from(am, j + 1) =~= prev
                        + Self::arg_value_events_from(am, j as int));
                }
                j = j + 1;
            }
            let f_path_id = self.data.function_list[function_id.0].path_id;
            let f_line = self.data.function_list[function_id.0].line;
            self.events.push(
                TraceLowLevelEvent::Step(StepRecord { path_id: f_path_id, line: f_line }),
            );
            self.events.push(TraceLowLevelEvent::Call(CallRecord { function_id, args }));
            proof {
                broadcast use lemma_counts_push, lemma_stream_wf_push, lemma_event_models_push;

                assert(self.log() =~= self.log() + Self::arg_value_events_from(am, n as int));
                assert(final(self).log() =~= old(self).log() + Self::arg_value_events_from(am, 0)
                    + seq![
                    EventModel::Step {
                        path_id: old(self).data.function_list@[function_id.0 as int].path_id.0,
                        line: old(self).data.function_list@[function_id.0 as int].line.0,
                    },
                    EventModel::Call { function_id: function_id.0, args: am },
                ]);
            }
        } else {
            self.events.push(TraceLowLevelEvent::Call(CallRecord { function_id, args }));
            proof {
                broadcast use lemma_counts_push, lemma_stream_wf_push, lemma_event_models_push;

            }
        }
    }

    /// Interns the argument's variable name and pairs it with the value.
    pub fn arg(&mut self, name: &str, value: ValueRecord) -> (r: FullValueRecord)
        requires
            old(self).wf(),
        ensures
            final(self).wf(),
            r.variable_id.0 < final(self).data.variable_list@.len(),
            str_models_of(final(self).data.variable_list@)[r.variable_id.0 as int] == name@,
            r.value == value,
            final(self).data.path_list == old(self).data.path_list,
            final(self).data.function_list == old(self).data.function_list,
            final(self).data.type_list == old(self).data.type_list,
            final(self).log() == old(self).log() + (if str_models_of(
                old(self).data.variable_list@,
            ).contains(name@) {
                Seq::<EventModel>::empty()
            } else {
                seq![EventModel::VariableName { name: name@ }]
            }),
    {
        let variable_id = self.ensure_variable_id(name);
        proof {
            if str_models_of(old(self).data.variable_list@).contains(name@) {
                assert(final(self).log() =~= old(self).log() + Seq::<EventModel>::empty());
            } else {
                assert(final(self).log() =~= old(self).log() + seq![
                    EventModel::VariableName { name: name@ },
                ]);
            }
        }
        FullValueRecord { variable_id, value }
    }

    /// Appends a return event carrying the returned value.
    pub fn register_return(&mut self, return_value: ValueRecord)
        requires
            old(self).wf(),
            value_refs_ok(return_value.model(), old(self).data.type_list@.len() as int),
        ensures
            final(self).wf(),
            final(self).data == old(self).data,
            final(self).log() == old(self).log().push(
                EventModel::Return { return_value: return_value.model() },
            ),
    {
        self.events.push(TraceLowLevelEvent::Return(ReturnRecord { return_value }));
        proof {
            broadcast use lemma_counts_push, lemma_stream_wf_push, lemma_event_models_push;

        }
    }

    /// Appends a free-form instrumentation event with empty metadata.
    pub fn register_special_event(&mut self, kind: EventLogKind, content: &str)
        requires
            old(self).wf(),
        ensures
            final(self).wf(),
            final(self).data == old(self).data,
            final(self).log() == old(self).log().push(
                EventModel::Event { kind, metadata: Seq::<char>::empty(), content: content@ },
            ),
    {
        self.events.push(
            TraceLowLevelEvent::Event(
                RecordEvent { kind, metadata: String::new(), content: content.to_owned() },
            ),
        );
        proof {
            broadcast use lemma_counts_push, lemma_stream_wf_push, lemma_event_models_push;

        }
    }

    /// Builds a plain type declaration with no kind-specific details.
    pub fn to_raw_type(&self, kind: TypeKind, lang_type: &str) -> (r: TypeRecord)
        ensures
            r.model() == (crate::model::TypeModel {
                kind,
                lang_type: lang_type@,
                specific_info: TypeInfoModel::NoInfo,
            }),
            r.lang_type@ == lang_type@,
    {
        TypeRecord {
            kind,
            lang_type: lang_type.to_owned(),
            specific_info: TypeSpecificInfo::NoInfo,
        }
    }

    /// Appends a plain type declaration event, also recording the name in
    /// the type table.  The name must be new.
    pub fn register_type(&mut self, kind: TypeKind, lang_type: &str)
        requires
            old(self).wf(),
            !str_models_of(old(self).data.type_list@).contains(lang_type@),
        ensures
            final(self).wf(),
            str_models_of(final(self).data.type_list@) == str_models_of(
                old(self).data.type_list@,
            ).push(lang_type@),
            final(self).log() == old(self).log().push(
                EventModel::Type {
                    typ: crate::model::TypeModel {
                        kind,
                        lang_type: lang_type@,
                        specific_info: TypeInfoModel::NoInfo,
                    },
                },
            ),
    {
        let typ = self.to_raw_type(kind, lang_type);
        self.register_raw_type(typ);
    }

    /// Appends a full type declaration event, also recording the name in the
    /// type table.  The name must be new.
    pub fn register_raw_type(&mut self, typ: TypeRecord)
        requires
            old(self).wf(),
            !str_models_of(old(self).data.type_list@).contains(typ.lang_type@),
            type_refs_ok(typ.model(), old(self).data.type_list@.len() as int),
        ensures
            final(self).wf(),
            str_models_of(final(self).data.type_list@) == str_models_of(
                old(self).data.type_list@,
            ).push(typ.lang_type@),
            final(self).log() == old(self).log().push(EventModel::Type { typ: typ.model() }),
    {
        self.data.type_list.push(typ.lang_type.clone());
        self.events.push(TraceLowLevelEvent::Type(typ));
        proof {
            broadcast use lemma_counts_push, lemma_stream_wf_push, lemma_event_models_push, lemma_str_models_push, lemma_distinct_push;

        }
    }

    /// Appends a raw assembly listing event.
    pub fn register_asm(&mut self, instructions: &Vec<String>)
        requires
            old(self).wf(),
        ensures
            final(self).wf(),
            final(self).data == old(self).data,
            final(self).log() == old(self).log().push(
                EventModel::Asm { instructions: str_models_of(instructions@) },
            ),
    {
        self.events.push(TraceLowLevelEvent::Asm(clone_strings(instructions)));
        proof {
            broadcast use lemma_counts_push, lemma_stream_wf_push, lemma_event_models_push;

        }
    }

    /// Interns the variable name and appends a full-value event for it.
    pub fn register_variable_with_full_value(&mut self, name: &str, value: ValueRecord)
        requires
            old(self).wf(),
            value_refs_ok(value.model(), old(self).data.type_list@.len() as int),
        ensures
            final(self).wf(),
            final(self).data.path_list == old(self).data.path_list,
            final(self).data.function_list == old(self).data.function_list,
            final(self).data.type_list == old(self).data.type_list,
            exists|vid: usize|
                final(self).log() == old(self).log() + (if str_models_of(
                    old(self).data.variable_list@,
                ).contains(name@) {
                    Seq::<EventModel>::empty()
                } else {
                    seq![EventModel::VariableName { name: name@ }]
                }) + seq![
                    EventModel::Value {
                        value: crate::model::FullValueModel {
                            variable_id: vid,
                            value: value.model(),
                        },
                    },
                ] && #[trigger] str_models_of(final(self).data.variable_list@)[vid as int]
                    == name@,
    {
        let variable_id = self.ensure_variable_id(name);
        self.events.push(
            TraceLowLevelEvent::Value(FullValueRecord { variable_id, value }),
        );
        proof {
            broadcast use lemma_counts_push, lemma_stream_wf_push, lemma_event_models_push;

            assert(final(self).log() =~= old(self).log() + (if str_models_of(
                old(self).data.variable_list@,
            ).contains(name@) {
                Seq::<EventModel>::empty()
            } else {
                seq![EventModel::VariableName { name: name@ }]
            }) + seq![
                EventModel::Value {
                    value: crate::model::FullValueModel {
                        variable_id: variable_id.0,
                        value: value.model(),
                    },
                },
            ]);
        }
    }

    /// Appends a full-value event for an already interned variable.
    pub fn register_full_value(&mut self, variable_id: VariableId, value: ValueRecord)
        requires
            old(self).wf(),
            variable_id.0 < old(self).data.variable_list@.len(),
            value_refs_ok(value.model(), old(self).data.type_list@.len() as int),
        ensures
            final(self).wf(),
            final(self).data == old(self).data,
            final(self).log() == old(self).log().push(
                EventModel::Value {
                    value: crate::model::FullValueModel {
                        variable_id: variable_id.0,
                        value: value.model(),
                    },
                },
            ),
    {
        self.events.push(TraceLowLevelEvent::Value(FullValueRecord { variable_id, value }));
        proof {
            broadcast use lemma_counts_push, lemma_stream_wf_push, lemma_event_models_push;

        }
    }

    /// Appends a compound-value declaration for a storage cell.
    pub fn register_compound_value(&mut self, place: Place, value: ValueRecord)
        requires
            old(self).wf(),
            value_refs_ok(value.model(), old(self).data.type_list@.len() as int),
        ensures
            final(self).wf(),
            final(self).data == old(self).data,
            final(self).log() == old(self).log().push(
                EventModel::CompoundValue { place: place.0, value: value.model() },
            ),
    {
        self.events.push(
            TraceLowLevelEvent::CompoundValue(CompoundValueRecord { place, value }),
        );
        proof {
            broadcast use lemma_counts_push, lemma_stream_wf_push, lemma_event_models_push;

        }
    }

    /// Appends a scalar-value declaration for a storage cell.
    pub fn register_cell_value(&mut self, place: Place, value: ValueRecord)
        requires
            old(self).wf(),
            value_refs_ok(value.model(), old(self).data.type_list@.len() as int),
        ensures
            final(self).wf(),
            final(self).data == old(self).data,
            final(self).log() == old(self).log().push(
                EventModel::CellValue { place: place.0, value: value.model() },
            ),
    {
        self.events.push(TraceLowLevelEvent::CellValue(CellValueRecord { place, value }));
        proof {
            broadcast use lemma_counts_push, lemma_stream_wf_push, lemma_event_models_push;

        }
    }

    /// Appends an item-assignment event into a compound value.
    pub fn assign_compound_item(&mut self, place: Place, index: usize, item_place: Place)
        requires
            old(self).wf(),
        ensures
            final(self).wf(),
            final(self).data == old(self).data,
            final(self).log() == old(self).log().push(
                EventModel::AssignCompoundItem {
                    place: place.0,
                    index,
                    item_place: item_place.0,
                },
            ),
    {
        self.events.push(
            TraceLowLevelEvent::AssignCompoundItem(
                AssignCompoundItemRecord { place, index, item_place },
            ),
        );
        proof {
            broadcast use lemma_counts_push, lemma_stream_wf_push, lemma_event_models_push;

        }
    }

    /// Appends a cell-mutation event.
    pub fn assign_cell(&mut self, place: Place, new_value: ValueRecord)
        requires
            old(self).wf(),
            value_refs_ok(new_value.model(), old(self).data.type_list@.len() as int),
        ensures
            final(self).wf(),
            final(self).data == old(self).data,
            final(self).log() == old(self).log().push(
                EventModel::AssignCell { place: place.0, new_value: new_value.model() },
            ),
    {
        self.events.push(TraceLowLevelEvent::AssignCell(AssignCellRecord { place, new_value }));
        proof {
            broadcast use lemma_counts_push, lemma_stream_wf_push, lemma_event_models_push;

        }
    }

    /// Interns the variable name and binds it to the cell holding its value.
    pub fn register_variable(&mut self, variable_name: &str, place: Place)
        requires
            old(self).wf(),
        ensures
            final(self).wf(),
            final(self).data.path_list == old(self).data.path_list,
            final(self).data.function_list == old(self).data.function_list,
            final(self).data.type_list == old(self).data.type_list,
            exists|vid: usize|
                final(self).log() == old(self).log() + (if str_models_of(
                    old(self).data.variable_list@,
                ).contains(variable_name@) {
                    Seq::<EventModel>::empty()
                } else {
                    seq![EventModel::VariableName { name: variable_name@ }]
                }) + seq![EventModel::VariableCell { variable_id: vid, place: place.0 }]
                    && #[trigger] str_models_of(final(self).data.variable_list@)[vid as int]
                    == variable_name@,
    {
        let variable_id = self.ensure_variable_id(variable_name);
        self.events.push(
            TraceLowLevelEvent::VariableCell(VariableCellRecord { variable_id, place }),
        );
        proof {
            broadcast use lemma_counts_push, lemma_stream_wf_push, lemma_event_models_push;

            assert(final(self).log() =~= old(self).log() + (if str_models_of(
                old(self).data.variable_list@,
            ).contains(variable_name@) {
                Seq::<EventModel>::empty()
            } else {
                seq![EventModel::VariableName { name: variable_name@ }]
            }) + seq![EventModel::VariableCell { variable_id: variable_id.0, place: place.0 }]);
        }
    }

    /// Interns the variable name and appends a drop event for it.
    pub fn drop_variable(&mut self, variable_name: &str)
        requires
            old(self).wf(),
        ensures
            final(self).wf(),
            final(self).data.path_list == old(self).data.path_list,
            final(self).data.function_list == old(self).data.function_list,
            final(self).data.type_list == old(self).data.type_list,
            exists|vid: usize|
                final(self).log() == old(self).log() + (if str_models_of(
                    old(self).data.variable_list@,
                ).contains(variable_name@) {
                    Seq::<EventModel>::empty()
                } else {
                    seq![EventModel::VariableName { name: variable_name@ }]
                }) + seq![EventModel::DropVariable { variable_id: vid }]
                    && #[trigger] str_models_of(final(self).data.variable_list@)[vid as int]
                    == variable_name@,
    {
        let variable_id = self.ensure_variable_id(variable_name);
        self.events.push(TraceLowLevelEvent::DropVariable(variable_id));
        proof {
            broadcast use lemma_counts_push, lemma_stream_wf_push, lemma_event_models_push;

            assert(final(self).log() =~= old(self).log() + (if str_models_of(
                old(self).data.variable_list@,
            ).contains(variable_name@) {
                Seq::<EventModel>::empty()
            } else {
                seq![EventModel::VariableName { name: variable_name@ }]
            }) + seq![EventModel::DropVariable { variable_id: variable_id.0 }]);
        }
    }

    /// Interns the variable name and appends an assignment event with the
    /// given provenance.
    pub fn assign(&mut self, variable_name: &str, rvalue: RValue, pass_by: PassBy)
        requires
            old(self).wf(),
            match rvalue.model() {
                crate::model::RValueModel::Simple(id) => id < old(self).data.variable_list@.len(),
                crate::model::RValueModel::Compound(ids) => ids_below_from(
                    ids,
                    0,
                    old(self).data.variable_list@.len() as int,
                ),
            },
        ensures
            final(self).wf(),
            final(self).data.path_list == old(self).data.path_list,
            final(self).data.function_list == old(self).data.function_list,
            final(self).data.type_list == old(self).data.type_list,
            exists|vid: usize|
                final(self).log() == old(self).log() + (if str_models_of(
                    old(self).data.variable_list@,
                ).contains(variable_name@) {
                    Seq::<EventModel>::empty()
                } else {
                    seq![EventModel::VariableName { name: variable_name@ }]
                }) + seq![
                    EventModel::Assignment {
                        to: vid,
                        pass_by,
                        from: rvalue.model(),
                    },
                ] && #[trigger] str_models_of(final(self).data.variable_list@)[vid as int]
                    == variable_name@,
    {
        let to = self.ensure_variable_id(variable_name);
        proof {
            lemma_ids_below_monotone(rvalue.model(), old(self).data.variable_list@.len() as int, self.data.variable_list@.len() as int);
        }
        self.events.push(
            TraceLowLevelEvent::Assignment(AssignmentRecord { to, pass_by, from: rvalue }),
        );
        proof {
            broadcast use lemma_counts_push, lemma_stream_wf_push, lemma_event_models_push;

            assert(final(self).log() =~= old(self).log() + (if str_models_of(
                old(self).data.variable_list@,
            ).contains(variable_name@) {
                Seq::<EventModel>::empty()
            } else {
                seq![EventModel::VariableName { name: variable_name@ }]
            }) + seq![
                EventModel::Assignment { to: to.0, pass_by, from: rvalue.model() },
            ]);
        }
    }

    /// Interns the variable name and binds it to a storage cell.
    pub fn bind_variable(&mut self, variable_name: &str, place: Place)
        requires
            old(self).wf(),
        ensures
            final(self).wf(),
            final(self).data.path_list == old(self).data.path_list,
            final(self).data.function_list == old(self).data.function_list,
            final(self).data.type_list == old(self).data.type_list,
            exists|vid: usize|
                final(self).log() == old(self).log() + (if str_models_of(
                    old(self).data.variable_list@,
                ).contains(variable_name@) {
                    Seq::<EventModel>::empty()
                } else {
                    seq![EventModel::VariableName { name: variable_name@ }]
                }) + seq![EventModel::BindVariable { variable_id: vid, place: place.0 }]
                    && #[trigger] str_models_of(final(self).data.variable_list@)[vid as int]
                    == variable_name@,
    {
        let variable_id = self.ensure_variable_id(variable_name);
        self.events.push(
            TraceLowLevelEvent::BindVariable(BindVariableRecord { variable_id, place }),
        );
        proof {
            broadcast use lemma_counts_push, lemma_stream_wf_push, lemma_event_models_push;

            assert(final(self).log() =~= old(self).log() + (if str_models_of(
                old(self).data.variable_list@,
            ).contains(variable_name@) {
                Seq::<EventModel>::empty()
            } else {
                seq![EventModel::VariableName { name: variable_name@ }]
            }) + seq![EventModel::BindVariable { variable_id: variable_id.0, place: place.0 }]);
        }
    }

    /// Interns every variable name (declaring each unseen one, in argument
    /// order) and appends one event dropping all of them, carrying their
    /// identifiers in argument order.
    pub fn drop_variables(&mut self, variable_names: &Vec<String>)
        requires
            old(self).wf(),
        ensures
            final(self).wf(),
            final(self).data.path_list == old(self).data.path_list,
            final(self).data.function_list == old(self).data.function_list,
            final(self).data.type_list == old(self).data.type_list,
            str_models_of(final(self).data.variable_list@) == interned_table(
                str_models_of(old(self).data.variable_list@),
                str_models_of(variable_names@),
            ),
            final(self).log() == old(self).log() + intern_events(
                str_models_of(old(self).data.variable_list@),
                str_models_of(variable_names@),
            ) + seq![
                EventModel::DropVariables {
                    variable_ids: interned_ids(
                        str_models_of(old(self).data.variable_list@),
                        str_models_of(variable_names@),
                    ),
                },
            ],
    {
        let ids = self.intern_all(variable_names);
        let ghost mid = self.log();
        proof {
            lemma_ids_below_iff(id_models_of(ids@), 0, self.data.variable_list@.len() as int);
            assert(forall|k: int|
                0 <= k < id_models_of(ids@).len() ==> (#[trigger] id_models_of(ids@)[k])
                    < self.data.variable_list@.len());
        }
        self.events.push(TraceLowLevelEvent::DropVariables(ids));
        proof {
            broadcast use lemma_counts_push, lemma_stream_wf_push, lemma_event_models_push;

            assert(final(self).log() == mid.push(
                EventModel::DropVariables { variable_ids: id_models_of(ids@) },
            ));
            assert(final(self).log() =~= old(self).log() + intern_events(
                str_models_of(old(self).data.variable_list@),
                str_models_of(variable_names@),
            ) + seq![
                EventModel::DropVariables {
                    variable_ids: interned_ids(
                        str_models_of(old(self).data.variable_list@),
                        str_models_of(variable_names@),
                    ),
                },
            ]);
        }
    }

    /// Interns the variable name and wraps it as a one-variable provenance.
    pub fn simple_rvalue(&mut self, variable_name: &str) -> (r: RValue)
        requires
            old(self).wf(),
        ensures
            final(self).wf(),
            final(self).data.path_list == old(self).data.path_list,
            final(self).data.function_list == old(self).data.function_list,
            final(self).data.type_list == old(self).data.type_list,
            r.model() matches crate::model::RValueModel::Simple(id) && id < final(self).data.variable_list@.len()
                && str_models_of(final(self).data.variable_list@)[id as int] == variable_name@,
            final(self).log() == old(self).log() + (if str_models_of(
                old(self).data.variable_list@,
            ).contains(variable_name@) {
                Seq::<EventModel>::empty()
            } else {
                seq![EventModel::VariableName { name: variable_name@ }]
            }),
    {
        let variable_id = self.ensure_variable_id(variable_name);
        proof {
            if str_models_of(old(self).data.variable_list@).contains(variable_name@) {
                assert(final(self).log() =~= old(self).log() + Seq::<EventModel>::empty());
            } else {
                assert(final(self).log() =~= old(self).log() + seq![
                    EventModel::VariableName { name: variable_name@ },
                ]);
            }
        }
        RValue::Simple(variable_id)
    }

    /// Interns every variable name (declaring each unseen one) and wraps
    /// their identifiers, in argument order, as a compound provenance.
    pub fn compound_rvalue(&mut self, variable_dependencies: &Vec<String>) -> (r: RValue)
        requires
            old(self).wf(),
        ensures
            final(self).wf(),
            final(self).data.path_list == old(self).data.path_list,
            final(self).data.function_list == old(self).data.function_list,
            final(self).data.type_list == old(self).data.type_list,
            r.model() == crate::model::RValueModel::Compound(
                interned_ids(
                    str_models_of(old(self).data.variable_list@),
                    str_models_of(variable_dependencies@),
                ),
            ),
            final(self).log() == old(self).log() + intern_events(
                str_models_of(old(self).data.variable_list@),
                str_models_of(variable_dependencies@),
            ),
            r.model() matches crate::model::RValueModel::Compound(ids) && ids_below_from(
                ids,
                0,
                final(self).data.variable_list@.len() as int,
            ),
    {
        let ids = self.intern_all(variable_dependencies);
        proof {
            lemma_ids_below_iff(
                id_models_of(ids@),
                0,
                self.data.variable_list@.len() as int,
            );
        }
        RValue::Compound(ids)
    }

    /// Interns a list of variable names, returning their identifiers in
    /// argument order and emitting a declaration for each unseen name.
    #[verifier::loop_isolation(false)]
    fn intern_all(&mut self, names: &Vec<String>) -> (r: Vec<VariableId>)
        requires
            old(self).wf(),
        ensures
            final(self).wf(),
            final(self).data.path_list == old(self).data.path_list,
            final(self).data.function_list == old(self).data.function_list,
            final(self).data.type_list == old(self).data.type_list,
            str_models_of(final(self).data.variable_list@) == interned_table(
                str_models_of(old(self).data.variable_list@),
                str_models_of(names@),
            ),
            id_models_of(r@) == interned_ids(
                str_models_of(old(self).data.variable_list@),
                str_models_of(names@),
            ),
            final(self).log() == old(self).log() + intern_events(
                str_models_of(old(self).data.variable_list@),
                str_models_of(names@),
            ),
            r@.len() == names@.len(),
            forall|k: int|
                0 <= k < r@.len() ==> (#[trigger] r@[k]).0 < final(self).data.variable_list@.len(),
    {
        let ghost vars0 = str_models_of(old(self).data.variable_list@);
        let ghost nm = str_models_of(names@);
        let mut r: Vec<VariableId> = Vec::new();
        let mut i: usize = 0;
        proof {
            assert(nm.subrange(0, 0) =~= Seq::<Seq<char>>::empty());
            assert(id_models_of(r@) =~= Seq::<usize>::empty());
            assert(old(self).log() + intern_events(vars0, nm.subrange(0, 0)) =~= old(self).log());
        }
        while i < names.len()
            invariant
                i <= names@.len(),
                self.wf(),
                self.data.path_list == old(self).data.path_list,
                self.data.function_list == old(self).data.function_list,
                self.data.type_list == old(self).data.type_list,
                str_models_of(self.data.variable_list@) == interned_table(
                    vars0,
                    nm.subrange(0, i as int),
                ),
                id_models_of(r@) == interned_ids(vars0, nm.subrange(0, i as int)),
                self.log() == old(self).log() + intern_events(vars0, nm.subrange(0, i as int)),
                r@.len() == i as int,
                forall|k: int|
                    0 <= k < r@.len() ==> (#[trigger] r@[k]).0 < self.data.variable_list@.len(),
            decreases names@.len() - i,
        {
            let ghost taken = nm.subrange(0, i as int);
            let ghost tbl = str_models_of(self.data.variable_list@);
            let ghost pre_log = self.log();
            let ghost pre_ids = id_models_of(r@);
            let id = self.ensure_variable_id(names[i].as_str());
            proof {
                assert(nm[i as int] == names@[i as int]@);
                assert(nm.subrange(0, i + 1) =~= taken.push(nm[i as int]));
                lemma_intern_snoc(vars0, taken, nm[i as int]);
                if tbl.contains(nm[i as int]) {
                    let cj = choose|j: int| 0 <= j < tbl.len() && tbl[j] == nm[i as int];
                    assert(tbl[id.0 as int] == nm[i as int]);
                    if cj < (id.0 as int) {
                        assert(tbl[cj] != tbl[id.0 as int]);
                    } else {
                        if (id.0 as int) < cj {
                            assert(tbl[id.0 as int] != tbl[cj]);
                        }
                    }
                    assert(id.0 == intern_step_id(tbl, nm[i as int]));
                    assert(self.log() =~= old(self).log() + intern_events(
                        vars0,
                        nm.subrange(0, i + 1),
                    ));
                } else {
                    assert(id.0 == intern_step_id(tbl, nm[i as int]));
                    assert(self.log() =~= old(self).log() + intern_events(
                        vars0,
                        nm.subrange(0, i + 1),
                    ));
                }
            }
            r.push(id);
            i = i + 1;
            proof {
                assert(id_models_of(r@) =~= pre_ids.push(id.0));
                assert(id_models_of(r@) == interned_ids(vars0, nm.subrange(0, i as int)));
            }
        }
        proof {
            assert(nm.subrange(0, names@.len() as int) =~= nm);
        }
        r
    }

    /// Appends a thread lifecycle marker: the given thread started.
    pub fn thread_start(&mut self, thread_id: ThreadId)
        requires
            old(self).wf(),
        ensures
            final(self).wf(),
            final(self).data == old(self).data,
            final(self).log() == old(self).log().push(
                EventModel::ThreadStart { thread_id: thread_id.0 },
            ),
    {
        self.events.push(TraceLowLevelEvent::ThreadStart(thread_id));
        proof {
            broadcast use lemma_counts_push, lemma_stream_wf_push, lemma_event_models_push;

        }
    }

    /// Appends a thread lifecycle marker: the given thread exited.
    pub fn thread_exit(&mut self, thread_id: ThreadId)
        requires
            old(self).wf(),
        ensures
            final(self).wf(),
            final(self).data == old(self).data,
            final(self).log() == old(self).log().push(
                EventModel::ThreadExit { thread_id: thread_id.0 },
            ),
    {
        self.events.push(TraceLowLevelEvent::ThreadExit(thread_id));
        proof {
            broadcast use lemma_counts_push, lemma_stream_wf_push, lemma_event_models_push;

        }
    }

    /// Appends a thread lifecycle marker: execution switched to the given
    /// thread.
    pub fn thread_switch(&mut self, thread_id: ThreadId)
        requires
            old(self).wf(),
        ensures
            final(self).wf(),
            final(self).data == old(self).data,
            final(self).log() == old(self).log().push(
                EventModel::ThreadSwitch { thread_id: thread_id.0 },
            ),
    {
        self.events.push(TraceLowLevelEvent::ThreadSwitch(thread_id));
        proof {
            broadcast use lemma_counts_push, lemma_stream_wf_push, lemma_event_models_push;

        }
    }

    /// Appends an undo marker: on replay, the most recent step and whatever
    /// followed it are discarded.
    pub fn drop_last_step(&mut self)
        requires
            old(self).wf(),
        ensures
            final(self).wf(),
            final(self).data == old(self).data,
            final(self).log() == old(self).log().push(EventModel::DropLastStep),
    {
        self.events.push(TraceLowLevelEvent::DropLastStep);
        proof {
            broadcast use lemma_counts_push, lemma_stream_wf_push, lemma_event_models_push;

        }
    }

    /// The first call of a recording: registers the implicit top-level
    /// pseudo-function (which receives function identifier zero), its call
    /// event, and the reserved `None` type (which receives type identifier
    /// zero).
    pub fn start(&mut self, path: &str, line: Line)
        requires
            old(self).wf(),
            old(self).log() == Seq::<EventModel>::empty(),
            old(self).data.path_list@.len() == 0,
            old(self).data.function_list@.len() == 0,
            old(self).data.variable_list@.len() == 0,
            old(self).data.type_list@.len() == 0,
        ensures
            final(self).wf(),
            final(self).data.function_list@.len() == 1,
            final(self).data.type_list@.len() == 1,
            function_names(final(self).data.function_list@) == seq!["<toplevel>"@],
            str_models_of(final(self).data.path_list@) == seq![path@],
            str_models_of(final(self).data.type_list@) == seq!["None"@],
            final(self).data.variable_list@.len() == 0,
            final(self).log() == seq![
                EventModel::Path { path: path@ },
                EventModel::Function { name: "<toplevel>"@, path_id: 0, line: line.0 },
                EventModel::Call { function_id: 0, args: Seq::<crate::model::FullValueModel>::empty() },
                EventModel::Type {
                    typ: crate::model::TypeModel {
                        kind: TypeKind::NoneKind,
                        lang_type: "None"@,
                        specific_info: TypeInfoModel::NoInfo,
                    },
                },
            ],
    {
        proof {
            assert(function_names(old(self).data.function_list@).len() == 0);
            assert(!function_names(old(self).data.function_list@).contains("<toplevel>"@));
            assert(str_models_of(old(self).data.path_list@).len() == 0);
            assert(!str_models_of(old(self).data.path_list@).contains(path@));
        }
        let function_id = self.ensure_function_id("<toplevel>", path, line);
        let ghost log1 = self.log();
        proof {
            assert(function_names(self.data.function_list@).len() == 1);
            assert(self.data.function_list@.len() == 1);
            assert(function_names(self.data.function_list@) =~= seq!["<toplevel>"@]);
            assert(str_models_of(self.data.path_list@) =~= str_models_of(
                old(self).data.path_list@,
            ).push(path@));
            assert(str_models_of(self.data.path_list@) =~= seq![path@]);
            assert(self.data.function_list@.last().path_id.0 < 1);
            assert(self.data.function_list@.last().path_id.0 == 0);
            assert(log1 =~= seq![
                EventModel::Path { path: path@ },
                EventModel::Function { name: "<toplevel>"@, path_id: 0, line: line.0 },
            ]);
        }
        self.register_call(function_id, Vec::new());
        let ghost log2 = self.log();
        proof {
            assert(log2 == log1.push(
                EventModel::Call {
                    function_id: 0,
                    args: arg_models_of(Seq::<FullValueRecord>::empty()),
                },
            ));
            assert(arg_models_of(Seq::<FullValueRecord>::empty())
                =~= Seq::<crate::model::FullValueModel>::empty());
            assert(str_models_of(self.data.type_list@).len() == 0);
            assert(!str_models_of(self.data.type_list@).contains("None"@));
        }
        let type_id = self.ensure_type_id(TypeKind::NoneKind, "None");
        proof {
            assert(str_models_of(self.data.type_list@).len() == 1);
            assert(self.data.type_list@.len() == 1);
            assert(str_models_of(self.data.type_list@) =~= seq!["None"@]);
            assert(final(self).log() == log2.push(
                EventModel::Type {
                    typ: crate::model::TypeModel {
                        kind: TypeKind::NoneKind,
                        lang_type: "None"@,
                        specific_info: TypeInfoModel::NoInfo,
                    },
                },
            ));
            assert(final(self).log() =~= seq![
                EventModel::Path { path: path@ },
                EventModel::Function { name: "<toplevel>"@, path_id: 0, line: line.0 },
                EventModel::Call {
                    function_id: 0,
                    args: Seq::<crate::model::FullValueModel>::empty(),
                },
                EventModel::Type {
                    typ: crate::model::TypeModel {
                        kind: TypeKind::NoneKind,
                        lang_type: "None"@,
                        specific_info: TypeInfoModel::NoInfo,
                    },
                },
            ]);
        }
    }
}

/// Every identifier in a provenance stays declared as the table grows.
proof fn lemma_ids_below_monotone(r: crate::model::RValueModel, nv0: int, nv1: int)
    requires
        nv0 <= nv1,
        match r {
            crate::model::RValueModel::Simple(id) => id < nv0,
            crate::model::RValueModel::Compound(ids) => ids_below_from(ids, 0, nv0),
        },
    ensures
        match r {
            crate::model::RValueModel::Simple(id) => id < nv1,
            crate::model::RValueModel::Compound(ids) => ids_below_from(ids, 0, nv1),
        },
{
    match r {
        crate::model::RValueModel::Simple(_) => (),
        crate::model::RValueModel::Compound(ids) => {
            lemma_ids_below_iff(ids, 0, nv0);
            lemma_ids_below_iff(ids, 0, nv1);
        },
    }
}

/// Every identifier from index `i` on is below `nv` exactly when each one is.
pub proof fn lemma_ids_below_iff(ids: Seq<usize>, i: int, nv: int)
    requires
        0 <= i <= ids.len(),
    ensures
        ids_below_from(ids, i, nv) <==> (forall|j: int|
            i <= j < ids.len() ==> (#[trigger] ids[j]) < nv),
    decreases ids.len() - i,
{
    if i < ids.len() {
        lemma_ids_below_iff(ids, i + 1, nv);
    }
}

/// Every argument from index `i` on refers only to declared identifiers
/// exactly when each one does.
pub proof fn lemma_args_refs_iff(
    args: Seq<crate::model::FullValueModel>,
    i: int,
    nv: int,
    nt: int,
)
    requires
        0 <= i <= args.len(),
    ensures
        args_refs_ok_from(args, i, nv, nt) <==> (forall|j: int|
            i <= j < args.len() ==> (#[trigger] args[j].variable_id) < nv && value_refs_ok(
                args[j].value,
                nt,
            )),
    decreases args.len() - i,
{
    if i < args.len() {
        lemma_args_refs_iff(args, i + 1, nv, nt);
    }
}

/// Every log a well-formed recorder has produced is definition-before-use:
/// each event referring to a path, function, variable-name or type
/// identifier appears strictly after that identifier's declaration event.
pub proof fn lemma_definition_before_use(t: &Tracer)
    requires
        t.wf(),
    ensures
        stream_wf(t.log()),
{
}

} // verus!
