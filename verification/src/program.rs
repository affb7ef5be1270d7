//! A compiled program: the types of every class field and function signature, as value
//! kinds, once every type of the layout has resolved.
use vstd::prelude::*;

use crate::indexers::{ClassIndex, FuncIndex};
use crate::layout::{LayoutModel, ProgramLayout};
use crate::name_map::NamedList;
use crate::resolve::{resolve_model, ResolveError, ResolvedProgram, ResolvedValue};
use crate::value::ValueKind;

verus! {

/// The value kind a resolved type stands for.
pub open spec fn kind_of(v: ResolvedValue) -> ValueKind {
    match v {
        ResolvedValue::Any => ValueKind::Any,
        ResolvedValue::NoneValue => ValueKind::NoneValue,
        ResolvedValue::Bool => ValueKind::Bool,
        ResolvedValue::Int => ValueKind::Int,
        ResolvedValue::Float => ValueKind::Float,
        ResolvedValue::Str => ValueKind::Str,
        ResolvedValue::Class(c) => ValueKind::Class(c),
    }
}

/// The value kinds of a list of resolved types.
pub open spec fn kinds(vs: Seq<ResolvedValue>) -> Seq<ValueKind> {
    vs.map_values(|v: ResolvedValue| kind_of(v))
}

/// Named lists of resolved types as value kinds.
pub open spec fn named_kinds(e: Seq<(Seq<char>, Seq<ResolvedValue>)>) -> Seq<(Seq<char>, Seq<ValueKind>)> {
    Seq::new(e.len(), |i: int| (e[i].0, kinds(e[i].1)))
}

/// Named lists of value kinds by value.
pub open spec fn kinds_view(e: Seq<(Seq<char>, Vec<ValueKind>)>) -> Seq<(Seq<char>, Seq<ValueKind>)> {
    Seq::new(e.len(), |i: int| (e[i].0, e[i].1@))
}

/// A compiled class: the value kinds each field may hold, by field name.
pub struct Class {
    fields: NamedList<Vec<ValueKind>>,
}

/// A compiled function: the value kinds of each parameter, by name, and of its output.
pub struct Func {
    inputs: NamedList<Vec<ValueKind>>,
    output: Vec<ValueKind>,
}

/// A compiled program: its classes and functions, by the layout's indices.
pub struct Program {
    classes: Vec<Class>,
    funcs: Vec<Func>,
}

/// The value of a [`Class`].
pub struct ClassKinds {
    pub fields: Seq<(Seq<char>, Seq<ValueKind>)>,
}

/// The value of a [`Func`].
pub struct FuncKinds {
    pub inputs: Seq<(Seq<char>, Seq<ValueKind>)>,
    pub output: Seq<ValueKind>,
}

/// The value of a [`Program`].
pub struct ProgramModel {
    pub classes: Seq<ClassKinds>,
    pub funcs: Seq<FuncKinds>,
}

impl View for Class {
    type V = ClassKinds;

    closed spec fn view(&self) -> ClassKinds {
        ClassKinds { fields: kinds_view(self.fields@) }
    }
}

impl View for Func {
    type V = FuncKinds;

    closed spec fn view(&self) -> FuncKinds {
        FuncKinds { inputs: kinds_view(self.inputs@), output: self.output@ }
    }
}

impl View for Program {
    type V = ProgramModel;

    closed spec fn view(&self) -> ProgramModel {
        ProgramModel {
            classes: self.classes@.map_values(|c: Class| c@),
            funcs: self.funcs@.map_values(|f: Func| f@),
        }
    }
}

/// Compiling a layout: every type of every class field, then of every function's output
/// and parameters, is resolved from the scope that defines it (see [`resolve_model`]);
/// any error makes the result the errors, in that order, and otherwise the program holds
/// the value kinds of every field, parameter and output.
pub open spec fn compile_model(m: LayoutModel) -> Result<ProgramModel, Seq<ResolveError>> {
    let r = resolve_model(m);
    if r.errors.len() > 0 {
        Err(r.errors)
    } else {
        Ok(
            ProgramModel {
                classes: r.classes.map_values(|c: crate::resolve::ResolvedClassModel| ClassKinds { fields: named_kinds(c.fields) }),
                funcs: r.funcs.map_values(
                    |f: crate::resolve::ResolvedFuncModel|
                        FuncKinds {
                            inputs: named_kinds(f.inputs),
                            output: f.output.map_values(|p: (crate::ast::NodeId, ResolvedValue)| kind_of(p.1)),
                        },
                ),
            },
        )
    }
}

/// The value kind of a resolved type.
fn to_kind(v: ResolvedValue) -> (k: ValueKind)
    ensures
        k == kind_of(v),
{
    match v {
        ResolvedValue::Any => ValueKind::Any,
        ResolvedValue::NoneValue => ValueKind::NoneValue,
        ResolvedValue::Bool => ValueKind::Bool,
        ResolvedValue::Int => ValueKind::Int,
        ResolvedValue::Float => ValueKind::Float,
        ResolvedValue::Str => ValueKind::Str,
        ResolvedValue::Class(c) => ValueKind::Class(c),
    }
}

/// The value kinds of a list of resolved types.
fn to_kinds(vs: &Vec<ResolvedValue>) -> (r: Vec<ValueKind>)
    ensures
        r@ == kinds(vs@),
{
    let mut out: Vec<ValueKind> = Vec::new();
    let mut i: usize = 0;
    while i < vs.len()
        invariant
            i <= vs@.len(),
            out@ == kinds(vs@.subrange(0, i as int)),
        decreases vs@.len() - i,
    {
        out.push(to_kind(vs[i]));
        i = i + 1;
        assert(out@ =~= kinds(vs@.subrange(0, i as int)));
    }
    assert(vs@.subrange(0, i as int) =~= vs@);
    out
}

/// The output types of a resolved function as value kinds.
fn output_kinds(vs: &Vec<(crate::ast::NodeId, ResolvedValue)>) -> (r: Vec<ValueKind>)
    ensures
        r@ == vs@.map_values(|p: (crate::ast::NodeId, ResolvedValue)| kind_of(p.1)),
{
    let mut out: Vec<ValueKind> = Vec::new();
    let mut i: usize = 0;
    while i < vs.len()
        invariant
            i <= vs@.len(),
            out@ == vs@.subrange(0, i as int).map_values(|p: (crate::ast::NodeId, ResolvedValue)| kind_of(p.1)),
        decreases vs@.len() - i,
    {
        out.push(to_kind(vs[i].1));
        i = i + 1;
        assert(out@ =~= vs@.subrange(0, i as int).map_values(|p: (crate::ast::NodeId, ResolvedValue)| kind_of(p.1)));
    }
    assert(vs@.subrange(0, i as int) =~= vs@);
    out
}

/// A named list of resolved types as value kinds, in the same order.
fn named_to_kinds(l: &NamedList<Vec<ResolvedValue>>) -> (r: NamedList<Vec<ValueKind>>)
    requires
        l.wf(),
    ensures
        r.wf(),
        kinds_view(r@) == named_kinds(crate::resolve::types_view(l@)),
{
    proof {
        l.lemma_unique();
    }
    let mut out: NamedList<Vec<ValueKind>> = NamedList::new();
    let n = l.len();
    let mut i: usize = 0;
    while i < n
        invariant
            l.wf(),
            n == l@.len(),
            forall|a: int, b: int| 0 <= a < b < l@.len() ==> l@[a].0 != l@[b].0,
            out.wf(),
            i <= n,
            out@.len() == i,
            forall|j: int| 0 <= j < i ==> (#[trigger] out@[j]).0 == l@[j].0 && out@[j].1@ == kinds(l@[j].1@),
        decreases n - i,
    {
        let (name, vs) = l.get_index(i).unwrap();
        let ks = to_kinds(vs);
        let ghost before = out@;
        let added = out.insert_new(name, ks);
        assert(added) by {
            assert forall|j: int| 0 <= j < before.len() implies #[trigger] before[j].0 != l@[i as int].0 by {
                assert(before[j].0 == l@[j].0);
            }
        }
        i = i + 1;
    }
    assert(kinds_view(out@) =~= named_kinds(crate::resolve::types_view(l@)));
    out
}

impl Class {
    /// The name list is well formed.
    pub closed spec fn wf(&self) -> bool {
        self.fields.wf()
    }

    /// The value kinds of the field named `name`, if there is one.
    pub fn get_field(&self, name: &str) -> (r: Option<&Vec<ValueKind>>)
        requires
            self.wf(),
        ensures
            r matches Some(v) ==> exists|i: int| 0 <= i < self@.fields.len() && #[trigger] self@.fields[i].0 == name@
                && self@.fields[i].1 == v@,
            r is None <==> forall|i: int| 0 <= i < self@.fields.len() ==> #[trigger] self@.fields[i].0 != name@,
    {
        let r = self.fields.get(name);
        proof {
            if r is None {
                assert forall|i: int| 0 <= i < self@.fields.len() implies #[trigger] self@.fields[i].0 != name@ by {
                    assert(self.fields@[i].0 == self@.fields[i].0);
                }
            } else {
                let i = choose|i: int| 0 <= i < self.fields@.len() && #[trigger] self.fields@[i].0 == name@
                    && self.fields@[i].1 == *r.unwrap();
                assert(self@.fields[i].0 == name@);
            }
        }
        r
    }

    /// The value kinds of the field at position `index`, if there is one.
    pub fn get_field_index(&self, index: usize) -> (r: Option<&Vec<ValueKind>>)
        requires
            self.wf(),
        ensures
            index < self@.fields.len() ==> r is Some && r.unwrap()@ == self@.fields[index as int].1,
            index >= self@.fields.len() ==> r is None,
    {
        match self.fields.get_index(index) {
            Some((_, v)) => Some(v),
            None => None,
        }
    }

    /// The position of the field named `name`, if there is one.
    pub fn get_field_index_of(&self, name: &str) -> (r: Option<usize>)
        requires
            self.wf(),
        ensures
            r matches Some(i) ==> i < self@.fields.len() && self@.fields[i as int].0 == name@,
            r is None <==> forall|i: int| 0 <= i < self@.fields.len() ==> #[trigger] self@.fields[i].0 != name@,
    {
        let r = self.fields.position(name);
        proof {
            assert forall|i: int| 0 <= i < self@.fields.len() implies self@.fields[i].0 == self.fields@[i].0 by {}
        }
        r
    }
}

impl Func {
    /// The name list is well formed.
    pub closed spec fn wf(&self) -> bool {
        self.inputs.wf()
    }

    /// The value kinds of the output.
    pub fn output(&self) -> (r: &Vec<ValueKind>)
        ensures
            r@ == self@.output,
    {
        &self.output
    }

    /// The value kinds of the parameter named `name`, if there is one.
    pub fn get_input(&self, name: &str) -> (r: Option<&Vec<ValueKind>>)
        requires
            self.wf(),
        ensures
            r matches Some(v) ==> exists|i: int| 0 <= i < self@.inputs.len() && #[trigger] self@.inputs[i].0 == name@
                && self@.inputs[i].1 == v@,
            r is None <==> forall|i: int| 0 <= i < self@.inputs.len() ==> #[trigger] self@.inputs[i].0 != name@,
    {
        let r = self.inputs.get(name);
        proof {
            if r is None {
                assert forall|i: int| 0 <= i < self@.inputs.len() implies #[trigger] self@.inputs[i].0 != name@ by {
                    assert(self.inputs@[i].0 == self@.inputs[i].0);
                }
            } else {
                let i = choose|i: int| 0 <= i < self.inputs@.len() && #[trigger] self.inputs@[i].0 == name@
                    && self.inputs@[i].1 == *r.unwrap();
                assert(self@.inputs[i].0 == name@);
            }
        }
        r
    }

    /// The value kinds of the parameter at position `index`, if there is one.
    pub fn get_input_index(&self, index: usize) -> (r: Option<&Vec<ValueKind>>)
        requires
            self.wf(),
        ensures
            index < self@.inputs.len() ==> r is Some && r.unwrap()@ == self@.inputs[index as int].1,
            index >= self@.inputs.len() ==> r is None,
    {
        match self.inputs.get_index(index) {
            Some((_, v)) => Some(v),
            None => None,
        }
    }

    /// The position of the parameter named `name`, if there is one.
    pub fn get_input_index_of(&self, name: &str) -> (r: Option<usize>)
        requires
            self.wf(),
        ensures
            r matches Some(i) ==> i < self@.inputs.len() && self@.inputs[i as int].0 == name@,
            r is None <==> forall|i: int| 0 <= i < self@.inputs.len() ==> #[trigger] self@.inputs[i].0 != name@,
    {
        let r = self.inputs.position(name);
        proof {
            assert forall|i: int| 0 <= i < self@.inputs.len() implies self@.inputs[i].0 == self.inputs@[i].0 by {}
        }
        r
    }
}

impl Program {
    /// Every class and function is well formed.
    pub closed spec fn wf(&self) -> bool {
        &&& forall|k: int| 0 <= k < self.classes@.len() ==> (#[trigger] self.classes@[k]).wf()
        &&& forall|k: int| 0 <= k < self.funcs@.len() ==> (#[trigger] self.funcs@[k]).wf()
    }

    /// Compiles a layout (see [`compile_model`]).
    pub fn compile(layout: &ProgramLayout) -> (r: Result<Program, Vec<ResolveError>>)
        requires
            layout.wf(),
        ensures
            match r {
                Ok(p) => p.wf() && compile_model(layout@) == Ok::<ProgramModel, Seq<ResolveError>>(p@),
                Err(es) => compile_model(layout@) == Err::<ProgramModel, Seq<ResolveError>>(es@),
            },
    {
        let resolved = ResolvedProgram::resolve(layout);
        let errors = resolved.errors();
        if errors.len() > 0 {
            let mut out: Vec<ResolveError> = Vec::new();
            let mut i: usize = 0;
            while i < errors.len()
                invariant
                    i <= errors@.len(),
                    out@ == errors@.subrange(0, i as int),
                decreases errors@.len() - i,
            {
                out.push(errors[i]);
                i = i + 1;
                assert(out@ =~= errors@.subrange(0, i as int));
            }
            assert(errors@.subrange(0, i as int) =~= errors@);
            return Err(out);
        }
        let ghost rm = resolve_model(layout@);
        let rclasses = resolved.classes();
        let mut classes: Vec<Class> = Vec::new();
        let mut i: usize = 0;
        while i < rclasses.len()
            invariant
                i <= rclasses@.len(),
                rclasses@.map_values(|c: crate::resolve::ClassData| c@) == rm.classes,
                forall|k: int| 0 <= k < rclasses@.len() ==> (#[trigger] rclasses@[k]).fields.wf(),
                classes@.len() == i,
                forall|k: int| 0 <= k < i ==> (#[trigger] classes@[k]).wf() && classes@[k]@ == (ClassKinds {
                    fields: named_kinds(rm.classes[k].fields),
                }),
            decreases rclasses@.len() - i,
        {
            let fields = named_to_kinds(&rclasses[i].fields);
            classes.push(Class { fields });
            i = i + 1;
        }
        let rfuncs = resolved.funcs();
        let mut funcs: Vec<Func> = Vec::new();
        let mut j: usize = 0;
        while j < rfuncs.len()
            invariant
                j <= rfuncs@.len(),
                rfuncs@.map_values(|f: crate::resolve::FuncData| f@) == rm.funcs,
                forall|k: int| 0 <= k < rfuncs@.len() ==> (#[trigger] rfuncs@[k]).inputs.wf(),
                funcs@.len() == j,
                forall|k: int| 0 <= k < j ==> (#[trigger] funcs@[k]).wf() && funcs@[k]@ == (FuncKinds {
                    inputs: named_kinds(rm.funcs[k].inputs),
                    output: rm.funcs[k].output.map_values(|p: (crate::ast::NodeId, ResolvedValue)| kind_of(p.1)),
                }),
            decreases rfuncs@.len() - j,
        {
            let inputs = named_to_kinds(&rfuncs[j].inputs);
            let output = output_kinds(&rfuncs[j].output);
            funcs.push(Func { inputs, output });
            j = j + 1;
        }
        let p = Program { classes, funcs };
        assert(p@.classes =~= compile_model(layout@)->Ok_0.classes);
        assert(p@.funcs =~= compile_model(layout@)->Ok_0.funcs);
        Ok(p)
    }

    /// The compiled class at `index`, if there is one.
    pub fn get_class(&self, index: ClassIndex) -> (r: Option<&Class>)
        requires
            self.wf(),
        ensures
            index.0 < self@.classes.len() ==> r is Some && r.unwrap().wf() && r.unwrap()@ == self@.classes[index.0 as int],
            index.0 >= self@.classes.len() ==> r is None,
    {
        if index.raw() < self.classes.len() {
            Some(&self.classes[index.raw()])
        } else {
            None
        }
    }

    /// The compiled function at `index`, if there is one.
    pub fn get_func(&self, index: FuncIndex) -> (r: Option<&Func>)
        requires
            self.wf(),
        ensures
            index.0 < self@.funcs.len() ==> r is Some && r.unwrap().wf() && r.unwrap()@ == self@.funcs[index.0 as int],
            index.0 >= self@.funcs.len() ==> r is None,
    {
        if index.raw() < self.funcs.len() {
            Some(&self.funcs[index.raw()])
        } else {
            None
        }
    }
}


/// Value kind `k` is the kind of the same name as resolved type `v`: `Any`, `None`,
/// `Bool`, `Int`, `Float` and `Str` are themselves, and a class is the same class.
pub open spec fn same_kind(v: ResolvedValue, k: ValueKind) -> bool {
    &&& (v == ResolvedValue::Any <==> k == ValueKind::Any)
    &&& (v == ResolvedValue::NoneValue <==> k == ValueKind::NoneValue)
    &&& (v == ResolvedValue::Bool <==> k == ValueKind::Bool)
    &&& (v == ResolvedValue::Int <==> k == ValueKind::Int)
    &&& (v == ResolvedValue::Float <==> k == ValueKind::Float)
    &&& (v == ResolvedValue::Str <==> k == ValueKind::Str)
    &&& forall|c: ClassIndex| v == ResolvedValue::Class(c) <==> k == ValueKind::Class(c)
}

proof fn lemma_kind_of_same(v: ResolvedValue)
    ensures
        same_kind(v, kind_of(v)),
{
}

/// A compiled program keeps every class field, function parameter and output of the
/// resolved program, in order and by name, each type becoming the value kind of the same
/// name: a field or parameter typed `float` holds `Float`, one typed with a class holds
/// that class.
pub proof fn lemma_compile_keeps_kinds(m: LayoutModel)
    requires
        compile_model(m) is Ok,
    ensures
        ({
            let p = compile_model(m)->Ok_0;
            let r = resolve_model(m);
            &&& p.classes.len() == r.classes.len()
            &&& p.funcs.len() == r.funcs.len()
            &&& forall|c: int, i: int|
                0 <= c < r.classes.len() && 0 <= i < r.classes[c].fields.len() ==> {
                    &&& p.classes[c].fields.len() == r.classes[c].fields.len()
                    &&& (#[trigger] p.classes[c].fields[i]).0 == r.classes[c].fields[i].0
                    &&& p.classes[c].fields[i].1.len() == r.classes[c].fields[i].1.len()
                    &&& forall|j: int|
                        0 <= j < r.classes[c].fields[i].1.len() ==> same_kind(
                            r.classes[c].fields[i].1[j],
                            #[trigger] p.classes[c].fields[i].1[j],
                        )
                }
            &&& forall|f: int, i: int|
                0 <= f < r.funcs.len() && 0 <= i < r.funcs[f].inputs.len() ==> {
                    &&& p.funcs[f].inputs.len() == r.funcs[f].inputs.len()
                    &&& (#[trigger] p.funcs[f].inputs[i]).0 == r.funcs[f].inputs[i].0
                    &&& p.funcs[f].inputs[i].1.len() == r.funcs[f].inputs[i].1.len()
                    &&& forall|j: int|
                        0 <= j < r.funcs[f].inputs[i].1.len() ==> same_kind(
                            r.funcs[f].inputs[i].1[j],
                            #[trigger] p.funcs[f].inputs[i].1[j],
                        )
                }
            &&& forall|f: int|
                0 <= f < r.funcs.len() ==> (#[trigger] p.funcs[f]).output.len() == r.funcs[f].output.len()
                    && forall|j: int|
                    0 <= j < r.funcs[f].output.len() ==> same_kind(r.funcs[f].output[j].1, #[trigger] p.funcs[f].output[j])
        }),
{
    let p = compile_model(m)->Ok_0;
    let r = resolve_model(m);
    assert forall|c: int, i: int, j: int|
        0 <= c < r.classes.len() && 0 <= i < r.classes[c].fields.len() && 0 <= j < r.classes[c].fields[i].1.len()
            implies same_kind(r.classes[c].fields[i].1[j], #[trigger] p.classes[c].fields[i].1[j]) by {
        lemma_kind_of_same(r.classes[c].fields[i].1[j]);
    }
    assert forall|f: int, i: int, j: int|
        0 <= f < r.funcs.len() && 0 <= i < r.funcs[f].inputs.len() && 0 <= j < r.funcs[f].inputs[i].1.len()
            implies same_kind(r.funcs[f].inputs[i].1[j], #[trigger] p.funcs[f].inputs[i].1[j]) by {
        lemma_kind_of_same(r.funcs[f].inputs[i].1[j]);
    }
    assert forall|f: int, j: int| 0 <= f < r.funcs.len() && 0 <= j < r.funcs[f].output.len() implies same_kind(
        r.funcs[f].output[j].1,
        #[trigger] p.funcs[f].output[j],
    ) by {
        lemma_kind_of_same(r.funcs[f].output[j].1);
    }
}

} // verus!
