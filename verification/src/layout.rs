//! The program layout: every scope, global, class and function of a module tree, laid
//! out in tables and found again by typed indices.
use vstd::prelude::*;

use crate::ast::{
    copy_union, Class, DefKind, Definition, Field, Func, Module, NodeId, PathUnion, Statement,
    UnionModel, Visibility,
};
use crate::indexers::{ClassIndex, FuncIndex, GlobalIndex, ScopeIndex};
use crate::name_map::{
    has_entry, lemma_set_entry_map, map_entries, set_entry, unique_entries, NamedList,
};

verus! {

/// A value with the visibility it was defined with and the node it came from.
#[derive(Debug, Clone, Copy)]
pub struct VisData<T> {
    pub vis: Visibility,
    pub id: NodeId,
    pub data: T,
}

/// What a name in a scope stands for.
#[derive(Debug, Clone, Copy, PartialEq, Eq, Structural, Hash)]
pub enum DefIndex {
    Global(GlobalIndex),
    Module(ScopeIndex),
    Class(ClassIndex),
    Func(FuncIndex),
}

/// An error found while laying out a program.
#[derive(Debug, Clone, Copy, PartialEq, Eq, Hash)]
pub enum LayoutError {
    DuplicateModule { first: NodeId, second: NodeId },
    DuplicateClass { first: NodeId, second: NodeId },
    DuplicateFunc { first: NodeId, second: NodeId },
    /// A name was defined twice in one scope: `first` is the name node of the definition
    /// that was kept, `second` that of the one that was dropped.
    DuplicateIdent { first: NodeId, second: NodeId },
    Unimplemented { id: NodeId, message: &'static str },
}

/// A scope: its enclosing module scope (`super`), the scope it is nested in inside its
/// module (`parent`), and the names defined in it.
pub struct ScopeData {
    pub super_scope: Option<ScopeIndex>,
    pub parent_scope: Option<ScopeIndex>,
    pub defs: NamedList<VisData<DefIndex>>,
}

/// A class: the scope it is defined in, the scope of its own definitions, and its fields.
pub struct ClassData {
    pub parent_scope: ScopeIndex,
    pub inner_scope: ScopeIndex,
    pub fields: NamedList<VisData<PathUnion>>,
}

/// A function: the scope it is defined in, the scope of its body, its parameters, its
/// output type, and the local statements of its body.
pub struct FuncData {
    pub parent_scope: ScopeIndex,
    pub inner_scope: ScopeIndex,
    pub parameters: NamedList<PathUnion>,
    pub output: PathUnion,
    pub body: Vec<NodeId>,
}

/// The value of a scope.
pub struct ScopeModel {
    pub super_scope: Option<ScopeIndex>,
    pub parent_scope: Option<ScopeIndex>,
    pub defs: Seq<(Seq<char>, VisData<DefIndex>)>,
}

/// The value of a class.
pub struct ClassModel {
    pub parent_scope: ScopeIndex,
    pub inner_scope: ScopeIndex,
    pub fields: Seq<(Seq<char>, VisData<UnionModel>)>,
}

/// The value of a function.
pub struct FuncModel {
    pub parent_scope: ScopeIndex,
    pub inner_scope: ScopeIndex,
    pub parameters: Seq<(Seq<char>, UnionModel)>,
    pub output: UnionModel,
    pub body: Seq<NodeId>,
}

/// The value of a whole layout.
pub struct LayoutModel {
    pub errors: Seq<LayoutError>,
    pub scopes: Seq<ScopeModel>,
    pub globals: Seq<NodeId>,
    pub classes: Seq<ClassModel>,
    pub funcs: Seq<FuncModel>,
}

/// A field entry by value.
pub open spec fn vis_union(v: VisData<PathUnion>) -> VisData<UnionModel> {
    VisData { vis: v.vis, id: v.id, data: v.data@ }
}

/// Class fields by value.
pub open spec fn fields_view(e: Seq<(Seq<char>, VisData<PathUnion>)>) -> Seq<(Seq<char>, VisData<UnionModel>)> {
    Seq::new(e.len(), |i: int| (e[i].0, vis_union(e[i].1)))
}

/// Function parameters by value.
pub open spec fn params_view(e: Seq<(Seq<char>, PathUnion)>) -> Seq<(Seq<char>, UnionModel)> {
    Seq::new(e.len(), |i: int| (e[i].0, e[i].1@))
}

proof fn lemma_fields_view_set(e: Seq<(Seq<char>, VisData<PathUnion>)>, name: Seq<char>, v: VisData<PathUnion>)
    ensures
        fields_view(set_entry(e, name, v)) == set_entry(fields_view(e), name, vis_union(v)),
{
    let f = |x: VisData<PathUnion>| vis_union(x);
    lemma_set_entry_map(e, name, v, f);
    assert(fields_view(set_entry(e, name, v)) =~= map_entries(set_entry(e, name, v), f));
    assert(fields_view(e) =~= map_entries(e, f));
}

proof fn lemma_params_view_set(e: Seq<(Seq<char>, PathUnion)>, name: Seq<char>, v: PathUnion)
    ensures
        params_view(set_entry(e, name, v)) == set_entry(params_view(e), name, v@),
{
    let f = |x: PathUnion| x@;
    lemma_set_entry_map(e, name, v, f);
    assert(params_view(set_entry(e, name, v)) =~= map_entries(set_entry(e, name, v), f));
    assert(params_view(e) =~= map_entries(e, f));
}

impl View for ScopeData {
    type V = ScopeModel;

    open spec fn view(&self) -> ScopeModel {
        ScopeModel { super_scope: self.super_scope, parent_scope: self.parent_scope, defs: self.defs@ }
    }
}

impl View for ClassData {
    type V = ClassModel;

    open spec fn view(&self) -> ClassModel {
        ClassModel {
            parent_scope: self.parent_scope,
            inner_scope: self.inner_scope,
            fields: fields_view(self.fields@),
        }
    }
}

impl View for FuncData {
    type V = FuncModel;

    open spec fn view(&self) -> FuncModel {
        FuncModel {
            parent_scope: self.parent_scope,
            inner_scope: self.inner_scope,
            parameters: params_view(self.parameters@),
            output: self.output@,
            body: self.body@,
        }
    }
}

// ----- the layout as a function of the module tree -----

/// A scope with no names yet.
pub open spec fn empty_scope(super_scope: Option<ScopeIndex>, parent_scope: Option<ScopeIndex>) -> ScopeModel {
    ScopeModel { super_scope, parent_scope, defs: Seq::empty() }
}

/// The layout before any definition is inserted: the root scope alone.
pub open spec fn root_layout() -> LayoutModel {
    LayoutModel {
        errors: Seq::empty(),
        scopes: seq![empty_scope(None, None)],
        globals: Seq::empty(),
        classes: Seq::empty(),
        funcs: Seq::empty(),
    }
}

/// Adds a scope at the end.
pub open spec fn push_scope(m: LayoutModel, s: ScopeModel) -> LayoutModel {
    LayoutModel { scopes: m.scopes.push(s), ..m }
}

/// The fields of a class by value: each field name set to its visibility and union, a
/// later field of the same name replacing an earlier one in place.
pub open spec fn fields_model(fields: Seq<Field>) -> Seq<(Seq<char>, VisData<UnionModel>)>
    decreases fields.len(),
{
    if fields.len() == 0 {
        Seq::empty()
    } else {
        let f = fields.last();
        set_entry(
            fields_model(fields.drop_last()),
            f.name@,
            VisData { vis: f.vis, id: f.union.id, data: f.union@ },
        )
    }
}

/// The parameters of a function by value, in the same way as class fields.
pub open spec fn params_model(params: Seq<Field>) -> Seq<(Seq<char>, UnionModel)>
    decreases params.len(),
{
    if params.len() == 0 {
        Seq::empty()
    } else {
        let p = params.last();
        set_entry(params_model(params.drop_last()), p.name@, p.union@)
    }
}

/// The nodes of the local statements of a body, in order.
pub open spec fn body_locals(body: Seq<Statement>) -> Seq<NodeId>
    decreases body.len(),
{
    if body.len() == 0 {
        Seq::empty()
    } else {
        match body.last() {
            Statement::Local(id) => body_locals(body.drop_last()).push(id),
            Statement::Global(_) => body_locals(body.drop_last()),
        }
    }
}

/// Records `name` in scope `scope` as standing for `entry`: if the scope has that name
/// already, the first definition stays and a duplicate error is added.
pub open spec fn register(m: LayoutModel, scope: int, name: Seq<char>, entry: VisData<DefIndex>) -> LayoutModel {
    let defs = m.scopes[scope].defs;
    if has_entry(defs, name) {
        let i = choose|i: int| 0 <= i < defs.len() && (#[trigger] defs[i]).0 == name;
        LayoutModel {
            errors: m.errors.push(LayoutError::DuplicateIdent { first: defs[i].1.id, second: entry.id }),
            ..m
        }
    } else {
        LayoutModel {
            scopes: m.scopes.update(scope, ScopeModel { defs: defs.push((name, entry)), ..m.scopes[scope] }),
            ..m
        }
    }
}

/// Inserts one definition into scope `scope`: what it defines first (with everything
/// inside it), then its name.
pub open spec fn insert_def(m: LayoutModel, scope: int, d: Definition) -> LayoutModel
    decreases d,
{
    let (m1, index) = match d.kind {
        DefKind::Global(expr) => (
            LayoutModel { globals: m.globals.push(expr), ..m },
            DefIndex::Global(GlobalIndex(m.globals.len() as usize)),
        ),
        DefKind::Module(module) => {
            let s = m.scopes.len();
            let m0 = push_scope(m, empty_scope(Some(ScopeIndex(scope as usize)), None));
            (insert_defs(m0, s as int, module.defs@), DefIndex::Module(ScopeIndex(s as usize)))
        },
        DefKind::Class(class) => {
            let s = m.scopes.len();
            let m0 = push_scope(m, empty_scope(m.scopes[scope].super_scope, Some(ScopeIndex(scope as usize))));
            let c = ClassModel {
                parent_scope: ScopeIndex(scope as usize),
                inner_scope: ScopeIndex(s as usize),
                fields: fields_model(class.fields@),
            };
            let m1 = LayoutModel { classes: m0.classes.push(c), ..m0 };
            (insert_defs(m1, s as int, class.defs@), DefIndex::Class(ClassIndex(m.classes.len() as usize)))
        },
        DefKind::Func(func) => {
            let s = m.scopes.len();
            let m0 = push_scope(m, empty_scope(m.scopes[scope].super_scope, Some(ScopeIndex(scope as usize))));
            let m1 = insert_body(m0, s as int, func.body@);
            let f = FuncModel {
                parent_scope: ScopeIndex(scope as usize),
                inner_scope: ScopeIndex(s as usize),
                parameters: params_model(func.parameters@),
                output: func.output@,
                body: body_locals(func.body@),
            };
            (LayoutModel { funcs: m1.funcs.push(f), ..m1 }, DefIndex::Func(FuncIndex(m1.funcs.len() as usize)))
        },
    };
    register(m1, scope, d.name@, VisData { vis: d.vis, id: d.name_id, data: index })
}

/// Inserts definitions into scope `scope`, in order.
pub open spec fn insert_defs(m: LayoutModel, scope: int, defs: Seq<Definition>) -> LayoutModel
    decreases defs,
{
    if defs.len() == 0 {
        m
    } else {
        insert_def(insert_defs(m, scope, defs.drop_last()), scope, defs.last())
    }
}

/// Inserts the definitions among the statements of a body into scope `scope`, in order.
pub open spec fn insert_body(m: LayoutModel, scope: int, body: Seq<Statement>) -> LayoutModel
    decreases body,
{
    if body.len() == 0 {
        m
    } else {
        let m0 = insert_body(m, scope, body.drop_last());
        match body.last() {
            Statement::Local(_) => m0,
            Statement::Global(d) => insert_def(m0, scope, d),
        }
    }
}

/// The layout of a module tree: its definitions inserted into the root scope.
pub open spec fn build_model(ast: Module) -> LayoutModel {
    insert_defs(root_layout(), 0, ast.defs@)
}

// ----- well-formedness -----

/// `d` names an entry that exists in `m`.
pub open spec fn index_valid(m: LayoutModel, d: DefIndex) -> bool {
    match d {
        DefIndex::Global(g) => g.0 < m.globals.len(),
        DefIndex::Module(s) => s.0 < m.scopes.len(),
        DefIndex::Class(c) => c.0 < m.classes.len(),
        DefIndex::Func(f) => f.0 < m.funcs.len(),
    }
}

/// Scope `i` of `m` is well formed: the scopes it is nested in come before it, its names
/// are unique, and each stands for an entry that exists.
pub open spec fn scope_wf(m: LayoutModel, i: int) -> bool {
    let s = m.scopes[i];
    &&& (s.super_scope matches Some(p) ==> p.0 < i)
    &&& (s.parent_scope matches Some(p) ==> p.0 < i)
    &&& (i > 0 ==> s.super_scope is Some || s.parent_scope is Some)
    &&& unique_entries(s.defs)
    &&& forall|j: int| 0 <= j < s.defs.len() ==> index_valid(m, #[trigger] s.defs[j].1.data)
}

/// Class `c` of `m` refers to scopes that exist.
pub open spec fn class_wf(m: LayoutModel, c: int) -> bool {
    m.classes[c].parent_scope.0 < m.scopes.len() && m.classes[c].inner_scope.0 < m.scopes.len()
}

/// Function `f` of `m` refers to scopes that exist.
pub open spec fn func_wf(m: LayoutModel, f: int) -> bool {
    m.funcs[f].parent_scope.0 < m.scopes.len() && m.funcs[f].inner_scope.0 < m.scopes.len()
}

/// A well-formed layout: it has a root scope, and every scope, class and function in it
/// is well formed.
pub open spec fn layout_wf(m: LayoutModel) -> bool {
    &&& m.scopes.len() > 0
    &&& forall|i: int| 0 <= i < m.scopes.len() ==> #[trigger] scope_wf(m, i)
    &&& forall|c: int| 0 <= c < m.classes.len() ==> #[trigger] class_wf(m, c)
    &&& forall|f: int| 0 <= f < m.funcs.len() ==> #[trigger] func_wf(m, f)
}

/// No table of `a` is longer than that table of `b`.
pub open spec fn grows(a: LayoutModel, b: LayoutModel) -> bool {
    &&& a.errors.len() <= b.errors.len()
    &&& a.scopes.len() <= b.scopes.len()
    &&& a.globals.len() <= b.globals.len()
    &&& a.classes.len() <= b.classes.len()
    &&& a.funcs.len() <= b.funcs.len()
}

/// A layout that keeps the scopes, classes and functions of a well-formed one and adds
/// well-formed ones after them is well formed.
proof fn lemma_wf_extend(m: LayoutModel, m2: LayoutModel)
    requires
        layout_wf(m),
        grows(m, m2),
        m.scopes == m2.scopes.subrange(0, m.scopes.len() as int),
        m.classes == m2.classes.subrange(0, m.classes.len() as int),
        m.funcs == m2.funcs.subrange(0, m.funcs.len() as int),
        forall|i: int| m.scopes.len() <= i < m2.scopes.len() ==> #[trigger] scope_wf(m2, i),
        forall|c: int| m.classes.len() <= c < m2.classes.len() ==> #[trigger] class_wf(m2, c),
        forall|f: int| m.funcs.len() <= f < m2.funcs.len() ==> #[trigger] func_wf(m2, f),
    ensures
        layout_wf(m2),
{
    assert forall|i: int| 0 <= i < m2.scopes.len() implies #[trigger] scope_wf(m2, i) by {
        if i < m.scopes.len() {
            assert(scope_wf(m, i));
            assert(m2.scopes[i] == m.scopes[i]);
            let s = m.scopes[i];
            assert forall|j: int| 0 <= j < s.defs.len() implies index_valid(m2, #[trigger] s.defs[j].1.data) by {
                assert(index_valid(m, s.defs[j].1.data));
            }
        }
    }
    assert forall|c: int| 0 <= c < m2.classes.len() implies #[trigger] class_wf(m2, c) by {
        if c < m.classes.len() {
            assert(class_wf(m, c));
            assert(m2.classes[c] == m.classes[c]);
        }
    }
    assert forall|f: int| 0 <= f < m2.funcs.len() implies #[trigger] func_wf(m2, f) by {
        if f < m.funcs.len() {
            assert(func_wf(m, f));
            assert(m2.funcs[f] == m.funcs[f]);
        }
    }
}

/// Registering a valid entry in an existing scope keeps a layout well formed.
proof fn lemma_register_wf(m: LayoutModel, scope: int, name: Seq<char>, entry: VisData<DefIndex>)
    requires
        layout_wf(m),
        0 <= scope < m.scopes.len(),
        index_valid(m, entry.data),
    ensures
        layout_wf(register(m, scope, name, entry)),
        grows(m, register(m, scope, name, entry)),
{
    let m2 = register(m, scope, name, entry);
    let defs = m.scopes[scope].defs;
    if has_entry(defs, name) {
        assert(m.scopes =~= m2.scopes.subrange(0, m.scopes.len() as int));
        assert(m.classes =~= m2.classes.subrange(0, m.classes.len() as int));
        assert(m.funcs =~= m2.funcs.subrange(0, m.funcs.len() as int));
        lemma_wf_extend(m, m2);
    } else {
        assert forall|i: int| 0 <= i < m2.scopes.len() implies #[trigger] scope_wf(m2, i) by {
            assert(scope_wf(m, i));
            let s = m.scopes[i];
            if i == scope {
                let d2 = m2.scopes[i].defs;
                assert(d2 == defs.push((name, entry)));
                assert forall|j: int| 0 <= j < d2.len() implies index_valid(m2, #[trigger] d2[j].1.data) by {
                    if j < defs.len() {
                        assert(index_valid(m, defs[j].1.data));
                    }
                }
                assert forall|a: int, b: int| 0 <= a < b < d2.len() implies d2[a].0 != d2[b].0 by {
                    if b == defs.len() {
                        assert(defs[a].0 == d2[a].0);
                    }
                }
            } else {
                assert(m2.scopes[i] == s);
                assert forall|j: int| 0 <= j < s.defs.len() implies index_valid(m2, #[trigger] s.defs[j].1.data) by {
                    assert(index_valid(m, s.defs[j].1.data));
                }
            }
        }
        assert forall|c: int| 0 <= c < m2.classes.len() implies #[trigger] class_wf(m2, c) by {
            assert(class_wf(m, c));
        }
        assert forall|f: int| 0 <= f < m2.funcs.len() implies #[trigger] func_wf(m2, f) by {
            assert(func_wf(m, f));
        }
    }
}

/// Inserting a definition into an existing scope keeps a layout well formed, and only
/// adds to its tables.
pub proof fn lemma_insert_def_wf(m: LayoutModel, scope: int, d: Definition)
    requires
        layout_wf(m),
        0 <= scope < m.scopes.len(),
    ensures
        layout_wf(insert_def(m, scope, d)),
        grows(m, insert_def(m, scope, d)),
    decreases d,
{
    let s = m.scopes.len() as int;
    match d.kind {
        DefKind::Global(expr) => {
            let m1 = LayoutModel { globals: m.globals.push(expr), ..m };
            assert(m1.scopes =~= m1.scopes.subrange(0, m.scopes.len() as int));
            assert(m1.classes =~= m1.classes.subrange(0, m.classes.len() as int));
            assert(m1.funcs =~= m1.funcs.subrange(0, m.funcs.len() as int));
            lemma_wf_extend(m, m1);
            lemma_register_wf(m1, scope, d.name@, VisData { vis: d.vis, id: d.name_id, data: DefIndex::Global(GlobalIndex(m.globals.len() as usize)) });
        },
        DefKind::Module(module) => {
            let m0 = push_scope(m, empty_scope(Some(ScopeIndex(scope as usize)), None));
            assert(m.scopes =~= m0.scopes.subrange(0, m.scopes.len() as int));
            assert(m.classes =~= m0.classes.subrange(0, m.classes.len() as int));
            assert(m.funcs =~= m0.funcs.subrange(0, m.funcs.len() as int));
            assert(scope_wf(m0, s));
            lemma_wf_extend(m, m0);
            lemma_insert_defs_wf(m0, s, module.defs@);
            let m1 = insert_defs(m0, s, module.defs@);
            lemma_register_wf(m1, scope, d.name@, VisData { vis: d.vis, id: d.name_id, data: DefIndex::Module(ScopeIndex(s as usize)) });
        },
        DefKind::Class(class) => {
            assert(scope_wf(m, scope));
            let m0 = push_scope(m, empty_scope(m.scopes[scope].super_scope, Some(ScopeIndex(scope as usize))));
            assert(m.scopes =~= m0.scopes.subrange(0, m.scopes.len() as int));
            assert(m.classes =~= m0.classes.subrange(0, m.classes.len() as int));
            assert(m.funcs =~= m0.funcs.subrange(0, m.funcs.len() as int));
            assert(scope_wf(m0, s));
            lemma_wf_extend(m, m0);
            let c = ClassModel {
                parent_scope: ScopeIndex(scope as usize),
                inner_scope: ScopeIndex(s as usize),
                fields: fields_model(class.fields@),
            };
            let m1 = LayoutModel { classes: m0.classes.push(c), ..m0 };
            assert(m0.scopes =~= m1.scopes.subrange(0, m0.scopes.len() as int));
            assert(m0.classes =~= m1.classes.subrange(0, m0.classes.len() as int));
            assert(m0.funcs =~= m1.funcs.subrange(0, m0.funcs.len() as int));
            assert(class_wf(m1, m0.classes.len() as int));
            lemma_wf_extend(m0, m1);
            lemma_insert_defs_wf(m1, s, class.defs@);
            let m2 = insert_defs(m1, s, class.defs@);
            lemma_register_wf(m2, scope, d.name@, VisData { vis: d.vis, id: d.name_id, data: DefIndex::Class(ClassIndex(m.classes.len() as usize)) });
        },
        DefKind::Func(func) => {
            assert(scope_wf(m, scope));
            let m0 = push_scope(m, empty_scope(m.scopes[scope].super_scope, Some(ScopeIndex(scope as usize))));
            assert(m.scopes =~= m0.scopes.subrange(0, m.scopes.len() as int));
            assert(m.classes =~= m0.classes.subrange(0, m.classes.len() as int));
            assert(m.funcs =~= m0.funcs.subrange(0, m.funcs.len() as int));
            assert(scope_wf(m0, s));
            lemma_wf_extend(m, m0);
            lemma_insert_body_wf(m0, s, func.body@);
            let m1 = insert_body(m0, s, func.body@);
            let f = FuncModel {
                parent_scope: ScopeIndex(scope as usize),
                inner_scope: ScopeIndex(s as usize),
                parameters: params_model(func.parameters@),
                output: func.output@,
                body: body_locals(func.body@),
            };
            let m2 = LayoutModel { funcs: m1.funcs.push(f), ..m1 };
            assert(m1.scopes =~= m2.scopes.subrange(0, m1.scopes.len() as int));
            assert(m1.classes =~= m2.classes.subrange(0, m1.classes.len() as int));
            assert(m1.funcs =~= m2.funcs.subrange(0, m1.funcs.len() as int));
            assert(func_wf(m2, m1.funcs.len() as int));
            lemma_wf_extend(m1, m2);
            lemma_register_wf(m2, scope, d.name@, VisData { vis: d.vis, id: d.name_id, data: DefIndex::Func(FuncIndex(m1.funcs.len() as usize)) });
        },
    }
}

/// Inserting definitions into an existing scope keeps a layout well formed, and only adds
/// to its tables.
pub proof fn lemma_insert_defs_wf(m: LayoutModel, scope: int, defs: Seq<Definition>)
    requires
        layout_wf(m),
        0 <= scope < m.scopes.len(),
    ensures
        layout_wf(insert_defs(m, scope, defs)),
        grows(m, insert_defs(m, scope, defs)),
    decreases defs,
{
    if defs.len() > 0 {
        lemma_insert_defs_wf(m, scope, defs.drop_last());
        lemma_insert_def_wf(insert_defs(m, scope, defs.drop_last()), scope, defs.last());
    }
}

/// Inserting the definitions of a body into an existing scope keeps a layout well formed,
/// and only adds to its tables.
pub proof fn lemma_insert_body_wf(m: LayoutModel, scope: int, body: Seq<Statement>)
    requires
        layout_wf(m),
        0 <= scope < m.scopes.len(),
    ensures
        layout_wf(insert_body(m, scope, body)),
        grows(m, insert_body(m, scope, body)),
    decreases body,
{
    if body.len() > 0 {
        lemma_insert_body_wf(m, scope, body.drop_last());
        match body.last() {
            Statement::Local(_) => {},
            Statement::Global(d) => {
                lemma_insert_def_wf(insert_body(m, scope, body.drop_last()), scope, d);
            },
        }
    }
}

/// The layout of any module tree is well formed.
pub proof fn lemma_build_wf(ast: Module)
    ensures
        layout_wf(build_model(ast)),
{
    let m = root_layout();
    assert(scope_wf(m, 0));
    lemma_insert_defs_wf(m, 0, ast.defs@);
}

/// Every scope of a well-formed layout lies inside the root scope: going up through
/// parent scopes and enclosing modules from it reaches scope 0.
pub proof fn lemma_reaches_root(m: LayoutModel, s: int)
    requires
        layout_wf(m),
        0 <= s < m.scopes.len(),
    ensures
        crate::resolve::child_of(m, 0, s),
    decreases s,
{
    if s > 0 {
        assert(scope_wf(m, s));
        match m.scopes[s].parent_scope {
            Some(p) => lemma_reaches_root(m, p.0 as int),
            None => match m.scopes[s].super_scope {
                Some(q) => lemma_reaches_root(m, q.0 as int),
                None => {},
            },
        }
    }
}

// ----- the layout itself -----

/// Every scope, global, class and function of a program, with the errors found while
/// laying them out.
pub struct ProgramLayout {
    errors: Vec<LayoutError>,
    scopes: Vec<ScopeData>,
    globals: Vec<NodeId>,
    classes: Vec<ClassData>,
    funcs: Vec<FuncData>,
}

impl View for ProgramLayout {
    type V = LayoutModel;

    closed spec fn view(&self) -> LayoutModel {
        LayoutModel {
            errors: self.errors@,
            scopes: self.scopes@.map_values(|s: ScopeData| s@),
            globals: self.globals@,
            classes: self.classes@.map_values(|c: ClassData| c@),
            funcs: self.funcs@.map_values(|f: FuncData| f@),
        }
    }
}

/// Builds the fields of a class, a later field of the same name replacing an earlier one.
fn build_fields(fields: &Vec<Field>) -> (r: NamedList<VisData<PathUnion>>)
    ensures
        r.wf(),
        fields_view(r@) == fields_model(fields@),
{
    let mut r: NamedList<VisData<PathUnion>> = NamedList::new();
    let mut i: usize = 0;
    while i < fields.len()
        invariant
            r.wf(),
            i <= fields.len(),
            fields_view(r@) == fields_model(fields@.subrange(0, i as int)),
        decreases fields.len() - i,
    {
        let f = &fields[i];
        let v = VisData { vis: f.vis, id: f.union.id, data: copy_union(&f.union) };
        proof {
            lemma_fields_view_set(r@, f.name@, v);
            assert(fields@.subrange(0, i + 1).drop_last() =~= fields@.subrange(0, i as int));
        }
        r.set(f.name.clone(), v);
        i = i + 1;
    }
    assert(fields@.subrange(0, i as int) =~= fields@);
    r
}

/// Builds the parameters of a function, a later parameter of the same name replacing an
/// earlier one.
fn build_params(params: &Vec<Field>) -> (r: NamedList<PathUnion>)
    ensures
        r.wf(),
        params_view(r@) == params_model(params@),
{
    let mut r: NamedList<PathUnion> = NamedList::new();
    let mut i: usize = 0;
    while i < params.len()
        invariant
            r.wf(),
            i <= params.len(),
            params_view(r@) == params_model(params@.subrange(0, i as int)),
        decreases params.len() - i,
    {
        let p = &params[i];
        let u = copy_union(&p.union);
        proof {
            lemma_params_view_set(r@, p.name@, u);
            assert(params@.subrange(0, i + 1).drop_last() =~= params@.subrange(0, i as int));
        }
        r.set(p.name.clone(), u);
        i = i + 1;
    }
    assert(params@.subrange(0, i as int) =~= params@);
    r
}

impl ProgramLayout {
    /// The name lists of the layout are well formed.
    pub closed spec fn inv(&self) -> bool {
        &&& forall|i: int| 0 <= i < self.scopes@.len() ==> (#[trigger] self.scopes@[i]).defs.wf()
        &&& forall|i: int| 0 <= i < self.classes@.len() ==> (#[trigger] self.classes@[i]).fields.wf()
        &&& forall|i: int| 0 <= i < self.funcs@.len() ==> (#[trigger] self.funcs@[i]).parameters.wf()
    }

    /// A well-formed layout (see [`layout_wf`]).
    pub open spec fn wf(&self) -> bool {
        self.inv() && layout_wf(self@)
    }

    /// The errors found, in the order they were found.
    pub fn errors(&self) -> (r: &[LayoutError])
        ensures
            r@ == self@.errors,
    {
        self.errors.as_slice()
    }

    /// The node of the expression of each global, by global index.
    pub fn globals(&self) -> (r: &[NodeId])
        ensures
            r@ == self@.globals,
    {
        self.globals.as_slice()
    }

    /// The scopes, by scope index.
    pub fn scopes(&self) -> (r: &[ScopeData])
        ensures
            r@.map_values(|d: ScopeData| d@) == self@.scopes,
            self.inv() ==> forall|i: int| 0 <= i < r@.len() ==> (#[trigger] r@[i]).defs.wf(),
    {
        self.scopes.as_slice()
    }

    /// The classes, by class index.
    pub fn classes(&self) -> (r: &[ClassData])
        ensures
            r@.map_values(|d: ClassData| d@) == self@.classes,
            self.inv() ==> forall|i: int| 0 <= i < r@.len() ==> (#[trigger] r@[i]).fields.wf(),
    {
        self.classes.as_slice()
    }

    /// The functions, by function index.
    pub fn funcs(&self) -> (r: &[FuncData])
        ensures
            r@.map_values(|d: FuncData| d@) == self@.funcs,
            self.inv() ==> forall|i: int| 0 <= i < r@.len() ==> (#[trigger] r@[i]).parameters.wf(),
    {
        self.funcs.as_slice()
    }

    /// The node of the expression of a global, if the index is valid.
    pub fn get_global(&self, index: GlobalIndex) -> (r: Option<&NodeId>)
        ensures
            index.0 < self@.globals.len() ==> r == Some(&self@.globals[index.0 as int]),
            index.0 >= self@.globals.len() ==> r is None,
    {
        if index.raw() < self.globals.len() {
            Some(&self.globals[index.raw()])
        } else {
            None
        }
    }

    /// A scope, if the index is valid.
    pub fn get_scope(&self, index: ScopeIndex) -> (r: Option<&ScopeData>)
        ensures
            index.0 < self@.scopes.len() ==> r is Some && r.unwrap()@ == self@.scopes[index.0 as int]
                && (self.inv() ==> r.unwrap().defs.wf()),
            index.0 >= self@.scopes.len() ==> r is None,
    {
        if index.raw() < self.scopes.len() {
            Some(&self.scopes[index.raw()])
        } else {
            None
        }
    }

    /// A class, if the index is valid.
    pub fn get_class(&self, index: ClassIndex) -> (r: Option<&ClassData>)
        ensures
            index.0 < self@.classes.len() ==> r is Some && r.unwrap()@ == self@.classes[index.0 as int]
                && (self.inv() ==> r.unwrap().fields.wf()),
            index.0 >= self@.classes.len() ==> r is None,
    {
        if index.raw() < self.classes.len() {
            Some(&self.classes[index.raw()])
        } else {
            None
        }
    }

    /// A function, if the index is valid.
    pub fn get_func(&self, index: FuncIndex) -> (r: Option<&FuncData>)
        ensures
            index.0 < self@.funcs.len() ==> r is Some && r.unwrap()@ == self@.funcs[index.0 as int]
                && (self.inv() ==> r.unwrap().parameters.wf()),
            index.0 >= self@.funcs.len() ==> r is None,
    {
        if index.raw() < self.funcs.len() {
            Some(&self.funcs[index.raw()])
        } else {
            None
        }
    }

    /// Lays out a module tree: its definitions go into the root scope, in order.
    pub fn build(ast: &Module) -> (layout: Self)
        ensures
            layout.wf(),
            layout@ == build_model(*ast),
    {
        let mut layout = ProgramLayout {
            errors: Vec::new(),
            scopes: Vec::new(),
            globals: Vec::new(),
            classes: Vec::new(),
            funcs: Vec::new(),
        };
        layout.scopes.push(ScopeData { super_scope: None, parent_scope: None, defs: NamedList::new() });
        assert(layout@ == root_layout()) by {
            assert(layout@.scopes =~= root_layout().scopes);
            assert(layout@.classes =~= root_layout().classes);
            assert(layout@.funcs =~= root_layout().funcs);
        }
        layout.insert_defs_into(ScopeIndex::new(0), &ast.defs);
        proof {
            lemma_build_wf(*ast);
        }
        layout
    }

    /// Adds a scope at the end and returns its index.
    fn push_scope(&mut self, super_scope: Option<ScopeIndex>, parent_scope: Option<ScopeIndex>) -> (r: ScopeIndex)
        requires
            old(self).inv(),
        ensures
            final(self).inv(),
            r.0 == old(self)@.scopes.len(),
            final(self)@ == push_scope(old(self)@, empty_scope(super_scope, parent_scope)),
    {
        let index = ScopeIndex::new(self.scopes.len());
        self.scopes.push(ScopeData { super_scope, parent_scope, defs: NamedList::new() });
        assert(self@.scopes =~= old(self)@.scopes.push(empty_scope(super_scope, parent_scope)));
        index
    }

    fn insert_global(&mut self, expr: NodeId) -> (r: GlobalIndex)
        requires
            old(self).inv(),
        ensures
            final(self).inv(),
            r.0 == old(self)@.globals.len(),
            final(self)@ == (LayoutModel { globals: old(self)@.globals.push(expr), ..old(self)@ }),
    {
        let index = GlobalIndex::new(self.globals.len());
        self.globals.push(expr);
        index
    }

    /// Inserts definitions into scope `scope`, in order.
    fn insert_defs_into(&mut self, scope: ScopeIndex, defs: &Vec<Definition>)
        requires
            old(self).inv(),
            scope.0 < old(self)@.scopes.len(),
        ensures
            final(self).inv(),
            final(self)@ == insert_defs(old(self)@, scope.0 as int, defs@),
        decreases defs,
    {
        let mut i: usize = 0;
        while i < defs.len()
            invariant
                self.inv(),
                i <= defs.len(),
                scope.0 < old(self)@.scopes.len(),
                self@ == insert_defs(old(self)@, scope.0 as int, defs@.subrange(0, i as int)),
                self@.scopes.len() >= old(self)@.scopes.len(),
            decreases defs.len() - i,
        {
            proof {
                assert(defs@.subrange(0, i + 1).drop_last() =~= defs@.subrange(0, i as int));
                assert(decreases_to!(defs => defs[i as int]));
            }
            self.insert_def_into(scope, &defs[i]);
            proof {
                lemma_insert_def_grows(insert_defs(old(self)@, scope.0 as int, defs@.subrange(0, i as int)), scope.0 as int, defs@[i as int]);
            }
            i = i + 1;
        }
        assert(defs@.subrange(0, i as int) =~= defs@);
    }

    /// Inserts one definition into scope `scope`.
    fn insert_def_into(&mut self, scope: ScopeIndex, def: &Definition)
        requires
            old(self).inv(),
            scope.0 < old(self)@.scopes.len(),
        ensures
            final(self).inv(),
            final(self)@ == insert_def(old(self)@, scope.0 as int, *def),
        decreases def,
    {
        let index = match &def.kind {
            DefKind::Global(expr) => DefIndex::Global(self.insert_global(*expr)),
            DefKind::Module(module) => DefIndex::Module(self.insert_module(scope, module)),
            DefKind::Class(class) => DefIndex::Class(self.insert_class(scope, class)),
            DefKind::Func(func) => DefIndex::Func(self.insert_func(scope, func)),
        };
        self.register(scope, &def.name, VisData { vis: def.vis, id: def.name_id, data: index });
    }

    fn insert_module(&mut self, super_scope: ScopeIndex, module: &Module) -> (r: ScopeIndex)
        requires
            old(self).inv(),
            super_scope.0 < old(self)@.scopes.len(),
        ensures
            final(self).inv(),
            r.0 == old(self)@.scopes.len(),
            final(self)@.scopes.len() > old(self)@.scopes.len(),
            final(self)@ == insert_defs(
                push_scope(old(self)@, empty_scope(Some(super_scope), None)),
                old(self)@.scopes.len() as int,
                module.defs@,
            ),
        decreases module,
    {
        let module_scope = self.push_scope(Some(super_scope), None);
        let ghost m0 = self@;
        self.insert_defs_into(module_scope, &module.defs);
        proof {
            lemma_insert_defs_grows(m0, module_scope.0 as int, module.defs@);
        }
        module_scope
    }

    fn insert_class(&mut self, parent_scope: ScopeIndex, class: &Class) -> (r: ClassIndex)
        requires
            old(self).inv(),
            parent_scope.0 < old(self)@.scopes.len(),
        ensures
            final(self).inv(),
            r.0 == old(self)@.classes.len(),
            final(self)@.scopes.len() > old(self)@.scopes.len(),
            ({
                let m = old(self)@;
                let s = m.scopes.len();
                let m0 = push_scope(m, empty_scope(m.scopes[parent_scope.0 as int].super_scope, Some(parent_scope)));
                let c = ClassModel { parent_scope, inner_scope: ScopeIndex(s as usize), fields: fields_model(class.fields@) };
                final(self)@ == insert_defs(LayoutModel { classes: m0.classes.push(c), ..m0 }, s as int, class.defs@)
            }),
        decreases class,
    {
        let super_scope = self.scopes[parent_scope.raw()].super_scope;
        let inner_scope = self.push_scope(super_scope, Some(parent_scope));
        let fields = build_fields(&class.fields);
        let class_index = ClassIndex::new(self.classes.len());
        let ghost before = self@;
        self.classes.push(ClassData { parent_scope, inner_scope, fields });
        assert(self@.classes =~= before.classes.push(ClassModel { parent_scope, inner_scope, fields: fields_model(class.fields@) }));
        let ghost m1 = self@;
        self.insert_defs_into(inner_scope, &class.defs);
        proof {
            lemma_insert_defs_grows(m1, inner_scope.0 as int, class.defs@);
        }
        class_index
    }

    fn insert_func(&mut self, parent_scope: ScopeIndex, func: &Func) -> (r: FuncIndex)
        requires
            old(self).inv(),
            parent_scope.0 < old(self)@.scopes.len(),
        ensures
            final(self).inv(),
            final(self)@.scopes.len() > old(self)@.scopes.len(),
            ({
                let m = old(self)@;
                let s = m.scopes.len();
                let m0 = push_scope(m, empty_scope(m.scopes[parent_scope.0 as int].super_scope, Some(parent_scope)));
                let m1 = insert_body(m0, s as int, func.body@);
                let f = FuncModel {
                    parent_scope,
                    inner_scope: ScopeIndex(s as usize),
                    parameters: params_model(func.parameters@),
                    output: func.output@,
                    body: body_locals(func.body@),
                };
                &&& r.0 == m1.funcs.len()
                &&& final(self)@ == (LayoutModel { funcs: m1.funcs.push(f), ..m1 })
            }),
        decreases func,
    {
        let output = copy_union(&func.output);
        let parameters = build_params(&func.parameters);
        let super_scope = self.scopes[parent_scope.raw()].super_scope;
        let inner_scope = self.push_scope(super_scope, Some(parent_scope));
        let ghost m0 = self@;
        let mut body: Vec<NodeId> = Vec::new();
        let mut i: usize = 0;
        while i < func.body.len()
            invariant
                self.inv(),
                i <= func.body.len(),
                inner_scope.0 < m0.scopes.len(),
                self@ == insert_body(m0, inner_scope.0 as int, func.body@.subrange(0, i as int)),
                body@ == body_locals(func.body@.subrange(0, i as int)),
                self@.scopes.len() >= m0.scopes.len(),
            decreases func.body.len() - i,
        {
            proof {
                assert(func.body@.subrange(0, i + 1).drop_last() =~= func.body@.subrange(0, i as int));
            }
            match &func.body[i] {
                Statement::Local(id) => {
                    body.push(*id);
                },
                Statement::Global(def) => {
                    proof {
                        assert(decreases_to!(func => func.body));
                        assert(decreases_to!(func.body => func.body[i as int]));
                    }
                    self.insert_def_into(inner_scope, def);
                    proof {
                        lemma_insert_def_grows(insert_body(m0, inner_scope.0 as int, func.body@.subrange(0, i as int)), inner_scope.0 as int, *def);
                    }
                },
            }
            i = i + 1;
        }
        assert(func.body@.subrange(0, i as int) =~= func.body@);
        let func_index = FuncIndex::new(self.funcs.len());
        let ghost before = self@;
        self.funcs.push(FuncData { parent_scope, inner_scope, parameters, output, body });
        assert(self@.funcs =~= before.funcs.push(FuncModel {
            parent_scope,
            inner_scope,
            parameters: params_model(func.parameters@),
            output: func.output@,
            body: body_locals(func.body@),
        }));
        func_index
    }

    /// Records `name` in scope `scope`, or reports it as a duplicate.
    fn register(&mut self, scope: ScopeIndex, name: &String, entry: VisData<DefIndex>)
        requires
            old(self).inv(),
            scope.0 < old(self)@.scopes.len(),
        ensures
            final(self).inv(),
            final(self)@ == register(old(self)@, scope.0 as int, name@, entry),
    {
        let i = scope.raw();
        let found: Option<VisData<DefIndex>> = match self.scopes[i].defs.get(name.as_str()) {
            Some(v) => Some(*v),
            None => None,
        };
        proof {
            self.scopes@[i as int].defs.lemma_unique();
        }
        match found {
            Some(first) => {
                self.errors.push(LayoutError::DuplicateIdent { first: first.id, second: entry.id });
            },
            None => {
                let ghost before = self.scopes@[i as int];
                self.scopes[i].defs.insert_new(name.clone(), entry);
                assert(self@.scopes =~= old(self)@.scopes.update(
                    i as int,
                    ScopeModel { defs: before.defs@.push((name@, entry)), ..old(self)@.scopes[i as int] },
                ));
            },
        }
    }
}

/// Inserting a definition only adds to the tables of a layout.
proof fn lemma_insert_def_grows(m: LayoutModel, scope: int, d: Definition)
    requires
        0 <= scope < m.scopes.len(),
    ensures
        grows(m, insert_def(m, scope, d)),
    decreases d,
{
    match d.kind {
        DefKind::Global(_) => {},
        DefKind::Module(module) => {
            let m0 = push_scope(m, empty_scope(Some(ScopeIndex(scope as usize)), None));
            lemma_insert_defs_grows(m0, m.scopes.len() as int, module.defs@);
        },
        DefKind::Class(class) => {
            let s = m.scopes.len();
            let m0 = push_scope(m, empty_scope(m.scopes[scope].super_scope, Some(ScopeIndex(scope as usize))));
            let c = ClassModel {
                parent_scope: ScopeIndex(scope as usize),
                inner_scope: ScopeIndex(s as usize),
                fields: fields_model(class.fields@),
            };
            lemma_insert_defs_grows(LayoutModel { classes: m0.classes.push(c), ..m0 }, s as int, class.defs@);
        },
        DefKind::Func(func) => {
            let m0 = push_scope(m, empty_scope(m.scopes[scope].super_scope, Some(ScopeIndex(scope as usize))));
            lemma_insert_body_grows(m0, m.scopes.len() as int, func.body@);
        },
    }
}

proof fn lemma_insert_defs_grows(m: LayoutModel, scope: int, defs: Seq<Definition>)
    requires
        0 <= scope < m.scopes.len(),
    ensures
        grows(m, insert_defs(m, scope, defs)),
    decreases defs,
{
    if defs.len() > 0 {
        lemma_insert_defs_grows(m, scope, defs.drop_last());
        lemma_insert_def_grows(insert_defs(m, scope, defs.drop_last()), scope, defs.last());
    }
}

proof fn lemma_insert_body_grows(m: LayoutModel, scope: int, body: Seq<Statement>)
    requires
        0 <= scope < m.scopes.len(),
    ensures
        grows(m, insert_body(m, scope, body)),
    decreases body,
{
    if body.len() > 0 {
        lemma_insert_body_grows(m, scope, body.drop_last());
        match body.last() {
            Statement::Local(_) => {},
            Statement::Global(d) => {
                lemma_insert_def_grows(insert_body(m, scope, body.drop_last()), scope, d);
            },
        }
    }
}

// ----- what the layout records of each definition -----

/// Fields whose names are all different are laid out one entry each, in order, each
/// under its name with its visibility, the node of its union and the union.
proof fn lemma_fields_distinct(fields: Seq<Field>)
    requires
        forall|a: int, b: int| 0 <= a < b < fields.len() ==> fields[a].name@ != fields[b].name@,
    ensures
        fields_model(fields).len() == fields.len(),
        forall|i: int| 0 <= i < fields.len() ==> #[trigger] fields_model(fields)[i] == (
            fields[i].name@,
            VisData { vis: fields[i].vis, id: fields[i].union.id, data: fields[i].union@ },
        ),
    decreases fields.len(),
{
    if fields.len() > 0 {
        let init = fields.drop_last();
        lemma_fields_distinct(init);
        let t = fields_model(init);
        assert forall|a: int| 0 <= a < t.len() implies t[a].0 != fields.last().name@ by {
            assert(init[a] == fields[a]);
        }
        let f = fields.last();
        crate::name_map::lemma_set_entry_new(t, f.name@, VisData { vis: f.vis, id: f.union.id, data: f.union@ });
    }
}

/// Parameters whose names are all different are laid out one entry each, in order, each
/// under its name with its union.
proof fn lemma_params_distinct(params: Seq<Field>)
    requires
        forall|a: int, b: int| 0 <= a < b < params.len() ==> params[a].name@ != params[b].name@,
    ensures
        params_model(params).len() == params.len(),
        forall|i: int| 0 <= i < params.len() ==> #[trigger] params_model(params)[i] == (params[i].name@, params[i].union@),
    decreases params.len(),
{
    if params.len() > 0 {
        let init = params.drop_last();
        lemma_params_distinct(init);
        let t = params_model(init);
        assert forall|a: int| 0 <= a < t.len() implies t[a].0 != params.last().name@ by {
            assert(init[a] == params[a]);
        }
        crate::name_map::lemma_set_entry_new(t, params.last().name@, params.last().union@);
    }
}

/// Inserting a definition keeps every class laid out before it, at its index.
proof fn lemma_def_keeps_classes(m: LayoutModel, scope: int, d: Definition)
    ensures
        m.classes.len() <= insert_def(m, scope, d).classes.len(),
        forall|i: int| 0 <= i < m.classes.len() ==> #[trigger] insert_def(m, scope, d).classes[i] == m.classes[i],
    decreases d,
{
    match d.kind {
        DefKind::Global(_) => {},
        DefKind::Module(module) => {
            let s = m.scopes.len();
            let m0 = push_scope(m, empty_scope(Some(ScopeIndex(scope as usize)), None));
            lemma_defs_keeps_classes(m0, s as int, module.defs@);
        },
        DefKind::Class(class) => {
            let s = m.scopes.len();
            let m0 = push_scope(m, empty_scope(m.scopes[scope].super_scope, Some(ScopeIndex(scope as usize))));
            let c = ClassModel {
                parent_scope: ScopeIndex(scope as usize),
                inner_scope: ScopeIndex(s as usize),
                fields: fields_model(class.fields@),
            };
            let m1 = LayoutModel { classes: m0.classes.push(c), ..m0 };
            lemma_defs_keeps_classes(m1, s as int, class.defs@);
        },
        DefKind::Func(func) => {
            let s = m.scopes.len();
            let m0 = push_scope(m, empty_scope(m.scopes[scope].super_scope, Some(ScopeIndex(scope as usize))));
            lemma_body_keeps_classes(m0, s as int, func.body@);
        },
    }
}

/// Inserting definitions keeps every class laid out before them.
proof fn lemma_defs_keeps_classes(m: LayoutModel, scope: int, defs: Seq<Definition>)
    ensures
        m.classes.len() <= insert_defs(m, scope, defs).classes.len(),
        forall|i: int| 0 <= i < m.classes.len() ==> #[trigger] insert_defs(m, scope, defs).classes[i] == m.classes[i],
    decreases defs,
{
    if defs.len() > 0 {
        lemma_defs_keeps_classes(m, scope, defs.drop_last());
        lemma_def_keeps_classes(insert_defs(m, scope, defs.drop_last()), scope, defs.last());
    }
}

/// Inserting the definitions of a body keeps every class laid out before them.
proof fn lemma_body_keeps_classes(m: LayoutModel, scope: int, body: Seq<Statement>)
    ensures
        m.classes.len() <= insert_body(m, scope, body).classes.len(),
        forall|i: int| 0 <= i < m.classes.len() ==> #[trigger] insert_body(m, scope, body).classes[i] == m.classes[i],
    decreases body,
{
    if body.len() > 0 {
        lemma_body_keeps_classes(m, scope, body.drop_last());
        match body.last() {
            Statement::Local(_) => {},
            Statement::Global(d) => {
                lemma_def_keeps_classes(insert_body(m, scope, body.drop_last()), scope, d);
            },
        }
    }
}

/// A class definition is laid out at the next class index, in the scope it is defined
/// in, with every field: in order, each under its name with its visibility and its union.
/// (Field names are taken to differ from each other: a repeated name keeps one entry.)
pub proof fn lemma_class_keeps_fields(m: LayoutModel, scope: int, d: Definition)
    requires
        0 <= scope < m.scopes.len(),
        d.kind is Class,
        forall|a: int, b: int| 0 <= a < b < d.kind->Class_0.fields@.len() ==> d.kind->Class_0.fields@[a].name@
            != d.kind->Class_0.fields@[b].name@,
    ensures
        ({
            let fields = d.kind->Class_0.fields@;
            let c = insert_def(m, scope, d).classes[m.classes.len() as int];
            &&& m.classes.len() < insert_def(m, scope, d).classes.len()
            &&& c.parent_scope == ScopeIndex(scope as usize)
            &&& c.fields.len() == fields.len()
            &&& forall|i: int| 0 <= i < fields.len() ==> (#[trigger] c.fields[i]).0 == fields[i].name@
                && c.fields[i].1.vis == fields[i].vis && c.fields[i].1.id == fields[i].union.id
                && c.fields[i].1.data == fields[i].union@
        }),
{
    let class = d.kind->Class_0;
    let s = m.scopes.len();
    let m0 = push_scope(m, empty_scope(m.scopes[scope].super_scope, Some(ScopeIndex(scope as usize))));
    let c = ClassModel {
        parent_scope: ScopeIndex(scope as usize),
        inner_scope: ScopeIndex(s as usize),
        fields: fields_model(class.fields@),
    };
    let m1 = LayoutModel { classes: m0.classes.push(c), ..m0 };
    lemma_defs_keeps_classes(m1, s as int, class.defs@);
    lemma_fields_distinct(class.fields@);
    let index = DefIndex::Class(ClassIndex(m.classes.len() as usize));
    let m2 = insert_defs(m1, s as int, class.defs@);
    assert(insert_def(m, scope, d) == register(m2, scope, d.name@, VisData { vis: d.vis, id: d.name_id, data: index }));
    assert(insert_def(m, scope, d).classes[m.classes.len() as int] == c);
    assert forall|i: int| 0 <= i < class.fields@.len() implies (#[trigger] c.fields[i]).0 == class.fields@[i].name@
        && c.fields[i].1.vis == class.fields@[i].vis && c.fields[i].1.id == class.fields@[i].union.id
        && c.fields[i].1.data == class.fields@[i].union@ by {
        assert(fields_model(class.fields@)[i] == (
            class.fields@[i].name@,
            VisData { vis: class.fields@[i].vis, id: class.fields@[i].union.id, data: class.fields@[i].union@ },
        ));
    }
}

/// A function definition is laid out as the last function, after those inside its body,
/// in the scope it is defined in, with every parameter (in order, each under its name
/// with its union), its output and the nodes of its local statements in order. (Parameter
/// names are taken to differ from each other: a repeated name keeps one entry.)
pub proof fn lemma_func_keeps_params(m: LayoutModel, scope: int, d: Definition)
    requires
        0 <= scope < m.scopes.len(),
        d.kind is Func,
        forall|a: int, b: int| 0 <= a < b < d.kind->Func_0.parameters@.len() ==> d.kind->Func_0.parameters@[a].name@
            != d.kind->Func_0.parameters@[b].name@,
    ensures
        ({
            let func = d.kind->Func_0;
            let params = func.parameters@;
            let r = insert_def(m, scope, d);
            let f = r.funcs.last();
            &&& m.funcs.len() < r.funcs.len()
            &&& f.parent_scope == ScopeIndex(scope as usize)
            &&& f.parameters.len() == params.len()
            &&& forall|i: int| 0 <= i < params.len() ==> (#[trigger] f.parameters[i]).0 == params[i].name@
                && f.parameters[i].1 == params[i].union@
            &&& f.output == func.output@
            &&& f.body == body_locals(func.body@)
        }),
{
    let func = d.kind->Func_0;
    let s = m.scopes.len();
    let m0 = push_scope(m, empty_scope(m.scopes[scope].super_scope, Some(ScopeIndex(scope as usize))));
    let m1 = insert_body(m0, s as int, func.body@);
    lemma_body_keeps_funcs(m0, s as int, func.body@);
    let f = FuncModel {
        parent_scope: ScopeIndex(scope as usize),
        inner_scope: ScopeIndex(s as usize),
        parameters: params_model(func.parameters@),
        output: func.output@,
        body: body_locals(func.body@),
    };
    lemma_params_distinct(func.parameters@);
    let index = DefIndex::Func(FuncIndex(m1.funcs.len() as usize));
    let m2 = LayoutModel { funcs: m1.funcs.push(f), ..m1 };
    assert(insert_def(m, scope, d) == register(m2, scope, d.name@, VisData { vis: d.vis, id: d.name_id, data: index }));
    assert(insert_def(m, scope, d).funcs == m2.funcs);
    assert forall|i: int| 0 <= i < func.parameters@.len() implies (#[trigger] f.parameters[i]).0 == func.parameters@[i].name@
        && f.parameters[i].1 == func.parameters@[i].union@ by {
        assert(params_model(func.parameters@)[i] == (func.parameters@[i].name@, func.parameters@[i].union@));
    }
}

/// Inserting definitions never drops a function laid out before them.
proof fn lemma_def_keeps_funcs(m: LayoutModel, scope: int, d: Definition)
    ensures
        m.funcs.len() <= insert_def(m, scope, d).funcs.len(),
    decreases d,
{
    match d.kind {
        DefKind::Global(_) => {},
        DefKind::Module(module) => {
            let s = m.scopes.len();
            let m0 = push_scope(m, empty_scope(Some(ScopeIndex(scope as usize)), None));
            lemma_defs_keeps_funcs(m0, s as int, module.defs@);
        },
        DefKind::Class(class) => {
            let s = m.scopes.len();
            let m0 = push_scope(m, empty_scope(m.scopes[scope].super_scope, Some(ScopeIndex(scope as usize))));
            let c = ClassModel {
                parent_scope: ScopeIndex(scope as usize),
                inner_scope: ScopeIndex(s as usize),
                fields: fields_model(class.fields@),
            };
            let m1 = LayoutModel { classes: m0.classes.push(c), ..m0 };
            lemma_defs_keeps_funcs(m1, s as int, class.defs@);
        },
        DefKind::Func(func) => {
            let s = m.scopes.len();
            let m0 = push_scope(m, empty_scope(m.scopes[scope].super_scope, Some(ScopeIndex(scope as usize))));
            lemma_body_keeps_funcs(m0, s as int, func.body@);
        },
    }
}

proof fn lemma_defs_keeps_funcs(m: LayoutModel, scope: int, defs: Seq<Definition>)
    ensures
        m.funcs.len() <= insert_defs(m, scope, defs).funcs.len(),
    decreases defs,
{
    if defs.len() > 0 {
        lemma_defs_keeps_funcs(m, scope, defs.drop_last());
        lemma_def_keeps_funcs(insert_defs(m, scope, defs.drop_last()), scope, defs.last());
    }
}

proof fn lemma_body_keeps_funcs(m: LayoutModel, scope: int, body: Seq<Statement>)
    ensures
        m.funcs.len() <= insert_body(m, scope, body).funcs.len(),
    decreases body,
{
    if body.len() > 0 {
        lemma_body_keeps_funcs(m, scope, body.drop_last());
        match body.last() {
            Statement::Local(_) => {},
            Statement::Global(d) => {
                lemma_def_keeps_funcs(insert_body(m, scope, body.drop_last()), scope, d);
            },
        }
    }
}

} // verus!
