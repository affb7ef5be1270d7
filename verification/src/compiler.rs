//! A first-pass compiler that lays out a tree of definitions by kind: each scope keeps
//! its modules, classes and functions apart, and a name taken within its kind leaves a
//! later definition out.
use vstd::prelude::*;

use crate::ast::Visibility;
use crate::name_map::{has_entry, lemma_set_entry_map, map_entries, set_entry, NamedList};

verus! {

/// A type written as a path of names.
pub struct TypePath {
    pub path: Vec<String>,
}

/// A union of types.
pub struct TypeUnion {
    pub types: Vec<TypePath>,
}

/// A name with a type: a class field or a function input.
pub struct TypedName {
    pub name: String,
    pub ty: TypeUnion,
}

/// A module: a list of items.
pub struct ModuleItem {
    pub defs: Vec<Item>,
}

/// A class: its fields and the items inside it.
pub struct ClassItem {
    pub fields: Vec<TypedName>,
    pub defs: Vec<Item>,
}

/// A function: inputs, output and body.
pub struct FuncItem {
    pub inputs: Vec<TypedName>,
    pub output: TypeUnion,
    pub body: Vec<BodyItem>,
}

/// A statement of a function body: an item, or a statement this pass passes over.
pub enum BodyItem {
    Def(Item),
    Let,
    Assign,
    Expr,
}

/// A definition.
pub enum Item {
    Static { vis: Visibility },
    Module { vis: Visibility, name: String, module: ModuleItem },
    Class { vis: Visibility, name: String, class: ClassItem },
    Func { vis: Visibility, name: String, func: FuncItem },
}

/// An index with the visibility it was defined with.
#[derive(Debug, Clone, Copy)]
pub struct VisIndex {
    pub vis: Visibility,
    pub index: usize,
}

/// A scope: where it sits, and its modules, classes and functions by name.
pub struct CompilerScope {
    pub super_scope: Option<usize>,
    pub parent_scope: Option<usize>,
    pub modules: NamedList<VisIndex>,
    pub classes: NamedList<VisIndex>,
    pub funcs: NamedList<VisIndex>,
}

/// A class: the scope it is in, its fields as unions of paths, and its own scope.
pub struct CompilerClass {
    pub parent_scope: usize,
    pub fields: NamedList<Vec<Vec<String>>>,
    pub inner_scope: usize,
}

/// A function: the scope it is in, its inputs and output as unions of paths, and its
/// own scope.
pub struct CompilerFunc {
    pub parent_scope: usize,
    pub inputs: NamedList<Vec<Vec<String>>>,
    pub output: Vec<Vec<String>>,
    pub inner_scope: usize,
}

/// A union of paths by value.
pub type PathsModel = Seq<Seq<Seq<char>>>;

/// The value of a scope.
pub struct CScopeModel {
    pub super_scope: Option<usize>,
    pub parent_scope: Option<usize>,
    pub modules: Seq<(Seq<char>, VisIndex)>,
    pub classes: Seq<(Seq<char>, VisIndex)>,
    pub funcs: Seq<(Seq<char>, VisIndex)>,
}

/// The value of a class.
pub struct CClassModel {
    pub parent_scope: usize,
    pub fields: Seq<(Seq<char>, PathsModel)>,
    pub inner_scope: usize,
}

/// The value of a function.
pub struct CFuncModel {
    pub parent_scope: usize,
    pub inputs: Seq<(Seq<char>, PathsModel)>,
    pub output: PathsModel,
    pub inner_scope: usize,
}

/// The value of a compiler.
pub struct CompilerModel {
    pub scopes: Seq<CScopeModel>,
    pub classes: Seq<CClassModel>,
    pub funcs: Seq<CFuncModel>,
}

/// A path by value.
pub open spec fn path_model(p: Seq<String>) -> Seq<Seq<char>> {
    Seq::new(p.len(), |j: int| p[j]@)
}

/// Unions of paths by value.
pub open spec fn paths_view(u: Seq<Vec<String>>) -> PathsModel {
    Seq::new(u.len(), |i: int| path_model(u[i]@))
}

/// Named unions by value.
pub open spec fn named_paths_view(e: Seq<(Seq<char>, Vec<Vec<String>>)>) -> Seq<(Seq<char>, PathsModel)> {
    Seq::new(e.len(), |i: int| (e[i].0, paths_view(e[i].1@)))
}

/// The union a type is: the path of each of its types.
pub open spec fn union_model(u: TypeUnion) -> PathsModel {
    Seq::new(u.types@.len(), |i: int| path_model(u.types@[i].path@))
}

/// Typed names by value: each name set to its union, a later one replacing an earlier
/// one of the same name in place.
pub open spec fn typed_model(fields: Seq<TypedName>) -> Seq<(Seq<char>, PathsModel)>
    decreases fields.len(),
{
    if fields.len() == 0 {
        Seq::empty()
    } else {
        set_entry(typed_model(fields.drop_last()), fields.last().name@, union_model(fields.last().ty))
    }
}

impl View for CompilerScope {
    type V = CScopeModel;

    open spec fn view(&self) -> CScopeModel {
        CScopeModel {
            super_scope: self.super_scope,
            parent_scope: self.parent_scope,
            modules: self.modules@,
            classes: self.classes@,
            funcs: self.funcs@,
        }
    }
}

impl View for CompilerClass {
    type V = CClassModel;

    open spec fn view(&self) -> CClassModel {
        CClassModel { parent_scope: self.parent_scope, fields: named_paths_view(self.fields@), inner_scope: self.inner_scope }
    }
}

impl View for CompilerFunc {
    type V = CFuncModel;

    open spec fn view(&self) -> CFuncModel {
        CFuncModel {
            parent_scope: self.parent_scope,
            inputs: named_paths_view(self.inputs@),
            output: paths_view(self.output@),
            inner_scope: self.inner_scope,
        }
    }
}

/// A scope with no names, nested as given.
pub open spec fn bare_scope(super_scope: Option<usize>, parent_scope: Option<usize>) -> CScopeModel {
    CScopeModel { super_scope, parent_scope, modules: Seq::empty(), classes: Seq::empty(), funcs: Seq::empty() }
}

/// Sets scope `s` of `m`.
pub open spec fn with_scope(m: CompilerModel, s: int, d: CScopeModel) -> CompilerModel {
    CompilerModel { scopes: m.scopes.update(s, d), ..m }
}

/// Inserts an item into scope `scope`. A module, class or function whose name its kind
/// already has in the scope is left out with everything in it; otherwise its name is
/// entered first, then its scope and data made, then the items inside it inserted.
/// Statics are passed over.
pub open spec fn insert_item(m: CompilerModel, scope: int, item: Item) -> CompilerModel
    decreases item,
{
    let sd = m.scopes[scope];
    match item {
        Item::Static { .. } => m,
        Item::Module { vis, name, module } => if has_entry(sd.modules, name@) {
            m
        } else {
            let s = m.scopes.len();
            let m1 = with_scope(m, scope, CScopeModel { modules: sd.modules.push((name@, VisIndex { vis, index: s as usize })), ..sd });
            let m2 = CompilerModel { scopes: m1.scopes.push(bare_scope(sd.super_scope, None)), ..m1 };
            insert_items(m2, s as int, module.defs@)
        },
        Item::Class { vis, name, class } => if has_entry(sd.classes, name@) {
            m
        } else {
            let c = m.classes.len();
            let s = m.scopes.len();
            let m1 = with_scope(m, scope, CScopeModel { classes: sd.classes.push((name@, VisIndex { vis, index: c as usize })), ..sd });
            let m2 = CompilerModel { scopes: m1.scopes.push(bare_scope(sd.super_scope, Some(scope as usize))), ..m1 };
            let data = CClassModel { parent_scope: scope as usize, fields: typed_model(class.fields@), inner_scope: s as usize };
            let m3 = CompilerModel { classes: m2.classes.push(data), ..m2 };
            insert_items(m3, s as int, class.defs@)
        },
        Item::Func { vis, name, func } => if has_entry(sd.funcs, name@) {
            m
        } else {
            let f = m.funcs.len();
            let s = m.scopes.len();
            let m1 = with_scope(m, scope, CScopeModel { funcs: sd.funcs.push((name@, VisIndex { vis, index: f as usize })), ..sd });
            let m2 = CompilerModel { scopes: m1.scopes.push(bare_scope(sd.super_scope, Some(scope as usize))), ..m1 };
            let data = CFuncModel {
                parent_scope: scope as usize,
                inputs: typed_model(func.inputs@),
                output: union_model(func.output),
                inner_scope: s as usize,
            };
            let m3 = CompilerModel { funcs: m2.funcs.push(data), ..m2 };
            insert_body_items(m3, s as int, func.body@)
        },
    }
}

/// Inserts items into scope `scope`, in order.
pub open spec fn insert_items(m: CompilerModel, scope: int, items: Seq<Item>) -> CompilerModel
    decreases items,
{
    if items.len() == 0 {
        m
    } else {
        insert_item(insert_items(m, scope, items.drop_last()), scope, items.last())
    }
}

/// Inserts the items among the statements of a body into scope `scope`, in order.
pub open spec fn insert_body_items(m: CompilerModel, scope: int, body: Seq<BodyItem>) -> CompilerModel
    decreases body,
{
    if body.len() == 0 {
        m
    } else {
        let m0 = insert_body_items(m, scope, body.drop_last());
        match body.last() {
            BodyItem::Def(item) => insert_item(m0, scope, item),
            _ => m0,
        }
    }
}

/// The compiler of a module tree: a root scope with the tree's items inserted.
pub open spec fn compile_model(root: ModuleItem) -> CompilerModel {
    let m = CompilerModel { scopes: seq![bare_scope(None, None)], classes: Seq::empty(), funcs: Seq::empty() };
    insert_items(m, 0, root.defs@)
}

// ----- the compiler itself -----

/// Scopes, classes and functions laid out from a tree of definitions.
pub struct Compiler {
    scopes: Vec<CompilerScope>,
    classes: Vec<CompilerClass>,
    funcs: Vec<CompilerFunc>,
}

impl View for Compiler {
    type V = CompilerModel;

    closed spec fn view(&self) -> CompilerModel {
        CompilerModel {
            scopes: self.scopes@.map_values(|s: CompilerScope| s@),
            classes: self.classes@.map_values(|c: CompilerClass| c@),
            funcs: self.funcs@.map_values(|f: CompilerFunc| f@),
        }
    }
}

proof fn lemma_named_paths_set(e: Seq<(Seq<char>, Vec<Vec<String>>)>, name: Seq<char>, v: Vec<Vec<String>>)
    ensures
        named_paths_view(set_entry(e, name, v)) == set_entry(named_paths_view(e), name, paths_view(v@)),
{
    let f = |x: Vec<Vec<String>>| paths_view(x@);
    lemma_set_entry_map(e, name, v, f);
    assert(named_paths_view(set_entry(e, name, v)) =~= map_entries(set_entry(e, name, v), f));
    assert(named_paths_view(e) =~= map_entries(e, f));
}

/// Copies a path of names.
fn copy_path(p: &Vec<String>) -> (r: Vec<String>)
    ensures
        path_model(r@) == path_model(p@),
{
    let mut r: Vec<String> = Vec::new();
    let mut i: usize = 0;
    while i < p.len()
        invariant
            i <= p.len(),
            r@.len() == i,
            forall|j: int| 0 <= j < i ==> (#[trigger] r@[j])@ == p@[j]@,
        decreases p.len() - i,
    {
        r.push(p[i].clone());
        i = i + 1;
    }
    assert(path_model(r@) =~= path_model(p@));
    r
}

impl Compiler {
    /// The name lists are well formed.
    pub closed spec fn inv(&self) -> bool {
        &&& forall|i: int| 0 <= i < self.scopes@.len() ==> (#[trigger] self.scopes@[i]).modules.wf()
        &&& forall|i: int| 0 <= i < self.scopes@.len() ==> (#[trigger] self.scopes@[i]).classes.wf()
        &&& forall|i: int| 0 <= i < self.scopes@.len() ==> (#[trigger] self.scopes@[i]).funcs.wf()
        &&& forall|i: int| 0 <= i < self.classes@.len() ==> (#[trigger] self.classes@[i]).fields.wf()
        &&& forall|i: int| 0 <= i < self.funcs@.len() ==> (#[trigger] self.funcs@[i]).inputs.wf()
    }

    /// No scopes, classes or functions.
    pub fn empty() -> (c: Self)
        ensures
            c.inv(),
            c@ == (CompilerModel { scopes: Seq::empty(), classes: Seq::empty(), funcs: Seq::empty() }),
    {
        let c = Compiler { scopes: Vec::new(), classes: Vec::new(), funcs: Vec::new() };
        assert(c@.scopes =~= Seq::<CScopeModel>::empty());
        assert(c@.classes =~= Seq::<CClassModel>::empty());
        assert(c@.funcs =~= Seq::<CFuncModel>::empty());
        c
    }

    /// Lays out a module tree: a root scope, then its items in order (see
    /// [`compile_model`]).
    pub fn from_root(root: &ModuleItem) -> (c: Self)
        ensures
            c.inv(),
            c@ == compile_model(*root),
    {
        let mut c = Compiler::empty();
        c.scopes.push(CompilerScope {
            super_scope: None,
            parent_scope: None,
            modules: NamedList::new(),
            classes: NamedList::new(),
            funcs: NamedList::new(),
        });
        assert(c@.scopes =~= seq![bare_scope(None, None)]);
        c.insert_items_into(0, &root.defs);
        c
    }

    /// The scopes, by index.
    pub fn scopes(&self) -> (r: &[CompilerScope])
        ensures
            r@.map_values(|s: CompilerScope| s@) == self@.scopes,
    {
        self.scopes.as_slice()
    }

    /// The classes, by index.
    pub fn classes(&self) -> (r: &[CompilerClass])
        ensures
            r@.map_values(|c: CompilerClass| c@) == self@.classes,
    {
        self.classes.as_slice()
    }

    /// The functions, by index.
    pub fn funcs(&self) -> (r: &[CompilerFunc])
        ensures
            r@.map_values(|f: CompilerFunc| f@) == self@.funcs,
    {
        self.funcs.as_slice()
    }

    /// The union a type is (see [`union_model`]).
    fn build_union(union: &TypeUnion) -> (r: Vec<Vec<String>>)
        ensures
            paths_view(r@) == union_model(*union),
    {
        let mut r: Vec<Vec<String>> = Vec::new();
        let mut i: usize = 0;
        while i < union.types.len()
            invariant
                i <= union.types.len(),
                r@.len() == i,
                forall|j: int| 0 <= j < i ==> path_model((#[trigger] r@[j])@) == path_model(union.types@[j].path@),
            decreases union.types.len() - i,
        {
            r.push(copy_path(&union.types[i].path));
            i = i + 1;
        }
        assert(paths_view(r@) =~= union_model(*union));
        r
    }

    /// Typed names as named unions (see [`typed_model`]).
    fn build_typed(fields: &Vec<TypedName>) -> (r: NamedList<Vec<Vec<String>>>)
        ensures
            r.wf(),
            named_paths_view(r@) == typed_model(fields@),
    {
        let mut r: NamedList<Vec<Vec<String>>> = NamedList::new();
        assert(named_paths_view(r@) =~= Seq::<(Seq<char>, PathsModel)>::empty());
        let mut i: usize = 0;
        while i < fields.len()
            invariant
                r.wf(),
                i <= fields.len(),
                named_paths_view(r@) == typed_model(fields@.subrange(0, i as int)),
            decreases fields.len() - i,
        {
            let f = &fields[i];
            let u = Self::build_union(&f.ty);
            proof {
                lemma_named_paths_set(r@, f.name@, u);
                assert(fields@.subrange(0, i + 1).drop_last() =~= fields@.subrange(0, i as int));
            }
            r.set(f.name.clone(), u);
            i = i + 1;
        }
        assert(fields@.subrange(0, i as int) =~= fields@);
        r
    }

    /// Adds a scope at the end.
    fn push_scope(&mut self, super_scope: Option<usize>, parent_scope: Option<usize>)
        requires
            old(self).inv(),
        ensures
            final(self).inv(),
            final(self)@ == (CompilerModel { scopes: old(self)@.scopes.push(bare_scope(super_scope, parent_scope)), ..old(self)@ }),
    {
        self.scopes.push(CompilerScope {
            super_scope,
            parent_scope,
            modules: NamedList::new(),
            classes: NamedList::new(),
            funcs: NamedList::new(),
        });
        assert(self@.scopes =~= old(self)@.scopes.push(bare_scope(super_scope, parent_scope)));
    }

    /// Inserts items into scope `scope`, in order.
    fn insert_items_into(&mut self, scope: usize, items: &Vec<Item>)
        requires
            old(self).inv(),
            scope < old(self)@.scopes.len(),
        ensures
            final(self).inv(),
            final(self)@ == insert_items(old(self)@, scope as int, items@),
            final(self)@.scopes.len() >= old(self)@.scopes.len(),
        decreases items,
    {
        let mut i: usize = 0;
        while i < items.len()
            invariant
                self.inv(),
                i <= items.len(),
                scope < old(self)@.scopes.len(),
                self@ == insert_items(old(self)@, scope as int, items@.subrange(0, i as int)),
                self@.scopes.len() >= old(self)@.scopes.len(),
            decreases items.len() - i,
        {
            proof {
                assert(items@.subrange(0, i + 1).drop_last() =~= items@.subrange(0, i as int));
                assert(decreases_to!(items => items[i as int]));
            }
            self.insert_definition_into(scope, &items[i]);
            i = i + 1;
        }
        assert(items@.subrange(0, i as int) =~= items@);
    }

    /// Inserts an item into scope `parent_scope` (see [`insert_item`]).
    fn insert_definition_into(&mut self, parent_scope: usize, def: &Item)
        requires
            old(self).inv(),
            parent_scope < old(self)@.scopes.len(),
        ensures
            final(self).inv(),
            final(self)@ == insert_item(old(self)@, parent_scope as int, *def),
            final(self)@.scopes.len() >= old(self)@.scopes.len(),
        decreases def,
    {
        match def {
            Item::Static { .. } => {},
            Item::Module { vis, name, module } => {
                self.insert_module_into(parent_scope, *vis, name, module);
            },
            Item::Class { vis, name, class } => {
                self.insert_class_into(parent_scope, *vis, name, class);
            },
            Item::Func { vis, name, func } => {
                self.insert_func_into(parent_scope, *vis, name, func);
            },
        }
    }

    fn insert_module_into(&mut self, parent_scope: usize, vis: Visibility, name: &String, module: &ModuleItem) -> (r: Option<usize>)
        requires
            old(self).inv(),
            parent_scope < old(self)@.scopes.len(),
        ensures
            final(self).inv(),
            final(self)@ == insert_item(old(self)@, parent_scope as int, Item::Module { vis, name: *name, module: *module }),
            final(self)@.scopes.len() >= old(self)@.scopes.len(),
        decreases module,
    {
        let new_scope = self.scopes.len();
        let ghost sd = self@.scopes[parent_scope as int];
        let added = self.scopes[parent_scope].modules.insert_new(name.clone(), VisIndex { vis, index: new_scope });
        proof {
            assert(has_entry(sd.modules, name@) == !added);
        }
        if !added {
            assert(self@.scopes =~= old(self)@.scopes);
            return None;
        }
        assert(self@.scopes =~= old(self)@.scopes.update(
            parent_scope as int,
            CScopeModel { modules: sd.modules.push((name@, VisIndex { vis, index: new_scope })), ..sd },
        ));
        let super_scope = self.scopes[parent_scope].super_scope;
        self.push_scope(super_scope, None);
        self.insert_items_into(new_scope, &module.defs);
        Some(new_scope)
    }

    fn insert_class_into(&mut self, parent_scope: usize, vis: Visibility, name: &String, class: &ClassItem) -> (r: Option<usize>)
        requires
            old(self).inv(),
            parent_scope < old(self)@.scopes.len(),
        ensures
            final(self).inv(),
            final(self)@ == insert_item(old(self)@, parent_scope as int, Item::Class { vis, name: *name, class: *class }),
            final(self)@.scopes.len() >= old(self)@.scopes.len(),
        decreases class,
    {
        let new_class = self.classes.len();
        let ghost sd = self@.scopes[parent_scope as int];
        let added = self.scopes[parent_scope].classes.insert_new(name.clone(), VisIndex { vis, index: new_class });
        proof {
            assert(has_entry(sd.classes, name@) == !added);
        }
        if !added {
            assert(self@.scopes =~= old(self)@.scopes);
            return None;
        }
        assert(self@.scopes =~= old(self)@.scopes.update(
            parent_scope as int,
            CScopeModel { classes: sd.classes.push((name@, VisIndex { vis, index: new_class })), ..sd },
        ));
        let fields = Self::build_typed(&class.fields);
        let super_scope = self.scopes[parent_scope].super_scope;
        let inner_scope = self.scopes.len();
        self.push_scope(super_scope, Some(parent_scope));
        let ghost before = self@;
        self.classes.push(CompilerClass { parent_scope, fields, inner_scope });
        assert(self@.classes =~= before.classes.push(
            CClassModel { parent_scope, fields: typed_model(class.fields@), inner_scope },
        ));
        self.insert_items_into(inner_scope, &class.defs);
        Some(new_class)
    }

    fn insert_func_into(&mut self, parent_scope: usize, vis: Visibility, name: &String, func: &FuncItem) -> (r: Option<usize>)
        requires
            old(self).inv(),
            parent_scope < old(self)@.scopes.len(),
        ensures
            final(self).inv(),
            final(self)@ == insert_item(old(self)@, parent_scope as int, Item::Func { vis, name: *name, func: *func }),
            final(self)@.scopes.len() >= old(self)@.scopes.len(),
        decreases func,
    {
        let new_func = self.funcs.len();
        let ghost sd = self@.scopes[parent_scope as int];
        let added = self.scopes[parent_scope].funcs.insert_new(name.clone(), VisIndex { vis, index: new_func });
        proof {
            assert(has_entry(sd.funcs, name@) == !added);
        }
        if !added {
            assert(self@.scopes =~= old(self)@.scopes);
            return None;
        }
        assert(self@.scopes =~= old(self)@.scopes.update(
            parent_scope as int,
            CScopeModel { funcs: sd.funcs.push((name@, VisIndex { vis, index: new_func })), ..sd },
        ));
        let output = Self::build_union(&func.output);
        let inputs = Self::build_typed(&func.inputs);
        let super_scope = self.scopes[parent_scope].super_scope;
        let inner_scope = self.scopes.len();
        self.push_scope(super_scope, Some(parent_scope));
        let ghost before = self@;
        self.funcs.push(CompilerFunc { parent_scope, inputs, output, inner_scope });
        assert(self@.funcs =~= before.funcs.push(
            CFuncModel {
                parent_scope,
                inputs: typed_model(func.inputs@),
                output: union_model(func.output),
                inner_scope,
            },
        ));
        let ghost m3 = self@;
        let mut i: usize = 0;
        while i < func.body.len()
            invariant
                self.inv(),
                i <= func.body.len(),
                inner_scope < m3.scopes.len(),
                self@ == insert_body_items(m3, inner_scope as int, func.body@.subrange(0, i as int)),
                self@.scopes.len() >= m3.scopes.len(),
            decreases func.body.len() - i,
        {
            proof {
                assert(func.body@.subrange(0, i + 1).drop_last() =~= func.body@.subrange(0, i as int));
            }
            match &func.body[i] {
                BodyItem::Def(item) => {
                    proof {
                        assert(decreases_to!(func => func.body));
                        assert(decreases_to!(func.body => func.body[i as int]));
                    }
                    self.insert_definition_into(inner_scope, item);
                },
                _ => {},
            }
            i = i + 1;
        }
        assert(func.body@.subrange(0, i as int) =~= func.body@);
        Some(new_func)
    }
}

// ----- laws of the layout -----

/// Typed names whose names are all different are laid out one entry each, in order, each
/// name with its own union.
proof fn lemma_typed_distinct(fields: Seq<TypedName>)
    requires
        forall|a: int, b: int| 0 <= a < b < fields.len() ==> fields[a].name@ != fields[b].name@,
    ensures
        typed_model(fields).len() == fields.len(),
        forall|i: int| 0 <= i < fields.len() ==> #[trigger] typed_model(fields)[i] == (fields[i].name@, union_model(fields[i].ty)),
    decreases fields.len(),
{
    if fields.len() > 0 {
        let init = fields.drop_last();
        lemma_typed_distinct(init);
        let t = typed_model(init);
        assert forall|a: int| 0 <= a < t.len() implies t[a].0 != fields.last().name@ by {
            assert(t[a] == (init[a].name@, union_model(init[a].ty)));
            assert(init[a] == fields[a]);
        }
        crate::name_map::lemma_set_entry_new(t, fields.last().name@, union_model(fields.last().ty));
    }
}

/// Inserting an item keeps every class and function laid out before it, at its index.
proof fn lemma_item_keeps(m: CompilerModel, scope: int, item: Item)
    ensures
        m.classes.len() <= insert_item(m, scope, item).classes.len(),
        m.funcs.len() <= insert_item(m, scope, item).funcs.len(),
        forall|i: int| 0 <= i < m.classes.len() ==> #[trigger] insert_item(m, scope, item).classes[i] == m.classes[i],
        forall|i: int| 0 <= i < m.funcs.len() ==> #[trigger] insert_item(m, scope, item).funcs[i] == m.funcs[i],
    decreases item,
{
    let sd = m.scopes[scope];
    match item {
        Item::Static { .. } => {},
        Item::Module { vis, name, module } => if !has_entry(sd.modules, name@) {
            let s = m.scopes.len();
            let m1 = with_scope(m, scope, CScopeModel { modules: sd.modules.push((name@, VisIndex { vis, index: s as usize })), ..sd });
            let m2 = CompilerModel { scopes: m1.scopes.push(bare_scope(sd.super_scope, None)), ..m1 };
            lemma_items_keeps(m2, s as int, module.defs@);
        },
        Item::Class { vis, name, class } => if !has_entry(sd.classes, name@) {
            let c = m.classes.len();
            let s = m.scopes.len();
            let m1 = with_scope(m, scope, CScopeModel { classes: sd.classes.push((name@, VisIndex { vis, index: c as usize })), ..sd });
            let m2 = CompilerModel { scopes: m1.scopes.push(bare_scope(sd.super_scope, Some(scope as usize))), ..m1 };
            let data = CClassModel { parent_scope: scope as usize, fields: typed_model(class.fields@), inner_scope: s as usize };
            let m3 = CompilerModel { classes: m2.classes.push(data), ..m2 };
            lemma_items_keeps(m3, s as int, class.defs@);
        },
        Item::Func { vis, name, func } => if !has_entry(sd.funcs, name@) {
            let f = m.funcs.len();
            let s = m.scopes.len();
            let m1 = with_scope(m, scope, CScopeModel { funcs: sd.funcs.push((name@, VisIndex { vis, index: f as usize })), ..sd });
            let m2 = CompilerModel { scopes: m1.scopes.push(bare_scope(sd.super_scope, Some(scope as usize))), ..m1 };
            let data = CFuncModel {
                parent_scope: scope as usize,
                inputs: typed_model(func.inputs@),
                output: union_model(func.output),
                inner_scope: s as usize,
            };
            let m3 = CompilerModel { funcs: m2.funcs.push(data), ..m2 };
            lemma_body_keeps(m3, s as int, func.body@);
        },
    }
}

/// Inserting items keeps every class and function laid out before them.
proof fn lemma_items_keeps(m: CompilerModel, scope: int, items: Seq<Item>)
    ensures
        m.classes.len() <= insert_items(m, scope, items).classes.len(),
        m.funcs.len() <= insert_items(m, scope, items).funcs.len(),
        forall|i: int| 0 <= i < m.classes.len() ==> #[trigger] insert_items(m, scope, items).classes[i] == m.classes[i],
        forall|i: int| 0 <= i < m.funcs.len() ==> #[trigger] insert_items(m, scope, items).funcs[i] == m.funcs[i],
    decreases items,
{
    if items.len() > 0 {
        lemma_items_keeps(m, scope, items.drop_last());
        lemma_item_keeps(insert_items(m, scope, items.drop_last()), scope, items.last());
    }
}

/// Inserting the items of a body keeps every class and function laid out before them.
proof fn lemma_body_keeps(m: CompilerModel, scope: int, body: Seq<BodyItem>)
    ensures
        m.classes.len() <= insert_body_items(m, scope, body).classes.len(),
        m.funcs.len() <= insert_body_items(m, scope, body).funcs.len(),
        forall|i: int| 0 <= i < m.classes.len() ==> #[trigger] insert_body_items(m, scope, body).classes[i] == m.classes[i],
        forall|i: int| 0 <= i < m.funcs.len() ==> #[trigger] insert_body_items(m, scope, body).funcs[i] == m.funcs[i],
    decreases body,
{
    if body.len() > 0 {
        lemma_body_keeps(m, scope, body.drop_last());
        match body.last() {
            BodyItem::Def(item) => {
                lemma_item_keeps(insert_body_items(m, scope, body.drop_last()), scope, item);
            },
            _ => {},
        }
    }
}

/// A function whose name is new to its scope's functions is laid out at the next
/// function index, in that scope, with every parameter: in order, each under its name
/// with the paths of the types of its union, in order; and with the paths of its output
/// type. (Parameter names are taken to differ from each other: a repeated name keeps one
/// entry.)
pub proof fn lemma_func_records_inputs(m: CompilerModel, scope: int, vis: Visibility, name: String, func: FuncItem)
    requires
        0 <= scope < m.scopes.len(),
        !has_entry(m.scopes[scope].funcs, name@),
        forall|a: int, b: int| 0 <= a < b < func.inputs@.len() ==> func.inputs@[a].name@ != func.inputs@[b].name@,
    ensures
        ({
            let r = insert_item(m, scope, Item::Func { vis, name, func });
            let f = r.funcs[m.funcs.len() as int];
            &&& m.funcs.len() < r.funcs.len()
            &&& f.parent_scope == scope as usize
            &&& f.inputs.len() == func.inputs@.len()
            &&& forall|i: int| 0 <= i < func.inputs@.len() ==> (#[trigger] f.inputs[i]).0 == func.inputs@[i].name@
                && f.inputs[i].1.len() == func.inputs@[i].ty.types@.len()
                && forall|j: int| 0 <= j < func.inputs@[i].ty.types@.len() ==> (#[trigger] f.inputs[i].1[j]).len()
                    == func.inputs@[i].ty.types@[j].path@.len()
                    && forall|k: int| 0 <= k < func.inputs@[i].ty.types@[j].path@.len() ==> #[trigger] f.inputs[i].1[j][k]
                        == func.inputs@[i].ty.types@[j].path@[k]@
            &&& f.output.len() == func.output.types@.len()
            &&& forall|j: int| 0 <= j < func.output.types@.len() ==> (#[trigger] f.output[j]).len()
                == func.output.types@[j].path@.len()
                && forall|k: int| 0 <= k < func.output.types@[j].path@.len() ==> #[trigger] f.output[j][k]
                    == func.output.types@[j].path@[k]@
        }),
{
    let sd = m.scopes[scope];
    let fi = m.funcs.len();
    let s = m.scopes.len();
    let m1 = with_scope(m, scope, CScopeModel { funcs: sd.funcs.push((name@, VisIndex { vis, index: fi as usize })), ..sd });
    let m2 = CompilerModel { scopes: m1.scopes.push(bare_scope(sd.super_scope, Some(scope as usize))), ..m1 };
    let data = CFuncModel {
        parent_scope: scope as usize,
        inputs: typed_model(func.inputs@),
        output: union_model(func.output),
        inner_scope: s as usize,
    };
    let m3 = CompilerModel { funcs: m2.funcs.push(data), ..m2 };
    lemma_body_keeps(m3, s as int, func.body@);
    lemma_typed_distinct(func.inputs@);
    assert(insert_item(m, scope, Item::Func { vis, name, func }).funcs[fi as int] == data);
    assert forall|i: int| 0 <= i < func.inputs@.len() implies (#[trigger] data.inputs[i]).0 == func.inputs@[i].name@
        && data.inputs[i].1 == union_model(func.inputs@[i].ty) by {
        assert(typed_model(func.inputs@)[i] == (func.inputs@[i].name@, union_model(func.inputs@[i].ty)));
    }
}

/// A class whose name is new to its scope's classes is laid out at the next class index,
/// in that scope, with every field: in order, each under its name with the paths of the
/// types of its union, in order. (Field names are taken to differ from each other: a
/// repeated name keeps one entry.)
pub proof fn lemma_class_records_fields(m: CompilerModel, scope: int, vis: Visibility, name: String, class: ClassItem)
    requires
        0 <= scope < m.scopes.len(),
        !has_entry(m.scopes[scope].classes, name@),
        forall|a: int, b: int| 0 <= a < b < class.fields@.len() ==> class.fields@[a].name@ != class.fields@[b].name@,
    ensures
        ({
            let r = insert_item(m, scope, Item::Class { vis, name, class });
            let c = r.classes[m.classes.len() as int];
            &&& m.classes.len() < r.classes.len()
            &&& c.parent_scope == scope as usize
            &&& c.fields.len() == class.fields@.len()
            &&& forall|i: int| 0 <= i < class.fields@.len() ==> (#[trigger] c.fields[i]).0 == class.fields@[i].name@
                && c.fields[i].1.len() == class.fields@[i].ty.types@.len()
                && forall|j: int| 0 <= j < class.fields@[i].ty.types@.len() ==> (#[trigger] c.fields[i].1[j]).len()
                    == class.fields@[i].ty.types@[j].path@.len()
                    && forall|k: int| 0 <= k < class.fields@[i].ty.types@[j].path@.len() ==> #[trigger] c.fields[i].1[j][k]
                        == class.fields@[i].ty.types@[j].path@[k]@
        }),
{
    let sd = m.scopes[scope];
    let ci = m.classes.len();
    let s = m.scopes.len();
    let m1 = with_scope(m, scope, CScopeModel { classes: sd.classes.push((name@, VisIndex { vis, index: ci as usize })), ..sd });
    let m2 = CompilerModel { scopes: m1.scopes.push(bare_scope(sd.super_scope, Some(scope as usize))), ..m1 };
    let data = CClassModel { parent_scope: scope as usize, fields: typed_model(class.fields@), inner_scope: s as usize };
    let m3 = CompilerModel { classes: m2.classes.push(data), ..m2 };
    lemma_items_keeps(m3, s as int, class.defs@);
    lemma_typed_distinct(class.fields@);
    assert(insert_item(m, scope, Item::Class { vis, name, class }).classes[ci as int] == data);
    assert forall|i: int| 0 <= i < class.fields@.len() implies (#[trigger] data.fields[i]).0 == class.fields@[i].name@
        && data.fields[i].1 == union_model(class.fields@[i].ty) by {
        assert(typed_model(class.fields@)[i] == (class.fields@[i].name@, union_model(class.fields@[i].ty)));
    }
}

} // verus!
