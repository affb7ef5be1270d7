use boba_script::ast::{
    Class, ConcreteType, DefKind, Definition, Field, Func, Module, NodeId, PartKind, PathPart, PathUnion,
    TypeKind, Visibility,
};
use boba_script::indexers::{ClassIndex, FuncIndex, ScopeIndex};
use boba_script::layout::{DefIndex, ProgramLayout};
use boba_script::program::Program;
use boba_script::value::ValueKind;
use boba_script::resolve::{
    find_ident, is_child, resolve_func, resolve_module, resolve_value, ResolveError, ResolvedProgram, ResolvedValue,
};

struct Ids(u64);

impl Ids {
    fn next(&mut self) -> NodeId {
        self.0 += 1;
        NodeId(self.0)
    }
}

fn def(ids: &mut Ids, vis: Visibility, name: &str, kind: DefKind) -> Definition {
    Definition { id: ids.next(), vis, name: name.to_string(), name_id: ids.next(), kind }
}

fn ident(ids: &mut Ids, name: &str) -> PathPart {
    PathPart { id: ids.next(), kind: PartKind::Ident(name.to_string()) }
}

fn sup(ids: &mut Ids) -> PathPart {
    PathPart { id: ids.next(), kind: PartKind::Super }
}

fn path_type(ids: &mut Ids, parts: Vec<PathPart>) -> ConcreteType {
    ConcreteType { id: ids.next(), kind: TypeKind::Path(parts) }
}

fn empty_func(ids: &mut Ids) -> DefKind {
    DefKind::Func(Func { parameters: vec![], output: PathUnion { id: ids.next(), types: vec![] }, body: vec![] })
}

fn empty_class() -> DefKind {
    DefKind::Class(Class { fields: vec![], defs: vec![] })
}

#[test]
fn super_mod_private_class() {
    let ids = &mut Ids(0);
    let field_path = vec![sup(ids), sup(ids), ident(ids, "module0"), ident(ids, "class0")];
    let field_type = path_type(ids, field_path);
    let field_id = ids.next();
    let union_id = ids.next();
    let class1field = Field {
        vis: Visibility::Private,
        name: "class1field".to_string(),
        name_id: field_id,
        union: PathUnion { id: union_id, types: vec![field_type] },
    };
    let class1 = def(ids, Visibility::Private, "class1", DefKind::Class(Class { fields: vec![class1field], defs: vec![] }));
    let module1 = def(ids, Visibility::Private, "module1", DefKind::Module(Module { defs: vec![class1] }));
    let class0 = def(ids, Visibility::Private, "class0", empty_class());
    let module0 = def(ids, Visibility::Private, "module0", DefKind::Module(Module { defs: vec![class0, module1] }));
    let ast = Module { defs: vec![module0] };

    let layout = ProgramLayout::build(&ast);
    let resolved = ResolvedProgram::resolve(&layout);
    let field = resolved.get_class(ClassIndex::new(1)).unwrap().fields.get_index(0).unwrap().1;
    assert_eq!(field, &vec![ResolvedValue::Class(ClassIndex::new(0))]);
}

/// root: pub module `outer` { private class `Hidden`; pub class `Shown`; pub func `f` }
///       pub class `User` with fields naming them.
fn sample() -> ProgramLayout {
    let ids = &mut Ids(100);
    let hidden = def(ids, Visibility::Private, "Hidden", empty_class());
    let shown = def(ids, Visibility::Public, "Shown", empty_class());
    let f_kind = empty_func(ids);
    let f = def(ids, Visibility::Public, "f", f_kind);
    let outer = def(ids, Visibility::Public, "outer", DefKind::Module(Module { defs: vec![hidden, shown, f] }));
    let ast = Module { defs: vec![outer] };
    ProgramLayout::build(&ast)
}

#[test]
fn scopes_are_children_of_their_ancestors() {
    let layout = sample();
    assert!(is_child(&layout, ScopeIndex::new(0), ScopeIndex::new(1)));
    assert!(is_child(&layout, ScopeIndex::new(1), ScopeIndex::new(1)));
    assert!(!is_child(&layout, ScopeIndex::new(1), ScopeIndex::new(0)));
}

#[test]
fn private_names_are_hidden_from_outside() {
    let layout = sample();
    let id = NodeId(7);
    assert_eq!(
        find_ident(&layout, ScopeIndex::new(0), ScopeIndex::new(1), "Hidden", id),
        Err(ResolveError::PrivateIdent(id))
    );
    assert_eq!(
        find_ident(&layout, ScopeIndex::new(1), ScopeIndex::new(1), "Hidden", id),
        Ok(DefIndex::Class(ClassIndex::new(0)))
    );
    assert_eq!(
        find_ident(&layout, ScopeIndex::new(0), ScopeIndex::new(1), "Shown", id),
        Ok(DefIndex::Class(ClassIndex::new(1)))
    );
    // a name that is nowhere is not found
    assert_eq!(
        find_ident(&layout, ScopeIndex::new(0), ScopeIndex::new(0), "missing", id),
        Err(ResolveError::ModuleNotFound(id))
    );
}

#[test]
fn module_paths() {
    let layout = sample();
    let ids = &mut Ids(500);
    let outer = vec![ident(ids, "outer")];
    assert_eq!(resolve_module(&layout, ScopeIndex::new(0), &outer), Ok(ScopeIndex::new(1)));
    let up = vec![sup(ids)];
    assert_eq!(resolve_module(&layout, ScopeIndex::new(1), &up), Ok(ScopeIndex::new(0)));
    let bad = sup(ids);
    let bad_id = bad.id;
    assert_eq!(resolve_module(&layout, ScopeIndex::new(0), &[bad]), Err(ResolveError::SuperFromRoot(bad_id)));
    let not_module = vec![ident(ids, "outer"), ident(ids, "Shown")];
    let nm_id = not_module[1].id;
    assert_eq!(resolve_module(&layout, ScopeIndex::new(0), &not_module), Err(ResolveError::NotAModule(nm_id)));
    assert_eq!(resolve_module(&layout, ScopeIndex::new(1), &[]), Ok(ScopeIndex::new(1)));
    // `super` is only valid at the start of a path
    let late = sup(ids);
    let late_id = late.id;
    let name_then_super = vec![ident(ids, "outer"), late];
    assert_eq!(resolve_module(&layout, ScopeIndex::new(0), &name_then_super), Err(ResolveError::SuperInPath(late_id)));
    let up_then_down = vec![sup(ids), ident(ids, "outer")];
    assert_eq!(resolve_module(&layout, ScopeIndex::new(1), &up_then_down), Ok(ScopeIndex::new(1)));
    let missing = ident(ids, "nowhere");
    let missing_id = missing.id;
    assert_eq!(resolve_module(&layout, ScopeIndex::new(0), &[missing]), Err(ResolveError::ModuleNotFound(missing_id)));
}

#[test]
fn values_and_funcs() {
    let layout = sample();
    let ids = &mut Ids(900);
    let int = ConcreteType { id: ids.next(), kind: TypeKind::Int };
    assert_eq!(resolve_value(&layout, ScopeIndex::new(0), &int), Ok(ResolvedValue::Int));
    let none = ConcreteType { id: ids.next(), kind: TypeKind::NoneType };
    assert_eq!(resolve_value(&layout, ScopeIndex::new(0), &none), Ok(ResolvedValue::NoneValue));
    let empty = path_type(ids, vec![]);
    assert_eq!(resolve_value(&layout, ScopeIndex::new(0), &empty), Err(ResolveError::EmptyPath));
    let shown_parts = vec![ident(ids, "outer"), ident(ids, "Shown")];
    let shown = path_type(ids, shown_parts);
    assert_eq!(resolve_value(&layout, ScopeIndex::new(0), &shown), Ok(ResolvedValue::Class(ClassIndex::new(1))));
    let f_part = ident(ids, "f");
    let f_id = f_part.id;
    let f_parts = vec![ident(ids, "outer"), f_part];
    let f_as_class = path_type(ids, f_parts);
    assert_eq!(resolve_value(&layout, ScopeIndex::new(0), &f_as_class), Err(ResolveError::NotAClass(f_id)));
    let f_path = vec![ident(ids, "outer"), ident(ids, "f")];
    assert_eq!(resolve_func(&layout, ScopeIndex::new(0), &f_path), Ok(FuncIndex::new(0)));
    let class_path = vec![ident(ids, "outer"), ident(ids, "Shown")];
    let cp_id = class_path[1].id;
    assert_eq!(resolve_func(&layout, ScopeIndex::new(0), &class_path), Err(ResolveError::NotAFunc(cp_id)));
    let super_last = sup(ids);
    let sl_id = super_last.id;
    assert_eq!(resolve_func(&layout, ScopeIndex::new(1), &[super_last]), Err(ResolveError::NotAFunc(sl_id)));
    assert_eq!(resolve_func(&layout, ScopeIndex::new(1), &[]), Err(ResolveError::EmptyPath));
    // names that are nowhere
    let no_class = ident(ids, "Nothing");
    let nc_id = no_class.id;
    let no_class_parts = vec![ident(ids, "outer"), no_class];
    let no_class_type = path_type(ids, no_class_parts);
    assert_eq!(resolve_value(&layout, ScopeIndex::new(0), &no_class_type), Err(ResolveError::ClassNotFound(nc_id)));
    let no_func = ident(ids, "g");
    let nf_id = no_func.id;
    let no_func_parts = vec![ident(ids, "outer"), no_func];
    assert_eq!(resolve_func(&layout, ScopeIndex::new(0), &no_func_parts), Err(ResolveError::FuncNotFound(nf_id)));
    let no_module = ident(ids, "inner");
    let nm2_id = no_module.id;
    let no_module_parts = vec![no_module, ident(ids, "f")];
    assert_eq!(resolve_func(&layout, ScopeIndex::new(0), &no_module_parts), Err(ResolveError::ModuleNotFound(nm2_id)));
}

#[test]
fn resolve_collects_errors_in_order() {
    let ids = &mut Ids(2000);
    let bad1 = ident(ids, "Nope");
    let bad1_id = bad1.id;
    let t1 = path_type(ids, vec![bad1]);
    let t2 = ConcreteType { id: ids.next(), kind: TypeKind::Bool };
    let field_id = ids.next();
    let union_id = ids.next();
    let field = Field { vis: Visibility::Public, name: "x".to_string(), name_id: field_id, union: PathUnion { id: union_id, types: vec![t1, t2] } };
    let c = def(ids, Visibility::Public, "C", DefKind::Class(Class { fields: vec![field], defs: vec![] }));
    let out_type = ConcreteType { id: ids.next(), kind: TypeKind::Str };
    let out_id = out_type.id;
    let bad2 = sup(ids);
    let bad2_id = bad2.id;
    let p_type = path_type(ids, vec![bad2]);
    let param_id = ids.next();
    let param_union = ids.next();
    let param = Field { vis: Visibility::Public, name: "p".to_string(), name_id: param_id, union: PathUnion { id: param_union, types: vec![p_type] } };
    let out_union = PathUnion { id: ids.next(), types: vec![out_type] };
    let g_kind = DefKind::Func(Func { parameters: vec![param], output: out_union, body: vec![] });
    let g = def(ids, Visibility::Public, "g", g_kind);
    let ast = Module { defs: vec![c, g] };
    let layout = ProgramLayout::build(&ast);
    let resolved = ResolvedProgram::resolve(&layout);
    assert_eq!(resolved.errors(), &[ResolveError::ClassNotFound(bad1_id), ResolveError::NotAClass(bad2_id)]);
    assert_eq!(resolved.classes().len(), 1);
    assert_eq!(resolved.funcs().len(), 1);
    let class = resolved.get_class(ClassIndex::new(0)).unwrap();
    assert_eq!(class.fields.get("x"), Some(&vec![ResolvedValue::Bool]));
    let func = resolved.get_func(FuncIndex::new(0)).unwrap();
    assert_eq!(func.output, vec![(out_id, ResolvedValue::Str)]);
    assert_eq!(func.inputs.get("p"), Some(&vec![]));
    assert!(resolved.get_func(FuncIndex::new(1)).is_none());
}

#[test]
fn class_funcs_are_listed() {
    let ids = &mut Ids(3000);
    let m_kind = empty_func(ids);
    let method = def(ids, Visibility::Private, "m", m_kind);
    let inner = def(ids, Visibility::Public, "Inner", empty_class());
    let c = def(ids, Visibility::Public, "C", DefKind::Class(Class { fields: vec![], defs: vec![inner, method] }));
    let layout = ProgramLayout::build(&Module { defs: vec![c] });
    let resolved = ResolvedProgram::resolve(&layout);
    let class = resolved.get_class(ClassIndex::new(0)).unwrap();
    assert_eq!(class.funcs.len(), 1);
    let (name, m) = class.funcs.get_index(0).unwrap();
    assert_eq!(name, "m");
    assert_eq!(m.data, FuncIndex::new(0));
    assert_eq!(m.vis, Visibility::Private);
}

#[test]
fn every_scope_lies_inside_the_root() {
    let layout = sample();
    let n = layout.scopes().len();
    assert!(n > 1);
    for i in 0..n {
        assert!(is_child(&layout, ScopeIndex::root(), ScopeIndex::new(i)));
        assert!(is_child(&layout, ScopeIndex::new(i), ScopeIndex::new(i)));
    }
}

#[test]
fn compile_gives_value_kinds_or_the_errors() {
    // class C { a: Int | Shown-like path to itself }, fn g(p: Str) -> Bool
    let ids = &mut Ids(3000);
    let int = ConcreteType { id: ids.next(), kind: TypeKind::Int };
    let self_part = ident(ids, "C");
    let self_path = path_type(ids, vec![self_part]);
    let field = Field { vis: Visibility::Public, name: "a".to_string(), name_id: ids.next(), union: PathUnion { id: ids.next(), types: vec![int, self_path] } };
    let c = def(ids, Visibility::Public, "C", DefKind::Class(Class { fields: vec![field], defs: vec![] }));
    let p_type = ConcreteType { id: ids.next(), kind: TypeKind::Str };
    let param = Field { vis: Visibility::Public, name: "p".to_string(), name_id: ids.next(), union: PathUnion { id: ids.next(), types: vec![p_type] } };
    let out = PathUnion { id: ids.next(), types: vec![ConcreteType { id: ids.next(), kind: TypeKind::Bool }] };
    let g = def(ids, Visibility::Public, "g", DefKind::Func(Func { parameters: vec![param], output: out, body: vec![] }));
    let layout = ProgramLayout::build(&Module { defs: vec![c, g] });
    let program = match Program::compile(&layout) {
        Ok(p) => p,
        Err(es) => panic!("unexpected errors {:?}", es),
    };
    let class = program.get_class(ClassIndex::new(0)).unwrap();
    assert_eq!(class.get_field("a"), Some(&vec![ValueKind::Int, ValueKind::Class(ClassIndex::new(0))]));
    assert_eq!(class.get_field_index_of("a"), Some(0));
    assert_eq!(class.get_field_index(1), None);
    let func = program.get_func(FuncIndex::new(0)).unwrap();
    assert_eq!(func.output(), &vec![ValueKind::Bool]);
    assert_eq!(func.get_input("p"), Some(&vec![ValueKind::Str]));
    assert_eq!(func.get_input_index(0), Some(&vec![ValueKind::Str]));
    assert_eq!(func.get_input_index_of("q"), None);
    assert!(program.get_class(ClassIndex::new(1)).is_none());

    // an unknown class makes the errors the result
    let ids = &mut Ids(4000);
    let bad = ident(ids, "Nope");
    let bad_id = bad.id;
    let t = path_type(ids, vec![bad]);
    let field = Field { vis: Visibility::Public, name: "x".to_string(), name_id: ids.next(), union: PathUnion { id: ids.next(), types: vec![t] } };
    let c = def(ids, Visibility::Public, "C", DefKind::Class(Class { fields: vec![field], defs: vec![] }));
    let layout = ProgramLayout::build(&Module { defs: vec![c] });
    match Program::compile(&layout) {
        Err(es) => assert_eq!(es, vec![ResolveError::ClassNotFound(bad_id)]),
        Ok(_) => panic!("errors expected"),
    }
}
