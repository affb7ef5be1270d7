use boba_script::ast::{
    Class, ConcreteType, DefKind, Definition, Field, Func, Module, NodeId, PartKind, PathPart, PathUnion,
    Statement, TypeKind, Visibility,
};
use boba_script::indexers::{ClassIndex, FuncIndex, GlobalIndex, ScopeIndex};
use boba_script::layout::{DefIndex, LayoutError, ProgramLayout};

fn def(id: u64, vis: Visibility, name: &str, name_id: u64, kind: DefKind) -> Definition {
    Definition { id: NodeId(id), vis, name: name.to_string(), name_id: NodeId(name_id), kind }
}

fn empty_union(id: u64) -> PathUnion {
    PathUnion { id: NodeId(id), types: vec![] }
}

fn module_def(name: &str, name_id: u64, defs: Vec<Definition>) -> Definition {
    def(name_id + 1000, Visibility::Public, name, name_id, DefKind::Module(Module { defs }))
}

#[test]
fn insert_conflict() {
    const IDENT: &str = "test_ident";
    let first_class_id = NodeId(1);
    let second_class_id = NodeId(2);
    let ast = Module {
        defs: vec![
            Definition {
                id: NodeId(10),
                vis: Visibility::Private,
                name: IDENT.to_string(),
                name_id: first_class_id,
                kind: DefKind::Class(Class { fields: vec![], defs: vec![] }),
            },
            Definition {
                id: NodeId(11),
                vis: Visibility::Private,
                name: IDENT.to_string(),
                name_id: second_class_id,
                kind: DefKind::Func(Func { parameters: vec![], output: empty_union(12), body: vec![] }),
            },
        ],
    };

    let layout = ProgramLayout::build(&ast);
    assert_eq!(layout.errors().len(), 1);
    assert_eq!(
        layout.errors()[0],
        LayoutError::DuplicateIdent { first: first_class_id, second: second_class_id }
    )
}

#[test]
fn nested_modules_get_scopes_in_order() {
    let ast = Module {
        defs: vec![
            module_def(
                "sub_module1",
                1,
                vec![module_def("sub_module2", 2, vec![]), module_def("sub_module3", 3, vec![])],
            ),
            module_def("sub_module4", 4, vec![]),
        ],
    };
    let layout = ProgramLayout::build(&ast);
    assert!(layout.errors().is_empty());
    assert_eq!(layout.scopes().len(), 5);
    let entry = |scope: usize, index: usize| {
        let (name, data) = layout.scopes()[scope].defs.get_index(index).unwrap();
        (name, data.data)
    };
    assert_eq!(entry(0, 0), ("sub_module1".to_string(), DefIndex::Module(ScopeIndex::new(1))));
    assert_eq!(entry(1, 0), ("sub_module2".to_string(), DefIndex::Module(ScopeIndex::new(2))));
    assert_eq!(entry(1, 1), ("sub_module3".to_string(), DefIndex::Module(ScopeIndex::new(3))));
    assert_eq!(entry(0, 1), ("sub_module4".to_string(), DefIndex::Module(ScopeIndex::new(4))));
    // a module's scope has the enclosing module as `super` and no parent
    let s2 = layout.get_scope(ScopeIndex::new(2)).unwrap();
    assert_eq!(s2.super_scope, Some(ScopeIndex::new(1)));
    assert_eq!(s2.parent_scope, None);
    let root = layout.get_scope(ScopeIndex::root()).unwrap();
    assert_eq!(root.super_scope, None);
    assert_eq!(root.parent_scope, None);
    assert!(layout.get_scope(ScopeIndex::new(5)).is_none());
}

#[test]
fn class_and_func_scopes() {
    let field = |name: &str, id: u64| Field {
        vis: Visibility::Public,
        name: name.to_string(),
        name_id: NodeId(id),
        union: PathUnion { id: NodeId(id + 100), types: vec![ConcreteType { id: NodeId(id + 200), kind: TypeKind::Int }] },
    };
    let inner_func = def(
        30,
        Visibility::Public,
        "method",
        31,
        DefKind::Func(Func { parameters: vec![], output: empty_union(32), body: vec![] }),
    );
    let class = Class { fields: vec![field("a", 1), field("b", 2), field("a", 3)], defs: vec![inner_func] };
    let global_in_body = def(40, Visibility::Private, "local_global", 41, DefKind::Global(NodeId(42)));
    let func = Func {
        parameters: vec![field("x", 5)],
        output: empty_union(50),
        body: vec![Statement::Local(NodeId(60)), Statement::Global(global_in_body), Statement::Local(NodeId(61))],
    };
    let ast = Module {
        defs: vec![
            def(10, Visibility::Public, "Point", 11, DefKind::Class(class)),
            def(20, Visibility::Public, "main", 21, DefKind::Func(func)),
            def(70, Visibility::Public, "answer", 71, DefKind::Global(NodeId(72))),
        ],
    };
    let layout = ProgramLayout::build(&ast);
    assert!(layout.errors().is_empty());
    // root, class scope, method scope, main scope
    assert_eq!(layout.scopes().len(), 4);
    assert_eq!(layout.classes().len(), 1);
    assert_eq!(layout.funcs().len(), 2);
    // the method is inserted (and numbered) before the function that holds it finishes
    let root = &layout.scopes()[0].defs;
    assert_eq!(root.get("Point").unwrap().data, DefIndex::Class(ClassIndex::new(0)));
    assert_eq!(root.get("main").unwrap().data, DefIndex::Func(FuncIndex::new(1)));
    assert_eq!(root.get("answer").unwrap().data, DefIndex::Global(GlobalIndex::new(1)));
    assert_eq!(root.get("answer").unwrap().id, NodeId(71));
    let class = layout.get_class(ClassIndex::new(0)).unwrap();
    assert_eq!(class.parent_scope, ScopeIndex::new(0));
    assert_eq!(class.inner_scope, ScopeIndex::new(1));
    // a repeated field name replaces the earlier one in place
    assert_eq!(class.fields.len(), 2);
    assert_eq!(class.fields.get_index(0).unwrap().0, "a");
    assert_eq!(class.fields.get_index(0).unwrap().1.id, NodeId(103));
    assert_eq!(class.fields.get_index(1).unwrap().0, "b");
    let class_scope = layout.get_scope(ScopeIndex::new(1)).unwrap();
    assert_eq!(class_scope.parent_scope, Some(ScopeIndex::new(0)));
    assert_eq!(class_scope.defs.get("method").unwrap().data, DefIndex::Func(FuncIndex::new(0)));
    let main = layout.get_func(FuncIndex::new(1)).unwrap();
    assert_eq!(main.inner_scope, ScopeIndex::new(3));
    assert_eq!(main.body, vec![NodeId(60), NodeId(61)]);
    assert_eq!(main.parameters.len(), 1);
    assert_eq!(main.output.id, NodeId(50));
    let main_scope = layout.get_scope(ScopeIndex::new(3)).unwrap();
    assert_eq!(main_scope.defs.get("local_global").unwrap().data, DefIndex::Global(GlobalIndex::new(0)));
    assert_eq!(layout.globals(), &[NodeId(42), NodeId(72)]);
    assert_eq!(layout.get_global(GlobalIndex::new(1)), Some(&NodeId(72)));
    assert_eq!(layout.get_global(GlobalIndex::new(2)), None);
    assert!(layout.get_class(ClassIndex::new(1)).is_none());
    assert!(layout.get_func(FuncIndex::new(2)).is_none());
}

#[test]
fn duplicate_keeps_first_definition() {
    let ast = Module {
        defs: vec![
            def(1, Visibility::Public, "x", 2, DefKind::Global(NodeId(3))),
            def(4, Visibility::Public, "x", 5, DefKind::Global(NodeId(6))),
            def(7, Visibility::Public, "x", 8, DefKind::Module(Module { defs: vec![] })),
        ],
    };
    let layout = ProgramLayout::build(&ast);
    assert_eq!(
        layout.errors(),
        &[
            LayoutError::DuplicateIdent { first: NodeId(2), second: NodeId(5) },
            LayoutError::DuplicateIdent { first: NodeId(2), second: NodeId(8) },
        ]
    );
    // the dropped definitions still take their slots
    assert_eq!(layout.globals().len(), 2);
    assert_eq!(layout.scopes().len(), 2);
    assert_eq!(layout.scopes()[0].defs.len(), 1);
    assert_eq!(layout.scopes()[0].defs.get("x").unwrap().data, DefIndex::Global(GlobalIndex::new(0)));
}

#[test]
fn path_part_is_plain_data() {
    let p = PathPart { id: NodeId(1), kind: PartKind::Ident("a".to_string()) };
    assert_eq!(p.clone(), p);
}
