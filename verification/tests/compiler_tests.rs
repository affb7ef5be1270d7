use boba_script::ast::Visibility;
use boba_script::compiler::{BodyItem, ClassItem, Compiler, FuncItem, Item, ModuleItem, TypePath, TypeUnion, TypedName};

fn module(name: &str, defs: Vec<Item>) -> Item {
    Item::Module { vis: Visibility::Public, name: name.to_string(), module: ModuleItem { defs } }
}

fn sample_tree() -> ModuleItem {
    ModuleItem {
        defs: vec![
            module("sub_module1", vec![module("sub_module2", vec![]), module("sub_module3", vec![])]),
            module("sub_module4", vec![]),
        ],
    }
}

fn module_entry(compiler: &Compiler, scope: usize, index: usize) -> Option<(String, usize)> {
    compiler.scopes()[scope].modules.get_index(index).map(|(k, v)| (k, v.index))
}

#[test]
fn ast_module_insert() {
    // build ast
    let module = sample_tree();

    // use ast to build program
    let builder = Compiler::from_root(&module);
    assert_eq!(builder.scopes().len(), 5);
    assert_eq!(module_entry(&builder, 0, 0), Some(("sub_module1".to_string(), 1)));
    assert_eq!(module_entry(&builder, 1, 0), Some(("sub_module2".to_string(), 2)));
    assert_eq!(module_entry(&builder, 1, 1), Some(("sub_module3".to_string(), 3)));
    assert_eq!(module_entry(&builder, 0, 1), Some(("sub_module4".to_string(), 4)));
}

#[test]
fn from_ast() {
    // build ast
    let module = sample_tree();

    // use ast to build program
    let builder = Compiler::from_root(&module);
    assert_eq!(builder.scopes().len(), 5);
    assert_eq!(module_entry(&builder, 0, 0), Some(("sub_module1".to_string(), 1)));
    assert_eq!(module_entry(&builder, 1, 0), Some(("sub_module2".to_string(), 2)));
    assert_eq!(module_entry(&builder, 1, 1), Some(("sub_module3".to_string(), 3)));
    assert_eq!(module_entry(&builder, 0, 1), Some(("sub_module4".to_string(), 4)));
}

fn union(paths: &[&[&str]]) -> TypeUnion {
    TypeUnion {
        types: paths.iter().map(|p| TypePath { path: p.iter().map(|s| s.to_string()).collect() }).collect(),
    }
}

#[test]
fn classes_and_funcs_by_kind() {
    let class = ClassItem {
        fields: vec![
            TypedName { name: "x".to_string(), ty: union(&[&["int"]]) },
            TypedName { name: "y".to_string(), ty: union(&[&["a", "B"], &["none"]]) },
        ],
        defs: vec![Item::Static { vis: Visibility::Private }],
    };
    let func = FuncItem {
        inputs: vec![TypedName { name: "p".to_string(), ty: union(&[&["int"]]) }],
        output: union(&[&["bool"]]),
        body: vec![
            BodyItem::Let,
            BodyItem::Def(module("inner", vec![])),
            BodyItem::Expr,
        ],
    };
    let tree = ModuleItem {
        defs: vec![
            Item::Class { vis: Visibility::Public, name: "Point".to_string(), class },
            // a function may share a class's name: the kinds are kept apart
            Item::Func { vis: Visibility::Private, name: "Point".to_string(), func },
            // a second class of the same name is left out
            Item::Class {
                vis: Visibility::Public,
                name: "Point".to_string(),
                class: ClassItem { fields: vec![], defs: vec![module("lost", vec![])] },
            },
        ],
    };
    let compiler = Compiler::from_root(&tree);
    // root, class scope, function scope, and the module inside the function body
    assert_eq!(compiler.scopes().len(), 4);
    assert_eq!(compiler.classes().len(), 1);
    assert_eq!(compiler.funcs().len(), 1);
    let root = &compiler.scopes()[0];
    assert_eq!(root.classes.len(), 1);
    assert_eq!(root.funcs.get("Point").unwrap().index, 0);
    assert_eq!(root.funcs.get("Point").unwrap().vis, Visibility::Private);
    let class = &compiler.classes()[0];
    assert_eq!(class.inner_scope, 1);
    assert_eq!(class.fields.get("y").unwrap(), &vec![vec!["a".to_string(), "B".to_string()], vec!["none".to_string()]]);
    let func = &compiler.funcs()[0];
    assert_eq!(func.inner_scope, 2);
    assert_eq!(func.output, vec![vec!["bool".to_string()]]);
    let func_scope = &compiler.scopes()[2];
    assert_eq!(func_scope.parent_scope, Some(0));
    assert_eq!(func_scope.modules.get("inner").unwrap().index, 3);
    // a module's scope takes its enclosing module's `super`, not the enclosing scope
    assert_eq!(compiler.scopes()[3].super_scope, None);
    assert_eq!(compiler.scopes()[3].parent_scope, None);
    let empty = Compiler::empty();
    assert_eq!(empty.scopes().len(), 0);
}
