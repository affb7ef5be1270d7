use boba_script::builder::{BuildError, ProgramBuilder};

fn path(parts: &[&str]) -> Vec<String> {
    parts.iter().map(|s| s.to_string()).collect()
}

#[test]
fn type_resolution() {
    let mut builder = ProgramBuilder::new();

    // build root module and pearl
    let root_module = builder.root_module();
    let root_pearl = root_module.create_pearl(&mut builder, "RootPearl".to_string()).unwrap();
    let root_pearl_id = root_pearl.id();
    let field1 = root_pearl.create_field(&mut builder, "field1".to_string()).unwrap();
    field1.push(&mut builder, vec!["sub_module".to_string(), "NestedPearl".to_string()]);
    let field2 = root_pearl.create_field(&mut builder, "field2".to_string()).unwrap();
    field2.push(
        &mut builder,
        vec!["sub_module".to_string(), "sub_module2".to_string(), "NestedPearl2".to_string()],
    );

    // build nested module and pearl
    let sub_module = root_module.create_module(&mut builder, "sub_module".to_string()).unwrap();
    let nested_pearl = sub_module.create_pearl(&mut builder, "NestedPearl".to_string()).unwrap();
    let nested_pearl_id = nested_pearl.id();
    let field = nested_pearl.create_field(&mut builder, "field1".to_string()).unwrap();
    field.push(&mut builder, vec!["super".to_string(), "RootPearl".to_string()]);

    // build double nested module and pearl
    let sub_module2 = sub_module.create_module(&mut builder, "sub_module2".to_string()).unwrap();
    let nested_pearl2 = sub_module2.create_pearl(&mut builder, "NestedPearl2".to_string()).unwrap();
    let nested_pearl2_id = nested_pearl2.id();
    let field1 = nested_pearl2.create_field(&mut builder, "field1".to_string()).unwrap();
    field1.push(&mut builder, vec!["super".to_string(), "super".to_string(), "RootPearl".to_string()]);
    let field2 = nested_pearl2.create_field(&mut builder, "field2".to_string()).unwrap();
    field2.push(&mut builder, vec!["root".to_string(), "RootPearl".to_string()]);

    let program = builder.build().unwrap();
    assert_eq!(program.pearls()[0].fields[0], nested_pearl_id);
    assert_eq!(program.pearls()[0].fields[1], nested_pearl2_id);
    assert_eq!(program.pearls()[1].fields[0], root_pearl_id);
    assert_eq!(program.pearls()[2].fields[0], root_pearl_id);
    assert_eq!(program.pearls()[2].fields[1], root_pearl_id);
}

#[test]
fn names_are_taken_once() {
    let mut builder = ProgramBuilder::new();
    let root = builder.root_module();
    assert_eq!(root.id(), 0);
    let a = root.create_module(&mut builder, "a".to_string()).unwrap();
    assert_eq!(a.id(), 1);
    assert!(root.create_module(&mut builder, "a".to_string()).is_none());
    let p = root.create_pearl(&mut builder, "P".to_string()).unwrap();
    assert!(root.create_pearl(&mut builder, "P".to_string()).is_none());
    assert!(p.create_field(&mut builder, "f".to_string()).is_some());
    assert!(p.create_field(&mut builder, "f".to_string()).is_none());
    assert!(p.get_field(&builder, "f").is_some());
    assert!(p.get_field(&builder, "g").is_none());
    assert_eq!(p.parent_module(&builder).id(), 0);
    assert_eq!(a.parent(&builder).map(|m| m.id()), Some(0));
    assert!(root.parent(&builder).is_none());
    assert_eq!(root.get_module(&builder, "a").map(|m| m.id()), Some(1));
    assert!(root.get_module(&builder, "b").is_none());
    assert_eq!(root.get_pearl(&builder, "P").map(|p| p.id()), Some(0));
    // the root module is made once
    assert_eq!(builder.root_module().id(), 0);
    assert_eq!(builder.build().unwrap().pearls().len(), 1);
}

#[test]
fn build_reports_every_error() {
    let mut builder = ProgramBuilder::new();
    let root = builder.root_module();
    let p = root.create_pearl(&mut builder, "P".to_string()).unwrap();
    let f = p.create_field(&mut builder, "f".to_string()).unwrap();
    f.push(&mut builder, vec![]);
    f.push(&mut builder, path(&["super", "P"]));
    f.push(&mut builder, path(&["nowhere", "P"]));
    f.push(&mut builder, path(&["Missing"]));
    f.push(&mut builder, path(&["P", "root", "P"]));
    f.push(&mut builder, path(&["P"]));
    let errors = builder.build().unwrap_err();
    assert_eq!(
        errors,
        vec![
            BuildError::EmptyPath,
            BuildError::SuperFromRoot,
            BuildError::ModuleDoesNotExist("nowhere".to_string()),
            BuildError::PearlDoesNotExist("Missing".to_string()),
            BuildError::ModuleDoesNotExist("P".to_string()),
            BuildError::InvalidRootKeyword,
        ]
    );
}
