use kclvm_sema::index_map::{string_map_insert, string_map_new, string_tables_insert};
use kclvm_sema::resolver::{
    ty_str_replace_pkgpath, Position, Range, Resolver, TypeDiagnostic,
};
use kclvm_sema::types::{SchemaIndexSignature, SchemaType, Type, TypeKind};
use kclvm_sema::version::get_full_version;

fn range() -> Range {
    Range {
        start: Position { filename: "main.k".to_string(), line: 1, column: Some(0) },
        end: Position { filename: "main.k".to_string(), line: 1, column: Some(5) },
    }
}

fn schema_with_sig(key: Type, val: Type, any_other: bool) -> SchemaType {
    SchemaType {
        name: "Data".to_string(),
        pkgpath: "__main__".to_string(),
        filename: "main.k".to_string(),
        doc: String::new(),
        is_instance: false,
        is_mixin: false,
        is_protocol: false,
        is_rule: false,
        base: None,
        index_signature: Some(Box::new(SchemaIndexSignature {
            key_name: None,
            key_ty: Box::new(key),
            val_ty: Box::new(val),
            any_other,
        })),
    }
}

#[test]
fn full_version() {
    assert_eq!(get_full_version(), "0.4.2-d6a5247bbfd8c157ac132105f4f57475");
}

#[test]
fn replace_pkgpath() {
    assert_eq!(ty_str_replace_pkgpath("@pkg.Person", "pkg"), "Person");
    assert_eq!(ty_str_replace_pkgpath("@a.b.Person", "a.b"), "Person");
    assert_eq!(ty_str_replace_pkgpath("@other.Person", "pkg"), "@other.Person");
    assert_eq!(ty_str_replace_pkgpath("Person", "pkg"), "Person");
    assert_eq!(ty_str_replace_pkgpath("pkg.Person", "pkg"), "pkg.Person");
    let once = ty_str_replace_pkgpath("@pkg.Person", "pkg");
    assert_eq!(ty_str_replace_pkgpath(&once, "pkg"), once);
}

#[test]
fn builtin_type_getters() {
    let r = Resolver::new("__main__", "main.k");
    assert_eq!(r.any_ty(), Type::any_ty());
    assert_eq!(r.int_ty(), Type::int_ty());
    assert_eq!(r.float_ty(), Type::float_ty());
    assert_eq!(r.bool_ty(), Type::bool_ty());
    assert_eq!(r.str_ty(), Type::str_ty());
    assert_eq!(r.none_ty(), Type::none_ty());
    assert_eq!(r.void_ty(), Type::void_ty());
}

#[test]
fn check_type_plain_and_containers() {
    let mut r = Resolver::new("__main__", "main.k");
    assert!(r.check_type(&Type::int_ty(), &Type::float_ty(), &range()));
    assert!(!r.check_type(&Type::str_ty(), &Type::int_ty(), &range()));
    assert!(r.check_type(
        &Type::list(Type::int_ty()),
        &Type::list(Type::union(vec![Type::str_ty(), Type::int_ty()])),
        &range()
    ));
    assert!(!r.check_type(
        &Type::union(vec![Type::int_ty(), Type::str_ty()]),
        &Type::int_ty(),
        &range()
    ));
    assert!(r.diagnostics.is_empty());
}

#[test]
fn check_type_dict_against_schema_reports_index_signature() {
    let mut r = Resolver::new("__main__", "main.k");
    let schema = Type::schema(schema_with_sig(Type::str_ty(), Type::int_ty(), true));
    let dict = Type::dict(Type::str_ty(), Type::str_ty());
    assert!(!r.check_type(&dict, &schema, &range()));
    assert_eq!(r.diagnostics.len(), 1);
    match &r.diagnostics[0] {
        TypeDiagnostic::IndexSignatureValue { expected, got, .. } => {
            assert_eq!(*expected, Type::int_ty());
            assert_eq!(*got, Type::str_ty());
        }
        _ => panic!("expected an index signature diagnostic"),
    }
    // Without `any_other`, the check passes though the value type is reported.
    let relaxed = Type::schema(schema_with_sig(Type::str_ty(), Type::int_ty(), false));
    assert!(r.check_type(&dict, &relaxed, &range()));
    assert_eq!(r.diagnostics.len(), 2);
    // A schema without an index signature takes any dict.
    let mut plain = schema_with_sig(Type::str_ty(), Type::int_ty(), false);
    plain.index_signature = None;
    assert!(r.dict_assignable_to_schema(&Type::str_ty(), &Type::str_ty(), &plain, &range()));
    assert_eq!(r.diagnostics.len(), 2);
}

#[test]
fn check_type_union_stops_at_first_failure() {
    let mut r = Resolver::new("__main__", "main.k");
    let schema = Type::schema(schema_with_sig(Type::str_ty(), Type::int_ty(), true));
    let bad = Type::dict(Type::str_ty(), Type::str_ty());
    let ty = Type::union(vec![bad.clone(), bad.clone()]);
    assert!(!r.check_type(&ty, &schema, &range()));
    assert_eq!(r.diagnostics.len(), 1);
}

#[test]
fn must_assignable_to_reports_mismatch() {
    let mut r = Resolver::new("__main__", "main.k");
    r.must_assignable_to(&Type::int_ty(), &Type::float_ty(), &range(), None);
    assert!(r.diagnostics.is_empty());
    let defined = range();
    r.must_assignable_to(&Type::str_ty(), &Type::int_ty(), &range(), Some(&defined));
    assert_eq!(r.diagnostics.len(), 1);
    match &r.diagnostics[0] {
        TypeDiagnostic::Mismatch { expected, got, expected_pos, .. } => {
            assert_eq!(*expected, Type::int_ty());
            assert_eq!(*got, Type::str_ty());
            assert!(expected_pos.is_some());
        }
        _ => panic!("expected a mismatch"),
    }
}

#[test]
fn add_type_alias_records_and_skips() {
    let mut r = Resolver::new("pkg", "main.k");
    r.add_type_alias("Person", "Person");
    r.add_type_alias("Person", "@Person");
    assert!(r.type_alias_mapping.is_empty());
    r.add_type_alias("Person", "@pkg.Person");
    r.add_type_alias("Age", "int");
    let mapping = r.type_alias_mapping.get("pkg").unwrap();
    assert_eq!(mapping.get("Person").unwrap(), "@pkg.Person");
    assert_eq!(mapping.get("Age").unwrap(), "int");
    r.add_type_alias("Age", "float");
    assert_eq!(r.type_alias_mapping.get("pkg").unwrap().get("Age").unwrap(), "float");
    assert_eq!(r.type_alias_mapping.len(), 1);
}

#[test]
fn add_type_alias_keeps_insertion_order() {
    let mut r = Resolver::new("pkg", "main.k");
    r.add_type_alias("B", "@pkg.B");
    r.add_type_alias("A", "@pkg.A");
    r.add_type_alias("B", "int");
    r.pkgpath = "other".to_string();
    r.add_type_alias("C", "@other.C");
    let packages: Vec<&String> = r.type_alias_mapping.keys().collect();
    assert_eq!(packages, vec!["pkg", "other"]);
    let names: Vec<&String> = r.type_alias_mapping.get("pkg").unwrap().keys().collect();
    assert_eq!(names, vec!["B", "A"]);
    assert_eq!(r.type_alias_mapping.get("pkg").unwrap().get("B").unwrap(), "int");
}

#[test]
fn upgrade_named_types() {
    let mut r = Resolver::new("pkg", "main.k");
    let mut imports = string_map_new();
    string_map_insert(&mut imports, "sub".to_string(), "pkg.sub".to_string());
    string_tables_insert(&mut r.import_names, "main.k".to_string(), imports);
    r.l_value = true;
    let resolve = |names: &Vec<String>, pkgpath: &str| -> Type {
        Type {
            kind: TypeKind::Named(format!("{}|{}", names.join(","), pkgpath)),
        }
    };
    let ty = Type::list(Type::union(vec![
        Type { kind: TypeKind::Named("@pkg.Person".to_string()) },
        Type { kind: TypeKind::Named("sub.Base".to_string()) },
        Type { kind: TypeKind::Named("@other.x.Thing".to_string()) },
        Type::int_ty(),
    ]));
    let got = r.upgrade_named_ty_with_scope(&ty, resolve);
    let expected = Type::list(Type::union(vec![
        Type { kind: TypeKind::Named("Person|".to_string()) },
        Type { kind: TypeKind::Named("sub,Base|pkg.sub".to_string()) },
        Type { kind: TypeKind::Named("@other.x,Thing|".to_string()) },
        Type::int_ty(),
    ]));
    assert_eq!(got, expected);
    assert!(!r.l_value);
    // A local variable shadows an import.
    r.local_vars.push("sub".to_string());
    let got = r.upgrade_named_ty_with_scope(
        &Type { kind: TypeKind::Named("sub.Base".to_string()) },
        resolve,
    );
    assert_eq!(got, Type { kind: TypeKind::Named("sub,Base|".to_string()) });
    // Types without names are kept.
    r.l_value = true;
    assert_eq!(r.upgrade_named_ty_with_scope(&Type::str_ty(), resolve), Type::str_ty());
    assert!(r.l_value);
}
