use kclvm_sema::decorator::{builtin_decorators, decorator_names, DEPRECATED_DOC, INFO_DOC};
use kclvm_sema::types::{Type, TypeKind};
use kclvm_sema::walker::walk_type;

#[test]
fn builtin_decorator_map() {
    let m = builtin_decorators();
    let keys: Vec<&String> = m.keys().collect();
    assert_eq!(keys, vec!["deprecated", "info"]);
    match &m.get("deprecated").unwrap().kind {
        TypeKind::Function(f) => {
            assert_eq!(f.doc, DEPRECATED_DOC);
            let names: Vec<&str> = f.params.iter().map(|p| p.name.as_str()).collect();
            assert_eq!(names, vec!["version", "reason", "strict"]);
            assert_eq!(*f.params[2].ty, Type::bool_ty());
            assert!(f.params.iter().all(|p| p.has_default));
            assert!(!f.is_variadic);
            assert_eq!(f.kw_only_index, None);
            assert_eq!(*f.return_ty, Type::any_ty());
        }
        _ => panic!("deprecated is a function"),
    }
    match &m.get("info").unwrap().kind {
        TypeKind::Function(f) => {
            assert_eq!(f.doc, INFO_DOC);
            assert!(f.params.is_empty());
            assert!(f.is_variadic);
            assert_eq!(f.kw_only_index, Some(0));
        }
        _ => panic!("info is a function"),
    }
    assert_eq!(decorator_names(), vec!["deprecated", "info"]);
}

#[test]
fn walk_with_identity_gives_same_type() {
    fn keep(ty: &Type) -> Type {
        ty.clone()
    }
    let ty = Type::dict(
        Type::str_ty(),
        Type::union(vec![Type::list(Type::int_lit(2)), Type::none_ty()]),
    );
    assert_eq!(walk_type(&ty, keep), ty);
}

#[test]
fn walk_replaces_only_what_the_function_returns() {
    fn lists_to_any(ty: &Type) -> Type {
        if ty.is_list() {
            Type::any_ty()
        } else {
            ty.clone()
        }
    }
    let ty = Type::union(vec![Type::list(Type::int_ty()), Type::dict(Type::str_ty(), Type::list(Type::str_ty()))]);
    assert_eq!(
        walk_type(&ty, lists_to_any),
        Type::union(vec![Type::any_ty(), Type::dict(Type::str_ty(), Type::any_ty())])
    );
}

#[test]
fn walk_may_make_types_deeper() {
    fn named_to_int_list(ty: &Type) -> Type {
        match &ty.kind {
            TypeKind::Named(_) => Type::list(Type::int_ty()),
            _ => ty.clone(),
        }
    }
    let ty = Type::dict(
        Type::str_ty(),
        Type::union(vec![Type { kind: TypeKind::Named("T".to_string()) }, Type::none_ty()]),
    );
    assert_eq!(
        walk_type(&ty, named_to_int_list),
        Type::dict(
            Type::str_ty(),
            Type::union(vec![Type::list(Type::int_ty()), Type::none_ty()]),
        )
    );
}
