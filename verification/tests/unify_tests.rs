use kclvm_sema::types::{NumberMultiplierType, SchemaType, Type, TypeKind};
use kclvm_sema::unify::{
    add_type_to_type_set, add_types_to_type_set, assignable_to, equal, has_any_type,
    is_sub_schema_of, is_upper_bound, subsume, sup, type_of,
};

fn schema(name: &str, pkgpath: &str, base: Option<SchemaType>) -> SchemaType {
    SchemaType {
        name: name.to_string(),
        pkgpath: pkgpath.to_string(),
        filename: String::new(),
        doc: String::new(),
        is_instance: false,
        is_mixin: false,
        is_protocol: false,
        is_rule: false,
        base: base.map(Box::new),
        index_signature: None,
    }
}

fn multiplier(raw: i64, suffix: &str, is_literal: bool) -> Type {
    Type {
        kind: TypeKind::NumberMultiplier(NumberMultiplierType {
            raw_value: raw,
            binary_suffix: suffix.to_string(),
            is_literal,
        }),
    }
}

#[test]
fn subsume_any_and_none() {
    assert!(subsume(&Type::int_ty(), &Type::any_ty(), false));
    assert!(subsume(&Type::none_ty(), &Type::str_ty(), false));
    assert!(!subsume(&Type::any_ty(), &Type::int_ty(), false));
    assert!(subsume(&Type::any_ty(), &Type::int_ty(), true));
}

#[test]
fn subsume_numbers_and_literals() {
    assert!(subsume(&Type::int_ty(), &Type::float_ty(), false));
    assert!(!subsume(&Type::float_ty(), &Type::int_ty(), false));
    assert!(subsume(&Type::int_lit(1), &Type::int_ty(), false));
    assert!(subsume(&Type::int_lit(1), &Type::float_ty(), false));
    assert!(subsume(&Type::bool_lit(true), &Type::float_ty(), false));
    assert!(subsume(&Type::bool_lit(false), &Type::bool_ty(), false));
    assert!(!subsume(&Type::bool_lit(false), &Type::int_ty(), false));
    assert!(subsume(&Type::str_lit("abc"), &Type::str_ty(), false));
    assert!(!subsume(&Type::str_lit("1.5"), &Type::float_ty(), false));
    // The written form of a string literal naming a type is taken by that type.
    assert!(subsume(&Type::str_lit("int"), &Type::int_ty(), false));
    assert!(!subsume(&Type::str_lit("int"), &Type::float_ty(), false));
    assert!(subsume(&Type::int_lit(3), &Type::int_lit(3), false));
    assert!(!subsume(&Type::int_lit(3), &Type::int_lit(4), false));
    assert!(!subsume(&Type::int_ty(), &Type::int_lit(3), false));
    assert!(subsume(&Type::int_lit(1), &Type::float_lit_bits(0), false));
}

#[test]
fn subsume_number_multipliers() {
    assert!(subsume(&multiplier(1, "Ki", true), &multiplier(1, "Ki", true), false));
    assert!(!subsume(&multiplier(1, "Ki", true), &multiplier(2, "Ki", true), false));
    assert!(!subsume(&multiplier(1, "Ki", true), &multiplier(1, "Mi", true), false));
    assert!(subsume(&multiplier(1, "Ki", true), &multiplier(0, "", false), false));
    assert!(!subsume(&multiplier(0, "", false), &multiplier(1, "Ki", true), false));
    assert!(subsume(&multiplier(0, "", false), &multiplier(0, "", false), false));
}

#[test]
fn subsume_containers_and_unions() {
    let list_int = Type::list(Type::int_ty());
    let list_float = Type::list(Type::float_ty());
    assert!(subsume(&list_int, &list_float, false));
    assert!(!subsume(&list_float, &list_int, false));
    assert!(subsume(&Type::list(Type::any_ty()), &list_int, true));
    assert!(!subsume(&Type::list(Type::any_ty()), &list_int, false));
    let d1 = Type::dict(Type::str_ty(), Type::int_ty());
    let d2 = Type::dict(Type::str_ty(), Type::float_ty());
    assert!(subsume(&d1, &d2, false));
    assert!(!subsume(&d2, &d1, false));
    let u = Type::union(vec![Type::int_ty(), Type::str_ty()]);
    assert!(subsume(&Type::int_ty(), &u, false));
    assert!(!subsume(&Type::bool_ty(), &u, false));
    assert!(subsume(&u, &Type::union(vec![Type::str_ty(), Type::float_ty()]), false));
    assert!(!subsume(&u, &Type::str_ty(), false));
    assert!(subsume(&Type::union(vec![]), &Type::int_ty(), false));
}

#[test]
fn subsume_schemas() {
    let base = schema("Base", "pkg", None);
    let child = schema("Child", "pkg", Some(schema("Base", "pkg", None)));
    assert!(is_sub_schema_of(&child, &base));
    assert!(!is_sub_schema_of(&base, &child));
    assert!(subsume(&Type::schema(child.copy()), &Type::schema(base.copy()), false));
    // The main package is written as no package.
    let a = schema("A", "__main__", None);
    let b = schema("A", "", None);
    assert!(is_sub_schema_of(&a, &b));
    assert!(!subsume(&Type::schema(a), &Type::dict(Type::str_ty(), Type::any_ty()), false));
    assert_eq!(base.ty_str_with_pkgpath(), "@pkg.Base");
    assert_eq!(schema("A", "__main__", None).ty_str_with_pkgpath(), "A");
}

#[test]
fn equal_compares_structure() {
    assert!(equal(&Type::list(Type::int_ty()), &Type::list(Type::int_ty())));
    assert!(!equal(&Type::list(Type::int_ty()), &Type::list(Type::str_ty())));
    assert!(equal(&Type::str_lit("a"), &Type::str_lit("a")));
    assert!(!equal(&Type::str_lit("a"), &Type::str_lit("b")));
    assert!(!equal(&Type::int_ty(), &Type::int_lit(0)));
}

#[test]
fn assignable_to_and_upper_bound() {
    assert!(assignable_to(&Type::int_ty(), &Type::float_ty()));
    assert!(!assignable_to(&Type::void_ty(), &Type::any_ty()));
    assert!(assignable_to(&Type::any_ty(), &Type::int_ty()));
    assert!(is_upper_bound(&Type::float_ty(), &Type::int_ty()));
    assert!(!is_upper_bound(&Type::int_ty(), &Type::float_ty()));
}

#[test]
fn has_any_type_finds_top_level_any() {
    assert!(has_any_type(&[Type::int_ty(), Type::any_ty()]));
    assert!(!has_any_type(&[Type::int_ty(), Type::list(Type::any_ty())]));
    assert!(!has_any_type(&[]));
}

#[test]
fn type_set_flattens_and_dedups() {
    let mut set = vec![];
    add_types_to_type_set(
        &mut set,
        &[
            Type::int_ty(),
            Type::union(vec![Type::str_ty(), Type::int_ty(), Type::void_ty()]),
            Type::void_ty(),
            Type::str_ty(),
        ],
    );
    assert_eq!(set, vec![Type::int_ty(), Type::str_ty()]);
    add_type_to_type_set(&mut set, &Type::bool_ty());
    assert_eq!(set, vec![Type::int_ty(), Type::str_ty(), Type::bool_ty()]);
}

#[test]
fn type_of_keeps_or_removes_sub_types() {
    let types = vec![Type::int_ty(), Type::float_ty()];
    assert_eq!(
        type_of(&types, false),
        Type::union(vec![Type::int_ty(), Type::float_ty()])
    );
    assert_eq!(type_of(&types, true), Type::float_ty());
    assert_eq!(type_of(&[Type::void_ty()], true), Type::any_ty());
}

#[test]
fn sup_with_any_is_any() {
    assert_eq!(
        sup(&[Type::int_ty(), Type::list(Type::str_ty()), Type::any_ty()]),
        Type::any_ty()
    );
}

#[test]
fn sup_is_idempotent() {
    let types = vec![
        Type::int_ty(),
        Type::str_lit("x"),
        Type::list(Type::int_ty()),
        Type::str_ty(),
    ];
    let once = sup(&types);
    assert_eq!(
        once,
        Type::union(vec![Type::int_ty(), Type::list(Type::int_ty()), Type::str_ty()])
    );
    assert_eq!(sup(&[once.clone()]), once);
}

#[test]
fn sup_is_not_an_upper_bound_of_a_chain() {
    // str("int") is taken by int, which is taken by float; float does not take str("int").
    let types = vec![Type::str_lit("int"), Type::int_ty(), Type::float_ty()];
    let s = sup(&types);
    assert_eq!(s, Type::float_ty());
    assert!(!subsume(&Type::str_lit("int"), &s, false));
}

#[test]
fn subsume_is_reflexive() {
    let ts = vec![
        Type::union(vec![Type::union(vec![Type::int_ty()]), Type::str_ty()]),
        Type::dict(Type::str_ty(), Type::list(Type::bool_lit(true))),
        multiplier(0, "", false),
        Type::void_ty(),
    ];
    for t in &ts {
        assert!(subsume(t, t, false));
        assert!(subsume(t, t, true));
    }
}

#[test]
fn sup_bounds_members_of_a_transitive_set() {
    let types = vec![Type::int_lit(1), Type::int_ty(), Type::float_ty(), Type::str_ty()];
    let s = sup(&types);
    assert_eq!(s, Type::union(vec![Type::float_ty(), Type::str_ty()]));
    for t in &types {
        assert!(subsume(t, &s, false));
    }
}

#[test]
fn sup_bounds_each_input_type_unions_included() {
    let types = vec![
        Type::union(vec![Type::int_lit(1), Type::str_ty()]),
        Type::bool_ty(),
        Type::list(Type::int_ty()),
    ];
    let s = sup(&types);
    for t in &types {
        assert!(subsume(t, &s, false));
    }
}

#[test]
fn float_literals_compare_as_f64() {
    let zero = Type::float_lit_bits(0.0f64.to_bits());
    let minus_zero = Type::float_lit_bits((-0.0f64).to_bits());
    let nan = Type::float_lit_bits(f64::NAN.to_bits());
    let one = Type::float_lit_bits(1.0f64.to_bits());
    assert!(equal(&zero, &minus_zero));
    assert!(equal(&minus_zero, &zero));
    assert!(subsume(&zero, &minus_zero, false));
    assert!(!equal(&nan, &nan));
    assert!(!subsume(&nan, &nan, false));
    assert!(!equal(&zero, &one));
    assert!(!equal(&Type::list(nan.clone()), &Type::list(nan.clone())));
    // -0.0 is already in the set as 0.0.
    assert_eq!(sup(&[zero.clone(), minus_zero.clone()]), zero);
    // A NaN literal equals nothing, so it stands twice.
    assert_eq!(sup(&[nan.clone(), nan.clone()]), Type::union(vec![nan.clone(), nan.clone()]));
}
