use kclvm_sema::types::Type;
use kclvm_sema::unify::sup;
use kclvm_sema::walker::walk_type;

#[test]
fn test_sup() {
    let cases = vec![
        (vec![], Type::any_ty()),
        (vec![Type::any_ty()], Type::any_ty()),
        (vec![Type::str_ty()], Type::str_ty()),
        (
            vec![Type::str_ty(), Type::int_ty()],
            Type::union(vec![Type::str_ty(), Type::int_ty()]),
        ),
        (
            vec![Type::bool_ty(), Type::bool_lit(true)],
            Type::bool_ty(),
        ),
        (
            vec![
                Type::str_lit("Blue"),
                Type::str_lit("Yellow"),
                Type::str_lit("Red"),
            ],
            Type::union(vec![
                Type::str_lit("Blue"),
                Type::str_lit("Yellow"),
                Type::str_lit("Red"),
            ]),
        ),
        (
            vec![
                Type::list(Type::union(vec![Type::int_lit(1), Type::int_lit(2)])),
                Type::list(Type::union(vec![Type::int_lit(3), Type::int_lit(4)])),
            ],
            Type::union(vec![
                Type::list(Type::union(vec![Type::int_lit(1), Type::int_lit(2)])),
                Type::list(Type::union(vec![Type::int_lit(3), Type::int_lit(4)])),
            ]),
        ),
        (
            vec![
                Type::union(vec![
                    Type::str_ty(),
                    Type::dict(Type::str_ty(), Type::str_ty()),
                ]),
                Type::dict(Type::any_ty(), Type::any_ty()),
            ],
            Type::union(vec![
                Type::str_ty(),
                Type::dict(Type::any_ty(), Type::any_ty()),
            ]),
        ),
    ];
    for (types, expected) in &cases {
        let got = sup(types);
        assert_eq!(got, *expected);
    }
}

#[test]
fn test_type_walker() {
    fn walk_fn(ty: &Type) -> Type {
        if ty.is_int() {
            Type::str_ty()
        } else {
            ty.clone()
        }
    }
    let cases = [
        (Type::any_ty(), Type::any_ty()),
        (Type::int_ty(), Type::str_ty()),
        (Type::str_ty(), Type::str_ty()),
        (
            Type::list(Type::int_ty()),
            Type::list(Type::str_ty()),
        ),
        (
            Type::union(vec![Type::int_ty(), Type::str_ty()]),
            Type::union(vec![Type::str_ty(), Type::str_ty()]),
        ),
        (
            Type::union(vec![
                Type::int_ty(),
                Type::str_ty(),
                Type::union(vec![Type::int_ty(), Type::str_ty()]),
            ]),
            Type::union(vec![
                Type::str_ty(),
                Type::str_ty(),
                Type::union(vec![Type::str_ty(), Type::str_ty()]),
            ]),
        ),
        (
            Type::dict(Type::int_ty(), Type::int_ty()),
            Type::dict(Type::str_ty(), Type::str_ty()),
        ),
    ];
    for (ty, expected) in cases {
        assert_eq!(
            walk_type(&ty, walk_fn),
            expected,
            "Type test failed: {:?}",
            ty
        );
    }
}
