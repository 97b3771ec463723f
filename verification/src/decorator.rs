use vstd::prelude::*;

use indexmap::IndexMap;

use crate::index_map::{named_types, named_types_insert, named_types_new, type_names};
use crate::types::{group_view_lemmas, FunctionView, Parameter, ParameterView, Type, TypeView};

verus! {

broadcast use group_view_lemmas;

/// The documentation of the `deprecated` decorator.
pub const DEPRECATED_DOC: &'static str = r#"This decorator is used to get the deprecation message according to the wrapped key-value pair.

        Examples
        --------
        @deprecated(version="v1.16", reason="The age attribute was deprecated", strict=True)
        schema Person:
            name: str
            age: int
        "#;

/// The documentation of the `info` decorator.
pub const INFO_DOC: &'static str = r#"Info decorator is used to mark some compile-time information for external API queries

        Examples
        --------
        @info(message="User message")
        schema Person:
            name: str
            age: int
        "#;

/// The type of the `deprecated` decorator: `(version: str = ..., reason: str = ...,
/// strict: bool = ...) -> any`.
pub open spec fn deprecated_decorator_type() -> TypeView {
    TypeView::Function(
        FunctionView {
            doc: DEPRECATED_DOC@,
            params: seq![
                ParameterView { name: "version"@, ty: TypeView::Str, has_default: true },
                ParameterView { name: "reason"@, ty: TypeView::Str, has_default: true },
                ParameterView { name: "strict"@, ty: TypeView::Bool, has_default: true },
            ],
            self_ty: None,
            return_ty: Box::new(TypeView::Any),
            is_variadic: false,
            kw_only_index: None,
        },
    )
}

/// The type of the `info` decorator: variadic keyword arguments from the first on, `-> any`.
pub open spec fn info_decorator_type() -> TypeView {
    TypeView::Function(
        FunctionView {
            doc: INFO_DOC@,
            params: Seq::empty(),
            self_ty: None,
            return_ty: Box::new(TypeView::Any),
            is_variadic: true,
            kw_only_index: Some(0),
        },
    )
}

fn param(name: &str, ty: Type) -> (r: Parameter)
    ensures
        r.name@ == name@,
        r.ty@ == ty@,
        r.has_default,
{
    Parameter { name: String::from_str(name), ty: Box::new(ty), has_default: true }
}

/// Builtin decorator map: `deprecated`, then `info`.
pub fn builtin_decorators() -> (r: IndexMap<String, Type>)
    ensures
        named_types(r) == Map::<Seq<char>, TypeView>::empty().insert(
            "deprecated"@,
            deprecated_decorator_type(),
        ).insert("info"@, info_decorator_type()),
        type_names(r) == seq!["deprecated"@, "info"@],
{
    let mut params: Vec<Parameter> = Vec::new();
    params.push(param("version", Type::str_ty()));
    params.push(param("reason", Type::str_ty()));
    params.push(param("strict", Type::bool_ty()));
    assert(crate::types::view_params(params@) =~= seq![
        ParameterView { name: "version"@, ty: TypeView::Str, has_default: true },
        ParameterView { name: "reason"@, ty: TypeView::Str, has_default: true },
        ParameterView { name: "strict"@, ty: TypeView::Bool, has_default: true },
    ]);
    let deprecated = Type::function(None, Type::any_ty(), params, DEPRECATED_DOC, false, None);
    let no_params: Vec<Parameter> = Vec::new();
    assert(crate::types::view_params(no_params@) =~= Seq::empty());
    let info = Type::function(None, Type::any_ty(), no_params, INFO_DOC, true, Some(0));
    assert(deprecated@ == deprecated_decorator_type());
    assert(info@ == info_decorator_type());
    proof {
        reveal_strlit("deprecated");
        reveal_strlit("info");
    }
    assert("info"@.len() != "deprecated"@.len());
    let mut mapping = named_types_new();
    assert(named_types(mapping) =~= Map::<Seq<char>, TypeView>::empty());
    assert(type_names(mapping) =~= Seq::<Seq<char>>::empty());
    let _ = named_types_insert(&mut mapping, String::from_str("deprecated"), deprecated);
    let _ = named_types_insert(&mut mapping, String::from_str("info"), info);
    assert(type_names(mapping) =~= seq!["deprecated"@, "info"@]);
    mapping
}

/// The names of the builtin decorators, in order.
pub fn decorator_names() -> (r: Vec<&'static str>)
    ensures
        r@.len() == 2,
        r@[0]@ == "deprecated"@,
        r@[1]@ == "info"@,
{
    let mut names: Vec<&'static str> = Vec::new();
    names.push("deprecated");
    names.push("info");
    names
}

} // verus!
