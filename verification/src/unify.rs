use vstd::prelude::*;

use crate::kinds::contains_text;
use crate::types::{
    group_view_lemmas, lemma_view_seq_push, literal_text_names, primitive_name, schema_ty_str_with_pkgpath, view_seq,
    SchemaType, SchemaView, Type, TypeKind, TypeView, type_eq, contains_eq,
};

verus! {

broadcast use group_view_lemmas;

// ------------------------------------------------------------------
// The assignability relation.
// ------------------------------------------------------------------

/// Whether a value of type `l` can be assigned where type `r` is expected.
///
/// `check_left_any` makes `any` on the left assignable to everything; it is handed
/// down into list and dict items but not into union members.
pub open spec fn subsumes(l: TypeView, r: TypeView, check_left_any: bool) -> bool
    decreases l, r, 0int,
{
    if (check_left_any && l is Any) || r is Any || l is NoneType {
        true
    } else {
        match l {
            TypeView::Union(ls) => all_subsume(ls, r, ls.len() as int),
            _ => match r {
                TypeView::Union(rs) => any_subsumed(l, rs, rs.len() as int),
                _ => match l {
                    TypeView::Schema(ls) => match r {
                        TypeView::Schema(rs) => is_sub_schema(ls, rs),
                        _ => false,
                    },
                    _ => if l.is_int() && r.is_float() {
                        true
                    } else {
                        match (l, r) {
                            (
                                TypeView::NumberMultiplier(lv, lsuf, llit),
                                TypeView::NumberMultiplier(rv, rsuf, rlit),
                            ) => if llit && rlit {
                                lv == rv && lsuf == rsuf
                            } else if llit && !rlit {
                                true
                            } else {
                                llit || !rlit
                            },
                            _ => if l.is_primitive() && r.is_primitive() {
                                type_eq(l, r)
                            } else if l.is_literal() {
                                if r.is_literal() {
                                    type_eq(l, r)
                                } else if r.is_primitive() {
                                    if r.is_float() && !l.is_str() {
                                        true
                                    } else {
                                        literal_text_names(l, r)
                                    }
                                } else {
                                    false
                                }
                            } else {
                                match (l, r) {
                                    (TypeView::List(li), TypeView::List(ri)) => subsumes(
                                        *li,
                                        *ri,
                                        check_left_any,
                                    ),
                                    (TypeView::Dict(lk, lv), TypeView::Dict(rk, rv)) => subsumes(
                                        *lk,
                                        *rk,
                                        check_left_any,
                                    ) && subsumes(*lv, *rv, check_left_any),
                                    _ => type_eq(l, r),
                                }
                            },
                        }
                    },
                },
            },
        }
    }
}

/// Whether each of the first `n` members of `ls` is assignable to `r`.
pub open spec fn all_subsume(ls: Seq<TypeView>, r: TypeView, n: int) -> bool
    decreases ls, r, n,
{
    if 0 < n <= ls.len() {
        all_subsume(ls, r, n - 1) && subsumes(ls[n - 1], r, false)
    } else {
        true
    }
}

/// Whether `l` is assignable to one of the first `n` members of `rs`.
pub open spec fn any_subsumed(l: TypeView, rs: Seq<TypeView>, n: int) -> bool
    decreases l, rs, n,
{
    if 0 < n <= rs.len() {
        any_subsumed(l, rs, n - 1) || subsumes(l, rs[n - 1], false)
    } else {
        false
    }
}

/// Whether schema `l`, or one of its bases, has the qualified name of schema `r`.
pub open spec fn is_sub_schema(l: SchemaView, r: SchemaView) -> bool
    decreases l,
{
    if schema_ty_str_with_pkgpath(l) == schema_ty_str_with_pkgpath(r) {
        true
    } else {
        match l.base {
            Some(b) => is_sub_schema(*b, r),
            None => false,
        }
    }
}

proof fn lemma_all_subsume_stays_false(ls: Seq<TypeView>, r: TypeView, m: int, n: int)
    requires
        0 <= m <= n <= ls.len(),
        !all_subsume(ls, r, m),
    ensures
        !all_subsume(ls, r, n),
    decreases n - m,
{
    if m < n {
        lemma_all_subsume_stays_false(ls, r, m, n - 1);
    }
}

proof fn lemma_any_subsumed_stays_true(l: TypeView, rs: Seq<TypeView>, m: int, n: int)
    requires
        0 <= m <= n <= rs.len(),
        any_subsumed(l, rs, m),
    ensures
        any_subsumed(l, rs, n),
    decreases n - m,
{
    if m < n {
        lemma_any_subsumed_stays_true(l, rs, m, n - 1);
    }
}

/// The written name of a primitive type.
fn primitive_name_of(t: &Type) -> (r: &'static str)
    requires
        t@.is_primitive(),
    ensures
        r@ == primitive_name(t@),
{
    match t.kind {
        TypeKind::Bool => {
            proof {
                reveal_strlit("bool");
            }
            "bool"
        },
        TypeKind::Int => {
            proof {
                reveal_strlit("int");
            }
            "int"
        },
        TypeKind::Float => {
            proof {
                reveal_strlit("float");
            }
            "float"
        },
        _ => {
            proof {
                reveal_strlit("str");
            }
            "str"
        },
    }
}

/// Whether the written form of literal type `lit` contains the name of primitive type `prim`.
fn literal_names(lit: &Type, prim: &Type) -> (r: bool)
    requires
        lit@.is_literal(),
        prim@.is_primitive(),
    ensures
        r == literal_text_names(lit@, prim@),
{
    match &lit.kind {
        TypeKind::StrLit(s) => {
            let is_str = matches!(prim.kind, TypeKind::Str);
            is_str || contains_text(s.as_str(), primitive_name_of(prim))
        },
        TypeKind::IntLit(_) => matches!(prim.kind, TypeKind::Int),
        TypeKind::FloatLit(_) => matches!(prim.kind, TypeKind::Float),
        _ => matches!(prim.kind, TypeKind::Bool),
    }
}

/// The type can be assigned to the expected type.
#[verifier::loop_isolation(false)]
pub fn subsume(ty_lhs: &Type, ty_rhs: &Type, check_left_any: bool) -> (r: bool)
    ensures
        r == subsumes(ty_lhs@, ty_rhs@, check_left_any),
    decreases ty_lhs, ty_rhs,
{
    if (check_left_any && ty_lhs.is_any()) || (ty_rhs.is_any() || ty_lhs.is_none()) {
        return true;
    }
    if let TypeKind::Union(types) = &ty_lhs.kind {
        let ghost ls = view_seq(types@);
        let mut i: usize = 0;
        while i < types.len()
            invariant
                ls == view_seq(types@),
                i <= types.len(),
                all_subsume(ls, ty_rhs@, i as int),
            decreases types.len() - i,
        {
            if !subsume(&types[i], ty_rhs, false) {
                proof {
                    lemma_all_subsume_stays_false(ls, ty_rhs@, i + 1, ls.len() as int);
                }
                return false;
            }
            i += 1;
        }
        return true;
    }
    if let TypeKind::Union(types) = &ty_rhs.kind {
        let ghost rs = view_seq(types@);
        let mut i: usize = 0;
        while i < types.len()
            invariant
                rs == view_seq(types@),
                i <= types.len(),
                !any_subsumed(ty_lhs@, rs, i as int),
            decreases types.len() - i,
        {
            if subsume(ty_lhs, &types[i], false) {
                proof {
                    lemma_any_subsumed_stays_true(ty_lhs@, rs, i + 1, rs.len() as int);
                }
                return true;
            }
            i += 1;
        }
        return false;
    }
    if let TypeKind::Schema(lhs_schema) = &ty_lhs.kind {
        return match &ty_rhs.kind {
            TypeKind::Schema(rhs_schema) => is_sub_schema_of(lhs_schema, rhs_schema),
            _ => false,
        };
    }
    if ty_lhs.is_int() && ty_rhs.is_float() {
        return true;
    }
    if let (TypeKind::NumberMultiplier(l), TypeKind::NumberMultiplier(r)) = (
        &ty_lhs.kind,
        &ty_rhs.kind,
    ) {
        return if l.is_literal && r.is_literal {
            l.raw_value == r.raw_value && l.binary_suffix == r.binary_suffix
        } else if l.is_literal && !r.is_literal {
            true
        } else {
            l.is_literal || !r.is_literal
        };
    }
    if ty_lhs.is_primitive() && ty_rhs.is_primitive() {
        return ty_lhs.same(ty_rhs);
    }
    if ty_lhs.is_literal() {
        return if ty_rhs.is_literal() {
            ty_lhs.same(ty_rhs)
        } else if ty_rhs.is_primitive() {
            // float_lit -> float, int_lit -> int, bool_lit -> bool, str_lit -> str,
            // int_lit/bool_lit -> float
            if ty_rhs.is_float() && !ty_lhs.is_str() {
                true
            } else {
                literal_names(ty_lhs, ty_rhs)
            }
        } else {
            false
        };
    }
    match (&ty_lhs.kind, &ty_rhs.kind) {
        (TypeKind::List(l), TypeKind::List(r)) => subsume(l, r, check_left_any),
        (TypeKind::Dict(lk, lv), TypeKind::Dict(rk, rv)) => {
            subsume(lk, rk, check_left_any) && subsume(lv, rv, check_left_any)
        },
        _ => equal(ty_lhs, ty_rhs),
    }
}

/// Are the two types exactly equal: structurally, with float literals compared as `f64`,
/// so that `0.0` equals `-0.0` and a type holding a NaN equals no type.
pub fn equal(ty_lhs: &Type, ty_rhs: &Type) -> (r: bool)
    ensures
        r == type_eq(ty_lhs@, ty_rhs@),
{
    ty_lhs.same(ty_rhs)
}

/// Whether the schema is sub schema of another schema.
pub fn is_sub_schema_of(schema_ty_lhs: &SchemaType, schema_ty_rhs: &SchemaType) -> (r: bool)
    ensures
        r == is_sub_schema(schema_ty_lhs@, schema_ty_rhs@),
    decreases schema_ty_lhs,
{
    if schema_ty_lhs.ty_str_with_pkgpath() == schema_ty_rhs.ty_str_with_pkgpath() {
        true
    } else {
        match &schema_ty_lhs.base {
            Some(base) => is_sub_schema_of(base, schema_ty_rhs),
            None => false,
        }
    }
}

/// The type can be assigned to the expected type.
pub fn assignable_to(ty: &Type, expected_ty: &Type) -> (r: bool)
    ensures
        r == (ty@.is_assignable_type() && subsumes(ty@, expected_ty@, true)),
{
    if !ty.is_assignable_type() {
        return false;
    }
    subsume(ty, expected_ty, true)
}

/// Whether `lhs_ty` is the upper bound of the `rhs_ty`
pub fn is_upper_bound(lhs_ty: &Type, rhs_ty: &Type) -> (r: bool)
    ensures
        r == subsumes(rhs_ty@, lhs_ty@, false),
{
    subsume(rhs_ty, lhs_ty, false)
}

/// Whether the type list contains the `any` type.
pub fn has_any_type(types: &[Type]) -> (r: bool)
    ensures
        r == exists|i: int| 0 <= i < types@.len() && (#[trigger] types@[i])@ is Any,
{
    let mut i: usize = 0;
    while i < types.len()
        invariant
            i <= types@.len(),
            forall|k: int| 0 <= k < i ==> !((#[trigger] types@[k])@ is Any),
        decreases types@.len() - i,
    {
        if types[i].is_any() {
            return true;
        }
        i += 1;
    }
    false
}


// ------------------------------------------------------------------
// The supremum of a list of types.
// ------------------------------------------------------------------

/// Adds `t` to the ordered type set `acc`: the members of a union one by one,
/// dropping `void` and any type already in the set.
pub open spec fn add_type(acc: Seq<TypeView>, t: TypeView) -> Seq<TypeView>
    decreases t, 0int,
{
    match t {
        TypeView::Union(ts) => add_types(acc, ts, ts.len() as int),
        _ => if t is Void || contains_eq(acc, t) {
            acc
        } else {
            acc.push(t)
        },
    }
}

/// Adds the first `n` types of `ts`, in order, to the ordered type set `acc`.
pub open spec fn add_types(acc: Seq<TypeView>, ts: Seq<TypeView>, n: int) -> Seq<TypeView>
    decreases ts, n,
{
    if 0 < n <= ts.len() {
        add_type(add_types(acc, ts, n - 1), ts[n - 1])
    } else {
        acc
    }
}

/// The ordered set of types that `types` hold: unions flattened, `void` and duplicates dropped.
pub open spec fn type_set(types: Seq<TypeView>) -> Seq<TypeView> {
    add_types(Seq::empty(), types, types.len() as int)
}

/// Whether member `i` of `s` is assignable to some other member of `s`.
pub open spec fn subsumed_by_other(s: Seq<TypeView>, i: int) -> bool {
    exists|j: int| 0 <= j < s.len() && j != i && #[trigger] subsumes(s[i], s[j], false)
}

/// The members among the first `n` of `s` that are assignable to no other member, in order.
pub open spec fn keep_maximal(s: Seq<TypeView>, n: int) -> Seq<TypeView>
    decreases n,
{
    if 0 < n <= s.len() {
        if subsumed_by_other(s, n - 1) {
            keep_maximal(s, n - 1)
        } else {
            keep_maximal(s, n - 1).push(s[n - 1])
        }
    } else {
        Seq::empty()
    }
}

/// The type that a set of member types stands for: `any` when empty, the member
/// when there is one, else their union.
pub open spec fn type_of_set(set: Seq<TypeView>) -> TypeView {
    if set.len() == 0 {
        TypeView::Any
    } else if set.len() == 1 {
        set[0]
    } else {
        TypeView::Union(set)
    }
}

/// The type of a list of types; with `should_remove_sub_types`, members assignable to
/// another member are left out.
pub open spec fn type_of_spec(types: Seq<TypeView>, should_remove_sub_types: bool) -> TypeView {
    let set = type_set(types);
    if should_remove_sub_types {
        type_of_set(keep_maximal(set, set.len() as int))
    } else {
        type_of_set(set)
    }
}

/// The sup function returns the minimum supremum of all types in an array of types.
pub fn sup(types: &[Type]) -> (r: Type)
    ensures
        r@ == type_of_spec(view_seq(types@), true),
{
    type_of(types, true)
}

/// Typeof types
pub fn type_of(types: &[Type], should_remove_sub_types: bool) -> (r: Type)
    ensures
        r@ == type_of_spec(view_seq(types@), should_remove_sub_types),
{
    // 1. Initialize an ordered set to store the type array
    let mut type_set: Vec<Type> = Vec::new();
    // 2. Add the type array to the ordered set for sorting by the type id and de-duplication.
    add_types_to_type_set(&mut type_set, types);
    assert(view_seq(type_set@) == crate::unify::type_set(view_seq(types@)));
    // 3. Remove sub types according to partial order relation rules e.g. sub schema types.
    if should_remove_sub_types {
        let ghost s = view_seq(type_set@);
        let mut kept: Vec<Type> = Vec::new();
        let mut i: usize = 0;
        while i < type_set.len()
            invariant
                s == view_seq(type_set@),
                i <= type_set.len(),
                view_seq(kept@) == keep_maximal(s, i as int),
            decreases type_set.len() - i,
        {
            let mut removed = false;
            let mut j: usize = 0;
            while j < type_set.len()
                invariant
                    s == view_seq(type_set@),
                    i < type_set.len(),
                    j <= type_set.len(),
                    removed == exists|k: int|
                        0 <= k < j && k != i && #[trigger] subsumes(s[i as int], s[k], false),
                decreases type_set.len() - j,
            {
                assert(s[i as int] == type_set@[i as int]@ && s[j as int] == type_set@[j as int]@);
                if i != j && subsume(&type_set[i], &type_set[j], false) {
                    removed = true;
                }
                assert(removed == exists|k: int|
                    0 <= k < j + 1 && k != i && #[trigger] subsumes(s[i as int], s[k], false)) by {
                    if removed && !(exists|k: int|
                        0 <= k < j && k != i && #[trigger] subsumes(s[i as int], s[k], false)) {
                        assert(subsumes(s[i as int], s[j as int], false));
                    }
                }
                j += 1;
            }
            if !removed {
                let t = type_set[i].copy();
                proof {
                    lemma_view_seq_push(kept@, t);
                }
                kept.push(t);
            }
            i += 1;
        }
        type_set = kept;
    }
    if type_set.len() == 0 {
        Type::any_ty()
    } else if type_set.len() == 1 {
        type_set[0].copy()
    } else {
        Type::union(type_set)
    }
}

/// Adds each of `types`, in order, to the ordered type set.
pub fn add_types_to_type_set(type_set: &mut Vec<Type>, types: &[Type])
    ensures
        view_seq(final(type_set)@) == add_types(
            view_seq(old(type_set)@),
            view_seq(types@),
            types@.len() as int,
        ),
    decreases types@,
{
    let ghost ts = view_seq(types@);
    let mut i: usize = 0;
    while i < types.len()
        invariant
            ts == view_seq(types@),
            i <= types@.len(),
            view_seq(type_set@) == add_types(view_seq(old(type_set)@), ts, i as int),
        decreases types@.len() - i,
    {
        add_type_to_type_set(type_set, &types[i]);
        i += 1;
    }
}

/// Adds a type to the ordered type set: a union member by member, other types unless
/// they are `void` or already in the set.
pub fn add_type_to_type_set(type_set: &mut Vec<Type>, ty: &Type)
    ensures
        view_seq(final(type_set)@) == add_type(view_seq(old(type_set)@), ty@),
    decreases ty,
{
    match &ty.kind {
        TypeKind::Union(types) => {
            add_types_to_type_set(type_set, types.as_slice());
        },
        _ => {
            // Remove the bottom type.
            if !ty.is_void() && !contains_type(type_set, ty) {
                let t = ty.copy();
                proof {
                    lemma_view_seq_push(type_set@, t);
                }
                type_set.push(t);
            }
        },
    }
}

/// Whether a type equal to `ty`, as the language compares types, is in `types`.
fn contains_type(types: &Vec<Type>, ty: &Type) -> (r: bool)
    ensures
        r == contains_eq(view_seq(types@), ty@),
{
    let mut i: usize = 0;
    while i < types.len()
        invariant
            i <= types.len(),
            forall|k: int| 0 <= k < i ==> !type_eq((#[trigger] types@[k])@, ty@),
        decreases types.len() - i,
    {
        if types[i].same(ty) {
            assert(type_eq(view_seq(types@)[i as int], ty@));
            return true;
        }
        i += 1;
    }
    assert forall|k: int| 0 <= k < view_seq(types@).len() implies !type_eq(
        #[trigger] view_seq(types@)[k],
        ty@,
    ) by {
        assert(view_seq(types@)[k] == types@[k]@);
    }
    false
}
} // verus!
