use vstd::prelude::*;

use crate::depth::{height, lemma_member_height};
use crate::resolver::{
    any_named, assignable, check_all, check_any, check_run, has_named, upgraded, Scope,
    last_index_of, lemma_last_index_of, ty_str_replace_pkgpath_spec, alias_is_name, record_alias,
};
use crate::types::{
    SchemaView, contains_eq, group_view_lemmas, has_nan, lemma_any_has_nan, type_eq, view_seq, Type, TypeKind,
    TypeView,
};
use crate::option::{
    all_digits, convert_spec, option_spec, decimal_text, digits_value, is_digit, nat_text, parse_i64_spec,
    ConvertedView, FloatCastView, OptionErrorView, OptionView,
};
use crate::lazy::{
    add_setters, at_stmt, body_names, body_setters, name_views, names_in_if, names_set, Setter, Stmt,
};
use generational_arena::Index;
use crate::walker::{walked, walked_within};
use crate::unify::{
    add_type, add_types, all_subsume, any_subsumed, is_sub_schema, keep_maximal, subsumed_by_other,
    subsumes, type_of_set, type_of_spec, type_set,
};

verus! {

/// `all_subsume` over a prefix holds exactly when each member of the prefix is assignable.
pub proof fn lemma_all_subsume_forall(ls: Seq<TypeView>, r: TypeView, n: int)
    requires
        0 <= n <= ls.len(),
    ensures
        all_subsume(ls, r, n) <==> forall|j: int| 0 <= j < n ==> #[trigger] subsumes(ls[j], r, false),
    decreases n,
{
    if n > 0 {
        lemma_all_subsume_forall(ls, r, n - 1);
        if forall|j: int| 0 <= j < n ==> #[trigger] subsumes(ls[j], r, false) {
            assert(subsumes(ls[n - 1], r, false));
        }
        if all_subsume(ls, r, n) {
            assert forall|j: int| 0 <= j < n implies #[trigger] subsumes(ls[j], r, false) by {
                if j < n - 1 {
                    assert(subsumes(ls[j], r, false));
                }
            }
        }
    }
}

/// `any_subsumed` over a prefix holds exactly when some member of the prefix takes `l`.
pub proof fn lemma_any_subsumed_exists(l: TypeView, rs: Seq<TypeView>, n: int)
    requires
        0 <= n <= rs.len(),
    ensures
        any_subsumed(l, rs, n) <==> exists|j: int| 0 <= j < n && #[trigger] subsumes(l, rs[j], false),
    decreases n,
{
    if n > 0 {
        lemma_any_subsumed_exists(l, rs, n - 1);
        if exists|j: int| 0 <= j < n && #[trigger] subsumes(l, rs[j], false) {
            let j = choose|j: int| 0 <= j < n && #[trigger] subsumes(l, rs[j], false);
            if j < n - 1 {
                assert(exists|k: int| 0 <= k < n - 1 && #[trigger] subsumes(l, rs[k], false));
            }
        }
        if any_subsumed(l, rs, n) && !any_subsumed(l, rs, n - 1) {
            assert(subsumes(l, rs[n - 1], false));
        }
    }
}

/// What is assignable to one member of a union is assignable to the union.
pub proof fn lemma_subsumed_by_member(a: TypeView, ts: Seq<TypeView>, i: int)
    requires
        0 <= i < ts.len(),
        subsumes(a, ts[i], false),
    ensures
        subsumes(a, TypeView::Union(ts), false),
    decreases a,
{
    let u = TypeView::Union(ts);
    if a is NoneType {
    } else {
        match a {
            TypeView::Union(xs) => {
                if ts[i] is Any {
                    assert forall|j: int| 0 <= j < xs.len() implies #[trigger] subsumes(
                        xs[j],
                        u,
                        false,
                    ) by {
                        lemma_subsumed_by_member(xs[j], ts, i);
                    }
                } else {
                    lemma_all_subsume_forall(xs, ts[i], xs.len() as int);
                    assert forall|j: int| 0 <= j < xs.len() implies #[trigger] subsumes(
                        xs[j],
                        u,
                        false,
                    ) by {
                        assert(subsumes(xs[j], ts[i], false));
                        lemma_subsumed_by_member(xs[j], ts, i);
                    }
                }
                lemma_all_subsume_forall(xs, u, xs.len() as int);
            },
            _ => {
                lemma_any_subsumed_exists(a, ts, ts.len() as int);
            },
        }
    }
}

/// Law: every type that holds no NaN float literal can be assigned to itself, whether
/// or not `any` on the left is taken as assignable to everything.
pub proof fn law_subsume_reflexive(t: TypeView, check_left_any: bool)
    requires
        !has_nan(t),
    ensures
        subsumes(t, t, check_left_any),
    decreases t,
{
    match t {
        TypeView::Union(ts) => {
            if !(t is NoneType) {
                lemma_any_has_nan(ts, ts.len() as int);
                assert forall|j: int| 0 <= j < ts.len() implies #[trigger] subsumes(
                    ts[j],
                    t,
                    false,
                ) by {
                    assert(!has_nan(ts[j]));
                    law_subsume_reflexive(ts[j], false);
                    lemma_subsumed_by_member(ts[j], ts, j);
                }
                lemma_all_subsume_forall(ts, t, ts.len() as int);
            }
        },
        TypeView::List(item) => {
            law_subsume_reflexive(*item, check_left_any);
        },
        TypeView::Dict(k, v) => {
            law_subsume_reflexive(*k, check_left_any);
            law_subsume_reflexive(*v, check_left_any);
        },
        _ => {},
    }
}

/// Law: type equality is symmetric, and two types equal as the language compares them
/// are the same type.
pub proof fn law_type_eq_symmetric(a: TypeView, b: TypeView)
    ensures
        type_eq(a, b) == type_eq(b, a),
        type_eq(a, b) ==> a == b,
{
}

/// Law: every type can be assigned to `any`, and `None` can be assigned to every type.
pub proof fn law_any_top_none_bottom(t: TypeView, check_left_any: bool)
    ensures
        subsumes(t, TypeView::Any, check_left_any),
        subsumes(TypeView::NoneType, t, check_left_any),
{
}


// ------------------------------------------------------------------
// The supremum.
// ------------------------------------------------------------------

/// An ordered type set: no unions, no `void`, no two members equal as the language
/// compares types (so a type holding a NaN may stand twice).
pub open spec fn is_type_set(s: Seq<TypeView>) -> bool {
    &&& forall|i: int| 0 <= i < s.len() ==> !(#[trigger] s[i] is Union) && !(s[i] is Void)
    &&& forall|i: int, j: int| 0 <= i < j < s.len() ==> !type_eq(#[trigger] s[i], #[trigger] s[j])
}

/// A type that stands in a type set as itself: neither a union nor `void`.
pub open spec fn is_member_type(t: TypeView) -> bool {
    !(t is Union) && !(t is Void)
}

/// Adding a type to an ordered type set keeps it one: the set before is a prefix of the
/// set after, and a type that is neither a union nor `void` is then in it.
pub proof fn lemma_add_type_props(acc: Seq<TypeView>, t: TypeView)
    requires
        is_type_set(acc),
    ensures
        is_type_set(add_type(acc, t)),
        acc.len() <= add_type(acc, t).len(),
        add_type(acc, t).subrange(0, acc.len() as int) == acc,
        is_member_type(t) ==> add_type(acc, t).contains(t),
    decreases t, 0int,
{
    match t {
        TypeView::Union(ts) => {
            lemma_add_types_props(acc, ts, ts.len() as int);
        },
        _ => {
            let r = add_type(acc, t);
            if !(t is Void || contains_eq(acc, t)) {
                assert(r[acc.len() as int] == t);
                assert forall|i: int, j: int| 0 <= i < j < r.len() implies !type_eq(
                    #[trigger] r[i],
                    #[trigger] r[j],
                ) by {
                    if j == acc.len() {
                        assert(r[i] == acc[i]);
                        assert(!type_eq(acc[i], t));
                    }
                }
            }
            if contains_eq(acc, t) {
                let k = choose|k: int| 0 <= k < acc.len() && type_eq(acc[k], t);
                assert(acc[k] == t);
            }
            assert(r.subrange(0, acc.len() as int) =~= acc);
        },
    }
}

/// Adding the first `n` of `ts` to an ordered type set keeps it one: the set before is a
/// prefix of the set after, and each of those types that is neither a union nor `void`
/// is then in it.
pub proof fn lemma_add_types_props(acc: Seq<TypeView>, ts: Seq<TypeView>, n: int)
    requires
        is_type_set(acc),
        0 <= n <= ts.len(),
    ensures
        is_type_set(add_types(acc, ts, n)),
        acc.len() <= add_types(acc, ts, n).len(),
        add_types(acc, ts, n).subrange(0, acc.len() as int) == acc,
        forall|j: int|
            0 <= j < n && is_member_type(#[trigger] ts[j]) ==> add_types(acc, ts, n).contains(ts[j]),
    decreases ts, n,
{
    if n > 0 {
        let p = add_types(acc, ts, n - 1);
        lemma_add_types_props(acc, ts, n - 1);
        lemma_add_type_props(p, ts[n - 1]);
        let r = add_types(acc, ts, n);
        assert(r.subrange(0, acc.len() as int) =~= p.subrange(0, acc.len() as int));
        assert forall|j: int| 0 <= j < n && is_member_type(#[trigger] ts[j]) implies r.contains(ts[j]) by {
            if j < n - 1 {
                let k = choose|k: int| 0 <= k < p.len() && p[k] == ts[j];
                assert(r.subrange(0, p.len() as int)[k] == p[k]);
                assert(r[k] == ts[j]);
            }
        }
    }
}

/// Adding the members of a type set that do not overlap the set `acc` appends them.
proof fn lemma_add_types_appends(acc: Seq<TypeView>, ts: Seq<TypeView>, n: int)
    requires
        is_type_set(acc + ts),
        0 <= n <= ts.len(),
    ensures
        add_types(acc, ts, n) == acc + ts.subrange(0, n),
    decreases n,
{
    if n > 0 {
        lemma_add_types_appends(acc, ts, n - 1);
        let p = acc + ts.subrange(0, n - 1);
        let t = ts[n - 1];
        assert((acc + ts)[acc.len() + n - 1] == t);
        assert(!((acc + ts)[acc.len() + n - 1] is Union) && !((acc + ts)[acc.len() + n - 1] is Void));
        assert(!contains_eq(p, t)) by {
            if contains_eq(p, t) {
                let k = choose|k: int| 0 <= k < p.len() && type_eq(p[k], t);
                assert((acc + ts)[k] == p[k]);
            }
        }
        assert(add_types(acc, ts, n - 1) == p);
        assert(add_type(p, t) == p.push(t));
        assert(add_types(acc, ts, n) == add_type(p, t));
        assert(p.push(t) =~= acc + ts.subrange(0, n));
    } else {
        assert(acc + ts.subrange(0, 0) =~= acc);
    }
}

/// Members `a` and `b` of `k` stand, in that order, among the first `n` of `s` at
/// members that no other member takes.
pub open spec fn kept_from(s: Seq<TypeView>, k: Seq<TypeView>, a: int, b: int, n: int) -> bool {
    exists|i: int, j: int|
        0 <= i < j < n && s[i] == k[a] && s[j] == k[b] && !subsumed_by_other(s, i)
            && !subsumed_by_other(s, j)
}

/// The members that `keep_maximal` keeps of the first `n` of `s`: members of `s` that no
/// other member takes, distinct when those of `s` are.
proof fn lemma_keep_maximal_members(s: Seq<TypeView>, n: int)
    requires
        0 <= n <= s.len(),
    ensures
        forall|x: TypeView|
            keep_maximal(s, n).contains(x) ==> exists|i: int|
                0 <= i < n && s[i] == x && !subsumed_by_other(s, i),
        keep_maximal(s, n).len() <= n,
        forall|a: int, b: int|
            0 <= a < b < keep_maximal(s, n).len() ==> #[trigger] kept_from(
                s,
                keep_maximal(s, n),
                a,
                b,
                n,
            ),
    decreases n,
{
    if n > 0 {
        lemma_keep_maximal_members(s, n - 1);
        let p = keep_maximal(s, n - 1);
        let k = keep_maximal(s, n);
        assert forall|x: TypeView| k.contains(x) implies exists|i: int|
            0 <= i < n && s[i] == x && !subsumed_by_other(s, i) by {
            let m = choose|m: int| 0 <= m < k.len() && k[m] == x;
            if m < p.len() {
                assert(p.contains(x));
            } else {
                assert(x == s[n - 1]);
            }
        }
        assert forall|a: int, b: int| 0 <= a < b < k.len() implies #[trigger] kept_from(
            s,
            k,
            a,
            b,
            n,
        ) by {
            if b < p.len() {
                assert(k[a] == p[a] && k[b] == p[b]);
                assert(kept_from(s, p, a, b, n - 1));
                let (i, j) = choose|i: int, j: int|
                    0 <= i < j < n - 1 && s[i] == p[a] && s[j] == p[b] && !subsumed_by_other(s, i)
                        && !subsumed_by_other(s, j);
                assert(0 <= i < j < n && s[i] == k[a] && s[j] == k[b]);
            } else {
                assert(k[a] == p[a]);
                assert(p.contains(p[a]));
                let i = choose|i: int| 0 <= i < n - 1 && s[i] == p[a] && !subsumed_by_other(s, i);
                assert(k[b] == s[n - 1]);
                assert(0 <= i < n - 1 < n && s[i] == k[a] && s[n - 1] == k[b]);
            }
        }
    }
}

/// When no member of `s` is assignable to another, `keep_maximal` keeps them all.
proof fn lemma_keep_maximal_all(s: Seq<TypeView>, n: int)
    requires
        0 <= n <= s.len(),
        forall|i: int| 0 <= i < s.len() ==> !subsumed_by_other(s, i),
    ensures
        keep_maximal(s, n) == s.subrange(0, n),
    decreases n,
{
    if n > 0 {
        lemma_keep_maximal_all(s, n - 1);
        assert(s.subrange(0, n - 1).push(s[n - 1]) =~= s.subrange(0, n));
    } else {
        assert(s.subrange(0, 0) =~= Seq::<TypeView>::empty());
    }
}

/// When one member `k` of `s` is kept and all others are assignable to another member,
/// `keep_maximal` keeps just that member.
proof fn lemma_keep_maximal_single(s: Seq<TypeView>, k: int, n: int)
    requires
        0 <= k < s.len(),
        0 <= n <= s.len(),
        !subsumed_by_other(s, k),
        forall|i: int| 0 <= i < s.len() && i != k ==> subsumed_by_other(s, i),
    ensures
        keep_maximal(s, n) == (if n > k {
            seq![s[k]]
        } else {
            Seq::<TypeView>::empty()
        }),
    decreases n,
{
    if n > 0 {
        lemma_keep_maximal_single(s, k, n - 1);
        if n - 1 == k {
            assert(Seq::<TypeView>::empty().push(s[k]) =~= seq![s[k]]);
        }
    }
}

/// The members that the supremum of a list of types keeps: a type set in which no
/// member is assignable to another.
pub open spec fn is_maximal_set(k: Seq<TypeView>) -> bool {
    &&& is_type_set(k)
    &&& forall|i: int| 0 <= i < k.len() ==> !subsumed_by_other(k, i)
}

proof fn lemma_keep_maximal_is_maximal(s: Seq<TypeView>)
    requires
        is_type_set(s),
    ensures
        is_maximal_set(keep_maximal(s, s.len() as int)),
{
    let k = keep_maximal(s, s.len() as int);
    lemma_keep_maximal_members(s, s.len() as int);
    assert forall|a: int| 0 <= a < k.len() implies !(#[trigger] k[a] is Union) && !(k[a] is Void) by {
        assert(k.contains(k[a]));
    }
    assert forall|a: int, b: int| 0 <= a < b < k.len() implies !type_eq(
        #[trigger] k[a],
        #[trigger] k[b],
    ) by {
        assert(kept_from(s, k, a, b, s.len() as int));
    }
    assert forall|a: int| 0 <= a < k.len() implies !subsumed_by_other(k, a) by {
        if subsumed_by_other(k, a) {
            let b = choose|b: int| 0 <= b < k.len() && b != a && #[trigger] subsumes(k[a], k[b], false);
            if a < b {
                assert(kept_from(s, k, a, b, s.len() as int));
                let (i, j) = choose|i: int, j: int|
                    0 <= i < j < s.len() && s[i] == k[a] && s[j] == k[b] && !subsumed_by_other(s, i)
                        && !subsumed_by_other(s, j);
                assert(subsumes(s[i], s[j], false));
            } else {
                assert(kept_from(s, k, b, a, s.len() as int));
                let (i, j) = choose|i: int, j: int|
                    0 <= i < j < s.len() && s[i] == k[b] && s[j] == k[a] && !subsumed_by_other(s, i)
                        && !subsumed_by_other(s, j);
                assert(subsumes(s[j], s[i], false));
            }
        }
    }
}

/// The type that a maximal member set stands for is its own supremum.
proof fn lemma_sup_of_set(k: Seq<TypeView>)
    requires
        is_maximal_set(k),
    ensures
        type_of_spec(seq![type_of_set(k)], true) == type_of_set(k),
{
    let t = type_of_set(k);
    if k.len() == 0 || k.len() == 1 {
        let single = if k.len() == 0 {
            TypeView::Any
        } else {
            k[0]
        };
        assert(add_types(Seq::empty(), seq![t], 0) == Seq::<TypeView>::empty());
        assert(seq![t][0] == t);
        assert(type_set(seq![t]) == add_type(Seq::<TypeView>::empty(), t));
        assert(add_type(Seq::<TypeView>::empty(), t) == seq![single]);
        let s = seq![single];
        assert(!subsumed_by_other(s, 0));
        lemma_keep_maximal_all(s, 1);
        assert(s.subrange(0, 1) =~= s);
    } else {
        assert(add_types(Seq::empty(), seq![t], 0) == Seq::<TypeView>::empty());
        assert(seq![t][0] == t);
        assert(type_set(seq![t]) == add_type(Seq::<TypeView>::empty(), t));
        assert(Seq::<TypeView>::empty() + k =~= k);
        lemma_add_types_appends(Seq::empty(), k, k.len() as int);
        assert(k.subrange(0, k.len() as int) =~= k);
        lemma_keep_maximal_all(k, k.len() as int);
    }
}

/// Law: the supremum is idempotent; the supremum of the supremum of a list of types
/// is that supremum.
pub proof fn law_sup_idempotent(types: Seq<TypeView>)
    ensures
        type_of_spec(seq![type_of_spec(types, true)], true) == type_of_spec(types, true),
{
    let s = type_set(types);
    lemma_add_types_props(Seq::empty(), types, types.len() as int);
    lemma_keep_maximal_is_maximal(s);
    lemma_sup_of_set(keep_maximal(s, s.len() as int));
}

/// Law: the members of the supremum of a list of types are types of the list (or of its
/// unions), no two equal as the language compares types, none assignable to another.
pub proof fn law_sup_members(types: Seq<TypeView>)
    ensures
        is_maximal_set(keep_maximal(type_set(types), type_set(types).len() as int)),
        type_of_spec(types, true) == type_of_set(
            keep_maximal(type_set(types), type_set(types).len() as int),
        ),
{
    lemma_add_types_props(Seq::empty(), types, types.len() as int);
    lemma_keep_maximal_is_maximal(type_set(types));
}

/// Law: each member that the supremum keeps, and that holds no NaN float literal, is
/// assignable to the supremum.
pub proof fn law_sup_bounds_its_members(types: Seq<TypeView>, x: TypeView)
    requires
        keep_maximal(type_set(types), type_set(types).len() as int).contains(x),
        !has_nan(x),
    ensures
        subsumes(x, type_of_spec(types, true), false),
{
    let k = keep_maximal(type_set(types), type_set(types).len() as int);
    law_subsume_reflexive(x, false);
    if k.len() >= 2 {
        let i = choose|i: int| 0 <= i < k.len() && k[i] == x;
        lemma_subsumed_by_member(x, k, i);
    }
}

/// Assignability between the members of `s` is transitive.
pub open spec fn transitive_on(s: Seq<TypeView>) -> bool {
    forall|i: int, j: int, k: int|
        0 <= i < s.len() && 0 <= j < s.len() && 0 <= k < s.len() && #[trigger] subsumes(
            s[i],
            s[j],
            false,
        ) && #[trigger] subsumes(s[j], s[k], false) ==> subsumes(s[i], s[k], false)
}

/// No two members of `s` at different places are assignable to each other.
pub open spec fn antisymmetric_on(s: Seq<TypeView>) -> bool {
    forall|i: int, j: int|
        0 <= i < s.len() && 0 <= j < s.len() && i != j ==> !(#[trigger] subsumes(s[i], s[j], false)
            && #[trigger] subsumes(s[j], s[i], false))
}

/// The places of the other members of `s` that member `i` is assignable to.
pub open spec fn above(s: Seq<TypeView>, i: int) -> Set<int> {
    Set::new(|j: int| 0 <= j < s.len() && j != i && subsumes(s[i], s[j], false))
}

proof fn lemma_above_finite(s: Seq<TypeView>, i: int)
    ensures
        above(s, i).finite(),
        above(s, i).len() <= s.len(),
{
    vstd::set_lib::lemma_int_range(0, s.len() as int);
    vstd::set_lib::lemma_len_subset(above(s, i), vstd::set_lib::set_int_range(0, s.len() as int));
}

/// Under transitivity and antisymmetry, each member is assignable to a member that no
/// other member takes, or is such a member.
proof fn lemma_reaches_kept(s: Seq<TypeView>, i: int) -> (k: int)
    requires
        0 <= i < s.len(),
        transitive_on(s),
        antisymmetric_on(s),
    ensures
        0 <= k < s.len(),
        !subsumed_by_other(s, k),
        k == i || subsumes(s[i], s[k], false),
    decreases above(s, i).len(),
{
    if !subsumed_by_other(s, i) {
        i
    } else {
        let j = choose|j: int| 0 <= j < s.len() && j != i && #[trigger] subsumes(s[i], s[j], false);
        lemma_above_finite(s, i);
        lemma_above_finite(s, j);
        assert(above(s, j).subset_of(above(s, i).remove(j))) by {
            assert forall|m: int| above(s, j).contains(m) implies above(s, i).remove(j).contains(m) by {
                assert(subsumes(s[j], s[m], false));
                assert(subsumes(s[i], s[m], false));
                if m == i {
                    assert(subsumes(s[j], s[i], false));
                }
            }
        }
        vstd::set_lib::lemma_len_subset(above(s, j), above(s, i).remove(j));
        assert(above(s, i).contains(j));
        let k = lemma_reaches_kept(s, j);
        if k != j {
            assert(subsumes(s[i], s[k], false));
        }
        k
    }
}

/// `keep_maximal` keeps every member that no other member takes.
proof fn lemma_kept_is_kept(s: Seq<TypeView>, k: int, n: int)
    requires
        0 <= k < n <= s.len(),
        !subsumed_by_other(s, k),
    ensures
        keep_maximal(s, n).contains(s[k]),
    decreases n,
{
    if k < n - 1 {
        lemma_kept_is_kept(s, k, n - 1);
        let p = keep_maximal(s, n - 1);
        let i = choose|i: int| 0 <= i < p.len() && p[i] == s[k];
        if !subsumed_by_other(s, n - 1) {
            assert(keep_maximal(s, n)[i] == s[k]);
        }
    } else {
        assert(keep_maximal(s, n)[keep_maximal(s, n).len() - 1] == s[k]);
    }
}

/// Law: when assignability is transitive on the type set of a list of types and no two
/// different members of it are assignable to each other, every member of that set
/// (each type of the list that is no union, nor `void`, and each such member of its
/// unions) is assignable to the supremum of the list.
pub proof fn law_sup_upper_bound(types: Seq<TypeView>, x: TypeView)
    requires
        transitive_on(type_set(types)),
        antisymmetric_on(type_set(types)),
        type_set(types).contains(x),
        !has_nan(x),
    ensures
        subsumes(x, type_of_spec(types, true), false),
{
    let s = type_set(types);
    let i = choose|i: int| 0 <= i < s.len() && s[i] == x;
    let k = lemma_reaches_kept(s, i);
    lemma_kept_is_kept(s, k, s.len() as int);
    let kept = keep_maximal(s, s.len() as int);
    let m = choose|m: int| 0 <= m < kept.len() && kept[m] == s[k];
    law_subsume_reflexive(x, false);
    if kept.len() >= 2 {
        lemma_subsumed_by_member(x, kept, m);
    }
}

/// Every type that `t` is made of, through unions, other than `void`, stands in `s`.
pub open spec fn members_in(t: TypeView, s: Seq<TypeView>) -> bool
    decreases t,
{
    match t {
        TypeView::Union(ts) => forall|j: int| 0 <= j < ts.len() ==> members_in(#[trigger] ts[j], s),
        TypeView::Void => true,
        _ => s.contains(t),
    }
}

/// `t` holds no `void`, itself or inside its unions.
pub open spec fn void_free(t: TypeView) -> bool
    decreases t,
{
    match t {
        TypeView::Union(ts) => forall|j: int| 0 <= j < ts.len() ==> void_free(#[trigger] ts[j]),
        TypeView::Void => false,
        _ => true,
    }
}

proof fn lemma_members_grow(t: TypeView, s: Seq<TypeView>, s2: Seq<TypeView>)
    requires
        members_in(t, s),
        s.len() <= s2.len(),
        s2.subrange(0, s.len() as int) == s,
    ensures
        members_in(t, s2),
    decreases t,
{
    match t {
        TypeView::Union(ts) => {
            assert forall|j: int| 0 <= j < ts.len() implies members_in(#[trigger] ts[j], s2) by {
                lemma_members_grow(ts[j], s, s2);
            }
        },
        TypeView::Void => {},
        _ => {
            let k = choose|k: int| 0 <= k < s.len() && s[k] == t;
            assert(s2.subrange(0, s.len() as int)[k] == s2[k]);
        },
    }
}

proof fn lemma_add_type_members(acc: Seq<TypeView>, t: TypeView)
    requires
        is_type_set(acc),
    ensures
        members_in(t, add_type(acc, t)),
    decreases t, 0int,
{
    match t {
        TypeView::Union(ts) => {
            lemma_add_types_members(acc, ts, ts.len() as int);
        },
        TypeView::Void => {},
        _ => {
            lemma_add_type_props(acc, t);
        },
    }
}

proof fn lemma_add_types_members(acc: Seq<TypeView>, ts: Seq<TypeView>, n: int)
    requires
        is_type_set(acc),
        0 <= n <= ts.len(),
    ensures
        forall|j: int| 0 <= j < n ==> members_in(#[trigger] ts[j], add_types(acc, ts, n)),
    decreases ts, n,
{
    if n > 0 {
        let p = add_types(acc, ts, n - 1);
        let r = add_types(acc, ts, n);
        lemma_add_types_members(acc, ts, n - 1);
        lemma_add_types_props(acc, ts, n - 1);
        lemma_add_type_props(p, ts[n - 1]);
        lemma_add_type_members(p, ts[n - 1]);
        assert forall|j: int| 0 <= j < n implies members_in(#[trigger] ts[j], r) by {
            if j < n - 1 {
                lemma_members_grow(ts[j], p, r);
            }
        }
    }
}

proof fn lemma_members_bounded(types: Seq<TypeView>, t: TypeView)
    requires
        transitive_on(type_set(types)),
        antisymmetric_on(type_set(types)),
        members_in(t, type_set(types)),
        void_free(t),
        !has_nan(t),
    ensures
        subsumes(t, type_of_spec(types, true), false),
    decreases t,
{
    let r = type_of_spec(types, true);
    match t {
        TypeView::Union(ts) => {
            if !(r is Any) {
                lemma_any_has_nan(ts, ts.len() as int);
                assert forall|j: int| 0 <= j < ts.len() implies #[trigger] subsumes(ts[j], r, false) by {
                    assert(!has_nan(ts[j]));
                    lemma_members_bounded(types, ts[j]);
                }
                lemma_all_subsume_forall(ts, r, ts.len() as int);
            }
        },
        _ => {
            law_sup_upper_bound(types, t);
        },
    }
}

/// Law: when assignability is transitive on the type set of a list of types and no two
/// different members of it are assignable to each other, every type of the list that
/// holds no `void` and no NaN float literal (itself or inside its unions) is assignable
/// to the supremum of the list.
pub proof fn law_sup_bounds_inputs(types: Seq<TypeView>, i: int)
    requires
        0 <= i < types.len(),
        transitive_on(type_set(types)),
        antisymmetric_on(type_set(types)),
        void_free(types[i]),
        !has_nan(types[i]),
    ensures
        subsumes(types[i], type_of_spec(types, true), false),
{
    assert(is_type_set(Seq::<TypeView>::empty()));
    lemma_add_types_members(Seq::empty(), types, types.len() as int);
    lemma_members_bounded(types, types[i]);
}

/// Law: the supremum of a list of types that holds `any` is `any`.
pub proof fn law_sup_with_any(types: Seq<TypeView>, i: int)
    requires
        0 <= i < types.len(),
        types[i] is Any,
    ensures
        type_of_spec(types, true) == TypeView::Any,
{
    let s = type_set(types);
    lemma_add_types_props(Seq::empty(), types, types.len() as int);
    assert(is_member_type(types[i]));
    assert(s.contains(TypeView::Any));
    let k = choose|k: int| 0 <= k < s.len() && s[k] == TypeView::Any;
    assert forall|m: int| 0 <= m < s.len() && m != k implies subsumed_by_other(s, m) by {
        assert(subsumes(s[m], s[k], false));
    }
    assert(!subsumed_by_other(s, k)) by {
        if subsumed_by_other(s, k) {
            let m = choose|m: int| 0 <= m < s.len() && m != k && #[trigger] subsumes(s[k], s[m], false);
            assert(s[m] != s[k]);
            assert(!(s[m] is Union));
        }
    }
    lemma_keep_maximal_single(s, k, s.len() as int);
}

// ------------------------------------------------------------------
// Walking types.
// ------------------------------------------------------------------

proof fn lemma_walk_identity_within<F: Fn(&Type) -> Type>(f: F, ty: Type, r: Type, fuel: nat)
    requires
        forall|t: &Type, w: Type| #[trigger] call_ensures(f, (t,), w) ==> w@ == t@,
        walked_within(f, ty, r, fuel),
    ensures
        r@ == ty@,
    decreases fuel,
{
    broadcast use group_view_lemmas;

    let below = (fuel - 1) as nat;
    let w = choose|w: Type| #[trigger] call_ensures(f, (&ty,), w) && match w.kind {
        TypeKind::List(item) => match r.kind {
            TypeKind::List(ri) => walked_within(f, *item, *ri, below),
            _ => false,
        },
        TypeKind::Dict(k, v) => match r.kind {
            TypeKind::Dict(rk, rv) => walked_within(f, *k, *rk, below) && walked_within(
                f,
                *v,
                *rv,
                below,
            ),
            _ => false,
        },
        TypeKind::Union(ws) => match r.kind {
            TypeKind::Union(rs) => rs.len() == ws.len() && forall|i: int|
                0 <= i < ws.len() ==> walked_within(f, #[trigger] ws@[i], rs@[i], below),
            _ => false,
        },
        _ => r@ == w@,
    };
    assert(w@ == ty@);
    match w.kind {
        TypeKind::List(item) => {
            if let TypeKind::List(ri) = r.kind {
                lemma_walk_identity_within(f, *item, *ri, below);
            }
        },
        TypeKind::Dict(k, v) => {
            if let TypeKind::Dict(rk, rv) = r.kind {
                lemma_walk_identity_within(f, *k, *rk, below);
                lemma_walk_identity_within(f, *v, *rv, below);
            }
        },
        TypeKind::Union(ws) => {
            if let TypeKind::Union(rs) = r.kind {
                assert forall|i: int| 0 <= i < ws.len() implies (#[trigger] rs@[i])@ == ws@[i]@ by {
                    lemma_walk_identity_within(f, ws@[i], rs@[i], below);
                }
                assert(view_seq(rs@) =~= view_seq(ws@));
            }
        },
        _ => {},
    }
}

/// Law: walking a type with a function that hands every type back unchanged gives back
/// the same type.
pub proof fn law_walk_identity<F: Fn(&Type) -> Type>(f: F, ty: Type, r: Type)
    requires
        forall|t: &Type, w: Type| #[trigger] call_ensures(f, (t,), w) ==> w@ == t@,
        walked(f, ty, r),
    ensures
        r@ == ty@,
{
    let fuel = choose|fuel: nat| walked_within(f, ty, r, fuel);
    lemma_walk_identity_within(f, ty, r, fuel);
}

// ------------------------------------------------------------------
// Package paths and string_map.
// ------------------------------------------------------------------

proof fn lemma_no_dot(u: Seq<char>)
    requires
        forall|j: int| 0 <= j < u.len() ==> u[j] != '.',
    ensures
        last_index_of(u, '.') == -1,
    decreases u.len(),
{
    if u.len() > 0 {
        lemma_no_dot(u.subrange(0, u.len() - 1));
    }
}

proof fn lemma_no_dot_after_last(s: Seq<char>)
    requires
        last_index_of(s, '.') >= 0,
    ensures
        last_index_of(s.subrange(last_index_of(s, '.') + 1, s.len() as int), '.') == -1,
{
    lemma_last_index_of(s, '.');
    lemma_no_dot(s.subrange(last_index_of(s, '.') + 1, s.len() as int));
}

/// Law: taking the current package off a type string twice takes off no more than once.
pub proof fn law_replace_pkgpath_idempotent(ty_str: Seq<char>, pkgpath: Seq<char>)
    ensures
        ty_str_replace_pkgpath_spec(ty_str_replace_pkgpath_spec(ty_str, pkgpath), pkgpath)
            == ty_str_replace_pkgpath_spec(ty_str, pkgpath),
{
    let k = last_index_of(ty_str, '.');
    if k >= 0 && ty_str.subrange(0, k) == seq!['@'] + pkgpath {
        lemma_no_dot_after_last(ty_str);
    }
}

/// Law: after an alias is recorded for a name that it does not itself name, the current
/// package maps that name to that alias, and the other packages are as they were.
pub proof fn law_alias_recorded(
    tables: Map<Seq<char>, Map<Seq<char>, Seq<char>>>,
    pkgpath: Seq<char>,
    name: Seq<char>,
    alias: Seq<char>,
)
    requires
        !alias_is_name(name, alias),
    ensures
        record_alias(tables, pkgpath, name, alias).dom().contains(pkgpath),
        record_alias(tables, pkgpath, name, alias)[pkgpath].dom().contains(name),
        record_alias(tables, pkgpath, name, alias)[pkgpath][name] == alias,
        forall|p: Seq<char>|
            p != pkgpath ==> #[trigger] record_alias(tables, pkgpath, name, alias).dom().contains(p)
                == tables.dom().contains(p) && (tables.dom().contains(p) ==> record_alias(
                tables,
                pkgpath,
                name,
                alias,
            )[p] == tables[p]),
{
}

// ------------------------------------------------------------------
// Emitting setters.
// ------------------------------------------------------------------

/// Every setter that `m` holds is in `index`, at a statement before `bound`.
pub open spec fn setters_within(m: Map<Seq<char>, Seq<Setter>>, index: Option<Index>, bound: nat) -> bool {
    forall|k: Seq<char>, j: int|
        m.dom().contains(k) && 0 <= j < m[k].len() ==> (#[trigger] m[k][j]).stmt < bound && m[k][j].index
            == index
}

proof fn lemma_body_setters_bound(stmts: Seq<Stmt>, n: int)
    requires
        0 <= n <= stmts.len(),
    ensures
        forall|e: int| 0 <= e < body_setters(stmts, n).len() ==> (#[trigger] body_setters(stmts, n)[e]).1 < n,
    decreases n,
{
    if n > 0 {
        lemma_body_setters_bound(stmts, n - 1);
        let p = body_setters(stmts, n - 1);
        let a = at_stmt(names_set(stmts[n - 1]), (n - 1) as nat);
        assert forall|e: int| 0 <= e < body_setters(stmts, n).len() implies (#[trigger] body_setters(
            stmts,
            n,
        )[e]).1 < n by {
            if e < p.len() {
                assert(body_setters(stmts, n)[e] == p[e]);
            } else {
                assert(body_setters(stmts, n)[e] == a[e - p.len()]);
            }
        }
    }
}

proof fn lemma_add_setters_within(
    m: Map<Seq<char>, Seq<Setter>>,
    names: Seq<Seq<char>>,
    events: Seq<(Seq<char>, nat)>,
    index: Option<Index>,
    bound: nat,
)
    requires
        setters_within(m, index, bound),
        forall|e: int| 0 <= e < events.len() ==> (#[trigger] events[e]).1 < bound,
        bound <= usize::MAX + 1,
    ensures
        setters_within(add_setters(m, names, events, index).0, index, bound),
    decreases events.len(),
{
    if events.len() > 0 {
        let pre = events.subrange(0, events.len() - 1);
        assert forall|e: int| 0 <= e < pre.len() implies (#[trigger] pre[e]).1 < bound by {
            assert(pre[e] == events[e]);
        }
        lemma_add_setters_within(m, names, pre, index, bound);
        let p = add_setters(m, names, pre, index).0;
        let ev = events[events.len() - 1];
        let r = add_setters(m, names, events, index).0;
        assert forall|k: Seq<char>, j: int| r.dom().contains(k) && 0 <= j < r[k].len() implies (
        #[trigger] r[k][j]).stmt < bound && r[k][j].index == index by {
            if k == ev.0 {
                let old_list = if p.dom().contains(k) {
                    p[k]
                } else {
                    Seq::empty()
                };
                if j < old_list.len() {
                    assert(r[k][j] == old_list[j]);
                    assert(p[k][j] == old_list[j]);
                }
            } else {
                assert(r[k] == p[k]);
            }
        }
    }
}

/// Law: every setter that emitting the setters of a body produces is in the given
/// schema or body, at one of the body's statements.
pub proof fn law_emit_setters_positions(stmts: Seq<Stmt>, index: Option<Index>)
    requires
        stmts.len() <= usize::MAX,
    ensures
        setters_within(
            add_setters(Map::empty(), Seq::empty(), body_setters(stmts, stmts.len() as int), index).0,
            index,
            stmts.len(),
        ),
{
    lemma_body_setters_bound(stmts, stmts.len() as int);
    lemma_add_setters_within(
        Map::empty(),
        Seq::empty(),
        body_setters(stmts, stmts.len() as int),
        index,
        stmts.len(),
    );
}

// ------------------------------------------------------------------
// Assignability of containers.
// ------------------------------------------------------------------

/// Law: a dict type is assignable to a dict type exactly when its key type is assignable
/// to the other's key type and its value type to the other's value type.
pub proof fn law_subsume_dict(lk: TypeView, lv: TypeView, rk: TypeView, rv: TypeView, check_left_any: bool)
    ensures
        subsumes(
            TypeView::Dict(Box::new(lk), Box::new(lv)),
            TypeView::Dict(Box::new(rk), Box::new(rv)),
            check_left_any,
        ) == (subsumes(lk, rk, check_left_any) && subsumes(lv, rv, check_left_any)),
{
}

/// Law: a list type is assignable to a list type exactly when its item type is
/// assignable to the other's item type.
pub proof fn law_subsume_list(l: TypeView, r: TypeView, check_left_any: bool)
    ensures
        subsumes(TypeView::List(Box::new(l)), TypeView::List(Box::new(r)), check_left_any)
            == subsumes(l, r, check_left_any),
{
}

// ------------------------------------------------------------------
// Type checking.
// ------------------------------------------------------------------

/// A type built of lists and dicts over types that are neither unions, schemas, `void`,
/// modules nor functions.
pub open spec fn plain_type(t: TypeView) -> bool
    decreases t,
{
    match t {
        TypeView::List(i) => plain_type(*i),
        TypeView::Dict(k, v) => plain_type(*k) && plain_type(*v),
        TypeView::Union(_) => false,
        TypeView::Schema(_) => false,
        TypeView::Void => false,
        TypeView::Module(_) => false,
        TypeView::Function(_) => false,
        _ => true,
    }
}

/// Law: on plain types, checking a type against an expected type succeeds exactly when
/// the type is assignable to the expected one, and reports nothing.
pub proof fn law_check_is_assignability(t: TypeView, e: TypeView)
    requires
        plain_type(t),
        plain_type(e),
    ensures
        check_run(t, e).0 == assignable(t, e),
        check_run(t, e).1.len() == 0,
    decreases t,
{
    match (t, e) {
        (TypeView::List(i), TypeView::List(x)) => {
            law_check_is_assignability(*i, *x);
            lemma_plain_assignable(*i);
        },
        (TypeView::Dict(k, v), TypeView::Dict(ek, ev)) => {
            law_check_is_assignability(*k, *ek);
            law_check_is_assignability(*v, *ev);
            lemma_plain_assignable(*k);
            lemma_plain_assignable(*v);
        },
        _ => {},
    }
}

proof fn lemma_plain_assignable(t: TypeView)
    requires
        plain_type(t),
    ensures
        t.is_assignable_type(),
{
}

/// Law: checking a dict type against a dict type succeeds exactly when both the check of
/// the key types and the check of the value types succeed.
pub proof fn law_check_dict(k: TypeView, v: TypeView, ek: TypeView, ev: TypeView)
    ensures
        check_run(
            TypeView::Dict(Box::new(k), Box::new(v)),
            TypeView::Dict(Box::new(ek), Box::new(ev)),
        ).0 == (check_run(k, ek).0 && check_run(v, ev).0),
{
}

// ------------------------------------------------------------------
// Upgrading named types.
// ------------------------------------------------------------------

/// Law: upgrading a list, dict or union type gives a type of the same kind whose parts
/// are the upgraded parts of the input: the item of a list, both the key and the value
/// of a dict, each member of a union.
pub proof fn law_upgrade_containers<F: Fn(&Vec<String>, &str) -> Type>(
    resolve_var: F,
    res: Scope,
    ty: Type,
    out: Type,
)
    requires
        upgraded(resolve_var, res, ty, out),
    ensures
        ty.kind matches TypeKind::List(i) ==> (out.kind matches TypeKind::List(oi) && upgraded(
            resolve_var,
            res,
            *i,
            *oi,
        )),
        ty.kind matches TypeKind::Dict(k, v) ==> (out.kind matches TypeKind::Dict(ok, ov) && upgraded(
            resolve_var,
            res,
            *k,
            *ok,
        ) && upgraded(resolve_var, res, *v, *ov)),
        ty.kind matches TypeKind::Union(ts) ==> (out.kind matches TypeKind::Union(os) && os.len()
            == ts.len() && forall|i: int|
            0 <= i < ts.len() ==> upgraded(resolve_var, res, #[trigger] ts@[i], os@[i])),
{
}

proof fn lemma_no_named_member(ts: Seq<TypeView>, n: int, i: int)
    requires
        0 <= i < n <= ts.len(),
        !any_named(ts, n),
    ensures
        !has_named(ts[i]),
    decreases n,
{
    if i < n - 1 {
        lemma_no_named_member(ts, n - 1, i);
    }
}

/// Law: upgrading a type that holds no named type, anywhere inside it, gives the same type.
pub proof fn law_upgrade_keeps_unnamed<F: Fn(&Vec<String>, &str) -> Type>(
    resolve_var: F,
    res: Scope,
    ty: Type,
    out: Type,
)
    requires
        upgraded(resolve_var, res, ty, out),
        !has_named(ty@),
    ensures
        out@ == ty@,
    decreases ty,
{
    broadcast use {group_view_lemmas, lemma_member_height};

    match ty.kind {
        TypeKind::List(i) => {
            if let TypeKind::List(oi) = out.kind {
                law_upgrade_keeps_unnamed(resolve_var, res, *i, *oi);
            }
        },
        TypeKind::Dict(k, v) => {
            if let TypeKind::Dict(ok, ov) = out.kind {
                law_upgrade_keeps_unnamed(resolve_var, res, *k, *ok);
                law_upgrade_keeps_unnamed(resolve_var, res, *v, *ov);
            }
        },
        TypeKind::Union(ts) => {
            if let TypeKind::Union(os) = out.kind {
                assert forall|i: int| 0 <= i < ts.len() implies (#[trigger] os@[i])@ == ts@[i]@ by {
                    lemma_no_named_member(view_seq(ts@), ts.len() as int, i);
                    assert(view_seq(ts@)[i] == ts@[i]@);
                    law_upgrade_keeps_unnamed(resolve_var, res, ts@[i], os@[i]);
                }
                assert(view_seq(os@) =~= view_seq(ts@));
            }
        },
        _ => {},
    }
}


// ------------------------------------------------------------------
// Option values.
// ------------------------------------------------------------------

proof fn lemma_nat_text(n: nat)
    ensures
        all_digits(nat_text(n)),
        digits_value(nat_text(n)) == n,
    decreases n,
{
    let c = (('0' as int) + n % 10) as char;
    if n >= 10 {
        lemma_nat_text(n / 10);
        let t = nat_text(n / 10);
        assert(nat_text(n) == t.push(c));
        assert(t.push(c).drop_last() =~= t);
        assert(c as int == '0' as int + n % 10);
        vstd::arithmetic::div_mod::lemma_fundamental_div_mod(n as int, 10);
        assert(digits_value(t.push(c)) == digits_value(t) * 10 + (c as int - '0' as int));
        assert forall|i: int| 0 <= i < t.push(c).len() implies is_digit(#[trigger] t.push(c)[i]) by {
            if i < t.len() {
                assert(t.push(c)[i] == t[i]);
            }
        }
    } else {
        assert(nat_text(n) == seq![c]);
        assert(seq![c].drop_last() =~= Seq::<char>::empty());
        assert(n % 10 == n);
        assert(c as int == '0' as int + n % 10);
        assert(digits_value(Seq::<char>::empty()) == 0);
        assert(digits_value(seq![c]) == digits_value(seq![c].drop_last()) * 10 + (seq![c].last() as int
            - '0' as int));
    }
}

/// A number's decimal text reads back as that number.
proof fn lemma_decimal_text_parses(i: i64)
    ensures
        parse_i64_spec(decimal_text(i as int)) == Some(i),
{
    if i < 0 {
        let m = (-(i as int)) as nat;
        lemma_nat_text(m);
        let s = decimal_text(i as int);
        assert(s == seq!['-'] + nat_text(m));
        assert(s[0] == '-');
        assert(s.drop_first() =~= nat_text(m));
    } else {
        lemma_nat_text(i as nat);
        let s = nat_text(i as nat);
        assert(is_digit(s[0]));
    }
}

/// Law: a text converted to `bool` is true exactly when it is `True` or `true`.
pub proof fn law_option_bool_text(s: Seq<char>, list_mode: bool)
    ensures
        convert_spec(OptionView::Str(s), "bool"@, list_mode) == Ok::<ConvertedView, OptionErrorView>(
            ConvertedView::Value(
                OptionView::Bool(s == seq!['T', 'r', 'u', 'e'] || s == seq!['t', 'r', 'u', 'e']),
            ),
        ),
{
    reveal_strlit("bool");
    reveal_strlit("True");
    reveal_strlit("true");
    assert("True"@ =~= seq!['T', 'r', 'u', 'e']);
    assert("true"@ =~= seq!['t', 'r', 'u', 'e']);
}

/// Law: a `bool` converted to `str` and back to `bool` is the same `bool`.
pub proof fn law_option_bool_round_trip(b: bool, list_mode: bool)
    ensures
        match convert_spec(OptionView::Bool(b), "str"@, list_mode) {
            Ok(ConvertedView::Value(OptionView::Str(t))) => convert_spec(
                OptionView::Str(t),
                "bool"@,
                list_mode,
            ) == Ok::<ConvertedView, OptionErrorView>(ConvertedView::Value(OptionView::Bool(b))),
            _ => false,
        },
{
    reveal_strlit("bool");
    reveal_strlit("int");
    reveal_strlit("float");
    reveal_strlit("str");
    reveal_strlit("True");
    reveal_strlit("true");
    reveal_strlit("false");
    assert("str"@[0] != "bool"@[0]);
    assert("str"@[0] != "int"@[0]);
    assert("str"@.len() != "float"@.len());
    assert("false"@.len() != "true"@.len());
}

/// Law: an integer converted to `str` and back to `int` is the same integer.
pub proof fn law_option_int_round_trip(i: i64, list_mode: bool)
    ensures
        match convert_spec(OptionView::Int(i as int), "str"@, list_mode) {
            Ok(ConvertedView::Value(OptionView::Str(t))) => convert_spec(
                OptionView::Str(t),
                "int"@,
                list_mode,
            ) == Ok::<ConvertedView, OptionErrorView>(ConvertedView::Value(OptionView::Int(i as int))),
            _ => false,
        },
{
    reveal_strlit("bool");
    reveal_strlit("int");
    reveal_strlit("float");
    reveal_strlit("str");
    assert("str"@[0] != "bool"@[0]);
    assert("str"@[0] != "int"@[0]);
    assert("str"@.len() != "float"@.len());
    assert("int"@[0] != "bool"@[0]);
    lemma_decimal_text_parses(i);
}


// ------------------------------------------------------------------
// Setters that a body emits.
// ------------------------------------------------------------------

/// Whether statement `s` sets the name `n`: as the name of a unification, one of the
/// targets of an assignment, the target of an augmented assignment or a schema
/// attribute, or in a statement of either branch of an `if`.
pub open spec fn sets_name(s: Stmt, n: Seq<char>) -> bool
    decreases s, 0int,
{
    match s {
        Stmt::Unification(x) => x@ == n,
        Stmt::Assign(targets) => exists|k: int| 0 <= k < targets.len() && (#[trigger] targets@[k])@ == n,
        Stmt::AugAssign(x) => x@ == n,
        Stmt::SchemaAttr(x) => x@ == n,
        Stmt::If(body, orelse) => any_sets(body@, n, body@.len() as int) || any_sets(
            orelse@,
            n,
            orelse@.len() as int,
        ),
        Stmt::Other => false,
    }
}

/// Whether one of the first `k` statements of `stmts` sets the name `n`.
pub open spec fn any_sets(stmts: Seq<Stmt>, n: Seq<char>, k: int) -> bool
    decreases stmts, k,
{
    if 0 < k <= stmts.len() {
        any_sets(stmts, n, k - 1) || sets_name(stmts[k - 1], n)
    } else {
        false
    }
}

proof fn lemma_concat_contains<A>(a: Seq<A>, b: Seq<A>, x: A)
    requires
        a.contains(x) || b.contains(x),
    ensures
        (a + b).contains(x),
{
    if a.contains(x) {
        let j = choose|j: int| 0 <= j < a.len() && a[j] == x;
        assert((a + b)[j] == x);
    } else {
        let j = choose|j: int| 0 <= j < b.len() && b[j] == x;
        assert((a + b)[a.len() + j] == x);
    }
}

proof fn lemma_sets_name_listed(s: Stmt, n: Seq<char>)
    requires
        sets_name(s, n),
    ensures
        names_in_if(s).contains(n),
        names_set(s).contains(n),
    decreases s, 0int,
{
    match s {
        Stmt::Unification(x) => {
            assert(seq![x@][0] == n);
        },
        Stmt::AugAssign(x) => {
            assert(seq![x@][0] == n);
        },
        Stmt::SchemaAttr(x) => {
            assert(seq![x@][0] == n);
        },
        Stmt::Assign(targets) => {
            let k = choose|k: int| 0 <= k < targets.len() && (#[trigger] targets@[k])@ == n;
            assert(name_views(targets@)[k] == n);
        },
        Stmt::If(body, orelse) => {
            let bn = body_names(body@, body@.len() as int);
            let on = body_names(orelse@, orelse@.len() as int);
            if any_sets(body@, n, body@.len() as int) {
                lemma_any_sets_listed(body@, n, body@.len() as int);
                lemma_concat_contains(bn, bn, n);
                lemma_concat_contains(bn + bn, on, n);
                lemma_concat_contains(bn, on, n);
            } else {
                lemma_any_sets_listed(orelse@, n, orelse@.len() as int);
                lemma_concat_contains(bn + bn, on, n);
                lemma_concat_contains(bn, on, n);
            }
        },
        Stmt::Other => {},
    }
}

proof fn lemma_any_sets_listed(stmts: Seq<Stmt>, n: Seq<char>, k: int)
    requires
        0 <= k <= stmts.len(),
        any_sets(stmts, n, k),
    ensures
        body_names(stmts, k).contains(n),
    decreases stmts, k,
{
    if any_sets(stmts, n, k - 1) {
        lemma_any_sets_listed(stmts, n, k - 1);
        lemma_concat_contains(body_names(stmts, k - 1), names_in_if(stmts[k - 1]), n);
    } else {
        lemma_sets_name_listed(stmts[k - 1], n);
        lemma_concat_contains(body_names(stmts, k - 1), names_in_if(stmts[k - 1]), n);
    }
}

proof fn lemma_body_setters_has(stmts: Seq<Stmt>, k: int, i: int, n: Seq<char>)
    requires
        0 <= i < k <= stmts.len(),
        names_set(stmts[i]).contains(n),
    ensures
        body_setters(stmts, k).contains((n, i as nat)),
    decreases k,
{
    if i == k - 1 {
        let names = names_set(stmts[i]);
        let j = choose|j: int| 0 <= j < names.len() && names[j] == n;
        assert(at_stmt(names, i as nat)[j] == (n, i as nat));
        lemma_concat_contains(body_setters(stmts, k - 1), at_stmt(names, i as nat), (n, i as nat));
    } else {
        lemma_body_setters_has(stmts, k - 1, i, n);
        lemma_concat_contains(
            body_setters(stmts, k - 1),
            at_stmt(names_set(stmts[k - 1]), (k - 1) as nat),
            (n, i as nat),
        );
    }
}

proof fn lemma_add_setters_has(
    m: Map<Seq<char>, Seq<Setter>>,
    names: Seq<Seq<char>>,
    events: Seq<(Seq<char>, nat)>,
    index: Option<Index>,
    n: Seq<char>,
    i: nat,
)
    requires
        events.contains((n, i)),
    ensures
        add_setters(m, names, events, index).0.dom().contains(n),
        add_setters(m, names, events, index).0[n].contains(Setter { index, stmt: i as usize }),
    decreases events.len(),
{
    let pre = events.subrange(0, events.len() - 1);
    let e = events[events.len() - 1];
    let p = add_setters(m, names, pre, index);
    let r = add_setters(m, names, events, index);
    let target = Setter { index, stmt: i as usize };
    let j = choose|j: int| 0 <= j < events.len() && events[j] == (n, i);
    if j == events.len() - 1 {
        let list = (if p.0.dom().contains(n) {
            p.0[n]
        } else {
            Seq::empty()
        }).push(target);
        assert(r.0[n] == list);
        assert(list[list.len() - 1] == target);
    } else {
        assert(pre[j] == (n, i));
        lemma_add_setters_has(m, names, pre, index, n, i);
        if e.0 == n {
            let list = p.0[n].push(Setter { index, stmt: e.1 as usize });
            assert(r.0[n] == list);
            let q = choose|q: int| 0 <= q < p.0[n].len() && p.0[n][q] == target;
            assert(list[q] == target);
        } else {
            assert(r.0[n] == p.0[n]);
        }
    }
}

/// Law: every name that a statement of a body sets, directly or inside an `if`, gets a
/// setter in the body's schema or body at that statement's position.
pub proof fn law_emit_setters_complete(stmts: Seq<Stmt>, index: Option<Index>, i: int, n: Seq<char>)
    requires
        0 <= i < stmts.len(),
        sets_name(stmts[i], n),
    ensures
        add_setters(Map::empty(), Seq::empty(), body_setters(stmts, stmts.len() as int), index).0.dom().contains(n),
        add_setters(Map::empty(), Seq::empty(), body_setters(stmts, stmts.len() as int), index).0[n].contains(
            Setter { index, stmt: i as usize },
        ),
{
    lemma_sets_name_listed(stmts[i], n);
    lemma_body_setters_has(stmts, stmts.len() as int, i, n);
    lemma_add_setters_has(
        Map::empty(),
        Seq::empty(),
        body_setters(stmts, stmts.len() as int),
        index,
        n,
        i as nat,
    );
}


// ------------------------------------------------------------------
// More of assignability.
// ------------------------------------------------------------------

/// Law: a union is assignable to a type other than `any` exactly when each of its members
/// is.
pub proof fn law_subsume_union_left(ls: Seq<TypeView>, r: TypeView, check_left_any: bool)
    requires
        !(r is Any),
    ensures
        subsumes(TypeView::Union(ls), r, check_left_any) == forall|j: int|
            0 <= j < ls.len() ==> #[trigger] subsumes(ls[j], r, false),
{
    lemma_all_subsume_forall(ls, r, ls.len() as int);
}

/// Law: a type that is neither a union, `None`, nor (when `any` on the left counts)
/// `any`, is assignable to a union exactly when it is assignable to one of its members.
pub proof fn law_subsume_union_right(l: TypeView, rs: Seq<TypeView>, check_left_any: bool)
    requires
        !(l is Union),
        !(l is NoneType),
        !(check_left_any && l is Any),
    ensures
        subsumes(l, TypeView::Union(rs), check_left_any) == exists|j: int|
            0 <= j < rs.len() && #[trigger] subsumes(l, rs[j], false),
{
    lemma_any_subsumed_exists(l, rs, rs.len() as int);
}

/// Law: a literal type is assignable to the primitive type of its value, and an integer
/// or boolean literal, like `int`, to `float`.
pub proof fn law_subsume_literals(v: int, b: bool, bits: u64, s: Seq<char>, check_left_any: bool)
    ensures
        subsumes(TypeView::IntLit(v), TypeView::Int, check_left_any),
        subsumes(TypeView::IntLit(v), TypeView::Float, check_left_any),
        subsumes(TypeView::BoolLit(b), TypeView::Bool, check_left_any),
        subsumes(TypeView::BoolLit(b), TypeView::Float, check_left_any),
        subsumes(TypeView::FloatLit(bits), TypeView::Float, check_left_any),
        subsumes(TypeView::StrLit(s), TypeView::Str, check_left_any),
        subsumes(TypeView::Int, TypeView::Float, check_left_any),
        !subsumes(TypeView::Float, TypeView::Int, check_left_any),
        !subsumes(TypeView::Str, TypeView::Int, check_left_any),
{
}

/// Law: a schema type is assignable to its base schema type.
pub proof fn law_subsume_schema_base(s: SchemaView, b: SchemaView, check_left_any: bool)
    requires
        s.base == Some(Box::new(b)),
    ensures
        subsumes(TypeView::Schema(s), TypeView::Schema(b), check_left_any),
{
    assert(is_sub_schema(b, b));
}

// ------------------------------------------------------------------
// More of type checking.
// ------------------------------------------------------------------

proof fn lemma_check_all_forall(ts: Seq<TypeView>, e: TypeView, n: int)
    requires
        0 <= n <= ts.len(),
    ensures
        check_all(ts, e, n).0 <==> forall|j: int| 0 <= j < n ==> #[trigger] check_run(ts[j], e).0,
    decreases n,
{
    if n > 0 {
        lemma_check_all_forall(ts, e, n - 1);
        if !check_all(ts, e, n - 1).0 {
            let j = choose|j: int| 0 <= j < n - 1 && !#[trigger] check_run(ts[j], e).0;
            assert(!check_run(ts[j], e).0);
        } else if !check_run(ts[n - 1], e).0 {
            assert(!check_all(ts, e, n).0);
        } else {
            assert forall|j: int| 0 <= j < n implies #[trigger] check_run(ts[j], e).0 by {
                if j < n - 1 {
                    assert(check_run(ts[j], e).0);
                }
            }
        }
    }
}

proof fn lemma_check_any_exists(t: TypeView, es: Seq<TypeView>, n: int)
    requires
        0 <= n <= es.len(),
    ensures
        check_any(t, es, n).0 <==> exists|j: int| 0 <= j < n && #[trigger] check_run(t, es[j]).0,
    decreases n,
{
    if n > 0 {
        lemma_check_any_exists(t, es, n - 1);
        if check_run(t, es[n - 1]).0 {
            assert(0 <= n - 1 < n && check_run(t, es[n - 1]).0);
        }
        if exists|j: int| 0 <= j < n && #[trigger] check_run(t, es[j]).0 {
            let j = choose|j: int| 0 <= j < n && #[trigger] check_run(t, es[j]).0;
            if j < n - 1 {
                assert(0 <= j < n - 1 && check_run(t, es[j]).0);
            }
        }
    }
}

/// Law: checking a union against a type succeeds exactly when checking each member does.
pub proof fn law_check_union_left(ts: Seq<TypeView>, e: TypeView)
    ensures
        check_run(TypeView::Union(ts), e).0 == forall|j: int|
            0 <= j < ts.len() ==> #[trigger] check_run(ts[j], e).0,
{
    lemma_check_all_forall(ts, e, ts.len() as int);
}

/// Law: checking a type that is no union against a union succeeds exactly when checking
/// it against one of the union's members does.
pub proof fn law_check_union_right(t: TypeView, es: Seq<TypeView>)
    requires
        !(t is Union),
    ensures
        check_run(t, TypeView::Union(es)).0 == exists|j: int|
            0 <= j < es.len() && #[trigger] check_run(t, es[j]).0,
{
    lemma_check_any_exists(t, es, es.len() as int);
}

/// Law: a dict checked against a schema passes unless the schema has an index signature
/// that takes any other key, in which case both the dict's key type and its value type
/// must be assignable to the signature's; a value type not assignable to the
/// signature's is reported either way.
pub proof fn law_check_dict_against_schema(k: TypeView, v: TypeView, s: SchemaView)
    ensures
        check_run(TypeView::Dict(Box::new(k), Box::new(v)), TypeView::Schema(s)).0 == match s.index_signature {
            Some(sig) => !sig.any_other || (assignable(k, sig.key_ty) && assignable(v, sig.val_ty)),
            None => true,
        },
        check_run(TypeView::Dict(Box::new(k), Box::new(v)), TypeView::Schema(s)).1.len() == match s.index_signature {
            Some(sig) => if assignable(v, sig.val_ty) {
                0nat
            } else {
                1nat
            },
            None => 0nat,
        },
{
}

// ------------------------------------------------------------------
// Option lookup.
// ------------------------------------------------------------------

/// Law: a value given on the command line for a named option is what the option gives,
/// converted to the declared type when there is one; the default, `required` and
/// list-option mode do not matter.
pub proof fn law_option_given_wins(
    name: Seq<char>,
    v: OptionView,
    default: Option<OptionView>,
    typ: Option<Seq<char>>,
    required: bool,
    list_mode: bool,
)
    ensures
        option_spec(Some(name), Some(Some(v)), default, typ, required, list_mode) == match typ {
            Some(t) => convert_spec(v, t, list_mode),
            None => Ok(ConvertedView::Value(v)),
        },
{
}

/// Law: a named option not given on the command line gives its default, converted to the
/// declared type when there is one, whatever `required` says.
pub proof fn law_option_default(
    name: Seq<char>,
    d: OptionView,
    typ: Option<Seq<char>>,
    required: bool,
    list_mode: bool,
)
    ensures
        option_spec(Some(name), None, Some(d), typ, required, list_mode) == match typ {
            Some(t) => convert_spec(d, t, list_mode),
            None => Ok(ConvertedView::Value(d)),
        },
{
}

/// Law: outside list-option mode, a required option that was not given and has no
/// default is an error naming it; in list-option mode, or when not required, it is `None`.
pub proof fn law_option_missing(
    name: Seq<char>,
    typ: Option<Seq<char>>,
    required: bool,
    list_mode: bool,
)
    ensures
        option_spec(Some(name), None, None, typ, required, list_mode) == if required && !list_mode {
            Err(OptionErrorView::Required { name })
        } else {
            Ok(ConvertedView::Value(OptionView::NoneValue))
        },
{
}

/// Law: a named option given with no value is undefined, whatever its type, default or
/// mode.
pub proof fn law_option_given_empty(
    name: Seq<char>,
    default: Option<OptionView>,
    typ: Option<Seq<char>>,
    required: bool,
    list_mode: bool,
)
    ensures
        option_spec(Some(name), Some(None), default, typ, required, list_mode) == Ok::<
            ConvertedView,
            OptionErrorView,
        >(ConvertedView::Value(OptionView::Undefined)),
{
}


/// Law: how scalars convert: a `bool` to `int` gives 1 or 0, an `int` to `bool` is true
/// exactly when it is not 0, an `int` to `float` is left to the caller's float
/// arithmetic, an integer or text declared with its own type or with no type stays as
/// it is.
pub proof fn law_option_scalars(b: bool, i: int, s: Seq<char>, list_mode: bool)
    ensures
        convert_spec(OptionView::Bool(b), "int"@, list_mode) == Ok::<ConvertedView, OptionErrorView>(
            ConvertedView::Value(OptionView::Int(if b { 1 } else { 0 })),
        ),
        convert_spec(OptionView::Int(i), "bool"@, list_mode) == Ok::<ConvertedView, OptionErrorView>(
            ConvertedView::Value(OptionView::Bool(i != 0)),
        ),
        convert_spec(OptionView::Int(i), "float"@, list_mode) == Ok::<ConvertedView, OptionErrorView>(
            ConvertedView::Float(FloatCastView::IntToFloat(i)),
        ),
        convert_spec(OptionView::Int(i), "int"@, list_mode) == Ok::<ConvertedView, OptionErrorView>(
            ConvertedView::Value(OptionView::Int(i)),
        ),
        convert_spec(OptionView::Str(s), "str"@, list_mode) == Ok::<ConvertedView, OptionErrorView>(
            ConvertedView::Value(OptionView::Str(s)),
        ),
        convert_spec(OptionView::Str(s), Seq::empty(), list_mode) == Ok::<ConvertedView, OptionErrorView>(
            ConvertedView::Value(OptionView::Str(s)),
        ),
{
    reveal_strlit("bool");
    reveal_strlit("int");
    reveal_strlit("float");
    reveal_strlit("str");
    assert("str"@[0] != "bool"@[0]);
    assert("str"@[0] != "int"@[0]);
    assert("str"@.len() != "float"@.len());
    assert("int"@[0] != "bool"@[0]);
    assert("float"@.len() != "bool"@.len());
    assert("float"@.len() != "int"@.len());
}

/// Law: a value that a declared `list` or `dict` type refuses gives `None` in list-option
/// mode and an error naming the value and the type otherwise; a list declared `list` and
/// a dict declared `dict` stay as they are.
pub proof fn law_option_containers(v: OptionView, list_mode: bool)
    ensures
        v is List ==> convert_spec(v, "list"@, list_mode) == Ok::<ConvertedView, OptionErrorView>(
            ConvertedView::Value(v),
        ),
        v is Dict ==> convert_spec(v, "dict"@, list_mode) == Ok::<ConvertedView, OptionErrorView>(
            ConvertedView::Value(v),
        ),
        !(v is List) ==> convert_spec(v, "list"@, list_mode) == if list_mode {
            Ok::<ConvertedView, OptionErrorView>(ConvertedView::Value(OptionView::NoneValue))
        } else {
            Err(OptionErrorView::CannotUse { value: v, typ: "list"@ })
        },
        !(v is Dict) ==> convert_spec(v, "dict"@, list_mode) == if list_mode {
            Ok::<ConvertedView, OptionErrorView>(ConvertedView::Value(OptionView::NoneValue))
        } else {
            Err(OptionErrorView::CannotUse { value: v, typ: "dict"@ })
        },
{
    reveal_strlit("bool");
    reveal_strlit("int");
    reveal_strlit("float");
    reveal_strlit("str");
    reveal_strlit("list");
    reveal_strlit("dict");
    assert("list"@[0] != "bool"@[0]);
    assert("list"@.len() != "int"@.len());
    assert("list"@.len() != "float"@.len());
    assert("list"@[0] != "str"@[0]);
    assert("dict"@[0] != "bool"@[0]);
    assert("dict"@.len() != "int"@.len());
    assert("dict"@.len() != "float"@.len());
    assert("dict"@[0] != "str"@[0]);
    assert("dict"@[0] != "list"@[0]);
}


proof fn lemma_concat_contains_inv<A>(a: Seq<A>, b: Seq<A>, x: A)
    requires
        (a + b).contains(x),
    ensures
        a.contains(x) || b.contains(x),
{
    let j = choose|j: int| 0 <= j < (a + b).len() && (a + b)[j] == x;
    if j < a.len() {
        assert(a[j] == x);
    } else {
        assert(b[j - a.len()] == x);
    }
}

proof fn lemma_listed_sets_name(s: Stmt, n: Seq<char>)
    ensures
        names_in_if(s).contains(n) ==> sets_name(s, n),
        names_set(s).contains(n) ==> sets_name(s, n),
    decreases s, 0int,
{
    match s {
        Stmt::Unification(x) => {},
        Stmt::AugAssign(x) => {},
        Stmt::SchemaAttr(x) => {},
        Stmt::Assign(targets) => {
            if names_in_if(s).contains(n) {
                let k = choose|k: int| 0 <= k < name_views(targets@).len() && name_views(targets@)[k] == n;
                assert((targets@[k])@ == n);
            }
        },
        Stmt::If(body, orelse) => {
            let bn = body_names(body@, body@.len() as int);
            let on = body_names(orelse@, orelse@.len() as int);
            lemma_listed_any_sets(body@, n, body@.len() as int);
            lemma_listed_any_sets(orelse@, n, orelse@.len() as int);
            if names_in_if(s).contains(n) {
                lemma_concat_contains_inv(bn + bn, on, n);
                if (bn + bn).contains(n) {
                    lemma_concat_contains_inv(bn, bn, n);
                }
            }
            if names_set(s).contains(n) {
                lemma_concat_contains_inv(bn, on, n);
            }
        },
        Stmt::Other => {},
    }
}

proof fn lemma_listed_any_sets(stmts: Seq<Stmt>, n: Seq<char>, k: int)
    requires
        0 <= k <= stmts.len(),
    ensures
        body_names(stmts, k).contains(n) ==> any_sets(stmts, n, k),
    decreases stmts, k,
{
    if k > 0 {
        lemma_listed_any_sets(stmts, n, k - 1);
        lemma_listed_sets_name(stmts[k - 1], n);
        if body_names(stmts, k).contains(n) {
            lemma_concat_contains_inv(body_names(stmts, k - 1), names_in_if(stmts[k - 1]), n);
        }
    }
}

proof fn lemma_body_setters_from(stmts: Seq<Stmt>, k: int, n: Seq<char>, i: nat)
    requires
        0 <= k <= stmts.len(),
        body_setters(stmts, k).contains((n, i)),
    ensures
        i < k,
        names_set(stmts[i as int]).contains(n),
    decreases k,
{
    if k > 0 {
        let names = names_set(stmts[k - 1]);
        lemma_concat_contains_inv(body_setters(stmts, k - 1), at_stmt(names, (k - 1) as nat), (n, i));
        if body_setters(stmts, k - 1).contains((n, i)) {
            lemma_body_setters_from(stmts, k - 1, n, i);
        } else {
            let a = at_stmt(names, (k - 1) as nat);
            let j = choose|j: int| 0 <= j < a.len() && a[j] == (n, i);
            assert(names[j] == n);
        }
    }
}

proof fn lemma_add_setters_from(
    m: Map<Seq<char>, Seq<Setter>>,
    names: Seq<Seq<char>>,
    events: Seq<(Seq<char>, nat)>,
    index: Option<Index>,
    n: Seq<char>,
    st: Setter,
)
    requires
        add_setters(m, names, events, index).0.dom().contains(n),
        add_setters(m, names, events, index).0[n].contains(st),
        forall|w: int| 0 <= w < events.len() ==> (#[trigger] events[w]).1 <= usize::MAX,
    ensures
        (m.dom().contains(n) && m[n].contains(st)) || (st.index == index && events.contains(
            (n, st.stmt as nat),
        )),
    decreases events.len(),
{
    if events.len() > 0 {
        let pre = events.subrange(0, events.len() - 1);
        let e = events[events.len() - 1];
        let p = add_setters(m, names, pre, index);
        let r = add_setters(m, names, events, index);
        let new_setter = Setter { index, stmt: e.1 as usize };
        assert(e.1 <= usize::MAX);
        assert forall|w: int| 0 <= w < pre.len() implies (#[trigger] pre[w]).1 <= usize::MAX by {
            assert(pre[w] == events[w]);
        }
        if e.0 == n {
            let old_list = if p.0.dom().contains(n) {
                p.0[n]
            } else {
                Seq::empty()
            };
            assert(r.0[n] == old_list.push(new_setter));
            let q = choose|q: int| 0 <= q < r.0[n].len() && r.0[n][q] == st;
            if q == old_list.len() {
                assert(st == new_setter);
                assert(events[events.len() - 1] == (n, st.stmt as nat));
            } else {
                assert(old_list[q] == st);
                lemma_add_setters_from(m, names, pre, index, n, st);
                if pre.contains((n, st.stmt as nat)) {
                    let w = choose|w: int| 0 <= w < pre.len() && pre[w] == (n, st.stmt as nat);
                    assert(events[w] == pre[w]);
                }
            }
        } else {
            assert(r.0[n] == p.0[n]);
            lemma_add_setters_from(m, names, pre, index, n, st);
            if pre.contains((n, st.stmt as nat)) {
                let w = choose|w: int| 0 <= w < pre.len() && pre[w] == (n, st.stmt as nat);
                assert(events[w] == pre[w]);
            }
        }
    }
}

/// Law: every setter that emitting a body's setters gives for a name is in the given
/// schema or body, at a statement of the body that sets that name.
pub proof fn law_emit_setters_sound(stmts: Seq<Stmt>, index: Option<Index>, n: Seq<char>, st: Setter)
    requires
        stmts.len() <= usize::MAX,
        add_setters(Map::empty(), Seq::empty(), body_setters(stmts, stmts.len() as int), index).0.dom().contains(n),
        add_setters(Map::empty(), Seq::empty(), body_setters(stmts, stmts.len() as int), index).0[n].contains(st),
    ensures
        st.index == index,
        st.stmt < stmts.len(),
        sets_name(stmts[st.stmt as int], n),
{
    lemma_body_setters_bound(stmts, stmts.len() as int);
    lemma_add_setters_from(
        Map::empty(),
        Seq::empty(),
        body_setters(stmts, stmts.len() as int),
        index,
        n,
        st,
    );
    lemma_body_setters_from(stmts, stmts.len() as int, n, st.stmt as nat);
    lemma_listed_sets_name(stmts[st.stmt as int], n);
}


/// Law: `void`, a module or a function is assignable to no type, not even `any`; every
/// other type is assignable to `any`.
pub proof fn law_assignable_kinds(t: TypeView, e: TypeView)
    ensures
        (t is Void || t is Module || t is Function) ==> !assignable(t, e),
        !(t is Void || t is Module || t is Function) ==> assignable(t, TypeView::Any),
{
}

} // verus!
