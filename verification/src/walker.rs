use vstd::prelude::*;

use crate::depth::{height, lemma_member_height};
use crate::types::{group_view_lemmas, Type, TypeKind};

verus! {

broadcast use {group_view_lemmas, lemma_member_height};

/// Walking `ty` with `f` ends within `fuel` steps, whatever `f` returns: `f` is applied,
/// then the descent goes on into the item of a list, the key and value of a dict, or the
/// members of a union that it returned, and stops at any other type.
pub open spec fn descends_within<F: Fn(&Type) -> Type>(f: F, ty: Type, fuel: nat) -> bool
    decreases fuel,
{
    if fuel == 0 {
        false
    } else {
        forall|w: Type|
            #[trigger] call_ensures(f, (&ty,), w) ==> match w.kind {
                TypeKind::List(item) => descends_within(f, *item, (fuel - 1) as nat),
                TypeKind::Dict(k, v) => descends_within(f, *k, (fuel - 1) as nat)
                    && descends_within(f, *v, (fuel - 1) as nat),
                TypeKind::Union(ws) => forall|i: int|
                    0 <= i < ws.len() ==> descends_within(f, #[trigger] ws@[i], (fuel - 1) as nat),
                _ => true,
            }
    }
}

/// Walking `ty` with `f` ends: there is a bound on how deep the descent goes.
pub open spec fn walk_ends<F: Fn(&Type) -> Type>(f: F, ty: Type) -> bool {
    exists|fuel: nat| #[trigger] descends_within(f, ty, fuel)
}

/// `r` is a possible result of walking `ty` with `f` in at most `fuel` steps: `f` is
/// applied to `ty`, and then the item of a list, the key and value of a dict, or the
/// members of a union that `f` returned are walked in turn; any other type that `f`
/// returned is the result.
pub open spec fn walked_within<F: Fn(&Type) -> Type>(f: F, ty: Type, r: Type, fuel: nat) -> bool
    decreases fuel,
{
    if fuel == 0 {
        false
    } else {
        exists|w: Type|
            #[trigger] call_ensures(f, (&ty,), w) && match w.kind {
                TypeKind::List(item) => match r.kind {
                    TypeKind::List(ri) => walked_within(f, *item, *ri, (fuel - 1) as nat),
                    _ => false,
                },
                TypeKind::Dict(k, v) => match r.kind {
                    TypeKind::Dict(rk, rv) => walked_within(f, *k, *rk, (fuel - 1) as nat)
                        && walked_within(f, *v, *rv, (fuel - 1) as nat),
                    _ => false,
                },
                TypeKind::Union(ws) => match r.kind {
                    TypeKind::Union(rs) => rs.len() == ws.len() && forall|i: int|
                        0 <= i < ws.len() ==> walked_within(
                            f,
                            #[trigger] ws@[i],
                            rs@[i],
                            (fuel - 1) as nat,
                        ),
                    _ => false,
                },
                _ => r@ == w@,
            }
    }
}

/// `r` is a possible result of walking `ty` with `f`.
pub open spec fn walked<F: Fn(&Type) -> Type>(f: F, ty: Type, r: Type) -> bool {
    exists|fuel: nat| #[trigger] walked_within(f, ty, r, fuel)
}

/// A walk function never makes a type deeper.
pub open spec fn non_growing<F: Fn(&Type) -> Type>(f: F) -> bool {
    forall|t: &Type, w: Type| #[trigger] call_ensures(f, (t,), w) ==> height(w@) <= height(t@)
}

/// A walk with a function that never makes a type deeper ends within the type's depth.
pub proof fn lemma_non_growing_walk_ends<F: Fn(&Type) -> Type>(f: F, ty: Type)
    requires
        non_growing(f),
    ensures
        descends_within(f, ty, height(ty@)),
        walk_ends(f, ty),
    decreases height(ty@),
{
    assert forall|w: Type| #[trigger] call_ensures(f, (&ty,), w) implies match w.kind {
        TypeKind::List(item) => descends_within(f, *item, (height(ty@) - 1) as nat),
        TypeKind::Dict(k, v) => descends_within(f, *k, (height(ty@) - 1) as nat)
            && descends_within(f, *v, (height(ty@) - 1) as nat),
        TypeKind::Union(ws) => forall|i: int|
            0 <= i < ws.len() ==> descends_within(f, #[trigger] ws@[i], (height(ty@) - 1) as nat),
        _ => true,
    } by {
        assert(height(w@) <= height(ty@));
        match w.kind {
            TypeKind::List(item) => {
                lemma_non_growing_walk_ends(f, *item);
                lemma_descends_more(f, *item, height(item@), (height(ty@) - 1) as nat);
            },
            TypeKind::Dict(k, v) => {
                lemma_non_growing_walk_ends(f, *k);
                lemma_non_growing_walk_ends(f, *v);
                lemma_descends_more(f, *k, height(k@), (height(ty@) - 1) as nat);
                lemma_descends_more(f, *v, height(v@), (height(ty@) - 1) as nat);
            },
            TypeKind::Union(ws) => {
                assert forall|i: int| 0 <= i < ws.len() implies descends_within(
                    f,
                    #[trigger] ws@[i],
                    (height(ty@) - 1) as nat,
                ) by {
                    lemma_non_growing_walk_ends(f, ws@[i]);
                    lemma_descends_more(f, ws@[i], height(ws@[i]@), (height(ty@) - 1) as nat);
                }
            },
            _ => {},
        }
    }
}

/// A walk that ends within some fuel ends within any more fuel.
pub proof fn lemma_descends_more<F: Fn(&Type) -> Type>(f: F, ty: Type, fuel: nat, more: nat)
    requires
        descends_within(f, ty, fuel),
        fuel <= more,
    ensures
        descends_within(f, ty, more),
    decreases fuel,
{
    assert forall|w: Type| #[trigger] call_ensures(f, (&ty,), w) implies match w.kind {
        TypeKind::List(item) => descends_within(f, *item, (more - 1) as nat),
        TypeKind::Dict(k, v) => descends_within(f, *k, (more - 1) as nat) && descends_within(
            f,
            *v,
            (more - 1) as nat,
        ),
        TypeKind::Union(ws) => forall|i: int|
            0 <= i < ws.len() ==> descends_within(f, #[trigger] ws@[i], (more - 1) as nat),
        _ => true,
    } by {
        match w.kind {
            TypeKind::List(item) => {
                lemma_descends_more(f, *item, (fuel - 1) as nat, (more - 1) as nat);
            },
            TypeKind::Dict(k, v) => {
                lemma_descends_more(f, *k, (fuel - 1) as nat, (more - 1) as nat);
                lemma_descends_more(f, *v, (fuel - 1) as nat, (more - 1) as nat);
            },
            TypeKind::Union(ws) => {
                assert forall|i: int| 0 <= i < ws.len() implies descends_within(
                    f,
                    #[trigger] ws@[i],
                    (more - 1) as nat,
                ) by {
                    lemma_descends_more(f, ws@[i], (fuel - 1) as nat, (more - 1) as nat);
                }
            },
            _ => {},
        }
    }
}

/// Walks `ty` with `walk_fn`, descending at most `fuel` steps.
fn walk_type_within<F: Fn(&Type) -> Type + Copy>(ty: &Type, walk_fn: F, Ghost(fuel): Ghost<nat>) -> (r:
    Type)
    requires
        forall|t: &Type| call_requires(walk_fn, (t,)),
        descends_within(walk_fn, *ty, fuel),
    ensures
        walked_within(walk_fn, *ty, r, fuel),
    decreases fuel,
{
    let w = walk_fn(ty);
    assert(call_ensures(walk_fn, (ty,), w));
    let ghost below = (fuel - 1) as nat;
    match w.kind {
        TypeKind::List(item) => {
            let ri = walk_type_within(&item, walk_fn, Ghost(below));
            Type { kind: TypeKind::List(Box::new(ri)) }
        },
        TypeKind::Dict(k, v) => {
            let rk = walk_type_within(&k, walk_fn, Ghost(below));
            let rv = walk_type_within(&v, walk_fn, Ghost(below));
            Type { kind: TypeKind::Dict(Box::new(rk), Box::new(rv)) }
        },
        TypeKind::Union(types) => {
            let mut out: Vec<Type> = Vec::new();
            let mut i: usize = 0;
            while i < types.len()
                invariant
                    below < fuel,
                    forall|t: &Type| call_requires(walk_fn, (t,)),
                    forall|k: int|
                        0 <= k < types.len() ==> descends_within(walk_fn, #[trigger] types@[k], below),
                    i <= types.len(),
                    out.len() == i,
                    forall|k: int|
                        0 <= k < i ==> walked_within(walk_fn, #[trigger] types@[k], out@[k], below),
                decreases types.len() - i,
            {
                let ri = walk_type_within(&types[i], walk_fn, Ghost(below));
                out.push(ri);
                i += 1;
            }
            Type { kind: TypeKind::Union(out) }
        },
        _ => w,
    }
}

/// Walk one type recursively and deal the type using the `walk_fn`
pub fn walk_type<F: Fn(&Type) -> Type + Copy>(ty: &Type, walk_fn: F) -> (r: Type)
    requires
        forall|t: &Type| call_requires(walk_fn, (t,)),
        walk_ends(walk_fn, *ty),
    ensures
        walked(walk_fn, *ty, r),
{
    let ghost fuel = choose|fuel: nat| descends_within(walk_fn, *ty, fuel);
    let r = walk_type_within(ty, walk_fn, Ghost(fuel));
    assert(walked_within(walk_fn, *ty, r, fuel));
    r
}

} // verus!
