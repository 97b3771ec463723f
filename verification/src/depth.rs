use vstd::prelude::*;

use crate::types::{group_view_lemmas, view_seq, Type, TypeView};

verus! {

/// The depth of a type: one more than its deepest list item, dict key or value, or
/// union member.
pub open spec fn height(t: TypeView) -> nat
    decreases t, 0nat,
{
    match t {
        TypeView::List(item) => 1 + height(*item),
        TypeView::Dict(k, v) => 1 + if height(*k) >= height(*v) {
            height(*k)
        } else {
            height(*v)
        },
        TypeView::Union(ts) => 1 + max_height(ts, ts.len()),
        _ => 1,
    }
}

/// The greatest depth among the first `n` types of `ts`, or 0.
pub open spec fn max_height(ts: Seq<TypeView>, n: nat) -> nat
    decreases ts, n,
{
    if 0 < n <= ts.len() {
        let a = max_height(ts, (n - 1) as nat);
        let b = height(ts[n - 1]);
        if a >= b {
            a
        } else {
            b
        }
    } else {
        0
    }
}

pub proof fn lemma_max_height(ts: Seq<TypeView>, n: nat, i: int)
    requires
        0 <= i < n <= ts.len(),
    ensures
        height(ts[i]) <= max_height(ts, n),
    decreases n,
{
    if i < n - 1 {
        lemma_max_height(ts, (n - 1) as nat, i);
    }
}

/// A member of a union is less deep than the union.
pub broadcast proof fn lemma_member_height(ts: Seq<Type>, i: int)
    requires
        0 <= i < ts.len(),
    ensures
        #[trigger] height(ts[i]@) < height(TypeView::Union(view_seq(ts))),
{
    broadcast use group_view_lemmas;

    lemma_max_height(view_seq(ts), ts.len(), i);
}

} // verus!
