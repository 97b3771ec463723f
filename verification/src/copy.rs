use vstd::prelude::*;

use crate::types::{
    canonical_float_bits, float_bits_nan, function_has_nan, has_nan, lemma_any_has_nan,
    lemma_any_param_has_nan, schema_has_nan, type_eq,
    group_view_lemmas, view_function, view_index_signature, view_params, view_seq, FunctionType, NumberMultiplierType,
    Parameter, SchemaIndexSignature, SchemaType, Type, TypeKind, TypeView,
};

verus! {

// ------------------------------------------------------------------
// Copies and structural equality.
// ------------------------------------------------------------------

broadcast use group_view_lemmas;


/// Copies a string; the copy has the same characters.
pub fn copy_string(s: &String) -> (r: String)
    ensures
        r@ == s@,
{
    s.clone()
}

fn copy_opt_string(s: &Option<String>) -> (r: Option<String>)
    ensures
        match (r, *s) {
            (Some(a), Some(b)) => a@ == b@,
            (None, None) => true,
            _ => false,
        },
{
    match s {
        Some(v) => Some(v.clone()),
        None => None,
    }
}

/// Whether two floats, given by their bits, are equal as `f64`: both zero, whatever
/// their signs, or the same bits that are not a NaN.
pub fn float_bits_eq(a: u64, b: u64) -> (r: bool)
    ensures
        r == (canonical_float_bits(a) == canonical_float_bits(b) && !float_bits_nan(
            canonical_float_bits(a),
        )),
{
    let mask: u64 = 0x7fff_ffff_ffff_ffffu64;
    let exponent: u64 = 0x7ff0_0000_0000_0000u64;
    let fraction: u64 = 0x000f_ffff_ffff_ffffu64;
    proof {
        assert(float_bits_nan(0) == false) by (bit_vector);
        assert(a & mask != 0 ==> a != 0) by (bit_vector);
        assert(b & mask != 0 ==> b != 0) by (bit_vector);
    }
    (a & mask == 0 && b & mask == 0) || (a == b && !(a & exponent == exponent && a & fraction != 0))
}

impl Clone for Type {
    fn clone(&self) -> (r: Self)
        ensures
            r@ == self@,
    {
        self.copy()
    }
}

impl Type {
    /// A copy of this type with the same value.
    pub fn copy(&self) -> (r: Type)
        ensures
            r@ == self@,
        decreases self,
    {
        let kind = match &self.kind {
            TypeKind::NoneType => TypeKind::NoneType,
            TypeKind::Any => TypeKind::Any,
            TypeKind::Bool => TypeKind::Bool,
            TypeKind::BoolLit(b) => TypeKind::BoolLit(*b),
            TypeKind::Int => TypeKind::Int,
            TypeKind::IntLit(v) => TypeKind::IntLit(*v),
            TypeKind::Float => TypeKind::Float,
            TypeKind::FloatLit(v) => TypeKind::FloatLit(*v),
            TypeKind::Str => TypeKind::Str,
            TypeKind::StrLit(v) => TypeKind::StrLit(v.clone()),
            TypeKind::List(item) => TypeKind::List(Box::new(item.copy())),
            TypeKind::Dict(k, v) => TypeKind::Dict(Box::new(k.copy()), Box::new(v.copy())),
            TypeKind::Union(types) => TypeKind::Union(copy_types(types)),
            TypeKind::Schema(st) => TypeKind::Schema(st.copy()),
            TypeKind::NumberMultiplier(n) => TypeKind::NumberMultiplier(
                NumberMultiplierType {
                    raw_value: n.raw_value,
                    binary_suffix: n.binary_suffix.clone(),
                    is_literal: n.is_literal,
                },
            ),
            TypeKind::Function(f) => TypeKind::Function(f.copy()),
            TypeKind::Void => TypeKind::Void,
            TypeKind::Module(p) => TypeKind::Module(p.clone()),
            TypeKind::Named(n) => TypeKind::Named(n.clone()),
        };
        Type { kind }
    }

    /// Whether two types are equal as the language compares them: structurally, with
    /// float literals compared as `f64`.
    pub fn same(&self, other: &Type) -> (r: bool)
        ensures
            r == type_eq(self@, other@),
        decreases self,
    {
        match (&self.kind, &other.kind) {
            (TypeKind::NoneType, TypeKind::NoneType) => true,
            (TypeKind::Any, TypeKind::Any) => true,
            (TypeKind::Bool, TypeKind::Bool) => true,
            (TypeKind::BoolLit(a), TypeKind::BoolLit(b)) => *a == *b,
            (TypeKind::Int, TypeKind::Int) => true,
            (TypeKind::IntLit(a), TypeKind::IntLit(b)) => *a == *b,
            (TypeKind::Float, TypeKind::Float) => true,
            (TypeKind::FloatLit(a), TypeKind::FloatLit(b)) => float_bits_eq(*a, *b),
            (TypeKind::Str, TypeKind::Str) => true,
            (TypeKind::StrLit(a), TypeKind::StrLit(b)) => *a == *b,
            (TypeKind::List(a), TypeKind::List(b)) => a.same(b),
            (TypeKind::Dict(ak, av), TypeKind::Dict(bk, bv)) => ak.same(bk) && av.same(bv),
            (TypeKind::Union(a), TypeKind::Union(b)) => same_types(a, b),
            (TypeKind::Schema(a), TypeKind::Schema(b)) => a.same(b),
            (TypeKind::NumberMultiplier(a), TypeKind::NumberMultiplier(b)) => {
                a.raw_value == b.raw_value && a.binary_suffix == b.binary_suffix && a.is_literal
                    == b.is_literal
            },
            (TypeKind::Function(a), TypeKind::Function(b)) => a.same(b),
            (TypeKind::Void, TypeKind::Void) => true,
            (TypeKind::Module(a), TypeKind::Module(b)) => *a == *b,
            (TypeKind::Named(a), TypeKind::Named(b)) => *a == *b,
            _ => false,
        }
    }
}

/// Copies a sequence of types, element by element.
pub fn copy_types(types: &Vec<Type>) -> (r: Vec<Type>)
    ensures
        view_seq(r@) == view_seq(types@),
    decreases types,
{
    let mut out: Vec<Type> = Vec::new();
    let mut i: usize = 0;
    while i < types.len()
        invariant
            i <= types.len(),
            out.len() == i,
            forall|j: int| 0 <= j < i ==> #[trigger] out@[j]@ == types@[j]@,
        decreases types.len() - i,
    {
        out.push(types[i].copy());
        i += 1;
    }
    assert(view_seq(out@) =~= view_seq(types@));
    out
}

/// Whether two sequences of types are element-wise equal as the language compares types.
pub fn same_types(a: &Vec<Type>, b: &Vec<Type>) -> (r: bool)
    ensures
        r == type_eq(TypeView::Union(view_seq(a@)), TypeView::Union(view_seq(b@))),
    decreases a,
{
    if a.len() != b.len() {
        assert(view_seq(a@).len() != view_seq(b@).len());
        return false;
    }
    let mut i: usize = 0;
    while i < a.len()
        invariant
            i <= a.len(),
            a.len() == b.len(),
            forall|j: int| 0 <= j < i ==> #[trigger] a@[j]@ == b@[j]@ && !has_nan(a@[j]@),
        decreases a.len() - i,
    {
        if !a[i].same(&b[i]) {
            let ghost va = view_seq(a@);
            let ghost vb = view_seq(b@);
            assert(va[i as int] == a@[i as int]@ && vb[i as int] == b@[i as int]@);
            proof {
                if has_nan(va[i as int]) {
                    lemma_any_has_nan(va, va.len() as int);
                    assert(has_nan(TypeView::Union(va)));
                } else {
                    assert(va[i as int] != vb[i as int]);
                    assert(va != vb);
                }
            }
            return false;
        }
        i += 1;
    }
    assert(view_seq(a@) =~= view_seq(b@));
    assert(!has_nan(TypeView::Union(view_seq(a@)))) by {
        lemma_any_has_nan(view_seq(a@), view_seq(a@).len() as int);
        assert forall|j: int| 0 <= j < view_seq(a@).len() implies !has_nan(
            #[trigger] view_seq(a@)[j],
        ) by {
            assert(view_seq(a@)[j] == a@[j]@);
        }
    }
    true
}

fn copy_opt_type(t: &Option<Box<Type>>) -> (r: Option<Box<Type>>)
    ensures
        match (r, *t) {
            (Some(a), Some(b)) => a@ == b@,
            (None, None) => true,
            _ => false,
        },
    decreases t,
{
    match t {
        Some(b) => Some(Box::new(b.copy())),
        None => None,
    }
}

fn same_opt_type(a: &Option<Box<Type>>, b: &Option<Box<Type>>) -> (r: bool)
    ensures
        r == match (*a, *b) {
            (Some(x), Some(y)) => type_eq(x@, y@),
            (None, None) => true,
            _ => false,
        },
    decreases a,
{
    match (a, b) {
        (Some(x), Some(y)) => x.same(y),
        (None, None) => true,
        _ => false,
    }
}

fn copy_index_signature(sig: &SchemaIndexSignature) -> (r: SchemaIndexSignature)
    ensures
        view_index_signature(r) == view_index_signature(*sig),
    decreases sig,
{
    SchemaIndexSignature {
        key_name: copy_opt_string(&sig.key_name),
        key_ty: Box::new(sig.key_ty.copy()),
        val_ty: Box::new(sig.val_ty.copy()),
        any_other: sig.any_other,
    }
}

fn same_index_signature(a: &SchemaIndexSignature, b: &SchemaIndexSignature) -> (r: bool)
    ensures
        r == (view_index_signature(*a) == view_index_signature(*b) && !has_nan(
            view_index_signature(*a).key_ty,
        ) && !has_nan(view_index_signature(*a).val_ty)),
    decreases a,
{
    let names_same = match (&a.key_name, &b.key_name) {
        (Some(x), Some(y)) => *x == *y,
        (None, None) => true,
        _ => false,
    };
    names_same && a.key_ty.same(&b.key_ty) && a.val_ty.same(&b.val_ty) && a.any_other == b.any_other
}

impl SchemaType {
    /// A copy of this schema type with the same value.
    pub fn copy(&self) -> (r: SchemaType)
        ensures
            r@ == self@,
        decreases self,
    {
        let base = match &self.base {
            Some(b) => Some(Box::new(b.copy())),
            None => None,
        };
        let index_signature = match &self.index_signature {
            Some(sig) => Some(Box::new(copy_index_signature(sig))),
            None => None,
        };
        SchemaType {
            name: self.name.clone(),
            pkgpath: self.pkgpath.clone(),
            filename: self.filename.clone(),
            doc: self.doc.clone(),
            is_instance: self.is_instance,
            is_mixin: self.is_mixin,
            is_protocol: self.is_protocol,
            is_rule: self.is_rule,
            base,
            index_signature,
        }
    }

    /// Whether two schema types are equal as the language compares them.
    pub fn same(&self, other: &SchemaType) -> (r: bool)
        ensures
            r == (self@ == other@ && !schema_has_nan(self@)),
        decreases self,
    {
        if !(self.name == other.name && self.pkgpath == other.pkgpath && self.filename
            == other.filename && self.doc == other.doc && self.is_instance == other.is_instance
            && self.is_mixin == other.is_mixin && self.is_protocol == other.is_protocol
            && self.is_rule == other.is_rule) {
            return false;
        }
        let base_same = match (&self.base, &other.base) {
            (Some(a), Some(b)) => a.same(b),
            (None, None) => true,
            _ => false,
        };
        if !base_same {
            return false;
        }
        match (&self.index_signature, &other.index_signature) {
            (Some(a), Some(b)) => same_index_signature(a, b),
            (None, None) => true,
            _ => false,
        }
    }
}

impl FunctionType {
    /// A copy of this function type with the same value.
    pub fn copy(&self) -> (r: FunctionType)
        ensures
            view_function(r) == view_function(*self),
        decreases self,
    {
        let mut params: Vec<Parameter> = Vec::new();
        let mut i: usize = 0;
        while i < self.params.len()
            invariant
                i <= self.params.len(),
                params.len() == i,
                forall|j: int|
                    0 <= j < i ==> #[trigger] params@[j].name@ == self.params@[j].name@
                        && params@[j].ty@ == self.params@[j].ty@ && params@[j].has_default
                        == self.params@[j].has_default,
            decreases self.params.len() - i,
        {
            let p = &self.params[i];
            params.push(
                Parameter { name: p.name.clone(), ty: Box::new(p.ty.copy()), has_default: p.has_default },
            );
            i += 1;
        }
        assert(view_params(params@) =~= view_params(self.params@));
        FunctionType {
            doc: self.doc.clone(),
            params,
            self_ty: copy_opt_type(&self.self_ty),
            return_ty: Box::new(self.return_ty.copy()),
            is_variadic: self.is_variadic,
            kw_only_index: self.kw_only_index,
        }
    }

    /// Whether two function types are equal as the language compares them.
    pub fn same(&self, other: &FunctionType) -> (r: bool)
        ensures
            r == (view_function(*self) == view_function(*other) && !function_has_nan(
                view_function(*self),
            )),
        decreases self,
    {
        if !(self.doc == other.doc && self.is_variadic == other.is_variadic) {
            return false;
        }
        let kw_same = match (self.kw_only_index, other.kw_only_index) {
            (Some(a), Some(b)) => a == b,
            (None, None) => true,
            _ => false,
        };
        if !kw_same {
            return false;
        }
        if !same_opt_type(&self.self_ty, &other.self_ty) || !self.return_ty.same(&other.return_ty) {
            return false;
        }
        if self.params.len() != other.params.len() {
            assert(view_params(self.params@).len() != view_params(other.params@).len());
            return false;
        }
        let mut i: usize = 0;
        while i < self.params.len()
            invariant
                i <= self.params.len(),
                self.params.len() == other.params.len(),
                forall|j: int|
                    0 <= j < i ==> #[trigger] view_params(self.params@)[j] == view_params(
                        other.params@,
                    )[j] && !has_nan(view_params(self.params@)[j].ty),
            decreases self.params.len() - i,
        {
            let p = &self.params[i];
            let q = &other.params[i];
            if !(p.name == q.name && p.has_default == q.has_default && p.ty.same(&q.ty)) {
                proof {
                    let ps = view_params(self.params@);
                    if has_nan(ps[i as int].ty) {
                        lemma_any_param_has_nan(ps, ps.len() as int);
                    } else {
                        assert(ps[i as int] != view_params(other.params@)[i as int]);
                        assert(ps != view_params(other.params@));
                    }
                }
                return false;
            }
            i += 1;
        }
        assert(view_params(self.params@) =~= view_params(other.params@));
        proof {
            lemma_any_param_has_nan(view_params(self.params@), view_params(self.params@).len() as int);
        }
        true
    }
}
} // verus!
