use vstd::prelude::*;

use crate::types::{
    group_view_lemmas, main_pkg, schema_ty_str_with_pkgpath, seq_contains, view_params, view_seq,
    FunctionType, FunctionView, Parameter, SchemaType, Type, TypeKind, TypeView,
};

verus! {

broadcast use group_view_lemmas;

// ------------------------------------------------------------------
// Constructors.
// ------------------------------------------------------------------

impl Type {
    pub fn any_ty() -> (r: Type)
        ensures
            r@ == TypeView::Any,
    {
        Type { kind: TypeKind::Any }
    }

    pub fn none_ty() -> (r: Type)
        ensures
            r@ == TypeView::NoneType,
    {
        Type { kind: TypeKind::NoneType }
    }

    pub fn void_ty() -> (r: Type)
        ensures
            r@ == TypeView::Void,
    {
        Type { kind: TypeKind::Void }
    }

    pub fn bool_ty() -> (r: Type)
        ensures
            r@ == TypeView::Bool,
    {
        Type { kind: TypeKind::Bool }
    }

    pub fn int_ty() -> (r: Type)
        ensures
            r@ == TypeView::Int,
    {
        Type { kind: TypeKind::Int }
    }

    pub fn float_ty() -> (r: Type)
        ensures
            r@ == TypeView::Float,
    {
        Type { kind: TypeKind::Float }
    }

    pub fn str_ty() -> (r: Type)
        ensures
            r@ == TypeView::Str,
    {
        Type { kind: TypeKind::Str }
    }

    pub fn bool_lit(v: bool) -> (r: Type)
        ensures
            r@ == TypeView::BoolLit(v),
    {
        Type { kind: TypeKind::BoolLit(v) }
    }

    pub fn int_lit(v: i64) -> (r: Type)
        ensures
            r@ == TypeView::IntLit(v as int),
    {
        Type { kind: TypeKind::IntLit(v) }
    }

    /// A float literal type, given the bit pattern of the value.
    pub fn float_lit_bits(bits: u64) -> (r: Type)
        ensures
            r@ == TypeView::FloatLit(crate::types::canonical_float_bits(bits)),
    {
        Type { kind: TypeKind::FloatLit(bits) }
    }

    pub fn str_lit(v: &str) -> (r: Type)
        ensures
            r@ == TypeView::StrLit(v@),
    {
        Type { kind: TypeKind::StrLit(String::from_str(v)) }
    }

    pub fn list(item: Type) -> (r: Type)
        ensures
            r@ == TypeView::List(Box::new(item@)),
    {
        Type { kind: TypeKind::List(Box::new(item)) }
    }

    pub fn dict(key: Type, val: Type) -> (r: Type)
        ensures
            r@ == TypeView::Dict(Box::new(key@), Box::new(val@)),
    {
        Type { kind: TypeKind::Dict(Box::new(key), Box::new(val)) }
    }

    /// The union of the given types, in the given order, with nothing merged.
    pub fn union(types: Vec<Type>) -> (r: Type)
        ensures
            r@ == TypeView::Union(view_seq(types@)),
    {
        Type { kind: TypeKind::Union(types) }
    }

    /// A function type.
    pub fn function(
        self_ty: Option<Type>,
        return_ty: Type,
        params: Vec<Parameter>,
        doc: &str,
        is_variadic: bool,
        kw_only_index: Option<usize>,
    ) -> (r: Type)
        ensures
            r@ == TypeView::Function(
                FunctionView {
                    doc: doc@,
                    params: view_params(params@),
                    self_ty: match self_ty {
                        Some(t) => Some(Box::new(t@)),
                        None => None,
                    },
                    return_ty: Box::new(return_ty@),
                    is_variadic,
                    kw_only_index: match kw_only_index {
                        Some(i) => Some(i as nat),
                        None => None,
                    },
                },
            ),
    {
        let self_ty = match self_ty {
            Some(t) => Some(Box::new(t)),
            None => None,
        };
        let f = FunctionType {
            doc: String::from_str(doc),
            params,
            self_ty,
            return_ty: Box::new(return_ty),
            is_variadic,
            kw_only_index,
        };
        assert(crate::types::view_function(f).doc == doc@);
        Type { kind: TypeKind::Function(f) }
    }

    pub fn schema(s: SchemaType) -> (r: Type)
        ensures
            r@ == TypeView::Schema(s@),
    {
        Type { kind: TypeKind::Schema(s) }
    }

    // ------------------------------------------------------------------
    // Kind tests.
    // ------------------------------------------------------------------

    pub fn is_any(&self) -> (b: bool)
        ensures
            b == self@.is_any(),
    {
        matches!(self.kind, TypeKind::Any)
    }

    pub fn is_none(&self) -> (b: bool)
        ensures
            b == self@.is_none(),
    {
        matches!(self.kind, TypeKind::NoneType)
    }

    pub fn is_void(&self) -> (b: bool)
        ensures
            b == self@.is_void(),
    {
        matches!(self.kind, TypeKind::Void)
    }

    pub fn is_union(&self) -> (b: bool)
        ensures
            b == self@.is_union(),
    {
        matches!(self.kind, TypeKind::Union(_))
    }

    pub fn is_schema(&self) -> (b: bool)
        ensures
            b == self@.is_schema(),
    {
        matches!(self.kind, TypeKind::Schema(_))
    }

    pub fn is_list(&self) -> (b: bool)
        ensures
            b == self@.is_list(),
    {
        matches!(self.kind, TypeKind::List(_))
    }

    pub fn is_dict(&self) -> (b: bool)
        ensures
            b == self@.is_dict(),
    {
        matches!(self.kind, TypeKind::Dict(_, _))
    }

    pub fn is_number_multiplier(&self) -> (b: bool)
        ensures
            b == self@.is_number_multiplier(),
    {
        matches!(self.kind, TypeKind::NumberMultiplier(_))
    }

    pub fn is_int(&self) -> (b: bool)
        ensures
            b == self@.is_int(),
    {
        matches!(self.kind, TypeKind::Int | TypeKind::IntLit(_))
    }

    pub fn is_float(&self) -> (b: bool)
        ensures
            b == self@.is_float(),
    {
        matches!(self.kind, TypeKind::Float | TypeKind::FloatLit(_))
    }

    pub fn is_str(&self) -> (b: bool)
        ensures
            b == self@.is_str(),
    {
        matches!(self.kind, TypeKind::Str | TypeKind::StrLit(_))
    }

    pub fn is_bool(&self) -> (b: bool)
        ensures
            b == self@.is_bool(),
    {
        matches!(self.kind, TypeKind::Bool | TypeKind::BoolLit(_))
    }

    pub fn is_literal(&self) -> (b: bool)
        ensures
            b == self@.is_literal(),
    {
        matches!(
            self.kind,
            TypeKind::BoolLit(_) | TypeKind::IntLit(_) | TypeKind::FloatLit(_) | TypeKind::StrLit(_)
        )
    }

    pub fn is_primitive(&self) -> (b: bool)
        ensures
            b == self@.is_primitive(),
    {
        matches!(self.kind, TypeKind::Bool | TypeKind::Int | TypeKind::Float | TypeKind::Str)
    }

    pub fn is_assignable_type(&self) -> (b: bool)
        ensures
            b == self@.is_assignable_type(),
    {
        !matches!(self.kind, TypeKind::Void | TypeKind::Module(_) | TypeKind::Function(_))
    }
}

// ------------------------------------------------------------------
// Text.
// ------------------------------------------------------------------

/// The characters of a string, in order.
pub fn chars_of(s: &str) -> (r: Vec<char>)
    ensures
        r@ == s@,
{
    let n = s.unicode_len();
    let mut out: Vec<char> = Vec::new();
    let mut i: usize = 0;
    while i < n
        invariant
            n == s@.len(),
            i <= n,
            out@ == s@.subrange(0, i as int),
        decreases n - i,
    {
        out.push(s.get_char(i));
        i += 1;
    }
    assert(out@ =~= s@);
    out
}

/// Whether `needle` occurs in `hay` as a contiguous run of characters.
pub fn contains_text(hay: &str, needle: &str) -> (r: bool)
    ensures
        r == seq_contains(hay@, needle@),
{
    let h = chars_of(hay);
    let n = chars_of(needle);
    if n.len() > h.len() {
        return false;
    }
    let last = h.len() - n.len();
    let mut i: usize = 0;
    loop
        invariant
            h@ == hay@,
            n@ == needle@,
            last == h.len() - n.len(),
            n.len() <= h.len(),
            i <= last,
            forall|k: int| 0 <= k < i ==> #[trigger] hay@.subrange(k, k + needle@.len()) != needle@,
        decreases last - i,
    {
        let mut j: usize = 0;
        let mut matched = true;
        while matched && j < n.len()
            invariant
                h@ == hay@,
                n@ == needle@,
                i <= last,
                last == h.len() - n.len(),
                j <= n.len(),
                matched ==> forall|m: int| 0 <= m < j ==> hay@[i + m] == needle@[m],
                !matched ==> hay@.subrange(i as int, i + needle@.len()) != needle@,
            decreases n.len() - j + (if matched { 1int } else { 0int }),
        {
            if h[i + j] != n[j] {
                assert(hay@.subrange(i as int, i + needle@.len())[j as int] != needle@[j as int]);
                matched = false;
            } else {
                j += 1;
            }
        }
        if matched {
            assert(hay@.subrange(i as int, i + needle@.len()) =~= needle@);
            return true;
        }
        if i == last {
            assert forall|k: int| 0 <= k <= hay@.len() - needle@.len() implies #[trigger] hay@.subrange(
                k,
                k + needle@.len(),
            ) != needle@ by {
                assert(k < i || k == i);
            }
            return false;
        }
        i += 1;
    }
}

/// Whether two strings have the same characters.
pub fn text_eq(a: &str, b: &str) -> (r: bool)
    ensures
        r == (a@ == b@),
{
    let x = chars_of(a);
    let y = chars_of(b);
    if x.len() != y.len() {
        return false;
    }
    let mut i: usize = 0;
    while i < x.len()
        invariant
            x@ == a@,
            y@ == b@,
            x.len() == y.len(),
            i <= x.len(),
            forall|k: int| 0 <= k < i ==> x@[k] == y@[k],
        decreases x.len() - i,
    {
        if x[i] != y[i] {
            return false;
        }
        i += 1;
    }
    assert(x@ =~= y@);
    true
}

impl SchemaType {
    /// The schema's name qualified by its package: `@pkg.Name`, or the bare name in the main package.
    pub fn ty_str_with_pkgpath(&self) -> (r: String)
        ensures
            r@ == schema_ty_str_with_pkgpath(self@),
    {
        let main = "__main__";
        proof {
            reveal_strlit("__main__");
        }
        assert(main@ == main_pkg());
        if self.pkgpath.unicode_len() == 0 || text_eq(self.pkgpath.as_str(), main) {
            self.name.clone()
        } else {
            let mut s = String::from_str("@");
            proof {
                reveal_strlit("@");
                reveal_strlit(".");
            }
            s.append(self.pkgpath.as_str());
            s.append(".");
            s.append(self.name.as_str());
            assert(s@ =~= seq!['@'] + self.pkgpath@ + seq!['.'] + self.name@);
            s
        }
    }
}

} // verus!
