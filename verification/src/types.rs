use vstd::prelude::*;

verus! {

/// A KCL type: a kind, with its payload.
#[derive(Debug, PartialEq)]
pub struct Type {
    pub kind: TypeKind,
}

/// The kinds of KCL types.
#[derive(Debug, PartialEq)]
pub enum TypeKind {
    NoneType,
    Any,
    Bool,
    BoolLit(bool),
    Int,
    IntLit(i64),
    Float,
    /// A float literal type, held by the IEEE-754 bit pattern of its value.
    FloatLit(u64),
    Str,
    StrLit(String),
    List(Box<Type>),
    Dict(Box<Type>, Box<Type>),
    Union(Vec<Type>),
    Schema(SchemaType),
    NumberMultiplier(NumberMultiplierType),
    Function(FunctionType),
    Void,
    /// A module type, held by its package path.
    Module(String),
    Named(String),
}

/// A schema type: its name, package, documentation, flags, base schema and index signature.
#[derive(Debug, PartialEq)]
pub struct SchemaType {
    pub name: String,
    pub pkgpath: String,
    pub filename: String,
    pub doc: String,
    pub is_instance: bool,
    pub is_mixin: bool,
    pub is_protocol: bool,
    pub is_rule: bool,
    pub base: Option<Box<SchemaType>>,
    pub index_signature: Option<Box<SchemaIndexSignature>>,
}

/// The index signature of a schema, such as `[key: str]: int`.
#[derive(Debug, PartialEq)]
pub struct SchemaIndexSignature {
    pub key_name: Option<String>,
    pub key_ty: Box<Type>,
    pub val_ty: Box<Type>,
    pub any_other: bool,
}

/// A number multiplier type such as `1Ki`: its raw value, unit suffix, and whether it is a literal.
#[derive(Debug, PartialEq)]
pub struct NumberMultiplierType {
    pub raw_value: i64,
    pub binary_suffix: String,
    pub is_literal: bool,
}

/// A function type.
#[derive(Debug, PartialEq)]
pub struct FunctionType {
    pub doc: String,
    pub params: Vec<Parameter>,
    pub self_ty: Option<Box<Type>>,
    pub return_ty: Box<Type>,
    pub is_variadic: bool,
    pub kw_only_index: Option<usize>,
}

/// A function parameter.
#[derive(Debug, PartialEq)]
pub struct Parameter {
    pub name: String,
    pub ty: Box<Type>,
    pub has_default: bool,
}

// ------------------------------------------------------------------
// The mathematical model of types.
// ------------------------------------------------------------------

/// The mathematical value of a type: strings as character sequences, unions as sequences.
pub enum TypeView {
    NoneType,
    Any,
    Bool,
    BoolLit(bool),
    Int,
    IntLit(int),
    Float,
    /// The bit pattern of the literal's value, with `-0.0` written as `0.0`.
    FloatLit(u64),
    Str,
    StrLit(Seq<char>),
    List(Box<TypeView>),
    Dict(Box<TypeView>, Box<TypeView>),
    Union(Seq<TypeView>),
    Schema(SchemaView),
    NumberMultiplier(int, Seq<char>, bool),
    Function(FunctionView),
    Void,
    Module(Seq<char>),
    Named(Seq<char>),
}

/// The mathematical value of a schema type.
pub struct SchemaView {
    pub name: Seq<char>,
    pub pkgpath: Seq<char>,
    pub filename: Seq<char>,
    pub doc: Seq<char>,
    pub is_instance: bool,
    pub is_mixin: bool,
    pub is_protocol: bool,
    pub is_rule: bool,
    pub base: Option<Box<SchemaView>>,
    pub index_signature: Option<Box<IndexSignatureView>>,
}

/// The mathematical value of a schema index signature.
pub struct IndexSignatureView {
    pub key_name: Option<Seq<char>>,
    pub key_ty: TypeView,
    pub val_ty: TypeView,
    pub any_other: bool,
}

/// The mathematical value of a function type.
pub struct FunctionView {
    pub doc: Seq<char>,
    pub params: Seq<ParameterView>,
    pub self_ty: Option<Box<TypeView>>,
    pub return_ty: Box<TypeView>,
    pub is_variadic: bool,
    pub kw_only_index: Option<nat>,
}

/// The mathematical value of a function parameter.
pub struct ParameterView {
    pub name: Seq<char>,
    pub ty: TypeView,
    pub has_default: bool,
}

/// The bits of a float that equals zero (`0.0` or `-0.0`): all but the sign are clear.
pub open spec fn float_bits_zero(bits: u64) -> bool {
    bits & 0x7fff_ffff_ffff_ffffu64 == 0
}

/// The bits of a NaN: the exponent all ones and the fraction not zero.
pub open spec fn float_bits_nan(bits: u64) -> bool {
    &&& bits & 0x7ff0_0000_0000_0000u64 == 0x7ff0_0000_0000_0000u64
    &&& bits & 0x000f_ffff_ffff_ffffu64 != 0
}

/// The bits of a float with `-0.0` written as `0.0`: two floats that are not NaN are
/// equal exactly when these are.
pub open spec fn canonical_float_bits(bits: u64) -> u64 {
    if float_bits_zero(bits) {
        0
    } else {
        bits
    }
}

/// Whether a type holds a NaN float literal, itself or anywhere inside it.
pub open spec fn has_nan(t: TypeView) -> bool
    decreases t, 0int,
{
    match t {
        TypeView::FloatLit(bits) => float_bits_nan(bits),
        TypeView::List(item) => has_nan(*item),
        TypeView::Dict(k, v) => has_nan(*k) || has_nan(*v),
        TypeView::Union(ts) => any_has_nan(ts, ts.len() as int),
        TypeView::Schema(s) => schema_has_nan(s),
        TypeView::Function(f) => function_has_nan(f),
        _ => false,
    }
}

/// Whether one of the first `n` types of `ts` holds a NaN float literal.
pub open spec fn any_has_nan(ts: Seq<TypeView>, n: int) -> bool
    decreases ts, n,
{
    if 0 < n <= ts.len() {
        any_has_nan(ts, n - 1) || has_nan(ts[n - 1])
    } else {
        false
    }
}

/// Whether a schema type holds a NaN float literal, in its index signature or a base's.
pub open spec fn schema_has_nan(s: SchemaView) -> bool
    decreases s, 0int,
{
    (match s.base {
        Some(b) => schema_has_nan(*b),
        None => false,
    }) || (match s.index_signature {
        Some(sig) => has_nan(sig.key_ty) || has_nan(sig.val_ty),
        None => false,
    })
}

/// Whether one of the first `n` parameters of `ps` has a type holding a NaN float literal.
pub open spec fn any_param_has_nan(ps: Seq<ParameterView>, n: int) -> bool
    decreases ps, n,
{
    if 0 < n <= ps.len() {
        any_param_has_nan(ps, n - 1) || has_nan(ps[n - 1].ty)
    } else {
        false
    }
}

/// Whether a function type holds a NaN float literal, in a parameter, its receiver or
/// its result.
pub open spec fn function_has_nan(f: FunctionView) -> bool
    decreases f, 0int,
{
    any_param_has_nan(f.params, f.params.len() as int) || (match f.self_ty {
        Some(t) => has_nan(*t),
        None => false,
    }) || has_nan(*f.return_ty)
}

/// One of the first `n` types holds a NaN exactly when some such type does.
pub proof fn lemma_any_has_nan(ts: Seq<TypeView>, n: int)
    requires
        0 <= n <= ts.len(),
    ensures
        any_has_nan(ts, n) <==> exists|i: int| 0 <= i < n && has_nan(#[trigger] ts[i]),
    decreases n,
{
    if n > 0 {
        lemma_any_has_nan(ts, n - 1);
        if has_nan(ts[n - 1]) {
            assert(0 <= n - 1 < n && has_nan(ts[n - 1]));
        }
    }
}

/// One of the first `n` parameters has a type holding a NaN exactly when some such does.
pub proof fn lemma_any_param_has_nan(ps: Seq<ParameterView>, n: int)
    requires
        0 <= n <= ps.len(),
    ensures
        any_param_has_nan(ps, n) <==> exists|i: int| 0 <= i < n && has_nan(#[trigger] ps[i].ty),
    decreases n,
{
    if n > 0 {
        lemma_any_param_has_nan(ps, n - 1);
        if has_nan(ps[n - 1].ty) {
            assert(0 <= n - 1 < n && has_nan(ps[n - 1].ty));
        }
    }
}

/// Whether two types are equal as the language compares them: float literals by their
/// values as `f64`, so `0.0` equals `-0.0` and nothing that holds a NaN equals anything.
pub open spec fn type_eq(a: TypeView, b: TypeView) -> bool {
    a == b && !has_nan(a)
}

/// Whether `s` holds a type equal to `t`, as the language compares them.
pub open spec fn contains_eq(s: Seq<TypeView>, t: TypeView) -> bool {
    exists|i: int| 0 <= i < s.len() && type_eq(#[trigger] s[i], t)
}

pub open spec fn view_kind(k: TypeKind) -> TypeView
    decreases k,
{
    match k {
        TypeKind::NoneType => TypeView::NoneType,
        TypeKind::Any => TypeView::Any,
        TypeKind::Bool => TypeView::Bool,
        TypeKind::BoolLit(b) => TypeView::BoolLit(b),
        TypeKind::Int => TypeView::Int,
        TypeKind::IntLit(v) => TypeView::IntLit(v as int),
        TypeKind::Float => TypeView::Float,
        TypeKind::FloatLit(bits) => TypeView::FloatLit(canonical_float_bits(bits)),
        TypeKind::Str => TypeView::Str,
        TypeKind::StrLit(s) => TypeView::StrLit(s@),
        TypeKind::List(item) => TypeView::List(Box::new(view_kind(item.kind))),
        TypeKind::Dict(key, val) => TypeView::Dict(
            Box::new(view_kind(key.kind)),
            Box::new(view_kind(val.kind)),
        ),
        TypeKind::Union(types) => TypeView::Union(view_seq(types@)),
        TypeKind::Schema(s) => TypeView::Schema(view_schema(s)),
        TypeKind::NumberMultiplier(n) => TypeView::NumberMultiplier(
            n.raw_value as int,
            n.binary_suffix@,
            n.is_literal,
        ),
        TypeKind::Function(f) => TypeView::Function(view_function(f)),
        TypeKind::Void => TypeView::Void,
        TypeKind::Module(p) => TypeView::Module(p@),
        TypeKind::Named(n) => TypeView::Named(n@),
    }
}

pub open spec fn view_seq(s: Seq<Type>) -> Seq<TypeView>
    decreases s,
{
    if s.len() == 0 {
        Seq::empty()
    } else {
        view_seq(s.subrange(0, s.len() - 1)).push(view_kind(s[s.len() - 1].kind))
    }
}

pub open spec fn view_schema(s: SchemaType) -> SchemaView
    decreases s,
{
    SchemaView {
        name: s.name@,
        pkgpath: s.pkgpath@,
        filename: s.filename@,
        doc: s.doc@,
        is_instance: s.is_instance,
        is_mixin: s.is_mixin,
        is_protocol: s.is_protocol,
        is_rule: s.is_rule,
        base: match s.base {
            Some(b) => Some(Box::new(view_schema(*b))),
            None => None,
        },
        index_signature: match s.index_signature {
            Some(sig) => Some(Box::new(view_index_signature(*sig))),
            None => None,
        },
    }
}

pub open spec fn view_index_signature(sig: SchemaIndexSignature) -> IndexSignatureView
    decreases sig,
{
    IndexSignatureView {
        key_name: match sig.key_name {
            Some(n) => Some(n@),
            None => None,
        },
        key_ty: view_kind(sig.key_ty.kind),
        val_ty: view_kind(sig.val_ty.kind),
        any_other: sig.any_other,
    }
}

pub open spec fn view_function(f: FunctionType) -> FunctionView
    decreases f,
{
    FunctionView {
        doc: f.doc@,
        params: view_params(f.params@),
        self_ty: match f.self_ty {
            Some(t) => Some(Box::new(view_kind(t.kind))),
            None => None,
        },
        return_ty: Box::new(view_kind(f.return_ty.kind)),
        is_variadic: f.is_variadic,
        kw_only_index: match f.kw_only_index {
            Some(i) => Some(i as nat),
            None => None,
        },
    }
}

pub open spec fn view_params(s: Seq<Parameter>) -> Seq<ParameterView>
    decreases s,
{
    if s.len() == 0 {
        Seq::empty()
    } else {
        view_params(s.subrange(0, s.len() - 1)).push(
            ParameterView {
                name: s[s.len() - 1].name@,
                ty: view_kind(s[s.len() - 1].ty.kind),
                has_default: s[s.len() - 1].has_default,
            },
        )
    }
}

/// The view of a sequence of types has one view per type, in order.
pub broadcast proof fn lemma_view_seq_len(s: Seq<Type>)
    ensures
        #[trigger] view_seq(s).len() == s.len(),
    decreases s.len(),
{
    if s.len() > 0 {
        lemma_view_seq_len(s.subrange(0, s.len() - 1));
    }
}

/// Each element of the view of a sequence of types is the view of that type.
pub broadcast proof fn lemma_view_seq_index(s: Seq<Type>, i: int)
    requires
        0 <= i < s.len(),
    ensures
        #[trigger] view_seq(s)[i] == s[i]@,
    decreases s.len(),
{
    lemma_view_seq_len(s.subrange(0, s.len() - 1));
    if i < s.len() - 1 {
        lemma_view_seq_index(s.subrange(0, s.len() - 1), i);
    }
}

/// The parameter views have one view per parameter, in order.
pub broadcast proof fn lemma_view_params_len(s: Seq<Parameter>)
    ensures
        #[trigger] view_params(s).len() == s.len(),
    decreases s.len(),
{
    if s.len() > 0 {
        lemma_view_params_len(s.subrange(0, s.len() - 1));
    }
}

/// Each element of the parameter views is the view of that parameter.
pub broadcast proof fn lemma_view_params_index(s: Seq<Parameter>, i: int)
    requires
        0 <= i < s.len(),
    ensures
        #[trigger] view_params(s)[i] == (ParameterView {
            name: s[i].name@,
            ty: view_kind(s[i].ty.kind),
            has_default: s[i].has_default,
        }),
    decreases s.len(),
{
    lemma_view_params_len(s.subrange(0, s.len() - 1));
    if i < s.len() - 1 {
        lemma_view_params_index(s.subrange(0, s.len() - 1), i);
    }
}

/// Pushing a type onto a sequence pushes its view onto the views.
pub proof fn lemma_view_seq_push(s: Seq<Type>, t: Type)
    ensures
        view_seq(s.push(t)) == view_seq(s).push(t@),
{
    assert(s.push(t).subrange(0, s.len() as int) =~= s);
}

pub broadcast group group_view_lemmas {
    lemma_view_seq_len,
    lemma_view_seq_index,
    lemma_view_params_len,
    lemma_view_params_index,
}

impl View for Type {
    type V = TypeView;

    open spec fn view(&self) -> TypeView {
        view_kind(self.kind)
    }
}

impl View for SchemaType {
    type V = SchemaView;

    open spec fn view(&self) -> SchemaView {
        view_schema(*self)
    }
}



impl TypeView {
    pub open spec fn is_any(self) -> bool {
        self is Any
    }

    pub open spec fn is_none(self) -> bool {
        self is NoneType
    }

    pub open spec fn is_void(self) -> bool {
        self is Void
    }

    pub open spec fn is_union(self) -> bool {
        self is Union
    }

    pub open spec fn is_schema(self) -> bool {
        self is Schema
    }

    pub open spec fn is_list(self) -> bool {
        self is List
    }

    pub open spec fn is_dict(self) -> bool {
        self is Dict
    }

    pub open spec fn is_number_multiplier(self) -> bool {
        self is NumberMultiplier
    }

    /// `int` and integer literal types.
    pub open spec fn is_int(self) -> bool {
        self is Int || self is IntLit
    }

    /// `float` and float literal types.
    pub open spec fn is_float(self) -> bool {
        self is Float || self is FloatLit
    }

    /// `str` and string literal types.
    pub open spec fn is_str(self) -> bool {
        self is Str || self is StrLit
    }

    /// `bool` and boolean literal types.
    pub open spec fn is_bool(self) -> bool {
        self is Bool || self is BoolLit
    }

    /// Literal types: `True`, `1`, `1.0`, `"abc"`.
    pub open spec fn is_literal(self) -> bool {
        self is BoolLit || self is IntLit || self is FloatLit || self is StrLit
    }

    /// The primitive types `bool`, `int`, `float` and `str`.
    pub open spec fn is_primitive(self) -> bool {
        self is Bool || self is Int || self is Float || self is Str
    }

    /// Types that a value can hold: every type but `void`, modules and functions.
    pub open spec fn is_assignable_type(self) -> bool {
        !(self is Void || self is Module || self is Function)
    }
}

/// The name of a primitive type, as it is written in KCL.
pub open spec fn primitive_name(t: TypeView) -> Seq<char> {
    match t {
        TypeView::Bool => seq!['b', 'o', 'o', 'l'],
        TypeView::Int => seq!['i', 'n', 't'],
        TypeView::Float => seq!['f', 'l', 'o', 'a', 't'],
        _ => seq!['s', 't', 'r'],
    }
}

/// Whether `needle` occurs in `hay` as a contiguous run.
pub open spec fn seq_contains(hay: Seq<char>, needle: Seq<char>) -> bool {
    exists|i: int| 0 <= i <= hay.len() - needle.len() && #[trigger] hay.subrange(i, i + needle.len()) == needle
}

/// Whether the written form of a literal type (`int(1)`, `bool(True)`, `float(1.5)`,
/// `str(abc)`) contains the name of the primitive type `prim`.
///
/// Digits, signs, `True`, `False` and the float forms hold no type name, so for
/// numbers and booleans this is whether the literal is of that primitive; a string
/// literal always contains `str`, and contains another name where its text does.
pub open spec fn literal_text_names(lit: TypeView, prim: TypeView) -> bool {
    match lit {
        TypeView::StrLit(s) => prim is Str || seq_contains(s, primitive_name(prim)),
        TypeView::IntLit(_) => prim is Int,
        TypeView::FloatLit(_) => prim is Float,
        TypeView::BoolLit(_) => prim is Bool,
        _ => false,
    }
}

/// The package path used to write the main package.
pub open spec fn main_pkg() -> Seq<char> {
    seq!['_', '_', 'm', 'a', 'i', 'n', '_', '_']
}

/// A schema's name qualified by its package: `@pkg.Name`, or the bare name in the main package.
pub open spec fn schema_ty_str_with_pkgpath(s: SchemaView) -> Seq<char> {
    if s.pkgpath.len() == 0 || s.pkgpath == main_pkg() {
        s.name
    } else {
        seq!['@'] + s.pkgpath + seq!['.'] + s.name
    }
}
} // verus!
