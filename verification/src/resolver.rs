use vstd::prelude::*;

use indexmap::IndexMap;

use crate::index_map::{
    string_tables, string_tables_get_mut, string_tables_insert, string_tables_new, string_map, string_map_insert,
    string_map_new,
};
use crate::index_map::{
    keys_after_insert, string_map_get, string_map_keys, string_table_keys, string_table_orders,
    string_tables_get,
};
use crate::kinds::{chars_of, text_eq};
use crate::lazy::name_views;
use crate::types::{group_view_lemmas, view_seq, SchemaView, Type, TypeKind, TypeView};
use crate::unify::{assignable_to, subsumes};

verus! {

broadcast use group_view_lemmas;

// ------------------------------------------------------------------
// Package paths in type strings.
// ------------------------------------------------------------------

/// The index of the last `c` in `s`, or -1 when there is none.
pub open spec fn last_index_of(s: Seq<char>, c: char) -> int
    decreases s.len(),
{
    if s.len() == 0 {
        -1
    } else if s[s.len() - 1] == c {
        s.len() - 1
    } else {
        last_index_of(s.subrange(0, s.len() - 1), c)
    }
}

pub proof fn lemma_last_index_of(s: Seq<char>, c: char)
    ensures
        -1 <= last_index_of(s, c) < s.len(),
        last_index_of(s, c) >= 0 ==> s[last_index_of(s, c)] == c,
        forall|j: int| last_index_of(s, c) < j < s.len() ==> s[j] != c,
    decreases s.len(),
{
    if s.len() > 0 && s[s.len() - 1] != c {
        let t = s.subrange(0, s.len() - 1);
        lemma_last_index_of(t, c);
        assert forall|j: int| last_index_of(s, c) < j < s.len() implies s[j] != c by {
            if j < s.len() - 1 {
                assert(s[j] == t[j]);
            }
        }
    }
}

/// The package part of a type string: what stands before its last `.`, or the whole
/// string when it has none.
pub open spec fn ty_str_to_pkgpath_spec(s: Seq<char>) -> Seq<char> {
    let k = last_index_of(s, '.');
    if k >= 0 {
        s.subrange(0, k)
    } else {
        s
    }
}

/// A type string with the prefix `@pkgpath.` taken off when its package part is
/// `@pkgpath`.
pub open spec fn ty_str_replace_pkgpath_spec(s: Seq<char>, pkgpath: Seq<char>) -> Seq<char> {
    let k = last_index_of(s, '.');
    if k >= 0 && s.subrange(0, k) == seq!['@'] + pkgpath {
        s.subrange(k + 1, s.len() as int)
    } else {
        s
    }
}

/// The index of the last `.` in `s`, if it has one.
fn last_dot(s: &str) -> (r: Option<usize>)
    ensures
        match r {
            Some(k) => k == last_index_of(s@, '.'),
            None => last_index_of(s@, '.') == -1,
        },
{
    let cs = chars_of(s);
    let mut i: usize = cs.len();
    proof {
        lemma_last_index_of(s@, '.');
    }
    while i > 0
        invariant
            cs@ == s@,
            i <= cs.len(),
            forall|j: int| i <= j < s@.len() ==> s@[j] != '.',
            -1 <= last_index_of(s@, '.') < s@.len(),
            last_index_of(s@, '.') >= 0 ==> s@[last_index_of(s@, '.')] == '.',
            forall|j: int| last_index_of(s@, '.') < j < s@.len() ==> s@[j] != '.',
        decreases i,
    {
        if cs[i - 1] == '.' {
            return Some(i - 1);
        }
        i -= 1;
    }
    None
}

/// The package part of a type string: what stands before its last `.`, or the whole string.
fn ty_str_to_pkgpath(ty_str: &str) -> (r: &str)
    ensures
        r@ == ty_str_to_pkgpath_spec(ty_str@),
{
    proof {
        lemma_last_index_of(ty_str@, '.');
    }
    match last_dot(ty_str) {
        Some(k) => ty_str.substring_char(0, k),
        None => ty_str,
    }
}

/// Takes the prefix `@pkgpath.` off a type string whose package part is `@pkgpath`.
pub fn ty_str_replace_pkgpath(ty_str: &str, pkgpath: &str) -> (r: String)
    ensures
        r@ == ty_str_replace_pkgpath_spec(ty_str@, pkgpath@),
{
    proof {
        lemma_last_index_of(ty_str@, '.');
        reveal_strlit("@");
    }
    let mut at_pkgpath = String::from_str("@");
    at_pkgpath.append(pkgpath);
    assert(at_pkgpath@ =~= seq!['@'] + pkgpath@);
    match last_dot(ty_str) {
        Some(k) => {
            if crate::kinds::text_eq(ty_str_to_pkgpath(ty_str), at_pkgpath.as_str()) {
                let n = ty_str.unicode_len();
                String::from_str(ty_str.substring_char(k + 1, n))
            } else {
                String::from_str(ty_str)
            }
        },
        None => String::from_str(ty_str),
    }
}

// ------------------------------------------------------------------
// Type checking with diagnostics.
// ------------------------------------------------------------------

/// A position in a source file.
#[derive(Debug)]
pub struct Position {
    pub filename: String,
    pub line: u64,
    pub column: Option<u64>,
}

/// A span between two positions.
#[derive(Debug)]
pub struct Range {
    pub start: Position,
    pub end: Position,
}

/// The mathematical value of a position.
pub struct PositionView {
    pub filename: Seq<char>,
    pub line: u64,
    pub column: Option<u64>,
}

/// The mathematical value of a span.
pub struct RangeView {
    pub start: PositionView,
    pub end: PositionView,
}

impl View for Position {
    type V = PositionView;

    open spec fn view(&self) -> PositionView {
        PositionView { filename: self.filename@, line: self.line, column: self.column }
    }
}

impl View for Range {
    type V = RangeView;

    open spec fn view(&self) -> RangeView {
        RangeView { start: self.start@, end: self.end@ }
    }
}

impl Position {
    pub fn copy(&self) -> (r: Position)
        ensures
            r@ == self@,
    {
        Position { filename: self.filename.clone(), line: self.line, column: self.column }
    }
}

impl Range {
    pub fn copy(&self) -> (r: Range)
        ensures
            r@ == self@,
    {
        Range { start: self.start.copy(), end: self.end.copy() }
    }
}

/// A type error found while resolving.
#[derive(Debug)]
pub enum TypeDiagnostic {
    /// "expected {expected}, got {got}", and, with `expected_pos`, where the variable was defined.
    Mismatch { expected: Type, got: Type, range: Range, expected_pos: Option<Range> },
    /// "expected schema index signature value type {expected}, got {got}".
    IndexSignatureValue { expected: Type, got: Type, range: Range },
}

/// The mathematical value of a type error.
pub enum DiagnosticView {
    Mismatch { expected: TypeView, got: TypeView, range: RangeView, expected_pos: Option<RangeView> },
    IndexSignatureValue { expected: TypeView, got: TypeView, range: RangeView },
}

impl View for TypeDiagnostic {
    type V = DiagnosticView;

    open spec fn view(&self) -> DiagnosticView {
        match self {
            TypeDiagnostic::Mismatch { expected, got, range, expected_pos } => DiagnosticView::Mismatch {
                expected: expected@,
                got: got@,
                range: range@,
                expected_pos: match expected_pos {
                    Some(p) => Some(p@),
                    None => None,
                },
            },
            TypeDiagnostic::IndexSignatureValue { expected, got, range } => DiagnosticView::IndexSignatureValue {
                expected: expected@,
                got: got@,
                range: range@,
            },
        }
    }
}

/// The views of a sequence of diagnostics.
pub open spec fn view_diagnostics(s: Seq<TypeDiagnostic>) -> Seq<DiagnosticView> {
    Seq::new(s.len(), |i: int| s[i]@)
}

/// The index-signature diagnostics for (expected, got) pairs, all at `range`.
pub open spec fn index_signature_diagnostics(
    pairs: Seq<(TypeView, TypeView)>,
    range: RangeView,
) -> Seq<DiagnosticView> {
    Seq::new(
        pairs.len(),
        |i: int| DiagnosticView::IndexSignatureValue { expected: pairs[i].0, got: pairs[i].1, range },
    )
}

/// Whether `ty` can stand where `expected` is wanted, as plain assignability sees it.
pub open spec fn assignable(ty: TypeView, expected: TypeView) -> bool {
    ty.is_assignable_type() && subsumes(ty, expected, true)
}

/// What checking a dict with key type `k` and value type `v` against schema `s` returns:
/// with an index signature that accepts any other key, both must be assignable to it.
pub open spec fn dict_schema_result(k: TypeView, v: TypeView, s: SchemaView) -> bool {
    match s.index_signature {
        Some(sig) => if sig.any_other {
            assignable(k, sig.key_ty) && assignable(v, sig.val_ty)
        } else {
            true
        },
        None => true,
    }
}

/// The (expected, got) pairs that checking a dict against schema `s` reports: one when
/// the dict's value type is not assignable to the index signature's value type.
pub open spec fn dict_schema_reports(v: TypeView, s: SchemaView) -> Seq<(TypeView, TypeView)> {
    match s.index_signature {
        Some(sig) => if !assignable(v, sig.val_ty) {
            seq![(sig.val_ty, v)]
        } else {
            Seq::empty()
        },
        None => Seq::empty(),
    }
}

/// Checking `ty` against `expected`: the result, and the (expected, got) pairs that the
/// schema checks met on the way report, in order; union members are checked in turn
/// until the result is known.
pub open spec fn check_run(ty: TypeView, expected: TypeView) -> (bool, Seq<(TypeView, TypeView)>)
    decreases ty, expected, 0int,
{
    match (ty, expected) {
        (TypeView::List(i), TypeView::List(e)) => check_run(*i, *e),
        (TypeView::Dict(k, v), TypeView::Dict(ek, ev)) => {
            let a = check_run(*k, *ek);
            if a.0 {
                let b = check_run(*v, *ev);
                (b.0, a.1 + b.1)
            } else {
                a
            }
        },
        (TypeView::Dict(k, v), TypeView::Schema(s)) => (
            dict_schema_result(*k, *v, s),
            dict_schema_reports(*v, s),
        ),
        (TypeView::Union(ts), _) => check_all(ts, expected, ts.len() as int),
        (_, TypeView::Union(es)) => check_any(ty, es, es.len() as int),
        _ => (assignable(ty, expected), Seq::empty()),
    }
}

/// Checking the first `n` members of `ts` against `expected`, stopping at the first failure.
pub open spec fn check_all(ts: Seq<TypeView>, expected: TypeView, n: int) -> (
    bool,
    Seq<(TypeView, TypeView)>,
)
    decreases ts, expected, n,
{
    if 0 < n <= ts.len() {
        let p = check_all(ts, expected, n - 1);
        if p.0 {
            let c = check_run(ts[n - 1], expected);
            (c.0, p.1 + c.1)
        } else {
            p
        }
    } else {
        (true, Seq::empty())
    }
}

/// Checking `ty` against the first `n` members of `es`, stopping at the first success.
pub open spec fn check_any(ty: TypeView, es: Seq<TypeView>, n: int) -> (
    bool,
    Seq<(TypeView, TypeView)>,
)
    decreases ty, es, n,
{
    if 0 < n <= es.len() {
        let p = check_any(ty, es, n - 1);
        if p.0 {
            p
        } else {
            let c = check_run(ty, es[n - 1]);
            (c.0, p.1 + c.1)
        }
    } else {
        (false, Seq::empty())
    }
}

proof fn lemma_check_all_stays_false(ts: Seq<TypeView>, e: TypeView, m: int, n: int)
    requires
        0 <= m <= n <= ts.len(),
        !check_all(ts, e, m).0,
    ensures
        check_all(ts, e, n) == check_all(ts, e, m),
    decreases n - m,
{
    if m < n {
        lemma_check_all_stays_false(ts, e, m, n - 1);
    }
}

proof fn lemma_check_any_stays_true(ty: TypeView, es: Seq<TypeView>, m: int, n: int)
    requires
        0 <= m <= n <= es.len(),
        check_any(ty, es, m).0,
    ensures
        check_any(ty, es, n) == check_any(ty, es, m),
    decreases n - m,
{
    if m < n {
        lemma_check_any_stays_true(ty, es, m, n - 1);
    }
}

// ------------------------------------------------------------------
// Named types.
// ------------------------------------------------------------------

/// The parts of `s` between its dots, in order.
pub open spec fn split_dots(s: Seq<char>) -> Seq<Seq<char>>
    decreases s.len(),
{
    let k = last_index_of(s, '.');
    if 0 <= k < s.len() {
        split_dots(s.subrange(0, k)).push(s.subrange(k + 1, s.len() as int))
    } else {
        seq![s]
    }
}

/// The names of a type path: `@pkg.Name` is the package and the name; any other path
/// is split at its dots.
pub open spec fn type_path_names(s: Seq<char>) -> Seq<Seq<char>> {
    if s.len() > 0 && s[0] == '@' {
        let k = last_index_of(s, '.');
        if k >= 0 {
            seq![s.subrange(0, k), s.subrange(k + 1, s.len() as int)]
        } else {
            seq![s]
        }
    } else {
        split_dots(s)
    }
}

/// The package a type path refers to: for a dotted path whose first name is not a
/// local variable, what the file's imports give that name; else none (empty).
pub open spec fn import_pkgpath(
    names: Seq<Seq<char>>,
    local_vars: Seq<Seq<char>>,
    imports: Map<Seq<char>, Map<Seq<char>, Seq<char>>>,
    filename: Seq<char>,
) -> Seq<char> {
    if names.len() > 1 && !local_vars.contains(names[0]) && imports.dom().contains(filename)
        && imports[filename].dom().contains(names[0]) {
        imports[filename][names[0]]
    } else {
        Seq::empty()
    }
}

/// Whether a named type stands in `t`, directly or in a list, dict or union.
pub open spec fn has_named(t: TypeView) -> bool
    decreases t, 0int,
{
    match t {
        TypeView::Named(_) => true,
        TypeView::List(i) => has_named(*i),
        TypeView::Dict(k, v) => has_named(*k) || has_named(*v),
        TypeView::Union(ts) => any_named(ts, ts.len() as int),
        _ => false,
    }
}

/// Whether a named type stands in one of the first `n` types of `ts`.
pub open spec fn any_named(ts: Seq<TypeView>, n: int) -> bool
    decreases ts, n,
{
    if 0 < n <= ts.len() {
        any_named(ts, n - 1) || has_named(ts[n - 1])
    } else {
        false
    }
}

/// What resolving a named type reads of the resolver: the package and file, the local
/// variables, and the imports of each file.
pub struct Scope {
    pub pkgpath: Seq<char>,
    pub filename: Seq<char>,
    pub local_vars: Seq<Seq<char>>,
    pub imports: Map<Seq<char>, Map<Seq<char>, Seq<char>>>,
}

/// The scope of a resolver.
pub open spec fn scope_of(r: Resolver) -> Scope {
    Scope {
        pkgpath: r.pkgpath@,
        filename: r.filename@,
        local_vars: name_views(r.local_vars@),
        imports: string_tables(r.import_names),
    }
}

/// `out` is what upgrading `ty` in the scope of `res` may give, where `resolve_var`
/// finds the type of a path: the named types in `ty` (also in lists, dicts and unions)
/// are replaced by what `resolve_var` gives for their names and package; any other
/// type stays as it is.
pub open spec fn upgraded<F: Fn(&Vec<String>, &str) -> Type>(
    resolve_var: F,
    res: Scope,
    ty: Type,
    out: Type,
) -> bool
    decreases ty,
{
    match ty.kind {
        TypeKind::List(i) => match out.kind {
            TypeKind::List(oi) => upgraded(resolve_var, res, *i, *oi),
            _ => false,
        },
        TypeKind::Dict(k, v) => match out.kind {
            TypeKind::Dict(ok, ov) => upgraded(resolve_var, res, *k, *ok) && upgraded(
                resolve_var,
                res,
                *v,
                *ov,
            ),
            _ => false,
        },
        TypeKind::Union(ts) => match out.kind {
            TypeKind::Union(os) => os.len() == ts.len() && forall|i: int|
                0 <= i < ts.len() ==> upgraded(resolve_var, res, #[trigger] ts@[i], os@[i]),
            _ => false,
        },
        TypeKind::Named(n) => {
            let names = type_path_names(ty_str_replace_pkgpath_spec(n@, res.pkgpath));
            let pkg = import_pkgpath(names, res.local_vars, res.imports, res.filename);
            exists|nv: Vec<String>, pv: &str|
                name_views(nv@) == names && pv@ == pkg && #[trigger] call_ensures(
                    resolve_var,
                    (&nv, pv),
                    out,
                )
        },
        _ => out@ == ty@,
    }
}

/// The parts of `s` between its dots.
fn split_dots_exec(s: &str) -> (r: Vec<String>)
    ensures
        name_views(r@) == split_dots(s@),
    decreases s@.len(),
{
    proof {
        lemma_last_index_of(s@, '.');
    }
    match last_dot(s) {
        Some(k) => {
            let mut v = split_dots_exec(s.substring_char(0, k));
            let ghost prev = v@;
            let n = s.unicode_len();
            v.push(String::from_str(s.substring_char(k + 1, n)));
            assert(name_views(v@) =~= name_views(prev).push(s@.subrange(k + 1, s@.len() as int)));
            v
        },
        None => {
            let mut v: Vec<String> = Vec::new();
            v.push(String::from_str(s));
            assert(name_views(v@) =~= seq![s@]);
            v
        },
    }
}

/// The names of a type path.
fn type_path_names_exec(s: &str) -> (r: Vec<String>)
    ensures
        name_views(r@) == type_path_names(s@),
{
    proof {
        lemma_last_index_of(s@, '.');
    }
    if s.unicode_len() > 0 && s.get_char(0) == '@' {
        let mut v: Vec<String> = Vec::new();
        match last_dot(s) {
            Some(k) => {
                let n = s.unicode_len();
                v.push(String::from_str(s.substring_char(0, k)));
                v.push(String::from_str(s.substring_char(k + 1, n)));
                assert(name_views(v@) =~= seq![s@.subrange(0, k as int), s@.subrange(k + 1, n as int)]);
            },
            None => {
                v.push(String::from_str(s));
                assert(name_views(v@) =~= seq![s@]);
            },
        }
        v
    } else {
        split_dots_exec(s)
    }
}

/// Whether `name` is one of `names`.
fn contains_name(names: &Vec<String>, name: &str) -> (r: bool)
    ensures
        r == name_views(names@).contains(name@),
{
    let mut i: usize = 0;
    while i < names.len()
        invariant
            i <= names.len(),
            forall|k: int| 0 <= k < i ==> names@[k]@ != name@,
        decreases names.len() - i,
    {
        if text_eq(names[i].as_str(), name) {
            assert(name_views(names@)[i as int] == name@);
            return true;
        }
        i += 1;
    }
    assert forall|k: int| 0 <= k < name_views(names@).len() implies name_views(names@)[k] != name@ by {
        assert(name_views(names@)[k] == names@[k]@);
    }
    false
}

/// The builtin types a resolver hands out.
#[derive(Debug)]
pub struct BuiltinTypes {
    pub any: Type,
    pub int: Type,
    pub float: Type,
    pub bool: Type,
    pub str: Type,
    pub none: Type,
    pub void: Type,
}

impl BuiltinTypes {
    /// The builtin types `any`, `int`, `float`, `bool`, `str`, `NoneType` and `void`.
    pub fn new() -> (r: BuiltinTypes)
        ensures
            r.any@ == TypeView::Any,
            r.int@ == TypeView::Int,
            r.float@ == TypeView::Float,
            r.bool@ == TypeView::Bool,
            r.str@ == TypeView::Str,
            r.none@ == TypeView::NoneType,
            r.void@ == TypeView::Void,
    {
        BuiltinTypes {
            any: Type::any_ty(),
            int: Type::int_ty(),
            float: Type::float_ty(),
            bool: Type::bool_ty(),
            str: Type::str_ty(),
            none: Type::none_ty(),
            void: Type::void_ty(),
        }
    }
}

/// The part of the resolver's state that type checking reads and writes: the builtin
/// types, the current package, and the type errors found so far.
#[derive(Debug)]
pub struct Resolver {
    pub builtin_types: BuiltinTypes,
    /// The package being resolved.
    pub pkgpath: String,
    /// The file being resolved.
    pub filename: String,
    /// The names of the local variables in scope.
    pub local_vars: Vec<String>,
    /// For each file, the package path of each name it imports.
    pub import_names: IndexMap<String, IndexMap<String, String>>,
    /// Whether the expression being resolved is assigned to.
    pub l_value: bool,
    /// For each package, the alias of each type name.
    pub type_alias_mapping: IndexMap<String, IndexMap<String, String>>,
    /// The type errors found so far.
    pub diagnostics: Vec<TypeDiagnostic>,
}

/// The file, local variables, imports and l-value flag of two resolvers agree.
pub open spec fn same_scope(a: Resolver, b: Resolver) -> bool {
    &&& a.filename == b.filename
    &&& a.local_vars == b.local_vars
    &&& a.import_names == b.import_names
    &&& a.l_value == b.l_value
}

/// Whether `name` and `alias` name the same type, an alias `@x` standing for `x`.
pub open spec fn alias_is_name(name: Seq<char>, alias: Seq<char>) -> bool {
    if alias.len() > 0 && alias[0] == '@' {
        name == alias.subrange(1, alias.len() as int)
    } else {
        name == alias
    }
}

/// The alias tables after `alias` is recorded for `name` in package `pkgpath`.
pub open spec fn record_alias(
    tables: Map<Seq<char>, Map<Seq<char>, Seq<char>>>,
    pkgpath: Seq<char>,
    name: Seq<char>,
    alias: Seq<char>,
) -> Map<Seq<char>, Map<Seq<char>, Seq<char>>> {
    if alias_is_name(name, alias) {
        tables
    } else {
        tables.insert(
            pkgpath,
            (if tables.dom().contains(pkgpath) {
                tables[pkgpath]
            } else {
                Map::empty()
            }).insert(name, alias),
        )
    }
}

/// The order of the packages of the alias tables after `alias` is recorded for `name`
/// in package `pkgpath`: a package that had no alias yet goes last.
pub open spec fn record_alias_packages(
    packages: Seq<Seq<char>>,
    tables: Map<Seq<char>, Map<Seq<char>, Seq<char>>>,
    pkgpath: Seq<char>,
    name: Seq<char>,
    alias: Seq<char>,
) -> Seq<Seq<char>> {
    if alias_is_name(name, alias) {
        packages
    } else {
        keys_after_insert(packages, tables.dom().contains(pkgpath), pkgpath)
    }
}

/// The order of the type names of each package after `alias` is recorded for `name` in
/// package `pkgpath`: a name that had no alias yet goes last in that package.
pub open spec fn record_alias_names(
    orders: Map<Seq<char>, Seq<Seq<char>>>,
    tables: Map<Seq<char>, Map<Seq<char>, Seq<char>>>,
    pkgpath: Seq<char>,
    name: Seq<char>,
    alias: Seq<char>,
) -> Map<Seq<char>, Seq<Seq<char>>> {
    if alias_is_name(name, alias) {
        orders
    } else if tables.dom().contains(pkgpath) {
        orders.insert(
            pkgpath,
            keys_after_insert(orders[pkgpath], tables[pkgpath].dom().contains(name), name),
        )
    } else {
        orders.insert(pkgpath, seq![name])
    }
}

impl Resolver {
    /// A resolver for file `filename` of package `pkgpath`, with no local variables,
    /// imports, aliases or diagnostics.
    pub fn new(pkgpath: &str, filename: &str) -> (r: Resolver)
        ensures
            r.pkgpath@ == pkgpath@,
            r.filename@ == filename@,
            r.local_vars@.len() == 0,
            string_tables(r.import_names).dom().is_empty(),
            !r.l_value,
            string_tables(r.type_alias_mapping).dom().is_empty(),
            string_table_keys(r.type_alias_mapping).len() == 0,
            string_table_orders(r.type_alias_mapping).dom().is_empty(),
            r.diagnostics@.len() == 0,
            r.builtin_types.any@ == TypeView::Any,
            r.builtin_types.int@ == TypeView::Int,
            r.builtin_types.float@ == TypeView::Float,
            r.builtin_types.bool@ == TypeView::Bool,
            r.builtin_types.str@ == TypeView::Str,
            r.builtin_types.none@ == TypeView::NoneType,
            r.builtin_types.void@ == TypeView::Void,
    {
        Resolver {
            builtin_types: BuiltinTypes::new(),
            pkgpath: String::from_str(pkgpath),
            filename: String::from_str(filename),
            local_vars: Vec::new(),
            import_names: string_tables_new(),
            l_value: false,
            type_alias_mapping: string_tables_new(),
            diagnostics: Vec::new(),
        }
    }

    /// Records `alias` as the alias of type `name` in the current package, unless the
    /// two name the same type.
    pub fn add_type_alias(&mut self, name: &str, alias: &str)
        ensures
            string_tables(final(self).type_alias_mapping) == record_alias(
                string_tables(old(self).type_alias_mapping),
                old(self).pkgpath@,
                name@,
                alias@,
            ),
            string_table_keys(final(self).type_alias_mapping) == record_alias_packages(
                string_table_keys(old(self).type_alias_mapping),
                string_tables(old(self).type_alias_mapping),
                old(self).pkgpath@,
                name@,
                alias@,
            ),
            string_table_orders(final(self).type_alias_mapping) == record_alias_names(
                string_table_orders(old(self).type_alias_mapping),
                string_tables(old(self).type_alias_mapping),
                old(self).pkgpath@,
                name@,
                alias@,
            ),
            final(self).pkgpath == old(self).pkgpath,
            final(self).builtin_types == old(self).builtin_types,
            final(self).diagnostics == old(self).diagnostics,
            same_scope(*final(self), *old(self)),
    {
        let n = alias.unicode_len();
        if n > 0 && alias.get_char(0) == '@' {
            if crate::kinds::text_eq(name, alias.substring_char(1, n)) {
                return;
            }
        } else if crate::kinds::text_eq(name, alias) {
            return;
        }
        match string_tables_get_mut(&mut self.type_alias_mapping, self.pkgpath.as_str()) {
            Some(mapping) => {
                let _ = string_map_insert(mapping, String::from_str(name), String::from_str(alias));
            },
            None => {
                let mut mapping = string_map_new();
                let _ = string_map_insert(&mut mapping, String::from_str(name), String::from_str(alias));
                assert(string_map(mapping) =~= Map::<Seq<char>, Seq<char>>::empty().insert(name@, alias@));
                assert(string_map_keys(mapping) =~= seq![name@]);
                let _ = string_tables_insert(&mut self.type_alias_mapping, self.pkgpath.clone(), mapping);
            },
        }
    }

    /// Upgrades the named types in `ty` to the types they name in scope: `resolve_var`
    /// is given the names of each path and the package it is imported from (or none).
    #[verifier::loop_isolation(false)]
    pub fn upgrade_named_ty_with_scope<F: Fn(&Vec<String>, &str) -> Type + Copy>(
        &mut self,
        ty: &Type,
        resolve_var: F,
    ) -> (r: Type)
        requires
            forall|n: &Vec<String>, p: &str| call_requires(resolve_var, (n, p)),
        ensures
            upgraded(resolve_var, scope_of(*old(self)), *ty, r),
            final(self).l_value == (old(self).l_value && !has_named(ty@)),
            final(self).builtin_types == old(self).builtin_types,
            final(self).pkgpath == old(self).pkgpath,
            final(self).filename == old(self).filename,
            final(self).local_vars == old(self).local_vars,
            final(self).import_names == old(self).import_names,
            final(self).type_alias_mapping == old(self).type_alias_mapping,
            final(self).diagnostics == old(self).diagnostics,
        decreases ty,
    {
        match &ty.kind {
            TypeKind::List(item_ty) => {
                let item = self.upgrade_named_ty_with_scope(item_ty, resolve_var);
                Type { kind: TypeKind::List(Box::new(item)) }
            },
            TypeKind::Dict(key_ty, val_ty) => {
                let key = self.upgrade_named_ty_with_scope(key_ty, resolve_var);
                let val = self.upgrade_named_ty_with_scope(val_ty, resolve_var);
                Type { kind: TypeKind::Dict(Box::new(key), Box::new(val)) }
            },
            TypeKind::Union(types) => {
                let ghost ts = view_seq(types@);
                let mut out: Vec<Type> = Vec::new();
                let mut i: usize = 0;
                while i < types.len()
                    invariant
                        ts == view_seq(types@),
                        i <= types.len(),
                        out.len() == i,
                        forall|k: int|
                            0 <= k < i ==> upgraded(
                                resolve_var,
                                scope_of(*old(self)),
                                #[trigger] types@[k],
                                out@[k],
                            ),
                        self.l_value == (old(self).l_value && !any_named(ts, i as int)),
                        self.builtin_types == old(self).builtin_types,
                        self.pkgpath == old(self).pkgpath,
                        self.filename == old(self).filename,
                        self.local_vars == old(self).local_vars,
                        self.import_names == old(self).import_names,
                        self.type_alias_mapping == old(self).type_alias_mapping,
                        self.diagnostics == old(self).diagnostics,
                    decreases types.len() - i,
                {
                    let t = self.upgrade_named_ty_with_scope(&types[i], resolve_var);
                    out.push(t);
                    i += 1;
                }
                Type { kind: TypeKind::Union(out) }
            },
            TypeKind::Named(ty_str) => {
                let ty_str = ty_str_replace_pkgpath(ty_str.as_str(), self.pkgpath.as_str());
                let names = type_path_names_exec(ty_str.as_str());
                let ghost nv = name_views(names@);
                let mut pkgpath = String::new();
                if names.len() > 1 {
                    assert(nv[0] == names@[0]@);
                    if !contains_name(&self.local_vars, names[0].as_str()) {
                        if let Some(mapping) = string_tables_get(
                            &self.import_names,
                            self.filename.as_str(),
                        ) {
                            pkgpath =
                            match string_map_get(mapping, names[0].as_str()) {
                                Some(p) => p.clone(),
                                None => String::new(),
                            };
                        }
                    }
                }
                assert(pkgpath@ == import_pkgpath(
                    nv,
                    name_views(self.local_vars@),
                    string_tables(self.import_names),
                    self.filename@,
                ));
                self.l_value = false;
                let p = pkgpath.as_str();
                let r = resolve_var(&names, p);
                assert(call_ensures(resolve_var, (&names, p), r));
                r
            },
            _ => ty.copy(),
        }
    }

    pub fn any_ty(&self) -> (r: Type)
        ensures
            r@ == self.builtin_types.any@,
    {
        self.builtin_types.any.copy()
    }

    pub fn int_ty(&self) -> (r: Type)
        ensures
            r@ == self.builtin_types.int@,
    {
        self.builtin_types.int.copy()
    }

    pub fn float_ty(&self) -> (r: Type)
        ensures
            r@ == self.builtin_types.float@,
    {
        self.builtin_types.float.copy()
    }

    pub fn bool_ty(&self) -> (r: Type)
        ensures
            r@ == self.builtin_types.bool@,
    {
        self.builtin_types.bool.copy()
    }

    pub fn str_ty(&self) -> (r: Type)
        ensures
            r@ == self.builtin_types.str@,
    {
        self.builtin_types.str.copy()
    }

    pub fn none_ty(&self) -> (r: Type)
        ensures
            r@ == self.builtin_types.none@,
    {
        self.builtin_types.none.copy()
    }

    pub fn void_ty(&self) -> (r: Type)
        ensures
            r@ == self.builtin_types.void@,
    {
        self.builtin_types.void.copy()
    }

    /// Must assignable to the expected type: when it is not, a mismatch is reported.
    pub fn must_assignable_to(
        &mut self,
        ty: &Type,
        expected_ty: &Type,
        range: &Range,
        expected_pos: Option<&Range>,
    )
        ensures
            final(self).builtin_types == old(self).builtin_types,
            final(self).pkgpath == old(self).pkgpath,
            same_scope(*final(self), *old(self)),
            final(self).type_alias_mapping == old(self).type_alias_mapping,
            view_diagnostics(final(self).diagnostics@) == view_diagnostics(old(self).diagnostics@)
                + index_signature_diagnostics(check_run(ty@, expected_ty@).1, range@) + if check_run(
                ty@,
                expected_ty@,
            ).0 {
                Seq::empty()
            } else {
                seq![
                    DiagnosticView::Mismatch {
                        expected: expected_ty@,
                        got: ty@,
                        range: range@,
                        expected_pos: match expected_pos {
                            Some(p) => Some(p@),
                            None => None,
                        },
                    },
                ]
            },
    {
        if !self.check_type(ty, expected_ty, range) {
            let ghost before = view_diagnostics(self.diagnostics@);
            let pos = match expected_pos {
                Some(p) => Some(p.copy()),
                None => None,
            };
            let d = TypeDiagnostic::Mismatch {
                expected: expected_ty.copy(),
                got: ty.copy(),
                range: range.copy(),
                expected_pos: pos,
            };
            self.diagnostics.push(d);
            assert(view_diagnostics(self.diagnostics@) =~= before.push(d@));
        } else {
            assert(view_diagnostics(self.diagnostics@) =~= view_diagnostics(self.diagnostics@)
                + Seq::<DiagnosticView>::empty());
        }
    }

    /// The check type main function, returns a boolean result.
    #[verifier::loop_isolation(false)]
    pub fn check_type(&mut self, ty: &Type, expected_ty: &Type, range: &Range) -> (r: bool)
        ensures
            r == check_run(ty@, expected_ty@).0,
            final(self).builtin_types == old(self).builtin_types,
            final(self).pkgpath == old(self).pkgpath,
            same_scope(*final(self), *old(self)),
            final(self).type_alias_mapping == old(self).type_alias_mapping,
            view_diagnostics(final(self).diagnostics@) == view_diagnostics(old(self).diagnostics@)
                + index_signature_diagnostics(check_run(ty@, expected_ty@).1, range@),
        decreases ty, expected_ty,
    {
        let ghost d0 = view_diagnostics(self.diagnostics@);
        match (&ty.kind, &expected_ty.kind) {
            (TypeKind::List(item_ty), TypeKind::List(expected_item_ty)) => {
                return self.check_type(item_ty, expected_item_ty, range);
            },
            (TypeKind::Dict(key_ty, val_ty), TypeKind::Dict(expected_key_ty, expected_val_ty)) => {
                let a = self.check_type(key_ty, expected_key_ty, range);
                if !a {
                    return false;
                }
                let b = self.check_type(val_ty, expected_val_ty, range);
                proof {
                    let pa = check_run(key_ty@, expected_key_ty@).1;
                    let pb = check_run(val_ty@, expected_val_ty@).1;
                    assert(index_signature_diagnostics(pa + pb, range@) =~= index_signature_diagnostics(
                        pa,
                        range@,
                    ) + index_signature_diagnostics(pb, range@));
                }
                return b;
            },
            (TypeKind::Dict(key_ty, val_ty), TypeKind::Schema(schema_ty)) => {
                return self.dict_assignable_to_schema(key_ty, val_ty, schema_ty, range);
            },
            _ => {},
        }
        if let TypeKind::Union(types) = &ty.kind {
            let ghost ts = view_seq(types@);
            let mut i: usize = 0;
            while i < types.len()
                invariant
                    ts == view_seq(types@),
                    ty@ == TypeView::Union(ts),
                    i <= types.len(),
                    check_all(ts, expected_ty@, i as int).0,
                    self.builtin_types == old(self).builtin_types,
                    self.pkgpath == old(self).pkgpath,
                    same_scope(*self, *old(self)),
                    self.type_alias_mapping == old(self).type_alias_mapping,
                    view_diagnostics(self.diagnostics@) == d0 + index_signature_diagnostics(
                        check_all(ts, expected_ty@, i as int).1,
                        range@,
                    ),
                decreases types.len() - i,
            {
                let ghost pi = check_all(ts, expected_ty@, i as int).1;
                let c = self.check_type(&types[i], expected_ty, range);
                proof {
                    let pc = check_run(ts[i as int], expected_ty@).1;
                    assert(index_signature_diagnostics(pi + pc, range@) =~= index_signature_diagnostics(
                        pi,
                        range@,
                    ) + index_signature_diagnostics(pc, range@));
                }
                if !c {
                    proof {
                        lemma_check_all_stays_false(ts, expected_ty@, i + 1, ts.len() as int);
                    }
                    return false;
                }
                i += 1;
            }
            return true;
        }
        if let TypeKind::Union(types) = &expected_ty.kind {
            let ghost es = view_seq(types@);
            let mut i: usize = 0;
            while i < types.len()
                invariant
                    es == view_seq(types@),
                    expected_ty@ == TypeView::Union(es),
                    !(ty@ is Union),
                    !(ty@ is Dict && expected_ty@ is Schema),
                    i <= types.len(),
                    !check_any(ty@, es, i as int).0,
                    self.builtin_types == old(self).builtin_types,
                    self.pkgpath == old(self).pkgpath,
                    same_scope(*self, *old(self)),
                    self.type_alias_mapping == old(self).type_alias_mapping,
                    view_diagnostics(self.diagnostics@) == d0 + index_signature_diagnostics(
                        check_any(ty@, es, i as int).1,
                        range@,
                    ),
                decreases types.len() - i,
            {
                let ghost pi = check_any(ty@, es, i as int).1;
                let c = self.check_type(ty, &types[i], range);
                proof {
                    let pc = check_run(ty@, es[i as int]).1;
                    assert(index_signature_diagnostics(pi + pc, range@) =~= index_signature_diagnostics(
                        pi,
                        range@,
                    ) + index_signature_diagnostics(pc, range@));
                }
                if c {
                    proof {
                        lemma_check_any_stays_true(ty@, es, i + 1, es.len() as int);
                    }
                    return true;
                }
                i += 1;
            }
            return false;
        }
        assert(index_signature_diagnostics(Seq::empty(), range@) =~= Seq::empty());
        assert(view_diagnostics(self.diagnostics@) =~= d0 + Seq::<DiagnosticView>::empty());
        assignable_to(ty, expected_ty)
    }

    /// Judge a dict can be converted to schema in compile time
    /// Do relaxed schema check key and value type check.
    pub fn dict_assignable_to_schema(
        &mut self,
        key_ty: &Type,
        val_ty: &Type,
        schema_ty: &crate::types::SchemaType,
        range: &Range,
    ) -> (r: bool)
        ensures
            r == dict_schema_result(key_ty@, val_ty@, schema_ty@),
            final(self).builtin_types == old(self).builtin_types,
            final(self).pkgpath == old(self).pkgpath,
            same_scope(*final(self), *old(self)),
            final(self).type_alias_mapping == old(self).type_alias_mapping,
            view_diagnostics(final(self).diagnostics@) == view_diagnostics(old(self).diagnostics@)
                + index_signature_diagnostics(dict_schema_reports(val_ty@, schema_ty@), range@),
    {
        let ghost d0 = view_diagnostics(self.diagnostics@);
        if let Some(index_signature) = &schema_ty.index_signature {
            proof {
                let sv = crate::types::view_index_signature(**index_signature);
                assert(sv.val_ty == index_signature.val_ty@);
                assert(sv.key_ty == index_signature.key_ty@);
                assert(sv.any_other == index_signature.any_other);
                assert(schema_ty@.index_signature == Some(Box::new(sv)));
            }
            if !assignable_to(val_ty, &index_signature.val_ty) {
                let d = TypeDiagnostic::IndexSignatureValue {
                    expected: index_signature.val_ty.copy(),
                    got: val_ty.copy(),
                    range: range.copy(),
                };
                self.diagnostics.push(d);
                assert(view_diagnostics(self.diagnostics@) =~= d0 + index_signature_diagnostics(
                    dict_schema_reports(val_ty@, schema_ty@),
                    range@,
                ));
            } else {
                assert(view_diagnostics(self.diagnostics@) =~= d0 + index_signature_diagnostics(
                    dict_schema_reports(val_ty@, schema_ty@),
                    range@,
                ));
            }
            if index_signature.any_other {
                return assignable_to(key_ty, &index_signature.key_ty) && assignable_to(
                    val_ty,
                    &index_signature.val_ty,
                );
            }
            true
        } else {
            assert(view_diagnostics(self.diagnostics@) =~= d0 + index_signature_diagnostics(
                dict_schema_reports(val_ty@, schema_ty@),
                range@,
            ));
            true
        }
    }
}

} // verus!
