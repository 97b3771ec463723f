use vstd::prelude::*;

use generational_arena::Index;
use indexmap::IndexMap;

use crate::kinds::text_eq;
use crate::option::{
    lemma_view_entries_index, lemma_view_entries_len, lemma_view_entries_push, view_entries,
    OptionValue, OptionView,
};

use crate::index_map::{
    count_keys, counts, counts_get, counts_insert, keys_after_insert, setter_lists, setter_names, setters_get, setters_get_index,
    setters_insert, setters_len, setters_new,
};

verus! {

/// `generational_arena::Index`, the handle of a schema or body in an arena.
#[verifier::external_type_specification]
#[verifier::external_body]
pub struct ExIndex(Index);

/// Where a variable is set: the schema or body (none for the current schema) and the
/// statement's position in it.
#[derive(Debug, Default, Clone, PartialEq)]
pub struct Setter {
    // Schema or body index, none denotes the current schema.
    pub index: Option<Index>,
    // Statement index in the schema or body in the body array.
    pub stmt: usize,
}

impl Setter {
    pub fn copy(&self) -> (r: Setter)
        ensures
            r == *self,
    {
        Setter { index: self.index, stmt: self.stmt }
    }
}

/// Copies a list of setters.
pub fn copy_setters(v: &Vec<Setter>) -> (r: Vec<Setter>)
    ensures
        r@ == v@,
{
    let mut out: Vec<Setter> = Vec::new();
    let mut i: usize = 0;
    while i < v.len()
        invariant
            i <= v.len(),
            out@ == v@.subrange(0, i as int),
        decreases v.len() - i,
    {
        out.push(v[i].copy());
        i += 1;
    }
    assert(out@ =~= v@);
    out
}

/// LazyEvalScope represents a scope of sequentially independent calculations, where
/// the calculation of values is lazy and only recursively performed through
/// backtracking when needed.
#[derive(Debug, Default, PartialEq)]
pub struct LazyEvalScope {
    /// Backtrack levels.
    pub levels: IndexMap<String, usize>,
    /// Variable setter function pointers.
    pub setters: IndexMap<String, Vec<Setter>>,
    /// Calculate times without backtracking.
    pub cal_times: IndexMap<String, usize>,
}

/// The count a map holds for `key`, or 0.
pub open spec fn count_of(m: Map<Seq<char>, usize>, key: Seq<char>) -> nat {
    if m.dom().contains(key) {
        m[key] as nat
    } else {
        0
    }
}

/// How many setters a map holds for `key`, or 0.
pub open spec fn setter_count(m: Map<Seq<char>, Seq<Setter>>, key: Seq<char>) -> nat {
    if m.dom().contains(key) {
        m[key].len()
    } else {
        0
    }
}

impl LazyEvalScope {
    /// A scope with no levels, setters or calculation counts.
    pub fn new() -> (r: LazyEvalScope)
        ensures
            counts(r.levels).dom().is_empty(),
            setter_lists(r.setters).dom().is_empty(),
            setter_names(r.setters).len() == 0,
            counts(r.cal_times).dom().is_empty(),
            count_keys(r.levels).len() == 0,
            count_keys(r.cal_times).len() == 0,
    {
        LazyEvalScope {
            levels: crate::index_map::counts_new(),
            setters: setters_new(),
            cal_times: crate::index_map::counts_new(),
        }
    }

    /// Whether `key` is being backtracked: its level is above 0.
    pub fn is_backtracking(&self, key: &str) -> (r: bool)
        ensures
            r == (count_of(counts(self.levels), key@) > 0),
    {
        let level = match counts_get(&self.levels, key) {
            Some(l) => l,
            None => 0,
        };
        level > 0
    }

    /// How many setters `key` has.
    pub fn setter_len(&self, key: &str) -> (r: usize)
        ensures
            r == setter_count(setter_lists(self.setters), key@),
    {
        match setters_get(&self.setters, key) {
            Some(v) => v.len(),
            None => 0,
        }
    }

    /// Counts one more calculation of `key` unless it is being backtracked, and tells
    /// whether `key` has now been calculated at least once per setter.
    pub fn cal_increment(&mut self, key: &str) -> (r: bool)
        requires
            count_of(counts(old(self).levels), key@) == 0 ==> count_of(
                counts(old(self).cal_times),
                key@,
            ) < usize::MAX,
        ensures
            final(self).levels == old(self).levels,
            final(self).setters == old(self).setters,
            count_of(counts(old(self).levels), key@) > 0 ==> !r && final(self).cal_times == old(
                self,
            ).cal_times,
            count_of(counts(old(self).levels), key@) == 0 ==> {
                let next = count_of(counts(old(self).cal_times), key@) + 1;
                &&& counts(final(self).cal_times) == counts(old(self).cal_times).insert(
                    key@,
                    next as usize,
                )
                &&& count_keys(final(self).cal_times) == keys_after_insert(
                    count_keys(old(self).cal_times),
                    counts(old(self).cal_times).dom().contains(key@),
                    key@,
                )
                &&& r == (next >= setter_count(setter_lists(old(self).setters), key@))
            },
    {
        if self.is_backtracking(key) {
            false
        } else {
            let cal_time = match counts_get(&self.cal_times, key) {
                Some(c) => c,
                None => 0,
            };
            let next_cal_time = cal_time + 1;
            counts_insert(&mut self.cal_times, String::from_str(key), next_cal_time);
            next_cal_time >= self.setter_len(key)
        }
    }
}

// ------------------------------------------------------------------
// Setters of a body of statements.
// ------------------------------------------------------------------

/// The statements of a schema or body, as far as setters see them: the first name of
/// each assignment target.
#[derive(Debug)]
pub enum Stmt {
    /// `name: Schema {...}`
    Unification(String),
    /// `a = b = value`, with the first name of each target.
    Assign(Vec<String>),
    /// `name += value`
    AugAssign(String),
    /// `if ...: body else: orelse`
    If(Vec<Stmt>, Vec<Stmt>),
    /// `name: type = value` in a schema.
    SchemaAttr(String),
    /// Any other statement.
    Other,
}

/// The character sequences of a list of names.
pub open spec fn name_views(s: Seq<String>) -> Seq<Seq<char>> {
    Seq::new(s.len(), |i: int| s[i]@)
}

/// The names that a statement inside an `if` reports. A nested `if` reports the names of
/// its body, then those of its body again followed by those of its else branch.
pub open spec fn names_in_if(s: Stmt) -> Seq<Seq<char>>
    decreases s, 0int,
{
    match s {
        Stmt::Unification(n) => seq![n@],
        Stmt::Assign(targets) => name_views(targets@),
        Stmt::AugAssign(n) => seq![n@],
        Stmt::If(body, orelse) => body_names(body@, body@.len() as int) + body_names(
            body@,
            body@.len() as int,
        ) + body_names(orelse@, orelse@.len() as int),
        Stmt::SchemaAttr(n) => seq![n@],
        Stmt::Other => Seq::empty(),
    }
}

/// The names that the first `n` statements inside an `if` report, in order.
pub open spec fn body_names(stmts: Seq<Stmt>, n: int) -> Seq<Seq<char>>
    decreases stmts, n,
{
    if 0 < n <= stmts.len() {
        body_names(stmts, n - 1) + names_in_if(stmts[n - 1])
    } else {
        Seq::empty()
    }
}

/// The names that a statement of a body sets: an `if` sets the names of its body, then
/// those of its else branch.
pub open spec fn names_set(s: Stmt) -> Seq<Seq<char>> {
    match s {
        Stmt::If(body, orelse) => body_names(body@, body@.len() as int) + body_names(
            orelse@,
            orelse@.len() as int,
        ),
        _ => names_in_if(s),
    }
}

/// Each name paired with statement position `i`.
pub open spec fn at_stmt(names: Seq<Seq<char>>, i: nat) -> Seq<(Seq<char>, nat)> {
    Seq::new(names.len(), |j: int| (names[j], i))
}

/// The (name, statement position) pairs that the first `n` statements of a body set, in order.
pub open spec fn body_setters(stmts: Seq<Stmt>, n: int) -> Seq<(Seq<char>, nat)>
    decreases n,
{
    if 0 < n <= stmts.len() {
        body_setters(stmts, n - 1) + at_stmt(names_set(stmts[n - 1]), (n - 1) as nat)
    } else {
        Seq::empty()
    }
}

/// Appends `s` to the setter list of `name`, which starts empty.
pub open spec fn push_setter(m: Map<Seq<char>, Seq<Setter>>, name: Seq<char>, s: Setter) -> Map<
    Seq<char>,
    Seq<Setter>,
> {
    m.insert(
        name,
        (if m.dom().contains(name) {
            m[name]
        } else {
            Seq::empty()
        }).push(s),
    )
}

/// The order of names after `name` is added: a new name goes last.
pub open spec fn push_name(
    names: Seq<Seq<char>>,
    m: Map<Seq<char>, Seq<Setter>>,
    name: Seq<char>,
) -> Seq<Seq<char>> {
    if m.dom().contains(name) {
        names
    } else {
        names.push(name)
    }
}

/// The setter lists and name order after the setters `events`, all in `index`, are added
/// one by one.
pub open spec fn add_setters(
    m: Map<Seq<char>, Seq<Setter>>,
    names: Seq<Seq<char>>,
    events: Seq<(Seq<char>, nat)>,
    index: Option<Index>,
) -> (Map<Seq<char>, Seq<Setter>>, Seq<Seq<char>>)
    decreases events.len(),
{
    if events.len() == 0 {
        (m, names)
    } else {
        let p = add_setters(m, names, events.subrange(0, events.len() - 1), index);
        let e = events[events.len() - 1];
        (
            push_setter(p.0, e.0, Setter { index, stmt: e.1 as usize }),
            push_name(p.1, p.0, e.0),
        )
    }
}


proof fn lemma_add_setters_append(
    m: Map<Seq<char>, Seq<Setter>>,
    names: Seq<Seq<char>>,
    e1: Seq<(Seq<char>, nat)>,
    e2: Seq<(Seq<char>, nat)>,
    index: Option<Index>,
)
    ensures
        add_setters(m, names, e1 + e2, index) == {
            let p = add_setters(m, names, e1, index);
            add_setters(p.0, p.1, e2, index)
        },
    decreases e2.len(),
{
    if e2.len() == 0 {
        assert(e1 + e2 =~= e1);
    } else {
        let e2s = e2.subrange(0, e2.len() - 1);
        assert((e1 + e2).subrange(0, (e1 + e2).len() - 1) =~= e1 + e2s);
        lemma_add_setters_append(m, names, e1, e2s, index);
    }
}

proof fn lemma_at_stmt_append(a: Seq<Seq<char>>, b: Seq<Seq<char>>, i: nat)
    ensures
        at_stmt(a + b, i) =~= at_stmt(a, i) + at_stmt(b, i),
{
}

/// Adds a setter of `name` at statement `i` to the map.
fn add_stmt(name: &str, i: usize, body_map: &mut IndexMap<String, Vec<Setter>>, index: Option<Index>)
    ensures
        setter_lists(*final(body_map)) == push_setter(
            setter_lists(*old(body_map)),
            name@,
            Setter { index, stmt: i },
        ),
        setter_names(*final(body_map)) == push_name(
            setter_names(*old(body_map)),
            setter_lists(*old(body_map)),
            name@,
        ),
{
    let mut list = match setters_get(body_map, name) {
        Some(v) => copy_setters(v),
        None => Vec::new(),
    };
    list.push(Setter { index, stmt: i });
    let _ = setters_insert(body_map, String::from_str(name), list);
}

/// Adds a setter at statement `i` for each of `names`, in order.
fn add_stmts(
    names: &Vec<String>,
    i: usize,
    body_map: &mut IndexMap<String, Vec<Setter>>,
    index: Option<Index>,
)
    ensures
        (setter_lists(*final(body_map)), setter_names(*final(body_map))) == add_setters(
            setter_lists(*old(body_map)),
            setter_names(*old(body_map)),
            at_stmt(name_views(names@), i as nat),
            index,
        ),
{
    let ghost m0 = setter_lists(*body_map);
    let ghost n0 = setter_names(*body_map);
    let mut k: usize = 0;
    while k < names.len()
        invariant
            k <= names.len(),
            (setter_lists(*body_map), setter_names(*body_map)) == add_setters(
                m0,
                n0,
                at_stmt(name_views(names@).subrange(0, k as int), i as nat),
                index,
            ),
        decreases names.len() - k,
    {
        let ghost e = at_stmt(name_views(names@).subrange(0, k + 1), i as nat);
        assert(e.subrange(0, e.len() - 1) =~= at_stmt(name_views(names@).subrange(0, k as int), i as nat));
        add_stmt(names[k].as_str(), i, body_map, index);
        k += 1;
    }
    assert(name_views(names@).subrange(0, names.len() as int) =~= name_views(names@));
}

/// Appends copies of `names` to `out`.
fn push_names(names: &Vec<String>, out: &mut Vec<String>)
    ensures
        name_views(final(out)@) == name_views(old(out)@) + name_views(names@),
{
    let mut k: usize = 0;
    while k < names.len()
        invariant
            k <= names.len(),
            name_views(out@) =~= name_views(old(out)@) + name_views(names@).subrange(0, k as int),
        decreases names.len() - k,
    {
        let ghost prev = out@;
        out.push(names[k].clone());
        proof {
            assert(name_views(out@) =~= name_views(prev).push(names@[k as int]@));
            assert(name_views(names@).subrange(0, k + 1) =~= name_views(names@).subrange(
                0,
                k as int,
            ).push(names@[k as int]@));
        }
        k += 1;
    }
    assert(name_views(names@).subrange(0, names.len() as int) =~= name_views(names@));
}

/// Emit setter functions for the AST body.
pub fn emit_setters(body: &[Stmt], index: Option<Index>) -> (r: IndexMap<String, Vec<Setter>>)
    ensures
        (setter_lists(r), setter_names(r)) == add_setters(
            Map::empty(),
            Seq::empty(),
            body_setters(body@, body@.len() as int),
            index,
        ),
{
    let mut body_map = setters_new();
    let mut names: Vec<String> = Vec::new();
    assert(setter_lists(body_map) =~= Map::empty());
    assert(setter_names(body_map) =~= Seq::empty());
    emit_setters_with(body, &mut body_map, false, &mut names, index);
    body_map
}

/// Emit setter functions for the AST body: outside an `if`, each name that a statement
/// sets gets a setter at that statement; inside an `if`, the names are collected in
/// `in_if_names` instead.
pub fn emit_setters_with(
    body: &[Stmt],
    body_map: &mut IndexMap<String, Vec<Setter>>,
    is_in_if: bool,
    in_if_names: &mut Vec<String>,
    index: Option<Index>,
)
    ensures
        is_in_if ==> {
            &&& name_views(final(in_if_names)@) == name_views(old(in_if_names)@) + body_names(
                body@,
                body@.len() as int,
            )
            &&& *final(body_map) == *old(body_map)
        },
        !is_in_if ==> {
            &&& final(in_if_names)@ == old(in_if_names)@
            &&& (setter_lists(*final(body_map)), setter_names(*final(body_map))) == add_setters(
                setter_lists(*old(body_map)),
                setter_names(*old(body_map)),
                body_setters(body@, body@.len() as int),
                index,
            )
        },
    decreases body@,
{
    let ghost m0 = setter_lists(*body_map);
    let ghost n0 = setter_names(*body_map);
    let ghost i0 = name_views(in_if_names@);
    let mut i: usize = 0;
    while i < body.len()
        invariant
            i <= body@.len(),
            is_in_if ==> {
                &&& name_views(in_if_names@) == i0 + body_names(body@, i as int)
                &&& *body_map == *old(body_map)
            },
            !is_in_if ==> {
                &&& in_if_names@ == old(in_if_names)@
                &&& (setter_lists(*body_map), setter_names(*body_map)) == add_setters(
                    m0,
                    n0,
                    body_setters(body@, i as int),
                    index,
                )
            },
            m0 == setter_lists(*old(body_map)),
            n0 == setter_names(*old(body_map)),
            i0 == name_views(old(in_if_names)@),
        decreases body@.len() - i,
    {
        let ghost before_names = name_views(in_if_names@);
        let ghost before_lists = setter_lists(*body_map);
        let ghost before_order = setter_names(*body_map);
        let mut stmt_names: Vec<String> = Vec::new();
        match &body[i] {
            Stmt::Unification(name) => {
                stmt_names.push(name.clone());
            },
            Stmt::Assign(targets) => {
                push_names(targets, &mut stmt_names);
            },
            Stmt::AugAssign(name) => {
                stmt_names.push(name.clone());
            },
            Stmt::SchemaAttr(name) => {
                stmt_names.push(name.clone());
            },
            Stmt::Other => {},
            Stmt::If(if_body, orelse) => {
                let mut names: Vec<String> = Vec::new();
                emit_setters_with(if_body.as_slice(), body_map, true, &mut names, index);
                let ghost first = name_views(names@);
                if is_in_if {
                    push_names(&names, in_if_names);
                } else {
                    add_stmts(&names, i, body_map, index);
                    names.clear();
                }
                let ghost kept = name_views(names@);
                emit_setters_with(orelse.as_slice(), body_map, true, &mut names, index);
                if is_in_if {
                    push_names(&names, in_if_names);
                } else {
                    add_stmts(&names, i, body_map, index);
                    names.clear();
                }
                proof {
                    let bn = body_names(if_body@, if_body@.len() as int);
                    let on = body_names(orelse@, orelse@.len() as int);
                    assert(first == bn);
                    if is_in_if {
                        assert(name_views(in_if_names@) =~= before_names + names_in_if(body@[i as int]));
                    } else {
                        assert(kept =~= Seq::<Seq<char>>::empty());
                        assert(name_views(names@) =~= Seq::<Seq<char>>::empty());
                        lemma_at_stmt_append(bn, on, i as nat);
                        lemma_add_setters_append(
                            before_lists,
                            before_order,
                            at_stmt(bn, i as nat),
                            at_stmt(on, i as nat),
                            index,
                        );
                    }
                }
            },
        }
        if !matches!(&body[i], Stmt::If(_, _)) {
            assert(name_views(stmt_names@) == names_in_if(body@[i as int]));
            if is_in_if {
                push_names(&stmt_names, in_if_names);
            } else {
                add_stmts(&stmt_names, i, body_map, index);
            }
        }
        proof {
            if is_in_if {
                assert(name_views(in_if_names@) =~= i0 + body_names(body@, i + 1));
            } else {
                lemma_add_setters_append(
                    m0,
                    n0,
                    body_setters(body@, i as int),
                    at_stmt(names_set(body@[i as int]), i as nat),
                    index,
                );
            }
        }
        i += 1;
    }
}

// ------------------------------------------------------------------
// Merging setters.
// ------------------------------------------------------------------

/// The setter lists and name order after the setters `list` of `key` are appended.
pub open spec fn merge_one(
    m: Map<Seq<char>, Seq<Setter>>,
    names: Seq<Seq<char>>,
    key: Seq<char>,
    list: Seq<Setter>,
) -> (Map<Seq<char>, Seq<Setter>>, Seq<Seq<char>>) {
    (
        m.insert(
            key,
            if m.dom().contains(key) {
                m[key] + list
            } else {
                list
            },
        ),
        push_name(names, m, key),
    )
}

/// The setter lists and name order after the lists of the first `n` names of another
/// map are appended, in that map's order.
pub open spec fn merge_prefix(
    m: Map<Seq<char>, Seq<Setter>>,
    names: Seq<Seq<char>>,
    other: Map<Seq<char>, Seq<Setter>>,
    other_names: Seq<Seq<char>>,
    n: int,
) -> (Map<Seq<char>, Seq<Setter>>, Seq<Seq<char>>)
    decreases n,
{
    if 0 < n <= other_names.len() {
        let p = merge_prefix(m, names, other, other_names, n - 1);
        merge_one(p.0, p.1, other_names[n - 1], other[other_names[n - 1]])
    } else {
        (m, names)
    }
}

/// The setters of `k` that `m` holds, or none.
pub open spec fn setters_of(m: Map<Seq<char>, Seq<Setter>>, k: Seq<char>) -> Seq<Setter> {
    if m.dom().contains(k) {
        m[k]
    } else {
        Seq::empty()
    }
}

proof fn lemma_merge_prefix(
    m: Map<Seq<char>, Seq<Setter>>,
    names: Seq<Seq<char>>,
    other: Map<Seq<char>, Seq<Setter>>,
    other_names: Seq<Seq<char>>,
    n: int,
)
    requires
        0 <= n <= other_names.len(),
        forall|i: int, j: int|
            0 <= i < j < other_names.len() ==> #[trigger] other_names[i] != #[trigger] other_names[j],
    ensures
        forall|k: Seq<char>|
            #[trigger] merge_prefix(m, names, other, other_names, n).0.dom().contains(k) <==> (
            m.dom().contains(k) || other_names.subrange(0, n).contains(k)),
        forall|k: Seq<char>|
            merge_prefix(m, names, other, other_names, n).0.dom().contains(k) ==> #[trigger] merge_prefix(
                m,
                names,
                other,
                other_names,
                n,
            ).0[k] == setters_of(m, k) + (if other_names.subrange(0, n).contains(k) {
                other[k]
            } else {
                Seq::empty()
            }),
    decreases n,
{
    if n > 0 {
        lemma_merge_prefix(m, names, other, other_names, n - 1);
        let pre = other_names.subrange(0, n - 1);
        let cur = other_names.subrange(0, n);
        let key = other_names[n - 1];
        assert(cur =~= pre.push(key));
        assert(!pre.contains(key)) by {
            if pre.contains(key) {
                let i = choose|i: int| 0 <= i < pre.len() && pre[i] == key;
                assert(other_names[i] == other_names[n - 1]);
            }
        }
        let p = merge_prefix(m, names, other, other_names, n - 1).0;
        assert forall|k: Seq<char>| p.dom().contains(k) && k != key implies !(cur.contains(k)
            && !pre.contains(k)) by {
            if cur.contains(k) {
                let i = choose|i: int| 0 <= i < cur.len() && cur[i] == k;
                if i < n - 1 {
                    assert(pre[i] == k);
                }
            }
        }
        assert forall|k: Seq<char>| cur.contains(k) && k != key implies pre.contains(k) by {
            let i = choose|i: int| 0 <= i < cur.len() && cur[i] == k;
            assert(pre[i] == k);
        }
        assert(cur.contains(key)) by {
            assert(cur[n - 1] == key);
        }
        assert forall|k: Seq<char>| pre.contains(k) implies cur.contains(k) by {
            let i = choose|i: int| 0 <= i < pre.len() && pre[i] == k;
            assert(cur[i] == k);
        }
        assert(Seq::<Setter>::empty() + other[key] =~= other[key]);
        assert forall|k: Seq<char>| #![trigger setters_of(m, k)] true implies setters_of(m, k)
            + Seq::<Setter>::empty() == setters_of(m, k) by {
            assert(setters_of(m, k) + Seq::<Setter>::empty() =~= setters_of(m, k));
        }
    } else {
        assert forall|k: Seq<char>| !(#[trigger] other_names.subrange(0, 0).contains(k)) by {}
        assert forall|k: Seq<char>| #![trigger setters_of(m, k)] true implies setters_of(m, k)
            + Seq::<Setter>::empty() == setters_of(m, k) by {
            assert(setters_of(m, k) + Seq::<Setter>::empty() =~= setters_of(m, k));
        }
    }
}

/// Whether a dict's entries hold key `k`.
pub open spec fn has_key(entries: Seq<(Seq<char>, OptionView)>, k: Seq<char>) -> bool {
    exists|i: int| 0 <= i < entries.len() && #[trigger] entries[i].0 == k
}

/// A dict's entries after `k` is set to undefined unless the dict holds it.
pub open spec fn undefined_if_absent(entries: Seq<(Seq<char>, OptionView)>, k: Seq<char>) -> Seq<
    (Seq<char>, OptionView),
> {
    if has_key(entries, k) {
        entries
    } else {
        entries.push((k, OptionView::Undefined))
    }
}

/// A dict's entries after each of the first `n` of `keys`, in order, is set to undefined
/// unless the dict holds it.
pub open spec fn with_undefined(
    entries: Seq<(Seq<char>, OptionView)>,
    keys: Seq<Seq<char>>,
    n: int,
) -> Seq<(Seq<char>, OptionView)>
    decreases n,
{
    if 0 < n <= keys.len() {
        undefined_if_absent(with_undefined(entries, keys, n - 1), keys[n - 1])
    } else {
        entries
    }
}

proof fn lemma_with_undefined(entries: Seq<(Seq<char>, OptionView)>, keys: Seq<Seq<char>>, n: int)
    requires
        0 <= n <= keys.len(),
    ensures
        entries.len() <= with_undefined(entries, keys, n).len(),
        with_undefined(entries, keys, n).subrange(0, entries.len() as int) == entries,
        forall|i: int|
            entries.len() <= i < with_undefined(entries, keys, n).len() ==> (#[trigger] with_undefined(
                entries,
                keys,
                n,
            )[i]).1 == OptionView::Undefined,
        forall|k: Seq<char>|
            #[trigger] has_key(with_undefined(entries, keys, n), k) <==> (has_key(entries, k)
                || keys.subrange(0, n).contains(k)),
    decreases n,
{
    let r = with_undefined(entries, keys, n);
    if n > 0 {
        lemma_with_undefined(entries, keys, n - 1);
        let p = with_undefined(entries, keys, n - 1);
        let key = keys[n - 1];
        assert(keys.subrange(0, n) =~= keys.subrange(0, n - 1).push(key));
        assert(r.subrange(0, entries.len() as int) =~= p.subrange(0, entries.len() as int));
        assert forall|k: Seq<char>| #[trigger] has_key(r, k) <==> (has_key(p, k) || k == key) by {
            if !has_key(p, key) {
                if has_key(r, k) {
                    let i = choose|i: int| 0 <= i < r.len() && #[trigger] r[i].0 == k;
                    if i < p.len() {
                        assert(p[i].0 == k);
                    }
                }
                if has_key(p, k) {
                    let i = choose|i: int| 0 <= i < p.len() && #[trigger] p[i].0 == k;
                    assert(r[i].0 == k);
                }
                if k == key {
                    assert(r[p.len() as int].0 == k);
                }
            }
        }
        let cur = keys.subrange(0, n);
        let pre = keys.subrange(0, n - 1);
        assert forall|k: Seq<char>| cur.contains(k) <==> (pre.contains(k) || k == key) by {
            if cur.contains(k) {
                let i = choose|i: int| 0 <= i < cur.len() && cur[i] == k;
                if i < n - 1 {
                    assert(pre[i] == k);
                }
            }
            if pre.contains(k) {
                let i = choose|i: int| 0 <= i < pre.len() && pre[i] == k;
                assert(cur[i] == k);
            }
            if k == key {
                assert(cur[n - 1] == k);
            }
        }
    } else {
        assert(entries.subrange(0, entries.len() as int) =~= entries);
        assert forall|k: Seq<char>| !(#[trigger] keys.subrange(0, 0).contains(k)) by {}
    }
}

/// Sets `key` to undefined in a dict's entries unless the dict holds it.
fn set_undefined_if_absent(v: &mut Vec<(String, OptionValue)>, key: &String)
    ensures
        view_entries(final(v)@) == undefined_if_absent(view_entries(old(v)@), key@),
{
    proof {
        lemma_view_entries_len(v@);
    }
    let mut i: usize = 0;
    while i < v.len()
        invariant
            i <= v.len(),
            view_entries(v@).len() == v.len(),
            forall|j: int| 0 <= j < i ==> #[trigger] view_entries(v@)[j].0 != key@,
        decreases v.len() - i,
    {
        proof {
            lemma_view_entries_index(v@, i as int);
        }
        if text_eq(v[i].0.as_str(), key.as_str()) {
            assert(view_entries(v@)[i as int].0 == key@);
            return;
        }
        i += 1;
    }
    let entry = (key.clone(), OptionValue::Undefined);
    proof {
        lemma_view_entries_push(v@, entry);
    }
    v.push(entry);
}

/// Merge setters: each name of `other`, in its order, gets its setters appended to those
/// that `s` holds for it, and the dict `v` being built gets an undefined entry for each
/// such name that it does not hold yet, so that no setter reads its own name unset.
pub fn merge_setters(
    v: &mut Vec<(String, OptionValue)>,
    s: &mut IndexMap<String, Vec<Setter>>,
    other: &IndexMap<String, Vec<Setter>>,
)
    ensures
        (setter_lists(*final(s)), setter_names(*final(s))) == merge_prefix(
            setter_lists(*old(s)),
            setter_names(*old(s)),
            setter_lists(*other),
            setter_names(*other),
            setter_names(*other).len() as int,
        ),
        forall|k: Seq<char>|
            #[trigger] setter_lists(*final(s)).dom().contains(k) <==> (setter_lists(
                *old(s),
            ).dom().contains(k) || setter_lists(*other).dom().contains(k)),
        forall|k: Seq<char>|
            setter_lists(*final(s)).dom().contains(k) ==> #[trigger] setter_lists(*final(s))[k]
                == setters_of(setter_lists(*old(s)), k) + setters_of(setter_lists(*other), k),
        view_entries(final(v)@) == with_undefined(
            view_entries(old(v)@),
            setter_names(*other),
            setter_names(*other).len() as int,
        ),
        view_entries(final(v)@).subrange(0, old(v)@.len() as int) == view_entries(old(v)@),
        forall|i: int|
            old(v)@.len() <= i < view_entries(final(v)@).len() ==> (
            #[trigger] view_entries(final(v)@)[i]).1 == OptionView::Undefined,
        forall|k: Seq<char>|
            #[trigger] has_key(view_entries(final(v)@), k) <==> (has_key(view_entries(old(v)@), k)
                || setter_lists(*other).dom().contains(k)),
{
    let n = setters_len(other);
    let mut i: usize = 0;
    while i < n
        invariant
            n == setter_names(*other).len(),
            i <= n,
            (setter_lists(*s), setter_names(*s)) == merge_prefix(
                setter_lists(*old(s)),
                setter_names(*old(s)),
                setter_lists(*other),
                setter_names(*other),
                i as int,
            ),
            view_entries(v@) == with_undefined(view_entries(old(v)@), setter_names(*other), i as int),
            forall|a: int, b: int|
                0 <= a < i && 0 <= b < n && a != b ==> #[trigger] setter_names(*other)[a]
                    != #[trigger] setter_names(*other)[b],
        decreases n - i,
    {
        let (key, setters) = match setters_get_index(other, i) {
            Some(entry) => entry,
            None => {
                return;
            },
        };
        let merged = match setters_get(s, key.as_str()) {
            Some(values) => {
                let mut list = copy_setters(values);
                let mut k: usize = 0;
                while k < setters.len()
                    invariant
                        k <= setters.len(),
                        list@ == values@ + setters@.subrange(0, k as int),
                    decreases setters.len() - k,
                {
                    list.push(setters[k].copy());
                    assert(setters@.subrange(0, k + 1) =~= setters@.subrange(0, k as int).push(
                        setters@[k as int],
                    ));
                    k += 1;
                }
                assert(setters@.subrange(0, setters.len() as int) =~= setters@);
                list
            },
            None => copy_setters(setters),
        };
        let _ = setters_insert(s, key.clone(), merged);
        set_undefined_if_absent(v, key);
        i += 1;
    }
    let ghost names = setter_names(*other);
    proof {
        assert(names.subrange(0, n as int) =~= names);
        assert(names.take(n as int) =~= names);
        lemma_merge_prefix(
            setter_lists(*old(s)),
            setter_names(*old(s)),
            setter_lists(*other),
            names,
            n as int,
        );
        lemma_with_undefined(view_entries(old(v)@), names, n as int);
        lemma_view_entries_len(old(v)@);
        let m0 = setter_lists(*old(s));
        let o = setter_lists(*other);
        let m1 = setter_lists(*s);
        assert(m1 == merge_prefix(m0, setter_names(*old(s)), o, names, n as int).0);
        assert forall|k: Seq<char>| #[trigger] o.dom().contains(k) <==> names.contains(k) by {
            assert(names.to_set().contains(k) <==> names.contains(k));
        }
        assert forall|k: Seq<char>| #[trigger] m1.dom().contains(k) <==> (m0.dom().contains(k)
            || o.dom().contains(k)) by {
            assert(names.subrange(0, n as int).contains(k) == names.contains(k));
        }
        assert forall|k: Seq<char>| m1.dom().contains(k) implies #[trigger] m1[k] == setters_of(m0, k)
            + setters_of(o, k) by {
            assert(names.subrange(0, n as int).contains(k) == names.contains(k));
            assert(o.dom().contains(k) <==> names.contains(k));
            if !o.dom().contains(k) {
                assert(setters_of(o, k) == Seq::<Setter>::empty());
            }
        }
        assert forall|k: Seq<char>| #[trigger] has_key(view_entries(v@), k) <==> (has_key(
            view_entries(old(v)@),
            k,
        ) || o.dom().contains(k)) by {
            assert(names.subrange(0, n as int).contains(k) == names.contains(k));
        }
    }
}
} // verus!
