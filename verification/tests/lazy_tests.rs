use generational_arena::Index;
use kclvm_sema::index_map::{counts_insert, setters_insert};
use kclvm_sema::lazy::{emit_setters, emit_setters_with, merge_setters, LazyEvalScope, Setter, Stmt};
use kclvm_sema::option::OptionValue;

fn setter(index: Option<Index>, stmt: usize) -> Setter {
    Setter { index, stmt }
}

fn stmts(setters: &[Setter]) -> Vec<usize> {
    setters.iter().map(|s| s.stmt).collect()
}

#[test]
fn scope_backtracking_and_setter_len() {
    let mut scope = LazyEvalScope::new();
    assert!(!scope.is_backtracking("a"));
    counts_insert(&mut scope.levels, "a".to_string(), 2);
    counts_insert(&mut scope.levels, "b".to_string(), 0);
    assert!(scope.is_backtracking("a"));
    assert!(!scope.is_backtracking("b"));
    assert_eq!(scope.setter_len("a"), 0);
    setters_insert(&mut scope.setters, "a".to_string(), vec![setter(None, 0), setter(None, 3)]);
    assert_eq!(scope.setter_len("a"), 2);
}

#[test]
fn cal_increment_counts_until_all_setters_ran() {
    let mut scope = LazyEvalScope::new();
    setters_insert(&mut scope.setters, "x".to_string(), vec![setter(None, 0), setter(None, 1)]);
    assert!(!scope.cal_increment("x"));
    assert_eq!(*scope.cal_times.get("x").unwrap(), 1);
    assert!(scope.cal_increment("x"));
    assert_eq!(*scope.cal_times.get("x").unwrap(), 2);
    // A key being backtracked is not counted.
    counts_insert(&mut scope.levels, "x".to_string(), 1);
    assert!(!scope.cal_increment("x"));
    assert_eq!(*scope.cal_times.get("x").unwrap(), 2);
    // A key with no setters is settled at once.
    assert!(scope.cal_increment("y"));
    let keys: Vec<&String> = scope.cal_times.keys().collect();
    assert_eq!(keys, vec!["x", "y"]);
}

#[test]
fn emit_setters_by_statement() {
    let index = Index::from_raw_parts(3, 7);
    let body = vec![
        Stmt::Assign(vec!["a".to_string(), "b".to_string()]),
        Stmt::Other,
        Stmt::AugAssign("a".to_string()),
        Stmt::If(
            vec![Stmt::Unification("c".to_string())],
            vec![Stmt::SchemaAttr("a".to_string())],
        ),
    ];
    let map = emit_setters(&body, Some(index));
    let keys: Vec<&String> = map.keys().collect();
    assert_eq!(keys, vec!["a", "b", "c"]);
    assert_eq!(stmts(map.get("a").unwrap()), vec![0, 2, 3]);
    assert_eq!(stmts(map.get("b").unwrap()), vec![0]);
    assert_eq!(stmts(map.get("c").unwrap()), vec![3]);
    assert!(map.get("a").unwrap().iter().all(|s| s.index == Some(index)));
}

#[test]
fn emit_setters_nested_if_repeats_body_names() {
    let body = vec![Stmt::If(
        vec![Stmt::If(
            vec![Stmt::Assign(vec!["x".to_string()])],
            vec![Stmt::Assign(vec!["y".to_string()])],
        )],
        vec![],
    )];
    let map = emit_setters(&body, None);
    assert_eq!(stmts(map.get("x").unwrap()), vec![0, 0]);
    assert_eq!(stmts(map.get("y").unwrap()), vec![0]);
    let mut names = vec![];
    let mut untouched = indexmap::IndexMap::new();
    emit_setters_with(&body, &mut untouched, true, &mut names, None);
    assert_eq!(names, vec!["x", "x", "y", "x", "x", "y"]);
    assert!(untouched.is_empty());
}

#[test]
fn merge_setters_appends_in_order() {
    let mut s = indexmap::IndexMap::new();
    setters_insert(&mut s, "a".to_string(), vec![setter(None, 0)]);
    let mut other = indexmap::IndexMap::new();
    setters_insert(&mut other, "b".to_string(), vec![setter(None, 5)]);
    setters_insert(&mut other, "a".to_string(), vec![setter(None, 1), setter(None, 2)]);
    let mut v = vec![("a".to_string(), OptionValue::Int(1))];
    merge_setters(&mut v, &mut s, &other);
    assert_eq!(
        v,
        vec![("a".to_string(), OptionValue::Int(1)), ("b".to_string(), OptionValue::Undefined)]
    );
    assert_eq!(stmts(s.get("a").unwrap()), vec![0, 1, 2]);
    assert_eq!(stmts(s.get("b").unwrap()), vec![5]);
    let order: Vec<&String> = s.keys().collect();
    assert_eq!(order, vec!["a", "b"]);
}
