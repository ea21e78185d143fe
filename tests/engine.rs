use tree_sitter_graph::{capture_texts, next_cursor, scan, select_arm, span_text, ExecutionError, Graph, NodeIdentities, Value, Variables};

#[test]
fn scan_fires_in_start_order() {
    let subject = "a1b22c";
    let arms = vec!["[0-9]+".to_string(), "[a-z]".to_string()];
    let ms = scan(subject, &arms).ok().unwrap();
    let fired: Vec<(usize, &str)> = ms
        .iter()
        .map(|m| {
            let (s, e) = m.groups[0].unwrap();
            (m.arm, &subject[s..e])
        })
        .collect();
    assert_eq!(fired, vec![(1, "a"), (0, "1"), (1, "b"), (0, "22"), (1, "c")]);
}

#[test]
fn scan_breaks_ties_by_arm_order() {
    let subject = "ab";
    let arms = vec!["a".to_string(), "ab".to_string()];
    let ms = scan(subject, &arms).ok().unwrap();
    assert_eq!(ms.len(), 1);
    assert_eq!(ms[0].arm, 0);
    assert_eq!(ms[0].groups[0], Some((0, 1)));
}

#[test]
fn scan_reports_capture_groups() {
    let subject = "x=1";
    let arms = vec!["([a-z])=([0-9])".to_string()];
    let ms = scan(subject, &arms).ok().unwrap();
    assert_eq!(ms.len(), 1);
    assert_eq!(ms[0].groups, vec![Some((0, 3)), Some((0, 1)), Some((2, 3))]);
}

#[test]
fn scan_moves_past_empty_matches() {
    let subject = "ab";
    let arms = vec!["x*".to_string()];
    let ms = scan(subject, &arms).ok().unwrap();
    let starts: Vec<usize> = ms.iter().map(|m| m.groups[0].unwrap().0).collect();
    assert_eq!(starts, vec![0, 1, 2]);
}

#[test]
fn scan_rejects_an_invalid_pattern() {
    let arms = vec!["(".to_string()];
    assert!(matches!(scan("abc", &arms), Err(ExecutionError::InvalidPattern(p)) if p == "("));
}

#[test]
fn select_arm_prefers_earliest_start_then_first_arm() {
    assert_eq!(select_arm(&vec![Some((3, 4)), Some((1, 5)), Some((1, 2))]), Some(1));
    assert_eq!(select_arm(&vec![None, None]), None);
    assert_eq!(select_arm(&vec![None, Some((0, 0))]), Some(1));
}

#[test]
fn next_cursor_advances_by_a_character() {
    assert_eq!(next_cursor("abc", 0, 2), 2);
    assert_eq!(next_cursor("abc", 1, 1), 2);
    assert_eq!(next_cursor("é", 0, 0), 2);
    assert_eq!(next_cursor("ab", 2, 2), 3);
}

#[test]
fn tag_path_resolution_is_stable() {
    let mut g = Graph::new();
    let mut ids = NodeIdentities::new();
    let a = ids.resolve(&mut g, 5, ".def");
    let b = ids.resolve(&mut g, 5, ".ref");
    let c = ids.resolve(&mut g, 6, ".def");
    let again = ids.resolve(&mut g, 5, ".def");
    assert_eq!(a, again);
    assert_ne!(a, b);
    assert_ne!(a, c);
    assert_eq!(g.node_count(), 3);
    assert_eq!(ids.lookup(6, ".def"), Some(c));
    assert_eq!(ids.lookup(6, ".ref"), None);
}

#[test]
fn scoped_variables_are_read_by_qualified_name() {
    let mut v = Variables::new();
    assert!(v.define_scoped(10, "x".to_string(), Value::Integer(1), false).is_ok());
    v.clear_locals();
    assert!(matches!(v.get_scoped(10, "x"), Ok(Value::Integer(1))));
    assert!(matches!(v.lookup(11, "x"), Err(ExecutionError::UndefinedVariable(_))));
    assert!(matches!(v.get_scoped(11, "x"), Err(ExecutionError::UndefinedVariable(_))));
    assert!(matches!(v.lookup(10, "x"), Ok(Value::Integer(1))));
}

#[test]
fn locals_shadow_scoped_and_globals() {
    let mut v = Variables::new();
    assert!(v.add_global("x".to_string(), Value::Integer(1)).is_ok());
    assert!(matches!(v.lookup(0, "x"), Ok(Value::Integer(1))));
    assert!(v.define_scoped(3, "x".to_string(), Value::Integer(2), true).is_ok());
    assert!(matches!(v.lookup(3, "x"), Ok(Value::Integer(2))));
    assert!(v.define_local("x".to_string(), Value::Integer(3), false).is_ok());
    assert!(matches!(v.lookup(3, "x"), Ok(Value::Integer(3))));
    v.clear_locals();
    assert!(matches!(v.lookup(3, "x"), Ok(Value::Integer(2))));
}

#[test]
fn let_var_and_set_rules() {
    let mut v = Variables::new();
    assert!(v.define_local("a".to_string(), Value::Integer(1), false).is_ok());
    assert!(matches!(v.define_local("a".to_string(), Value::Integer(2), true), Err(ExecutionError::DuplicateVariable(_))));
    assert!(matches!(v.set_local("a".to_string(), Value::Integer(2)), Err(ExecutionError::CannotAssignImmutableVariable(_))));
    assert!(matches!(v.set_local("b".to_string(), Value::Integer(2)), Err(ExecutionError::UndefinedVariable(_))));
    assert!(v.define_local("b".to_string(), Value::Integer(1), true).is_ok());
    assert!(v.set_local("b".to_string(), Value::Integer(5)).is_ok());
    assert!(matches!(v.lookup(0, "b"), Ok(Value::Integer(5))));
    assert!(v.define_scoped(1, "s".to_string(), Value::Null, true).is_ok());
    assert!(v.set_scoped(1, "s".to_string(), Value::Boolean(true)).is_ok());
    assert!(matches!(v.get_scoped(1, "s"), Ok(Value::Boolean(true))));
    assert!(matches!(v.set_scoped(2, "s".to_string(), Value::Null), Err(ExecutionError::UndefinedVariable(_))));
    assert!(matches!(v.lookup(0, "zzz"), Err(ExecutionError::UndefinedVariable(_))));
}

#[test]
fn capture_texts_bind_each_group() {
    let subject = "x=1";
    let arms = vec!["([a-z])=([0-9])(z)?".to_string()];
    let ms = scan(subject, &arms).ok().unwrap();
    assert_eq!(ms.len(), 1);
    let texts = capture_texts(subject, &ms[0]);
    assert_eq!(texts, vec!["x=1".to_string(), "x".to_string(), "1".to_string(), String::new()]);
}

#[test]
fn span_text_cuts_on_character_boundaries() {
    assert_eq!(span_text("héllo", (1, 3)), "é");
    assert_eq!(span_text("abc", (1, 1)), "");
    assert_eq!(span_text("abc", (0, 3)), "abc");
}
