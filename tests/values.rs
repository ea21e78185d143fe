use tree_sitter_graph::{compare_values, set_of, values_equal, Attributes, ExecutionError, GraphNodeRef, SyntaxNodeRef, Value};

#[test]
fn set_literal_collapses_equal_items() {
    let s = set_of(vec![Value::Integer(1), Value::Integer(1)]);
    match s {
        Value::ValueSet(items) => {
            assert_eq!(items.len(), 1);
            assert!(matches!(items[0], Value::Integer(1)));
        }
        _ => panic!("not a set"),
    }
}

#[test]
fn set_literal_orders_its_items() {
    let s = set_of(vec![Value::Integer(2), Value::Integer(1), Value::Integer(2)]);
    assert_eq!(s.display(), "{1, 2}");
    let t = set_of(vec![Value::String("b".to_string()), Value::String("a".to_string()), Value::Null]);
    assert_eq!(t.display(), "{#null, \"a\", \"b\"}");
}

#[test]
fn set_literal_orders_by_variant_then_contents() {
    let s = set_of(vec![
        Value::String("b".to_string()),
        Value::Integer(3),
        Value::String("b".to_string()),
        Value::List(vec![Value::Null]),
        Value::List(vec![Value::Null]),
    ]);
    assert_eq!(s.display(), "{3, \"b\", [#null]}");
}

#[test]
fn list_literal_keeps_duplicates() {
    let l = Value::List(vec![Value::Integer(1), Value::Integer(1)]);
    assert_eq!(l.display(), "[1, 1]");
}

#[test]
fn equality_looks_inside_values() {
    assert!(values_equal(&Value::String("a".to_string()), &Value::String("a".to_string())));
    assert!(!values_equal(&Value::String("a".to_string()), &Value::String("b".to_string())));
    assert!(!values_equal(&Value::Integer(1), &Value::Boolean(true)));
    assert!(values_equal(
        &Value::List(vec![Value::Integer(1), Value::GraphNode(GraphNodeRef(2))]),
        &Value::List(vec![Value::Integer(1), Value::GraphNode(GraphNodeRef(2))])
    ));
    assert!(!values_equal(&Value::List(vec![Value::Integer(1)]), &Value::List(vec![])));
}

#[test]
fn display_of_each_kind() {
    assert_eq!(Value::Null.display(), "#null");
    assert_eq!(Value::Boolean(true).display(), "#true");
    assert_eq!(Value::Boolean(false).display(), "#false");
    assert_eq!(Value::Integer(42).display(), "42");
    assert_eq!(Value::String("a\nb".to_string()).display(), "\"a\\nb\"");
    assert_eq!(Value::GraphNode(GraphNodeRef(5)).display(), "[graph node 5]");
    let n = SyntaxNodeRef { index: 1, kind: "call".to_string(), row: 0, column: 3 };
    assert_eq!(Value::SyntaxNode(n).display(), "[syntax node call (1, 4)]");
}

#[test]
fn coercions_report_what_they_got() {
    assert_eq!(Value::Boolean(true).as_boolean().ok(), Some(true));
    match Value::Integer(3).into_boolean() {
        Err(ExecutionError::ExpectedBoolean(m)) => assert_eq!(m, "got 3"),
        _ => panic!("expected an error"),
    }
    assert_eq!(Value::Integer(3).as_integer().ok(), Some(3));
    match Value::Null.into_integer() {
        Err(ExecutionError::ExpectedInteger(m)) => assert_eq!(m, "got #null"),
        _ => panic!("expected an error"),
    }
    assert_eq!(Value::String("s".to_string()).into_string().ok(), Some("s".to_string()));
    match Value::Boolean(false).as_str() {
        Err(ExecutionError::ExpectedString(m)) => assert_eq!(m, "got #false"),
        _ => panic!("expected an error"),
    }
    assert_eq!(Value::List(vec![Value::Null]).into_list().map(|l| l.len()).ok(), Some(1));
    match Value::Integer(1).as_list() {
        Err(ExecutionError::ExpectedList(m)) => assert_eq!(m, "got 1"),
        _ => panic!("expected an error"),
    }
    assert_eq!(Value::GraphNode(GraphNodeRef(4)).as_graph_node_ref().ok(), Some(GraphNodeRef(4)));
    match Value::Null.into_graph_node_ref() {
        Err(ExecutionError::ExpectedGraphNode(m)) => assert_eq!(m, "got #null"),
        _ => panic!("expected an error"),
    }
    let n = SyntaxNodeRef { index: 9, kind: "k".to_string(), row: 0, column: 0 };
    assert_eq!(Value::SyntaxNode(n).into_syntax_node_ref().map(|r| r.index()).ok(), Some(9));
    match Value::Integer(2).as_syntax_node_ref() {
        Err(ExecutionError::ExpectedSyntaxNode(m)) => assert_eq!(m, "got 2"),
        _ => panic!("expected an error"),
    }
    assert!(Value::Null.is_null());
    assert!(!Value::Integer(0).is_null());
}

#[test]
fn attribute_written_twice_is_a_conflict() {
    let mut a = Attributes::new();
    assert_eq!(a.add("name".to_string(), Value::Integer(1)), Ok(()));
    assert_eq!(a.add("name".to_string(), Value::Integer(2)), Err(()));
    assert!(matches!(a.get("name"), Some(Value::Integer(1))));
    assert_eq!(a.len(), 1);
    assert!(a.get("other").is_none());
}

#[test]
fn values_compare_by_variant_then_contents() {
    assert_eq!(compare_values(&Value::Null, &Value::Boolean(false)), -1);
    assert_eq!(compare_values(&Value::Integer(5), &Value::Integer(3)), 1);
    assert_eq!(compare_values(&Value::String("ab".to_string()), &Value::String("b".to_string())), -1);
    assert_eq!(
        compare_values(&Value::List(vec![Value::Integer(1)]), &Value::List(vec![Value::Integer(1), Value::Null])),
        -1
    );
    assert_eq!(compare_values(&Value::GraphNode(GraphNodeRef(2)), &Value::GraphNode(GraphNodeRef(2))), 0);
}
