use tree_sitter_graph::{ExecutionContext, ExecutionError, Expression, Graph, GraphNodeRef, NodeIdentities, NoFunctions, SyntaxNodeRef, Value};

#[test]
fn node_statement_names_nodes_by_syntax_node_and_path() {
    let mut cx = ExecutionContext::new();
    let a = cx.node_statement(1, ".def");
    let b = cx.node_statement(1, ".def");
    let c = cx.node_statement(2, ".def");
    assert_eq!(a, b);
    assert_ne!(a, c);
    assert_eq!(cx.graph.node_count(), 2);
}

#[test]
fn edge_statement_needs_both_nodes() {
    let mut cx = ExecutionContext::new();
    let a = cx.node_statement(1, ".a");
    assert!(matches!(cx.edge_statement(a, GraphNodeRef(5)), Err(ExecutionError::UndefinedGraphNode(m)) if m == "[graph node 5]"));
    let b = cx.node_statement(1, ".b");
    assert!(cx.edge_statement(a, b).is_ok());
    assert!(cx.edge_statement(a, b).is_ok());
    assert_eq!(cx.graph.node(a).edge_count(), 1);
}

#[test]
fn attr_statement_rejects_missing_nodes_and_rewrites() {
    let mut cx = ExecutionContext::new();
    assert!(matches!(
        cx.attr_statement(GraphNodeRef(0), "k".to_string(), Value::Null),
        Err(ExecutionError::UndefinedGraphNode(_))
    ));
    let a = cx.node_statement(3, ".x");
    assert!(cx.attr_statement(a, "k".to_string(), Value::Integer(1)).is_ok());
    assert!(matches!(
        cx.attr_statement(a, "k".to_string(), Value::Integer(2)),
        Err(ExecutionError::DuplicateAttribute(m)) if m == "k"
    ));
    assert!(matches!(cx.graph.node(a).attribute_set().get("k"), Some(Value::Integer(1))));
}

#[test]
fn edge_attr_statement_needs_the_edge() {
    let mut cx = ExecutionContext::new();
    let a = cx.node_statement(1, ".a");
    let b = cx.node_statement(1, ".b");
    assert!(matches!(
        cx.edge_attr_statement(a, b, "w".to_string(), Value::Integer(1)),
        Err(ExecutionError::UndefinedGraphNode(_))
    ));
    assert!(cx.edge_statement(a, b).is_ok());
    assert!(cx.edge_attr_statement(a, b, "w".to_string(), Value::Integer(1)).is_ok());
    assert!(matches!(
        cx.edge_attr_statement(a, b, "w".to_string(), Value::Integer(2)),
        Err(ExecutionError::DuplicateAttribute(_))
    ));
}

#[test]
fn scoped_write_survives_the_block() {
    let mut cx = ExecutionContext::new();
    assert!(cx.variables.define_scoped(4, "v".to_string(), Value::Integer(9), false).is_ok());
    assert!(cx.variables.define_local("l".to_string(), Value::Null, false).is_ok());
    cx.end_block();
    assert!(matches!(cx.variables.get_scoped(4, "v"), Ok(Value::Integer(9))));
    assert!(cx.variables.lookup(4, "l").is_err());
    assert!(cx.variables.lookup(5, "v").is_err());
}

#[test]
fn tag_paths_extend_from_graph_nodes() {
    let mut g = Graph::new();
    let mut ids = NodeIdentities::new();
    let a = ids.resolve(&mut g, 8, ".scope");
    let b = ids.extend(&mut g, a, ".def").ok().unwrap();
    let direct = ids.resolve(&mut g, 8, ".scope.def");
    assert_eq!(b, direct);
    assert_eq!(g.node_count(), 2);
    let unnamed = g.add_graph_node();
    assert!(matches!(ids.extend(&mut g, unnamed, ".x"), Err(ExecutionError::UndefinedGraphNode(_))));
}

#[test]
fn conversions_into_values() {
    assert!(matches!(Value::from(true), Value::Boolean(true)));
    assert!(matches!(Value::from(7u32), Value::Integer(7)));
    assert_eq!(Value::from("s".to_string()).as_str().ok(), Some("s"));
    assert!(matches!(Value::from(vec![Value::Null]), Value::List(v) if v.len() == 1));
    assert!(matches!(Value::from(GraphNodeRef(3)), Value::GraphNode(GraphNodeRef(3))));
    let n = SyntaxNodeRef { index: 2, kind: "k".to_string(), row: 0, column: 0 };
    assert!(matches!(Value::from(n), Value::SyntaxNode(_)));
}

#[test]
fn references_display_themselves() {
    assert_eq!(GraphNodeRef(12).display(), "[graph node 12]");
    let n = SyntaxNodeRef { index: 2, kind: "name".to_string(), row: 4, column: 0 };
    assert_eq!(n.display(), "[syntax node name (5, 1)]");
}

#[test]
fn syntax_node_values_find_their_record() {
    let mut g = Graph::new();
    let r = g.add_syntax_node(SyntaxNodeRef { index: 3, kind: "id".to_string(), row: 1, column: 1 });
    let v = Value::SyntaxNode(r);
    assert_eq!(v.into_syntax_node(&g).map(|n| n.kind().to_string()).ok(), Some("id".to_string()));
    assert!(matches!(Value::Null.into_syntax_node(&g), Err(ExecutionError::ExpectedSyntaxNode(_))));
}

fn syntax(index: u32) -> Expression {
    Expression::Variable(format!("node{}", index))
}

fn context_with_syntax_nodes() -> ExecutionContext {
    let mut cx = ExecutionContext::new();
    for index in [1u32, 2] {
        let n = cx.graph.add_syntax_node(SyntaxNodeRef { index, kind: "id".to_string(), row: 0, column: 0 });
        assert!(cx.variables.add_global(format!("node{}", index), Value::SyntaxNode(n)).is_ok());
    }
    cx
}

#[test]
fn literals_evaluate_to_themselves() {
    let mut cx = ExecutionContext::new();
    assert!(matches!(cx.evaluate(&NoFunctions, 0, &Expression::Null), Ok(Value::Null)));
    assert!(matches!(cx.evaluate(&NoFunctions, 0, &Expression::Boolean(true)), Ok(Value::Boolean(true))));
    assert!(matches!(cx.evaluate(&NoFunctions, 0, &Expression::Integer(7)), Ok(Value::Integer(7))));
    assert_eq!(cx.evaluate(&NoFunctions, 0, &Expression::String("s".to_string())).ok().map(|v| v.display()), Some("\"s\"".to_string()));
}

#[test]
fn list_and_set_literals() {
    let mut cx = ExecutionContext::new();
    let list = Expression::ListLiteral(vec![Expression::Integer(1), Expression::Integer(1), Expression::Integer(2)]);
    assert_eq!(cx.evaluate(&NoFunctions, 0, &list).ok().map(|v| v.display()), Some("[1, 1, 2]".to_string()));
    let set = Expression::SetLiteral(vec![Expression::Integer(1), Expression::Integer(1)]);
    assert_eq!(cx.evaluate(&NoFunctions, 0, &set).ok().map(|v| v.display()), Some("{1}".to_string()));
}

#[test]
fn unknown_variable_is_an_error() {
    let mut cx = ExecutionContext::new();
    assert!(matches!(
        cx.evaluate(&NoFunctions, 0, &Expression::Variable("nope".to_string())),
        Err(ExecutionError::UndefinedVariable(m)) if m == "nope"
    ));
}

#[test]
fn tag_paths_resolve_to_the_same_node_every_time() {
    let mut cx = context_with_syntax_nodes();
    let e = Expression::TagPath(Box::new(syntax(1)), ".def".to_string());
    let first = cx.evaluate(&NoFunctions, 0, &e).ok().unwrap().as_graph_node_ref().ok().unwrap();
    let second = cx.evaluate(&NoFunctions, 0, &e).ok().unwrap().as_graph_node_ref().ok().unwrap();
    assert_eq!(first, second);
    assert_eq!(cx.graph.node_count(), 1);
    let other = Expression::TagPath(Box::new(syntax(2)), ".def".to_string());
    let third = cx.evaluate(&NoFunctions, 0, &other).ok().unwrap().as_graph_node_ref().ok().unwrap();
    assert_ne!(first, third);
    let nested = Expression::TagPath(Box::new(e), ".ref".to_string());
    let fourth = cx.evaluate(&NoFunctions, 0, &nested).ok().unwrap().as_graph_node_ref().ok().unwrap();
    let direct = cx.evaluate(&NoFunctions, 0, &Expression::TagPath(Box::new(syntax(1)), ".def.ref".to_string())).ok().unwrap();
    assert_eq!(direct.as_graph_node_ref().ok(), Some(fourth));
    assert!(matches!(
        cx.evaluate(&NoFunctions, 0, &Expression::TagPath(Box::new(Expression::Integer(1)), ".x".to_string())),
        Err(ExecutionError::ExpectedSyntaxNode(_))
    ));
}

#[test]
fn scoped_variables_are_read_through_their_node() {
    let mut cx = context_with_syntax_nodes();
    assert!(cx.variables.define_scoped(1, "v".to_string(), Value::Integer(5), false).is_ok());
    let e = Expression::ScopedVariable(Box::new(syntax(1)), "v".to_string());
    assert!(matches!(cx.evaluate(&NoFunctions, 0, &e), Ok(Value::Integer(5))));
    let other = Expression::ScopedVariable(Box::new(syntax(2)), "v".to_string());
    assert!(matches!(cx.evaluate(&NoFunctions, 0, &other), Err(ExecutionError::UndefinedVariable(_))));
    assert!(matches!(cx.evaluate(&NoFunctions, 1, &Expression::Variable("v".to_string())), Ok(Value::Integer(5))));
    assert!(matches!(cx.evaluate(&NoFunctions, 2, &Expression::Variable("v".to_string())), Err(ExecutionError::UndefinedVariable(_))));
}
