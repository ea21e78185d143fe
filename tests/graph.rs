use tree_sitter_graph::{Graph, GraphNodeRef, SyntaxNodeRef, Value};

fn sample() -> Graph {
    let mut g = Graph::new();
    let a = g.add_graph_node();
    let b = g.add_graph_node();
    assert_eq!(g.add_edge(a, b), Ok(()));
    assert_eq!(g.add_edge_attribute(a, b, "p".to_string(), Value::Integer(10)), Some(Ok(())));
    assert_eq!(g.add_node_attribute(a, "name".to_string(), Value::String("x".to_string())), Ok(()));
    g
}

#[test]
fn structured_form_of_two_nodes() {
    let g = sample();
    let recs = g.records();
    assert_eq!(recs.len(), 2);
    assert_eq!(recs[0].id, 0);
    assert_eq!(recs[0].edges.len(), 1);
    assert_eq!(recs[0].edges[0].sink, 1);
    let edge = g.node(GraphNodeRef(0)).get_edge(GraphNodeRef(1)).unwrap();
    let entries = edge.attributes.iter();
    assert_eq!(recs[0].edges[0].attrs.len(), 1);
    let (name, value) = &entries[recs[0].edges[0].attrs[0]];
    assert_eq!(name, "p");
    assert!(matches!(value, Value::Integer(10)));
    let node_entries = g.node(GraphNodeRef(0)).attribute_set().iter();
    assert_eq!(recs[0].attrs.len(), 1);
    let (name, value) = &node_entries[recs[0].attrs[0]];
    assert_eq!(name, "name");
    assert_eq!(value.as_str().ok(), Some("x"));
    assert_eq!(recs[1].id, 1);
    assert!(recs[1].edges.is_empty());
    assert!(recs[1].attrs.is_empty());
}

#[test]
fn pretty_print_lists_nodes_edges_and_attributes() {
    let g = sample();
    assert_eq!(g.pretty_print(), "node 0\n  name: \"x\"\nedge 0 -> 1\n  p: 10\nnode 1\n");
}

#[test]
fn pretty_print_sorts_attribute_names() {
    let mut g = Graph::new();
    let a = g.add_graph_node();
    assert!(g.add_node_attribute(a, "zeta".to_string(), Value::Boolean(true)).is_ok());
    assert!(g.add_node_attribute(a, "alpha".to_string(), Value::Null).is_ok());
    assert!(g.add_node_attribute(a, "mid".to_string(), Value::List(vec![Value::Integer(1), Value::Integer(2)])).is_ok());
    assert_eq!(g.pretty_print(), "node 0\n  alpha: #null\n  mid: [1, 2]\n  zeta: #true\n");
}

#[test]
fn adding_an_edge_twice_keeps_one_edge() {
    let mut g = Graph::new();
    let a = g.add_graph_node();
    let b = g.add_graph_node();
    assert_eq!(g.node(a).edge_count(), 0);
    assert_eq!(g.add_edge(a, b), Ok(()));
    assert_eq!(g.node(a).edge_count(), 1);
    assert_eq!(g.add_edge(a, b), Err(()));
    assert_eq!(g.node(a).edge_count(), 1);
    assert!(g.node(a).get_edge(b).is_some());
    assert!(g.node(b).get_edge(a).is_none());
}

#[test]
fn edges_are_kept_in_sink_order() {
    let mut g = Graph::new();
    let a = g.add_graph_node();
    let b = g.add_graph_node();
    let c = g.add_graph_node();
    assert!(g.add_edge(a, c).is_ok());
    assert!(g.add_edge(a, b).is_ok());
    assert!(g.add_edge(a, a).is_ok());
    let n = g.node(a);
    assert_eq!(n.edge_count(), 3);
    assert_eq!(n.edge_at(0).0, 0);
    assert_eq!(n.edge_at(1).0, 1);
    assert_eq!(n.edge_at(2).0, 2);
}

#[test]
fn duplicate_node_attribute_is_a_conflict() {
    let mut g = Graph::new();
    let a = g.add_graph_node();
    assert_eq!(g.add_node_attribute(a, "k".to_string(), Value::Integer(1)), Ok(()));
    assert_eq!(g.add_node_attribute(a, "k".to_string(), Value::Integer(2)), Err(()));
    assert!(matches!(g.node(a).attribute_set().get("k"), Some(Value::Integer(1))));
}

#[test]
fn edge_attribute_needs_an_edge() {
    let mut g = Graph::new();
    let a = g.add_graph_node();
    let b = g.add_graph_node();
    assert_eq!(g.add_edge_attribute(a, b, "p".to_string(), Value::Null), None);
    assert!(g.add_edge(a, b).is_ok());
    assert_eq!(g.add_edge_attribute(a, b, "p".to_string(), Value::Null), Some(Ok(())));
    assert_eq!(g.add_edge_attribute(a, b, "p".to_string(), Value::Null), Some(Err(())));
}

#[test]
fn nodes_are_numbered_in_order() {
    let mut g = Graph::new();
    assert_eq!(g.node_count(), 0);
    let a = g.add_graph_node();
    let b = g.add_graph_node();
    assert_eq!(a.index(), 0);
    assert_eq!(b.index(), 1);
    assert_eq!(g.node_count(), 2);
    let all = g.iter_nodes();
    assert_eq!(all, vec![GraphNodeRef(0), GraphNodeRef(1)]);
}

#[test]
fn syntax_nodes_are_recorded_once() {
    let mut g = Graph::new();
    let first = SyntaxNodeRef { index: 7, kind: "identifier".to_string(), row: 2, column: 4 };
    let r = g.add_syntax_node(first);
    assert_eq!(r.index(), 7);
    assert_eq!(r.kind(), "identifier");
    let again = SyntaxNodeRef { index: 7, kind: "other".to_string(), row: 0, column: 0 };
    let r2 = g.add_syntax_node(again);
    assert_eq!(r2.index(), 7);
    assert_eq!(g.syntax_node(&r2).kind(), "identifier");
    assert_eq!(g.syntax_node(&r2).row(), 2);
}

#[test]
fn iter_edges_lists_sinks_in_order() {
    let mut g = Graph::new();
    let a = g.add_graph_node();
    let b = g.add_graph_node();
    let c = g.add_graph_node();
    assert!(g.add_edge(a, c).is_ok());
    assert!(g.add_edge(a, b).is_ok());
    let sinks: Vec<GraphNodeRef> = g.node(a).iter_edges().iter().map(|(s, _)| *s).collect();
    assert_eq!(sinks, vec![b, c]);
}

#[test]
fn get_edge_mut_gives_the_same_edge() {
    let mut g = Graph::new();
    let a = g.add_graph_node();
    let b = g.add_graph_node();
    assert!(g.add_edge(a, b).is_ok());
    assert!(g.add_edge_attribute(a, b, "k".to_string(), Value::Integer(1)).is_some());
    assert!(g.add_edge(a, b).is_err());
    let node = g.node(a);
    let edge = node.get_edge(b).unwrap();
    assert!(matches!(edge.attributes.get("k"), Some(Value::Integer(1))));
    assert_eq!(node.edge_count(), 1);
}


#[test]
fn get_edge_mut_writes_through() {
    let mut g = Graph::new();
    let a = g.add_graph_node();
    let b = g.add_graph_node();
    assert!(g.get_edge_mut(a, b).is_none());
    assert!(g.add_edge(a, b).is_ok());
    {
        let edge = g.get_edge_mut(a, b).unwrap();
        assert_eq!(edge.attributes.add("w".to_string(), Value::Integer(3)), Ok(()));
    }
    assert!(g.add_edge(a, b).is_err());
    assert!(matches!(g.node(a).get_edge(b).unwrap().attributes.get("w"), Some(Value::Integer(3))));
}
