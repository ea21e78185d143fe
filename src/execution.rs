//! The effects of graph statements on the state of a run: `node`, `edge` and `attr`, over the
//! graph, the table of node identities, and the variables.
use vstd::prelude::*;
use crate::graph::{edge_added, edge_attribute_added, Graph};
use crate::identity::{resolved, NodeIdentities};
use crate::value::{got, joined_plain, same_value, set_of, ExecutionError, GraphNodeRef, Value};
use crate::variables::{Variables, BARE};

verus! {

/// The state of one run: the graph being built, the nodes named by tag path so far, and the
/// variables.
pub struct ExecutionContext {
    pub graph: Graph,
    pub identities: NodeIdentities,
    pub variables: Variables,
}

impl ExecutionContext {
    /// Every part is well formed, and every named node lies in the graph.
    pub open spec fn wf(&self) -> bool {
        &&& self.graph.wf()
        &&& self.identities.wf(self.graph.nodes().len())
        &&& self.variables.wf()
    }

    /// The state at the start of a run: an empty graph, no names, and no variables.
    pub fn new() -> (r: ExecutionContext)
        ensures
            r.wf(),
            r.graph.nodes().len() == 0,
            r.identities@ == Map::<(u32, Seq<char>), GraphNodeRef>::empty(),
    {
        ExecutionContext { graph: Graph::new(), identities: NodeIdentities::new(), variables: Variables::new() }
    }

    /// `node`: the graph node named by the syntax node `syntax` and the tag path `path`,
    /// created on first use.
    pub fn node_statement(&mut self, syntax: u32, path: &str) -> (r: GraphNodeRef)
        requires
            old(self).wf(),
            old(self).graph.nodes().len() < u32::MAX,
        ensures
            final(self).wf(),
            final(self).variables == old(self).variables,
            resolved(old(self).identities, old(self).graph, final(self).identities, final(self).graph, (syntax, path@), r),
    {
        self.identities.resolve(&mut self.graph, syntax, path)
    }

    /// `edge A -> B`: creates the edge, or finds it when it exists.  A reference to a node that
    /// is not in the graph is an error, which changes nothing.
    pub fn edge_statement(&mut self, source: GraphNodeRef, sink: GraphNodeRef) -> (r: Result<(), ExecutionError>)
        requires
            old(self).wf(),
        ensures
            final(self).wf(),
            final(self).identities == old(self).identities,
            final(self).variables == old(self).variables,
            !(old(self).graph.contains(source) && old(self).graph.contains(sink)) ==> (r matches Err(
                ExecutionError::UndefinedGraphNode(_))) && final(self).graph == old(self).graph,
            final(self).graph.syntax() == old(self).graph.syntax(),
            final(self).graph.nodes().len() == old(self).graph.nodes().len(),
            forall|i: int| 0 <= i < old(self).graph.nodes().len() && i != source.0 ==> final(self).graph.nodes()[i]
                == old(self).graph.nodes()[i],
            old(self).graph.contains(source) && old(self).graph.contains(sink) ==> r is Ok && final(self).graph.nodes().len()
                == old(self).graph.nodes().len() && exists|e: Result<(), ()>| edge_added(
                old(self).graph.nodes()[source.0 as int], final(self).graph.nodes()[source.0 as int], sink.0, e),
    {
        if !self.has_node(source) {
            return Err(ExecutionError::UndefinedGraphNode(Value::GraphNode(source).display()));
        }
        if !self.has_node(sink) {
            return Err(ExecutionError::UndefinedGraphNode(Value::GraphNode(sink).display()));
        }
        let _ = self.graph.add_edge(source, sink);
        Ok(())
    }

    /// `attr (R) name = E` on a graph node: writes the attribute.  A node that is not in the
    /// graph, or a name already written on it, is an error, which changes nothing.
    pub fn attr_statement(&mut self, target: GraphNodeRef, name: String, value: Value) -> (r: Result<(), ExecutionError>)
        requires
            old(self).wf(),
        ensures
            final(self).wf(),
            final(self).identities == old(self).identities,
            final(self).variables == old(self).variables,
            final(self).graph.nodes().len() == old(self).graph.nodes().len(),
            forall|i: int| 0 <= i < old(self).graph.nodes().len() && i != target.0 ==> final(self).graph.nodes()[i]
                == old(self).graph.nodes()[i],
            !old(self).graph.contains(target) ==> (r matches Err(ExecutionError::UndefinedGraphNode(_)))
                && final(self).graph == old(self).graph,
            old(self).graph.contains(target) && old(self).graph.nodes()[target.0 as int].attrs()@.contains_key(name@)
                ==> (r matches Err(ExecutionError::DuplicateAttribute(m)) && m@ == name@)
                && final(self).graph.nodes()[target.0 as int].attrs()@ == old(self).graph.nodes()[target.0 as int].attrs()@,
            old(self).graph.contains(target) && !old(self).graph.nodes()[target.0 as int].attrs()@.contains_key(name@)
                ==> r is Ok && final(self).graph.nodes()[target.0 as int].attrs()@
                == old(self).graph.nodes()[target.0 as int].attrs()@.insert(name@, value),
    {
        if !self.has_node(target) {
            return Err(ExecutionError::UndefinedGraphNode(Value::GraphNode(target).display()));
        }
        let copy = name.clone();
        match self.graph.add_node_attribute(target, name, value) {
            Ok(()) => Ok(()),
            Err(()) => Err(ExecutionError::DuplicateAttribute(copy)),
        }
    }

    /// `attr (A -> B) name = E` on an edge: writes the attribute.  An edge that is not in the
    /// graph, or a name already written on it, is an error, which changes nothing.
    pub fn edge_attr_statement(&mut self, source: GraphNodeRef, sink: GraphNodeRef, name: String, value: Value)
        -> (r: Result<(), ExecutionError>)
        requires
            old(self).wf(),
        ensures
            final(self).wf(),
            final(self).identities == old(self).identities,
            final(self).variables == old(self).variables,
            final(self).graph.nodes().len() == old(self).graph.nodes().len(),
            forall|i: int| 0 <= i < old(self).graph.nodes().len() && i != source.0 ==> final(self).graph.nodes()[i]
                == old(self).graph.nodes()[i],
            !old(self).graph.contains(source) ==> (r matches Err(ExecutionError::UndefinedGraphNode(_)))
                && final(self).graph == old(self).graph,
            old(self).graph.contains(source) && !old(self).graph.nodes()[source.0 as int].has_edge(sink.0) ==> (r matches Err(
                ExecutionError::UndefinedGraphNode(_))) && edge_attribute_added(old(self).graph.nodes()[source.0 as int],
                final(self).graph.nodes()[source.0 as int], sink.0, name@, value, None),
            old(self).graph.contains(source) && old(self).graph.nodes()[source.0 as int].has_edge(sink.0) ==> {
                &&& r is Ok || (r matches Err(ExecutionError::DuplicateAttribute(m)) && m@ == name@)
                &&& edge_attribute_added(old(self).graph.nodes()[source.0 as int], final(self).graph.nodes()[source.0 as int],
                    sink.0, name@, value, if r is Ok { Some(Ok::<(), ()>(())) } else { Some(Err::<(), ()>(())) })
            },
    {
        if !self.has_node(source) {
            return Err(ExecutionError::UndefinedGraphNode(Value::GraphNode(source).display()));
        }
        let copy = name.clone();
        match self.graph.add_edge_attribute(source, sink, name, value) {
            None => Err(ExecutionError::UndefinedGraphNode(Value::GraphNode(sink).display())),
            Some(Ok(())) => Ok(()),
            Some(Err(())) => Err(ExecutionError::DuplicateAttribute(copy)),
        }
    }

    /// Whether `r` refers to a node of the graph.
    fn has_node(&self, r: GraphNodeRef) -> (b: bool)
        ensures
            b == self.graph.contains(r),
    {
        (r.0 as usize) < self.graph.node_count()
    }

    /// Ends the execution of a statement block: its local variables go.
    pub fn end_block(&mut self)
        requires
            old(self).wf(),
        ensures
            final(self).wf(),
            final(self).graph == old(self).graph,
            final(self).identities == old(self).identities,
            crate::variables::locals_cleared(old(self).variables, final(self).variables),
    {
        self.variables.clear_locals();
    }
}

/// The text that `print` writes for the values, one after the other: strings as they are,
/// anything else as displayed.
pub fn print_values(vs: &Vec<Value>) -> (r: String)
    ensures
        r@ == joined_plain(vs@, vs@.len()),
{
    let mut out = String::new();
    let mut i: usize = 0;
    while i < vs.len()
        invariant
            i <= vs@.len(),
            out@ == joined_plain(vs@, i as nat),
        decreases vs@.len() - i,
    {
        let t = match &vs[i] {
            Value::String(s) => s.clone(),
            other => other.display(),
        };
        out.append(t.as_str());
        i = i + 1;
    }
    out
}

/// An expression of the graph language, as the front end hands it over.
pub enum Expression {
    Null,
    Boolean(bool),
    Integer(u32),
    String(String),
    /// A list literal: its items, in order.
    ListLiteral(Vec<Expression>),
    /// A set literal: its items, in order; equal values collapse.
    SetLiteral(Vec<Expression>),
    /// A bare variable name.
    Variable(String),
    /// A scoped variable, qualified by the expression of its syntax node.
    ScopedVariable(Box<Expression>, String),
    /// A tag path such as `.def.ref`, appended to a syntax node or to a graph node named by one.
    TagPath(Box<Expression>, String),
    /// A call of a function of the host's registry on the values of the arguments.
    Call(String, Vec<Expression>),
}

/// The functions that the host makes callable from expressions.
pub trait Functions {
    /// Calls the function named `name` on `args`: `None` when there is no such function,
    /// otherwise the value it returned or the message it failed with.
    fn call(&self, name: &str, args: Vec<Value>) -> Option<Result<Value, String>>;
}

/// What a call of the function `name` evaluates to, given what the registry answered: an
/// unknown name and a failure of the function are errors that name it.
pub fn call_result(name: &String, outcome: Option<Result<Value, String>>) -> (r: Result<Value, ExecutionError>)
    ensures
        outcome is None ==> (r matches Err(ExecutionError::UnknownFunction(m)) && m@ == name@),
        outcome matches Some(Ok(v)) ==> (r matches Ok(x) && x == v),
        outcome matches Some(Err(message)) ==> (r matches Err(ExecutionError::FunctionFailed(m, t)) && m@ == name@
            && t == message),
{
    match outcome {
        None => Err(ExecutionError::UnknownFunction(name.clone())),
        Some(Ok(v)) => Ok(v),
        Some(Err(message)) => Err(ExecutionError::FunctionFailed(name.clone(), message)),
    }
}

/// A registry without functions.
pub struct NoFunctions;

impl Functions for NoFunctions {
    fn call(&self, name: &str, args: Vec<Value>) -> Option<Result<Value, String>> {
        None
    }
}

/// The identity of the syntax node that the bare variable `base` holds, when `base` is one.
pub open spec fn syntax_node_of(vars: Variables, current: u32, base: Expression) -> Option<u32> {
    match base {
        Expression::Variable(v) => match crate::variables::bare(vars, current, v@) {
            Some(Value::SyntaxNode(n)) => Some(n.index),
            _ => None,
        },
        _ => None,
    }
}

/// The most graph nodes that evaluating `e` may create: one per tag path.
pub open spec fn node_budget(e: Expression) -> nat
    decreases e, 0nat,
{
    match e {
        Expression::ListLiteral(items) => items_budget(items, items@.len()),
        Expression::SetLiteral(items) => items_budget(items, items@.len()),
        Expression::ScopedVariable(base, _) => node_budget(*base),
        Expression::Call(_, args) => items_budget(args, args@.len()),
        Expression::TagPath(base, _) => node_budget(*base) + 1,
        _ => 0,
    }
}

/// The node budgets of the first `n` items, added up.
pub open spec fn items_budget(items: Vec<Expression>, n: nat) -> nat
    decreases items, n,
{
    if n == 0 || n > items@.len() {
        0
    } else {
        items_budget(items, (n - 1) as nat) + node_budget(items@[n - 1])
    }
}

impl ExecutionContext {
    /// Evaluates `e` while `current` is the default syntax node.  Literals give their value;
    /// list items are evaluated left to right and kept, set items too, with equal values
    /// collapsed; a bare name reads a local, then a scoped variable of `current`, then a global;
    /// a tag path names a graph node by syntax node and path, creating it on first use.
    pub fn evaluate<F: Functions>(&mut self, functions: &F, current: u32, e: &Expression) -> (r: Result<Value, ExecutionError>)
        requires
            old(self).wf(),
            old(self).graph.nodes().len() + node_budget(*e) < u32::MAX,
        ensures
            final(self).wf(),
            final(self).variables == old(self).variables,
            old(self).graph.nodes().len() <= final(self).graph.nodes().len() <= old(self).graph.nodes().len() + node_budget(*e),
            *e is Null ==> (r matches Ok(v) && v is Null),
            *e is Boolean ==> (r matches Ok(v) && v is Boolean && v->Boolean_0 == e->Boolean_0),
            *e is Integer ==> (r matches Ok(v) && v is Integer && v->Integer_0 == e->Integer_0),
            *e is String ==> (r matches Ok(v) && v is String && v->String_0@ == e->String_0@),
            *e is Variable ==> match crate::variables::bare(old(self).variables, current, e->Variable_0@) {
                Some(x) => r matches Ok(v) && same_value(v, x),
                None => r matches Err(ExecutionError::UndefinedVariable(m)) && m@ == e->Variable_0@,
            },
            *e is ListLiteral ==> (r is Ok ==> r->Ok_0 is List && r->Ok_0->List_0@.len() == e->ListLiteral_0@.len()),
            *e is SetLiteral ==> (r is Ok ==> r->Ok_0 is ValueSet),
            *e is TagPath ==> (r is Ok ==> r->Ok_0 is GraphNode && final(self).graph.contains(r->Ok_0->GraphNode_0)),
            *e is Variable ==> final(self).graph == old(self).graph && final(self).identities == old(self).identities,
            e matches Expression::TagPath(base, path) ==> (syntax_node_of(old(self).variables, current, **base) matches Some(n)
                ==> (r matches Ok(v) && v is GraphNode && resolved(old(self).identities, old(self).graph,
                final(self).identities, final(self).graph, (n, path@), v->GraphNode_0))),
            e matches Expression::ScopedVariable(base, name) ==> (syntax_node_of(old(self).variables, current, **base) matches Some(
                n) ==> match crate::variables::qualified(old(self).variables, n, name@) {
                Some(x) => r matches Ok(v) && same_value(v, x),
                None => r matches Err(ExecutionError::UndefinedVariable(m)) && m@ == name@,
            }),
        decreases e,
    {
        match e {
            Expression::Null => Ok(Value::Null),
            Expression::Boolean(b) => Ok(Value::Boolean(*b)),
            Expression::Integer(n) => Ok(Value::Integer(*n)),
            Expression::String(s) => Ok(Value::String(s.clone())),
            Expression::Variable(name) => match self.variables.lookup(current, name.as_str()) {
                Ok(v) => Ok(v.duplicate()),
                Err(err) => Err(err),
            },
            Expression::ListLiteral(items) => match self.evaluate_items(functions, current, items) {
                Ok(values) => Ok(Value::List(values)),
                Err(err) => Err(err),
            },
            Expression::SetLiteral(items) => match self.evaluate_items(functions, current, items) {
                Ok(values) => Ok(set_of(values)),
                Err(err) => Err(err),
            },
            Expression::ScopedVariable(base, name) => {
                let node = match self.evaluate(functions, current, base) {
                    Ok(v) => v,
                    Err(err) => return Err(err),
                };
                match node {
                    Value::SyntaxNode(n) => match self.variables.get_scoped(n.index, name.as_str()) {
                        Ok(v) => Ok(v.duplicate()),
                        Err(err) => Err(err),
                    },
                    other => Err(ExecutionError::ExpectedSyntaxNode(got(&other))),
                }
            },
            Expression::Call(name, args) => {
                let values = match self.evaluate_items(functions, current, args) {
                    Ok(vs) => vs,
                    Err(err) => return Err(err),
                };
                let outcome = functions.call(name.as_str(), values);
                call_result(name, outcome)
            },
            Expression::TagPath(base, path) => {
                let node = match self.evaluate(functions, current, base) {
                    Ok(v) => v,
                    Err(err) => return Err(err),
                };
                match node {
                    Value::SyntaxNode(n) => {
                        let g = self.identities.resolve(&mut self.graph, n.index, path.as_str());
                        Ok(Value::GraphNode(g))
                    },
                    Value::GraphNode(g) => match self.identities.extend(&mut self.graph, g, path.as_str()) {
                        Ok(r) => Ok(Value::GraphNode(r)),
                        Err(err) => Err(err),
                    },
                    other => Err(ExecutionError::ExpectedSyntaxNode(got(&other))),
                }
            },
        }
    }

    /// Evaluates the items left to right.
    fn evaluate_items<F: Functions>(&mut self, functions: &F, current: u32, items: &Vec<Expression>) -> (r: Result<Vec<Value>, ExecutionError>)
        requires
            old(self).wf(),
            old(self).graph.nodes().len() + items_budget(*items, items@.len()) < u32::MAX,
        ensures
            final(self).wf(),
            final(self).variables == old(self).variables,
            old(self).graph.nodes().len() <= final(self).graph.nodes().len() <= old(self).graph.nodes().len()
                + items_budget(*items, items@.len()),
            r matches Ok(v) ==> v@.len() == items@.len(),
        decreases items, 0nat,
    {
        let mut out: Vec<Value> = Vec::new();
        let mut i: usize = 0;
        while i < items.len()
            invariant
                self.wf(),
                self.variables == old(self).variables,
                i <= items@.len(),
                out@.len() == i,
                old(self).graph.nodes().len() <= self.graph.nodes().len() <= old(self).graph.nodes().len()
                    + items_budget(*items, i as nat),
                old(self).graph.nodes().len() + items_budget(*items, items@.len()) < u32::MAX,
            decreases items@.len() - i,
        {
            proof {
                lemma_items_budget_grows(*items, i as nat + 1, items@.len());
            }
            match self.evaluate(functions, current, &items[i]) {
                Ok(v) => out.push(v),
                Err(err) => return Err(err),
            }
            i = i + 1;
        }
        Ok(out)
    }
}

/// The budget of a prefix of the items is at most that of a longer prefix.
proof fn lemma_items_budget_grows(items: Vec<Expression>, n: nat, m: nat)
    requires
        n <= m <= items@.len(),
    ensures
        items_budget(items, n) <= items_budget(items, m),
    decreases m - n,
{
    if n < m {
        lemma_items_budget_grows(items, n, (m - 1) as nat);
    }
}

impl ExecutionContext {
    /// `let name = E` (immutable) or `var name = E` (mutable), once `E` has been evaluated to
    /// `value`: binds a local variable.  A name already bound in this block is an error, which
    /// changes nothing.
    pub fn local_statement(&mut self, name: String, value: Value, mutable: bool) -> (r: Result<(), ExecutionError>)
        requires
            old(self).wf(),
        ensures
            final(self).wf(),
            final(self).graph == old(self).graph,
            final(self).identities == old(self).identities,
            final(self).variables.globals() == old(self).variables.globals(),
            final(self).variables.scoped() == old(self).variables.scoped(),
            old(self).variables.locals().contains_key((BARE, name@)) ==> (r matches Err(
                ExecutionError::DuplicateVariable(m)) && m@ == name@) && final(self).variables.locals()
                == old(self).variables.locals(),
            !old(self).variables.locals().contains_key((BARE, name@)) ==> r is Ok && final(self).variables.locals()
                == old(self).variables.locals().insert((BARE, name@), (value, mutable)),
    {
        self.variables.define_local(name, value, mutable)
    }

    /// `set name = E`, once `E` has been evaluated to `value`: gives a local `var` the value.
    /// An unbound name, or one bound by `let`, is an error, which changes nothing.
    pub fn set_statement(&mut self, name: String, value: Value) -> (r: Result<(), ExecutionError>)
        requires
            old(self).wf(),
        ensures
            final(self).wf(),
            final(self).graph == old(self).graph,
            final(self).identities == old(self).identities,
            final(self).variables.globals() == old(self).variables.globals(),
            final(self).variables.scoped() == old(self).variables.scoped(),
            !old(self).variables.locals().contains_key((BARE, name@)) ==> (r matches Err(
                ExecutionError::UndefinedVariable(m)) && m@ == name@) && final(self).variables.locals()
                == old(self).variables.locals(),
            old(self).variables.locals().contains_key((BARE, name@)) && !old(self).variables.locals()[(BARE, name@)].1
                ==> (r matches Err(ExecutionError::CannotAssignImmutableVariable(m)) && m@ == name@)
                && final(self).variables.locals() == old(self).variables.locals(),
            old(self).variables.locals().contains_key((BARE, name@)) && old(self).variables.locals()[(BARE, name@)].1
                ==> r is Ok && final(self).variables.locals() == old(self).variables.locals().insert(
                (BARE, name@),
                (value, true),
            ),
    {
        self.variables.set_local(name, value)
    }

    /// `print E, E, ...`, once the expressions have been evaluated to `values`: the text it
    /// writes, strings as they are and anything else as displayed, with no separator.
    pub fn print_statement(&self, values: &Vec<Value>) -> (r: String)
        ensures
            r@ == joined_plain(values@, values@.len()),
    {
        print_values(values)
    }
}

} // verus!
