//! Attributed graphs built from syntax trees, and the execution semantics that build them: the
//! graph store and its deterministic renderings, node identity by tag path, the variable
//! environment, expression evaluation and statement effects, the order of a run, and the scan
//! engine.
use vstd::prelude::*;

pub mod attributes;
pub mod execution;
pub mod graph;
pub mod identity;
pub mod output;
pub mod scan;
pub mod stanzas;
pub mod value;
pub mod variables;

pub use attributes::Attributes;
pub use execution::{call_result, print_values, ExecutionContext, Expression, Functions, NoFunctions};
pub use graph::{Edge, Graph, GraphNode};
pub use identity::NodeIdentities;
pub use output::{EdgeRecord, NodeRecord};
pub use stanzas::{start, step, RunAction, RunEvent, RunState, RunStatus};
pub use scan::{capture_texts, next_cursor, scan, select_arm, span_text, ScanMatch};
pub use value::{compare_values, set_of, values_equal, ExecutionError, GraphNodeRef, SyntaxNodeRef, Value};
pub use variables::{Scope, Variables};
