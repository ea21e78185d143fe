use tree_sitter_graph::{call_result, start, step, ExecutionContext, ExecutionError, Expression, Functions, NoFunctions, RunAction, RunEvent, RunStatus, Value};

#[test]
fn stanzas_run_in_order_and_stop_at_the_end() {
    let (s, a) = start(2);
    assert_eq!(a, RunAction::NextMatch(0));
    let (s, a) = step(s, RunEvent::MatchSucceeded);
    assert_eq!(a, RunAction::NextMatch(0));
    let (s, a) = step(s, RunEvent::StanzaExhausted);
    assert_eq!(a, RunAction::NextMatch(1));
    assert_eq!(s.stanza, 1);
    let (s, a) = step(s, RunEvent::StanzaExhausted);
    assert_eq!(a, RunAction::Finish);
    assert_eq!(s.status, RunStatus::Finished);
}

#[test]
fn a_failure_aborts_the_run() {
    let (s, _) = start(3);
    let (s, a) = step(s, RunEvent::MatchFailed);
    assert_eq!(a, RunAction::Abort);
    assert_eq!(s.status, RunStatus::Aborted);
    assert_eq!(s.stanza, 0);
}

#[test]
fn no_stanzas_finish_at_once() {
    let (s, a) = start(0);
    assert_eq!(a, RunAction::Finish);
    assert_eq!(s.status, RunStatus::Finished);
}

#[test]
fn let_var_set_and_print_statements() {
    let mut cx = ExecutionContext::new();
    assert!(cx.local_statement("a".to_string(), Value::Integer(1), false).is_ok());
    assert!(matches!(
        cx.local_statement("a".to_string(), Value::Integer(2), true),
        Err(ExecutionError::DuplicateVariable(_))
    ));
    assert!(matches!(
        cx.set_statement("a".to_string(), Value::Integer(3)),
        Err(ExecutionError::CannotAssignImmutableVariable(_))
    ));
    assert!(matches!(cx.set_statement("zz".to_string(), Value::Null), Err(ExecutionError::UndefinedVariable(_))));
    assert!(cx.local_statement("b".to_string(), Value::Integer(1), true).is_ok());
    let a = cx.evaluate(&NoFunctions, 0, &Expression::Variable("a".to_string())).ok().unwrap();
    assert!(cx.set_statement("b".to_string(), a).is_ok());
    assert!(matches!(cx.variables.lookup(0, "b"), Ok(Value::Integer(1))));
    let values = vec![
        Value::String("b = ".to_string()),
        cx.evaluate(&NoFunctions, 0, &Expression::Variable("b".to_string())).ok().unwrap(),
        cx.evaluate(&NoFunctions, 0, &Expression::ListLiteral(vec![Expression::Boolean(false)])).ok().unwrap(),
    ];
    assert_eq!(cx.print_statement(&values), "b = 1[#false]");
}

#[test]
fn print_values_writes_strings_bare() {
    let text = tree_sitter_graph::print_values(&vec![Value::String("a".to_string()), Value::Integer(2), Value::Null]);
    assert_eq!(text, "a2#null");
}

struct Arithmetic;

impl Functions for Arithmetic {
    fn call(&self, name: &str, args: Vec<Value>) -> Option<Result<Value, String>> {
        match name {
            "plus" => {
                let mut total = 0u32;
                for a in &args {
                    match a {
                        Value::Integer(n) => total += n,
                        _ => return Some(Err("expected integers".to_string())),
                    }
                }
                Some(Ok(Value::Integer(total)))
            }
            _ => None,
        }
    }
}

#[test]
fn calls_go_to_the_registry() {
    let mut cx = ExecutionContext::new();
    let call = Expression::Call("plus".to_string(), vec![Expression::Integer(2), Expression::Integer(3)]);
    assert!(matches!(cx.evaluate(&Arithmetic, 0, &call), Ok(Value::Integer(5))));
    let unknown = Expression::Call("minus".to_string(), vec![]);
    assert!(matches!(cx.evaluate(&Arithmetic, 0, &unknown), Err(ExecutionError::UnknownFunction(m)) if m == "minus"));
    let failing = Expression::Call("plus".to_string(), vec![Expression::Null]);
    assert!(matches!(
        cx.evaluate(&Arithmetic, 0, &failing),
        Err(ExecutionError::FunctionFailed(m, t)) if m == "plus" && t == "expected integers"
    ));
    assert!(matches!(cx.evaluate(&NoFunctions, 0, &call), Err(ExecutionError::UnknownFunction(_))));
}

#[test]
fn call_results_name_the_function() {
    let name = "f".to_string();
    assert!(matches!(call_result(&name, None), Err(ExecutionError::UnknownFunction(m)) if m == "f"));
    assert!(matches!(call_result(&name, Some(Ok(Value::Integer(1)))), Ok(Value::Integer(1))));
    assert!(matches!(
        call_result(&name, Some(Err("bad".to_string()))),
        Err(ExecutionError::FunctionFailed(m, t)) if m == "f" && t == "bad"
    ));
}
