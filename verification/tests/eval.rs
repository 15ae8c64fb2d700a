use ttable::env::Env;
use ttable::eval::{evaluate, evaluate_statement, EvalError, StatementOutcome};

fn env_of(bindings: &[(&str, bool)]) -> Env {
    let mut env = Env::new();
    for (name, val) in bindings {
        env.set(name.to_string(), *val);
    }
    env
}

fn eval_in(text: &str, bindings: &[(&str, bool)]) -> Result<Option<bool>, EvalError> {
    let mut env = env_of(bindings);
    evaluate(text, &mut env)
}

#[test]
fn env_set_get_and_override() {
    let mut env = Env::new();
    assert_eq!(env.get(&"p".to_string()), None);
    env.set("p".to_string(), true);
    assert_eq!(env.get(&"p".to_string()), Some(true));
    env.set("p".to_string(), false);
    assert_eq!(env.get(&"p".to_string()), Some(false));
    assert_eq!(env.get(&"q".to_string()), None);
}

#[test]
fn env_duplicate_is_independent() {
    let mut env = Env::new();
    env.set("p".to_string(), true);
    let mut copy = env.duplicate();
    assert_eq!(copy.get(&"p".to_string()), Some(true));
    copy.set("q".to_string(), false);
    assert_eq!(copy.get(&"q".to_string()), Some(false));
    assert_eq!(env.get(&"q".to_string()), None);
}

#[test]
fn literal_value() {
    assert_eq!(eval_in("1", &[]), Ok(Some(true)));
    assert_eq!(eval_in("0", &[]), Ok(Some(false)));
}

#[test]
fn bound_variable_value() {
    assert_eq!(eval_in("p", &[("p", true)]), Ok(Some(true)));
    assert_eq!(eval_in("p", &[("p", false)]), Ok(Some(false)));
}

#[test]
fn declaration_yields_none() {
    let mut env = Env::new();
    assert_eq!(evaluate("z", &mut env), Ok(None));
    assert_eq!(
        evaluate_statement("z", &mut Env::new()),
        Ok(StatementOutcome::Declared("z".to_string()))
    );
}

#[test]
fn connective_truth_tables() {
    for a in [false, true] {
        for b in [false, true] {
            let bind = [("a", a), ("b", b)];
            assert_eq!(eval_in("a+b", &bind), Ok(Some(a || b)));
            assert_eq!(eval_in("a*b", &bind), Ok(Some(a && b)));
            assert_eq!(eval_in("a@b", &bind), Ok(Some(a != b)));
            assert_eq!(eval_in("a=b", &bind), Ok(Some(a == b)));
            assert_eq!(eval_in("a>b", &bind), Ok(Some(!a || b)));
        }
    }
}

#[test]
fn precedence_and_binds_tighter_than_or() {
    for a in [false, true] {
        for b in [false, true] {
            for c in [false, true] {
                let bind = [("a", a), ("b", b), ("c", c)];
                let plain = eval_in("a+b*c", &bind);
                let grouped = eval_in("a+(b*c)", &bind);
                assert_eq!(plain, Ok(Some(a || (b && c))));
                assert_eq!(plain, grouped);
            }
        }
    }
}

#[test]
fn parentheses_override_precedence() {
    let bind = [("a", true), ("b", false), ("c", false)];
    assert_eq!(eval_in("(a+b)*c", &bind), Ok(Some(false)));
    assert_eq!(eval_in("a+b*c", &bind), Ok(Some(true)));
}

#[test]
fn postfix_operator_negation() {
    for p in [false, true] {
        for q in [false, true] {
            let bind = [("p", p), ("q", q)];
            assert_eq!(eval_in("p+!q", &bind), Ok(Some(!(p || q))));
        }
    }
}

#[test]
fn postfix_negation_of_every_twin() {
    let bind = [("p", true), ("q", false)];
    assert_eq!(eval_in("p*!q", &bind), Ok(Some(!(true && false))));
    assert_eq!(eval_in("p@!q", &bind), Ok(Some(!(true != false))));
    assert_eq!(eval_in("p=!q", &bind), Ok(Some(!(true == false))));
    assert_eq!(eval_in("p>!q", &bind), Ok(Some(!(!true || false))));
}

#[test]
fn prefix_negation_of_literal() {
    assert_eq!(eval_in("~1", &[]), Ok(Some(false)));
    assert_eq!(eval_in("~0", &[]), Ok(Some(true)));
}

#[test]
fn prefix_negation_of_variable() {
    assert_eq!(eval_in("~p", &[("p", true)]), Ok(Some(false)));
    assert_eq!(eval_in("~p", &[("p", false)]), Ok(Some(true)));
}

#[test]
fn prefix_negation_flips_following_operator() {
    for a in [false, true] {
        for b in [false, true] {
            let bind = [("a", a), ("b", b)];
            assert_eq!(eval_in("a~+b", &bind), Ok(Some(!(a || b))));
        }
    }
}

#[test]
fn postfix_value_negation() {
    assert_eq!(eval_in("1'", &[]), Ok(Some(false)));
    assert_eq!(eval_in("p'", &[("p", false)]), Ok(Some(true)));
}

#[test]
fn assignment_returns_value_and_binds() {
    for a in [false, true] {
        for b in [false, true] {
            let mut env = env_of(&[("a", a), ("b", b)]);
            assert_eq!(evaluate("x:(a*b)", &mut env), Ok(Some(a && b)));
            assert_eq!(evaluate("x", &mut env), Ok(Some(a && b)));
        }
    }
}

#[test]
fn evaluation_is_repeatable() {
    let mut env1 = env_of(&[("a", true), ("b", false)]);
    let mut env2 = env_of(&[("a", true), ("b", false)]);
    let first = evaluate("a+b*a", &mut env1);
    let second = evaluate("a+b*a", &mut env2);
    assert_eq!(first, second);
    assert_eq!(evaluate("a", &mut env1), evaluate("a", &mut env2));
}

#[test]
fn declaration_leaves_environment_alone() {
    let mut env = env_of(&[("a", true)]);
    assert_eq!(evaluate("z", &mut env), Ok(None));
    assert_eq!(evaluate("a", &mut env), Ok(Some(true)));
    assert_eq!(evaluate("z", &mut env), Ok(None));
}

#[test]
fn unassigned_variable_in_expression_fails() {
    assert_eq!(eval_in("a+b", &[]), Err(EvalError::UnassignedVariable));
    assert_eq!(eval_in("a+b", &[("a", true)]), Err(EvalError::UnassignedVariable));
    assert_eq!(eval_in("x y", &[]), Err(EvalError::UnassignedVariable));
}

#[test]
fn assignment_without_target_fails() {
    assert_eq!(eval_in("1:1", &[]), Err(EvalError::MissingAssignmentTarget));
    assert_eq!(eval_in("p:0", &[("p", true)]), Err(EvalError::MissingAssignmentTarget));
}

#[test]
fn assignment_without_value_fails() {
    assert_eq!(eval_in("x:", &[]), Err(EvalError::MissingAssignmentValue));
}

#[test]
fn operator_negation_without_operator_fails() {
    assert_eq!(eval_in("1!", &[]), Err(EvalError::NoOperatorToNegate));
}

#[test]
fn operator_negation_of_unnegatable_fails() {
    assert_eq!(eval_in("(1!", &[]), Err(EvalError::NotNegatable));
    assert_eq!(eval_in("x:1!0", &[]), Err(EvalError::NotNegatable));
}

#[test]
fn value_negation_without_value_fails() {
    assert_eq!(eval_in("'", &[]), Err(EvalError::NoValueToNegate));
}

#[test]
fn unmatched_close_paren_fails() {
    assert_eq!(eval_in("1)", &[]), Err(EvalError::UnmatchedCloseParen));
    assert_eq!(eval_in("(1))", &[]), Err(EvalError::UnmatchedCloseParen));
}

#[test]
fn malformed_expression_fails() {
    assert_eq!(eval_in("1+", &[]), Err(EvalError::StackUnderflow));
    assert_eq!(eval_in("", &[]), Err(EvalError::StackUnderflow));
    assert_eq!(eval_in("1 1", &[]), Err(EvalError::StackUnderflow));
}

#[test]
fn lexical_error_during_evaluation() {
    assert_eq!(eval_in("1 # 1", &[]), Err(EvalError::LexicalError));
}
