//! Evaluation of one statement against a variable environment.
//!
//! The evaluator is an operator-precedence stack machine. It keeps a value
//! stack of booleans, an operator stack, and a pending-variable slot holding
//! at most one unresolved free-variable name. Tokens are consumed one at a
//! time; when a token's precedence forces a reduce, operators are popped and
//! applied to the value stack. A statement finally yields either a value,
//! or the declaration of one new free variable, or an error.

use vstd::prelude::*;

use crate::env::Env;
use crate::tokenize::{
    get_token, next_token, precedence, twin, LexResult, Op, Token, TokenView,
};

verus! {

/// The ways a statement can fail to lex or evaluate. A failure in any
/// statement, in any branch of the enumeration, aborts the whole run.
#[derive(Clone, Copy, PartialEq, Eq, Structural, Debug)]
pub enum EvalError {
    /// An unrecognized character in the text.
    LexicalError,
    /// A variable that must be bound has no value, and the slot for a new
    /// declaration is already occupied.
    UnassignedVariable,
    /// An assignment with no pending variable to bind.
    MissingAssignmentTarget,
    /// An assignment with no value to bind the variable to.
    MissingAssignmentValue,
    /// Postfix operator negation with an empty operator stack.
    NoOperatorToNegate,
    /// Postfix operator negation of an operator with no negated twin.
    NotNegatable,
    /// Postfix value negation with an empty value stack.
    NoValueToNegate,
    /// A close parenthesis with no matching open parenthesis.
    UnmatchedCloseParen,
    /// A malformed expression: the stacks do not reduce to a single value.
    StackUnderflow,
}

/// The whole state of the stack machine at one instant: the value stack,
/// the operator stack, the pending-variable slot, and the environment.
#[verifier::ext_equal]
pub struct MachineState {
    pub vals: Seq<bool>,
    pub ops: Seq<Op>,
    pub pending: Option<Seq<char>>,
    pub env: Map<Seq<char>, bool>,
}

/// The truth function of each binary connective.
pub open spec fn truth_value(op: Op, a: bool, b: bool) -> bool {
    match op {
        Op::Or => a || b,
        Op::NotOr => !(a || b),
        Op::And => a && b,
        Op::NotAnd => !(a && b),
        Op::Xor => (!a && b) || (a && !b),
        Op::NotXor => !((!a && b) || (a && !b)),
        Op::Implies => !a || b,
        Op::NotImplies => !(!a || b),
        Op::Equiv => a == b,
        Op::NotEquiv => !(a == b),
        _ => false,
    }
}

/// The name slot of an `Option<String>`, as a sequence of characters.
pub open spec fn opt_name_view(p: Option<String>) -> Option<Seq<char>> {
    match p {
        Some(s) => Some(s@),
        None => None,
    }
}

/// Applying one operator to the machine: a binary connective pops its two
/// operands right-to-left and pushes the result; `Assign` binds the pending
/// variable to the top of the value stack without popping it; postfix value
/// negation negates the top value; postfix operator negation replaces the
/// top operator with its negated twin; the rest change nothing.
pub open spec fn apply_op(op: Op, st: MachineState) -> Result<MachineState, EvalError> {
    match op {
        Op::Assign => {
            if st.pending is None {
                Err(EvalError::MissingAssignmentTarget)
            } else if st.vals.len() == 0 {
                Err(EvalError::MissingAssignmentValue)
            } else {
                Ok(
                    MachineState {
                        vals: st.vals,
                        ops: st.ops,
                        pending: None,
                        env: st.env.insert(st.pending->Some_0, st.vals.last()),
                    },
                )
            }
        },
        Op::PostValNot => {
            if st.vals.len() == 0 {
                Err(EvalError::NoValueToNegate)
            } else {
                Ok(
                    MachineState {
                        vals: st.vals.drop_last().push(!st.vals.last()),
                        ops: st.ops,
                        pending: st.pending,
                        env: st.env,
                    },
                )
            }
        },
        Op::PostOpNot => {
            if st.ops.len() == 0 {
                Err(EvalError::NoOperatorToNegate)
            } else {
                match twin(st.ops.last()) {
                    None => Err(EvalError::NotNegatable),
                    Some(t) => Ok(
                        MachineState {
                            vals: st.vals,
                            ops: st.ops.drop_last().push(t),
                            pending: st.pending,
                            env: st.env,
                        },
                    ),
                }
            }
        },
        Op::PrefixNot => Ok(st),
        Op::Open => Ok(st),
        Op::Close => Ok(st),
        _ => {
            if st.vals.len() < 2 {
                Err(EvalError::StackUnderflow)
            } else {
                Ok(
                    MachineState {
                        vals: st.vals.drop_last().drop_last().push(
                            truth_value(op, st.vals.drop_last().last(), st.vals.last()),
                        ),
                        ops: st.ops,
                        pending: st.pending,
                        env: st.env,
                    },
                )
            }
        },
    }
}

/// The pushing of one boolean: a `PrefixNot` waiting on top of the operator
/// stack is consumed and negates the value.
pub open spec fn push_value(v: bool, st: MachineState) -> MachineState {
    if st.ops.len() > 0 && st.ops.last() == Op::PrefixNot {
        MachineState { vals: st.vals.push(!v), ops: st.ops.drop_last(), pending: st.pending, env: st.env }
    } else {
        MachineState { vals: st.vals.push(v), ops: st.ops, pending: st.pending, env: st.env }
    }
}

/// The reduce before an incoming operator: while the operator stack's top is
/// not an open parenthesis and binds strictly tighter than the incoming
/// operator, it is popped and applied.
pub open spec fn reduce(op: Op, st: MachineState) -> Result<MachineState, EvalError>
    decreases st.ops.len(),
{
    if st.ops.len() == 0 || st.ops.last() == Op::Open || precedence(st.ops.last()) <= precedence(
        op,
    ) {
        Ok(st)
    } else {
        let top = st.ops.last();
        let popped = (MachineState {
            vals: st.vals,
            ops: st.ops.drop_last(),
            pending: st.pending,
            env: st.env,
        });
        match apply_op(top, popped) {
            Err(e) => Err(e),
            Ok(st2) => reduce(op, st2),
        }
    }
}

/// One token's effect on the machine. A literal or a bound variable pushes
/// its value; an unbound variable may occupy the pending slot only when the
/// operator stack and the slot are both empty; postfix negations act at
/// once; any other operator first lets a waiting `PrefixNot` flip it to its
/// twin, then reduces by precedence, and is pushed (or, for a close
/// parenthesis, discards the matching open). Statement boundaries are
/// ignored here.
pub open spec fn step(t: TokenView, st: MachineState) -> Result<MachineState, EvalError> {
    match t {
        TokenView::Val(v) => Ok(push_value(v, st)),
        TokenView::Var(name) => {
            if st.env.contains_key(name) {
                Ok(push_value(st.env[name], st))
            } else if st.ops.len() == 0 && st.pending is None {
                Ok(MachineState { vals: st.vals, ops: st.ops, pending: Some(name), env: st.env })
            } else {
                Err(EvalError::UnassignedVariable)
            }
        },
        TokenView::EndLine => Ok(st),
        TokenView::EndScript => Ok(st),
        TokenView::Op(op) => match op {
            Op::PostValNot => apply_op(Op::PostValNot, st),
            Op::PostOpNot => apply_op(Op::PostOpNot, st),
            _ => {
                let flipped = st.ops.len() > 0 && st.ops.last() == Op::PrefixNot && twin(op)
                    is Some;
                let op2 = if flipped {
                    twin(op)->Some_0
                } else {
                    op
                };
                let st1 = if flipped {
                    (MachineState {
                        vals: st.vals,
                        ops: st.ops.drop_last(),
                        pending: st.pending,
                        env: st.env,
                    })
                } else {
                    st
                };
                match reduce(op2, st1) {
                    Err(e) => Err(e),
                    Ok(st2) => {
                        if op2 == Op::Close {
                            if st2.ops.len() > 0 && st2.ops.last() == Op::Open {
                                Ok(
                                    MachineState {
                                        vals: st2.vals,
                                        ops: st2.ops.drop_last(),
                                        pending: st2.pending,
                                        env: st2.env,
                                    },
                                )
                            } else {
                                Err(EvalError::UnmatchedCloseParen)
                            }
                        } else {
                            Ok(
                                MachineState {
                                    vals: st2.vals,
                                    ops: st2.ops.push(op2),
                                    pending: st2.pending,
                                    env: st2.env,
                                },
                            )
                        }
                    },
                }
            },
        },
    }
}

/// The drain after the last token: the remaining operators are popped and
/// applied in stack order.
pub open spec fn drain_ops(st: MachineState) -> Result<MachineState, EvalError>
    decreases st.ops.len(),
{
    if st.ops.len() == 0 {
        Ok(st)
    } else {
        let top = st.ops.last();
        let popped = (MachineState {
            vals: st.vals,
            ops: st.ops.drop_last(),
            pending: st.pending,
            env: st.env,
        });
        match apply_op(top, popped) {
            Err(e) => Err(e),
            Ok(st2) => drain_ops(st2),
        }
    }
}

/// What one statement comes to: either a value, or the declaration of one
/// new free variable, together with the environment as the statement leaves
/// it.
#[verifier::ext_equal]
pub struct EvalOutcome {
    pub value: Option<bool>,
    pub declared: Option<Seq<char>>,
    pub env: Map<Seq<char>, bool>,
}

/// The terminal rules: after the drain, exactly one value on the stack is
/// the statement's value; no value at all is legal only when a free
/// variable was recorded; anything else is a malformed expression.
pub open spec fn finish(st: MachineState) -> Result<EvalOutcome, EvalError> {
    match drain_ops(st) {
        Err(e) => Err(e),
        Ok(st2) => {
            if st2.vals.len() == 1 {
                Ok(EvalOutcome { value: Some(st2.vals[0]), declared: None, env: st2.env })
            } else if st2.vals.len() == 0 && st2.pending is Some {
                Ok(EvalOutcome { value: None, declared: st2.pending, env: st2.env })
            } else {
                Err(EvalError::StackUnderflow)
            }
        },
    }
}

/// The machine before the first token of a statement.
pub open spec fn init_state(env: Map<Seq<char>, bool>) -> MachineState {
    MachineState { vals: Seq::empty(), ops: Seq::empty(), pending: None, env: env }
}

/// The run of the machine over the statement text from position `i`: lex
/// one token, step the machine, continue; at the end of the text, drain and
/// apply the terminal rules.
pub open spec fn run_from(s: Seq<char>, i: int, st: MachineState) -> Result<
    EvalOutcome,
    EvalError,
>
    decreases s.len() - i
    when 0 <= i <= s.len()
{
    match next_token(s, i) {
        LexResult::End => finish(st),
        LexResult::Bad => Err(EvalError::LexicalError),
        LexResult::Tok(t, k) => match step(t, st) {
            Err(e) => Err(e),
            Ok(st2) => {
                proof {
                    crate::tokenize::lemma_next_token_bounds(s, i);
                }
                run_from(s, k, st2)
            },
        },
    }
}

/// The meaning of one statement: the run of the machine over its whole
/// text, starting from empty stacks and the given environment.
pub open spec fn spec_evaluate(s: Seq<char>, env: Map<Seq<char>, bool>) -> Result<
    EvalOutcome,
    EvalError,
> {
    run_from(s, 0, init_state(env))
}

/// The truth function of a binary connective.
pub fn truth(op: Op, a: bool, b: bool) -> (r: bool)
    ensures
        r == truth_value(op, a, b),
{
    match op {
        Op::Or => a || b,
        Op::NotOr => !(a || b),
        Op::And => a && b,
        Op::NotAnd => !(a && b),
        Op::Xor => (!a && b) || (a && !b),
        Op::NotXor => !((!a && b) || (a && !b)),
        Op::Implies => !a || b,
        Op::NotImplies => !(!a || b),
        Op::Equiv => a == b,
        Op::NotEquiv => !(a == b),
        _ => false,
    }
}

/// Applies one operator to the stacks, the pending-variable slot, and the
/// environment. On an error nothing is changed.
pub fn operate(
    operator: Op,
    op_stack: &mut Vec<Op>,
    val_stack: &mut Vec<bool>,
    pending: &mut Option<String>,
    env: &mut Env,
) -> (r: Result<(), EvalError>)
    ensures
        ({
            let pre = (MachineState {
                vals: old(val_stack)@,
                ops: old(op_stack)@,
                pending: opt_name_view(*old(pending)),
                env: old(env)@,
            });
            let post = (MachineState {
                vals: final(val_stack)@,
                ops: final(op_stack)@,
                pending: opt_name_view(*final(pending)),
                env: final(env)@,
            });
            match r {
                Ok(()) => apply_op(operator, pre) == Ok::<MachineState, EvalError>(post),
                Err(e) => apply_op(operator, pre) == Err::<MachineState, EvalError>(e) && post
                    == pre,
            }
        }),
{
    match operator {
        Op::Assign => {
            let name = match pending {
                None => {
                    return Err(EvalError::MissingAssignmentTarget);
                },
                Some(n) => n.clone(),
            };
            if val_stack.len() == 0 {
                return Err(EvalError::MissingAssignmentValue);
            }
            let val = val_stack[val_stack.len() - 1];
            *pending = None;
            env.set(name, val);
            Ok(())
        },
        Op::PostValNot => {
            match val_stack.pop() {
                None => Err(EvalError::NoValueToNegate),
                Some(v) => {
                    val_stack.push(!v);
                    Ok(())
                },
            }
        },
        Op::PostOpNot => {
            if op_stack.len() == 0 {
                return Err(EvalError::NoOperatorToNegate);
            }
            let top = op_stack[op_stack.len() - 1];
            match crate::tokenize::flip(top) {
                None => Err(EvalError::NotNegatable),
                Some(t) => {
                    op_stack.pop();
                    op_stack.push(t);
                    Ok(())
                },
            }
        },
        Op::PrefixNot => Ok(()),
        Op::Open => Ok(()),
        Op::Close => Ok(()),
        _ => {
            if val_stack.len() < 2 {
                return Err(EvalError::StackUnderflow);
            }
            let b = val_stack.pop().unwrap();
            let a = val_stack.pop().unwrap();
            val_stack.push(truth(operator, a, b));
            Ok(())
        },
    }
}

/// A convenience for writing the machine's state from its exec parts.
pub open spec fn machine(
    vals: Seq<bool>,
    ops: Seq<Op>,
    pending: Option<Seq<char>>,
    env: Map<Seq<char>, bool>,
) -> MachineState {
    MachineState { vals: vals, ops: ops, pending: pending, env: env }
}

/// What one statement evaluates to: a boolean value, or the declaration of
/// one new free variable.
#[derive(Debug, PartialEq, Eq)]
pub enum StatementOutcome {
    Value(bool),
    Declared(String),
}

/// Evaluates one statement against the environment, which an assignment in
/// the statement extends. Returns the statement's value, or the name of the
/// one new free variable it declares, or the first error the text holds.
#[verifier::loop_isolation(false)]
pub fn evaluate_statement(expression: &str, env: &mut Env) -> (r: Result<
    StatementOutcome,
    EvalError,
>)
    ensures
        ({
            let res = spec_evaluate(expression@, old(env)@);
            match r {
                Ok(out) => res is Ok && final(env)@ == res->Ok_0.env && (match out {
                    StatementOutcome::Value(b) => res->Ok_0.value == Some(b) && res->Ok_0.declared
                        is None,
                    StatementOutcome::Declared(n) => res->Ok_0.value is None && res->Ok_0.declared
                        == Some(n@),
                }),
                Err(e) => res == Err::<EvalOutcome, EvalError>(e),
            }
        }),
{
    let ghost s = expression@;
    let ghost init = init_state(old(env)@);
    let mut val_stack: Vec<bool> = Vec::new();
    let mut op_stack: Vec<Op> = Vec::new();
    let mut pending: Option<String> = None;
    let mut pos: usize = 0;
    let mut done = false;

    while !done
        invariant
            pos <= s.len(),
            !done ==> run_from(s, 0, init) == run_from(
                s,
                pos as int,
                machine(val_stack@, op_stack@, opt_name_view(pending), env@),
            ),
            done ==> run_from(s, 0, init) == finish(
                machine(val_stack@, op_stack@, opt_name_view(pending), env@),
            ),
        decreases (if done { 0int } else { 1int }), s.len() - pos,
    {
        let ghost pos0 = pos as int;
        let ghost st_tok = machine(val_stack@, op_stack@, opt_name_view(pending), env@);
        let t = match get_token(expression, &mut pos) {
            Err(e) => {
                return Err(e);
            },
            Ok(None) => {
                done = true;
                continue ;
            },
            Ok(Some(t)) => t,
        };
        let ghost tv = t@;
        match t {
            Token::Val(v) => {
                let negate = op_stack.len() > 0 && op_stack[op_stack.len() - 1] == Op::PrefixNot;
                if negate {
                    op_stack.pop();
                    val_stack.push(!v);
                } else {
                    val_stack.push(v);
                }
            },
            Token::Var(name) => {
                match env.get(&name) {
                    Some(val) => {
                        let negate = op_stack.len() > 0 && op_stack[op_stack.len() - 1]
                            == Op::PrefixNot;
                        if negate {
                            op_stack.pop();
                            val_stack.push(!val);
                        } else {
                            val_stack.push(val);
                        }
                    },
                    None => {
                        if op_stack.len() == 0 && pending.is_none() {
                            pending = Some(name);
                        } else {
                            return Err(EvalError::UnassignedVariable);
                        }
                    },
                }
            },
            Token::EndLine => {},
            Token::EndScript => {},
            Token::Op(op) => {
                match op {
                    Op::PostValNot | Op::PostOpNot => {
                        match operate(op, &mut op_stack, &mut val_stack, &mut pending, env) {
                            Ok(()) => {},
                            Err(e) => {
                                return Err(e);
                            },
                        }
                    },
                    _ => {
                        let mut op2 = op;
                        if op_stack.len() > 0 && op_stack[op_stack.len() - 1] == Op::PrefixNot {
                            match crate::tokenize::flip(op) {
                                Some(tw) => {
                                    op2 = tw;
                                    op_stack.pop();
                                },
                                None => {},
                            }
                        }
                        let ghost st1 = machine(
                            val_stack@,
                            op_stack@,
                            opt_name_view(pending),
                            env@,
                        );
                        let mut reduced = false;
                        while !reduced
                            invariant
                                !reduced ==> reduce(op2, st1) == reduce(
                                    op2,
                                    machine(val_stack@, op_stack@, opt_name_view(pending), env@),
                                ),
                                reduced ==> reduce(op2, st1) == Ok::<MachineState, EvalError>(
                                    machine(val_stack@, op_stack@, opt_name_view(pending), env@),
                                ),
                            decreases (if reduced {
                                0int
                            } else {
                                1int
                            }), op_stack@.len(),
                        {
                            if op_stack.len() == 0 {
                                reduced = true;
                            } else {
                                let top = op_stack[op_stack.len() - 1];
                                if top == Op::Open || crate::tokenize::prec(top)
                                    <= crate::tokenize::prec(op2) {
                                    reduced = true;
                                } else {
                                    op_stack.pop();
                                    match operate(
                                        top,
                                        &mut op_stack,
                                        &mut val_stack,
                                        &mut pending,
                                        env,
                                    ) {
                                        Ok(()) => {},
                                        Err(e) => {
                                            return Err(e);
                                        },
                                    }
                                }
                            }
                        }
                        if op2 == Op::Close {
                            if op_stack.len() > 0 && op_stack[op_stack.len() - 1] == Op::Open {
                                op_stack.pop();
                            } else {
                                return Err(EvalError::UnmatchedCloseParen);
                            }
                        } else {
                            op_stack.push(op2);
                        }
                    },
                }
            },
        }
        proof {
            assert(run_from(s, pos0, st_tok) == run_from(
                s,
                pos as int,
                machine(val_stack@, op_stack@, opt_name_view(pending), env@),
            ));
        }
    }
    let ghost st_end = machine(val_stack@, op_stack@, opt_name_view(pending), env@);
    while op_stack.len() > 0
        invariant
            drain_ops(st_end) == drain_ops(
                machine(val_stack@, op_stack@, opt_name_view(pending), env@),
            ),
        decreases op_stack@.len(),
    {
        let top = op_stack[op_stack.len() - 1];
        op_stack.pop();
        match operate(top, &mut op_stack, &mut val_stack, &mut pending, env) {
            Ok(()) => {},
            Err(e) => {
                return Err(e);
            },
        }
    }
    if val_stack.len() == 1 {
        Ok(StatementOutcome::Value(val_stack[0]))
    } else if val_stack.len() == 0 {
        match pending {
            Some(name) => Ok(StatementOutcome::Declared(name)),
            None => Err(EvalError::StackUnderflow),
        }
    } else {
        Err(EvalError::StackUnderflow)
    }
}

/// Evaluates one statement: `Some` is the statement's value; `None` says
/// that the statement declared a new free variable.
pub fn evaluate(expression: &str, env: &mut Env) -> (r: Result<Option<bool>, EvalError>)
    ensures
        ({
            let res = spec_evaluate(expression@, old(env)@);
            match r {
                Ok(v) => res is Ok && res->Ok_0.value == v && final(env)@ == res->Ok_0.env,
                Err(e) => res == Err::<EvalOutcome, EvalError>(e),
            }
        }),
{
    match evaluate_statement(expression, env) {
        Ok(StatementOutcome::Value(b)) => Ok(Some(b)),
        Ok(StatementOutcome::Declared(_)) => Ok(None),
        Err(e) => Err(e),
    }
}

} // verus!
