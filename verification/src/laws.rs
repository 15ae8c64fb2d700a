//! Laws of the library, proved over the spec-level machine: the course of
//! an evaluation depends only on which names are bound, not on their
//! values; an evaluation never changes an existing binding; and a finished
//! table has exactly `2^f` rows of `s` columns each.

use vstd::prelude::*;

use crate::eval::{
    apply_op, drain_ops, init_state, reduce, run_from, spec_evaluate, EvalError, EvalOutcome,
    MachineState,
};
use crate::table::spec_execute;
use crate::tokenize::{next_token, LexResult, Op};

verus! {

/// Two machine states that differ at most in the boolean values they hold:
/// the same operator stack, value stacks of the same height, the same
/// pending slot, and environments binding the same names.
pub open spec fn similar(st1: MachineState, st2: MachineState) -> bool {
    &&& st1.ops == st2.ops
    &&& st1.vals.len() == st2.vals.len()
    &&& st1.pending == st2.pending
    &&& st1.env.dom() == st2.env.dom()
}

/// Two outcomes that differ at most in boolean values: both a value or
/// both a declaration, of the same name, with environments binding the
/// same names.
pub open spec fn similar_outcome(o1: EvalOutcome, o2: EvalOutcome) -> bool {
    &&& o1.value is Some <==> o2.value is Some
    &&& o1.declared == o2.declared
    &&& o1.env.dom() == o2.env.dom()
}

/// Two results that fail together, with the same error, or succeed
/// together with similar states.
pub open spec fn similar_result(
    r1: Result<MachineState, EvalError>,
    r2: Result<MachineState, EvalError>,
) -> bool {
    match (r1, r2) {
        (Ok(a), Ok(b)) => similar(a, b),
        (Err(e1), Err(e2)) => e1 == e2,
        _ => false,
    }
}

/// Applying one operator to similar states fails alike or succeeds alike.
pub proof fn lemma_apply_similar(op: Op, st1: MachineState, st2: MachineState)
    requires
        similar(st1, st2),
    ensures
        similar_result(apply_op(op, st1), apply_op(op, st2)),
{
    match op {
        Op::Assign => {
            if st1.pending is Some && st1.vals.len() > 0 {
                let k = st1.pending->Some_0;
                assert(st1.env.insert(k, st1.vals.last()).dom() =~= st2.env.insert(
                    k,
                    st2.vals.last(),
                ).dom());
            }
        },
        _ => {},
    }
}

/// Reducing before the same incoming operator, from similar states, fails
/// alike or succeeds alike.
pub proof fn lemma_reduce_similar(op: Op, st1: MachineState, st2: MachineState)
    requires
        similar(st1, st2),
    ensures
        similar_result(reduce(op, st1), reduce(op, st2)),
    decreases st1.ops.len(),
{
    if !(st1.ops.len() == 0 || st1.ops.last() == Op::Open || precedence_le(st1.ops.last(), op)) {
        let top = st1.ops.last();
        let popped1 = (MachineState {
            vals: st1.vals,
            ops: st1.ops.drop_last(),
            pending: st1.pending,
            env: st1.env,
        });
        let popped2 = (MachineState {
            vals: st2.vals,
            ops: st2.ops.drop_last(),
            pending: st2.pending,
            env: st2.env,
        });
        lemma_apply_similar(top, popped1, popped2);
        match (apply_op(top, popped1), apply_op(top, popped2)) {
            (Ok(a), Ok(b)) => {
                lemma_reduce_similar(op, a, b);
            },
            _ => {},
        }
    }
}

/// A shorthand used to mirror the reduce loop's stopping condition.
pub open spec fn precedence_le(a: Op, b: Op) -> bool {
    crate::tokenize::precedence(a) <= crate::tokenize::precedence(b)
}

/// One token steps similar states to similar states, or fails alike.
pub proof fn lemma_step_similar(
    t: crate::tokenize::TokenView,
    st1: MachineState,
    st2: MachineState,
)
    requires
        similar(st1, st2),
    ensures
        similar_result(crate::eval::step(t, st1), crate::eval::step(t, st2)),
{
    match t {
        crate::tokenize::TokenView::Op(op) => {
            match op {
                Op::PostValNot => lemma_apply_similar(op, st1, st2),
                Op::PostOpNot => lemma_apply_similar(op, st1, st2),
                _ => {
                    let flipped = st1.ops.len() > 0 && st1.ops.last() == Op::PrefixNot
                        && crate::tokenize::twin(op) is Some;
                    let op2 = if flipped {
                        crate::tokenize::twin(op)->Some_0
                    } else {
                        op
                    };
                    let st1a = if flipped {
                        (MachineState {
                            vals: st1.vals,
                            ops: st1.ops.drop_last(),
                            pending: st1.pending,
                            env: st1.env,
                        })
                    } else {
                        st1
                    };
                    let st2a = if flipped {
                        (MachineState {
                            vals: st2.vals,
                            ops: st2.ops.drop_last(),
                            pending: st2.pending,
                            env: st2.env,
                        })
                    } else {
                        st2
                    };
                    lemma_reduce_similar(op2, st1a, st2a);
                },
            }
        },
        _ => {},
    }
}

/// The drain after the last token keeps similar states similar, or fails
/// alike.
pub proof fn lemma_drain_similar(st1: MachineState, st2: MachineState)
    requires
        similar(st1, st2),
    ensures
        similar_result(drain_ops(st1), drain_ops(st2)),
    decreases st1.ops.len(),
{
    if st1.ops.len() > 0 {
        let top = st1.ops.last();
        let popped1 = (MachineState {
            vals: st1.vals,
            ops: st1.ops.drop_last(),
            pending: st1.pending,
            env: st1.env,
        });
        let popped2 = (MachineState {
            vals: st2.vals,
            ops: st2.ops.drop_last(),
            pending: st2.pending,
            env: st2.env,
        });
        lemma_apply_similar(top, popped1, popped2);
        match (apply_op(top, popped1), apply_op(top, popped2)) {
            (Ok(a), Ok(b)) => {
                lemma_drain_similar(a, b);
            },
            _ => {},
        }
    }
}

/// Two runs over the same text, from similar states, fail with the same
/// error or produce similar outcomes.
pub proof fn lemma_run_similar(s: Seq<char>, i: int, st1: MachineState, st2: MachineState)
    requires
        0 <= i <= s.len(),
        similar(st1, st2),
    ensures
        match (run_from(s, i, st1), run_from(s, i, st2)) {
            (Ok(a), Ok(b)) => similar_outcome(a, b),
            (Err(e1), Err(e2)) => e1 == e2,
            _ => false,
        },
    decreases s.len() - i,
{
    crate::tokenize::lemma_next_token_bounds(s, i);
    match next_token(s, i) {
        LexResult::End => {
            lemma_drain_similar(st1, st2);
        },
        LexResult::Bad => {},
        LexResult::Tok(t, k) => {
            lemma_step_similar(t, st1, st2);
            match (crate::eval::step(t, st1), crate::eval::step(t, st2)) {
                (Ok(a), Ok(b)) => {
                    lemma_run_similar(s, k, a, b);
                },
                _ => {},
            }
        },
    }
}

/// The course of a statement's evaluation depends only on which names are
/// bound: under environments with the same names, it fails with the same
/// error, or declares the same free variable, or produces a value either
/// way, and leaves the same names bound.
pub proof fn lemma_evaluate_domains(
    s: Seq<char>,
    env1: Map<Seq<char>, bool>,
    env2: Map<Seq<char>, bool>,
)
    requires
        env1.dom() == env2.dom(),
    ensures
        match (spec_evaluate(s, env1), spec_evaluate(s, env2)) {
            (Ok(a), Ok(b)) => similar_outcome(a, b),
            (Err(e1), Err(e2)) => e1 == e2,
            _ => false,
        },
{
    lemma_run_similar(s, 0, init_state(env1), init_state(env2));
}

/// `env2` keeps every binding of `env1` unchanged (and may add more).
pub open spec fn extends(env2: Map<Seq<char>, bool>, env1: Map<Seq<char>, bool>) -> bool {
    forall|k: Seq<char>|
        env1.contains_key(k) ==> #[trigger] env2.contains_key(k) && env2[k] == env1[k]
}

/// The machine only ever grows the environment: its bindings extend the
/// base, and the pending name, if any, is still unbound (so an assignment
/// can only add a binding, never overwrite one).
pub open spec fn grows_only(st: MachineState, base: Map<Seq<char>, bool>) -> bool {
    &&& extends(st.env, base)
    &&& st.pending is Some ==> !st.env.contains_key(st.pending->Some_0)
}

pub proof fn lemma_apply_grows(op: Op, st: MachineState, base: Map<Seq<char>, bool>)
    requires
        grows_only(st, base),
        apply_op(op, st) is Ok,
    ensures
        grows_only(apply_op(op, st)->Ok_0, base),
{
}

pub proof fn lemma_reduce_grows(op: Op, st: MachineState, base: Map<Seq<char>, bool>)
    requires
        grows_only(st, base),
        reduce(op, st) is Ok,
    ensures
        grows_only(reduce(op, st)->Ok_0, base),
    decreases st.ops.len(),
{
    if !(st.ops.len() == 0 || st.ops.last() == Op::Open || precedence_le(st.ops.last(), op)) {
        let top = st.ops.last();
        let popped = (MachineState {
            vals: st.vals,
            ops: st.ops.drop_last(),
            pending: st.pending,
            env: st.env,
        });
        lemma_apply_grows(top, popped, base);
        lemma_reduce_grows(op, apply_op(top, popped)->Ok_0, base);
    }
}

pub proof fn lemma_step_grows(
    t: crate::tokenize::TokenView,
    st: MachineState,
    base: Map<Seq<char>, bool>,
)
    requires
        grows_only(st, base),
        crate::eval::step(t, st) is Ok,
    ensures
        grows_only(crate::eval::step(t, st)->Ok_0, base),
{
    match t {
        crate::tokenize::TokenView::Op(op) => {
            match op {
                Op::PostValNot => lemma_apply_grows(op, st, base),
                Op::PostOpNot => lemma_apply_grows(op, st, base),
                _ => {
                    let flipped = st.ops.len() > 0 && st.ops.last() == Op::PrefixNot
                        && crate::tokenize::twin(op) is Some;
                    let op2 = if flipped {
                        crate::tokenize::twin(op)->Some_0
                    } else {
                        op
                    };
                    let st1 = if flipped {
                        (MachineState {
                            vals: st.vals,
                            ops: st.ops.drop_last(),
                            pending: st.pending,
                            env: st.env,
                        })
                    } else {
                        st
                    };
                    lemma_reduce_grows(op2, st1, base);
                },
            }
        },
        _ => {},
    }
}

pub proof fn lemma_drain_grows(st: MachineState, base: Map<Seq<char>, bool>)
    requires
        grows_only(st, base),
        drain_ops(st) is Ok,
    ensures
        grows_only(drain_ops(st)->Ok_0, base),
    decreases st.ops.len(),
{
    if st.ops.len() > 0 {
        let top = st.ops.last();
        let popped = (MachineState {
            vals: st.vals,
            ops: st.ops.drop_last(),
            pending: st.pending,
            env: st.env,
        });
        lemma_apply_grows(top, popped, base);
        lemma_drain_grows(apply_op(top, popped)->Ok_0, base);
    }
}

pub proof fn lemma_run_grows(
    s: Seq<char>,
    i: int,
    st: MachineState,
    base: Map<Seq<char>, bool>,
)
    requires
        0 <= i <= s.len(),
        grows_only(st, base),
        run_from(s, i, st) is Ok,
    ensures
        extends(run_from(s, i, st)->Ok_0.env, base),
    decreases s.len() - i,
{
    crate::tokenize::lemma_next_token_bounds(s, i);
    match next_token(s, i) {
        LexResult::End => {
            lemma_drain_grows(st, base);
        },
        LexResult::Bad => {},
        LexResult::Tok(t, k) => {
            lemma_step_grows(t, st, base);
            lemma_run_grows(s, k, crate::eval::step(t, st)->Ok_0, base);
        },
    }
}

/// Evaluating a statement never changes an existing binding: the
/// environment it leaves behind extends the one it started from, so the
/// only side effect a statement can have is the binding its own assignment
/// (or declaration) adds.
pub proof fn lemma_evaluate_extends(s: Seq<char>, env: Map<Seq<char>, bool>)
    requires
        spec_evaluate(s, env) is Ok,
    ensures
        extends(spec_evaluate(s, env)->Ok_0.env, env),
{
    lemma_run_grows(s, 0, init_state(env), env);
}

/// Either the machine has not touched the environment yet, or at least one
/// value is on the stack. Since no application ever empties a non-empty
/// value stack, a statement that ends with no value (a declaration) can
/// never have changed the environment.
pub open spec fn quiet(st: MachineState, env0: Map<Seq<char>, bool>) -> bool {
    st.env == env0 || st.vals.len() >= 1
}

pub proof fn lemma_apply_quiet(op: Op, st: MachineState, env0: Map<Seq<char>, bool>)
    requires
        quiet(st, env0),
        apply_op(op, st) is Ok,
    ensures
        quiet(apply_op(op, st)->Ok_0, env0),
{
}

pub proof fn lemma_reduce_quiet(op: Op, st: MachineState, env0: Map<Seq<char>, bool>)
    requires
        quiet(st, env0),
        reduce(op, st) is Ok,
    ensures
        quiet(reduce(op, st)->Ok_0, env0),
    decreases st.ops.len(),
{
    if !(st.ops.len() == 0 || st.ops.last() == Op::Open || precedence_le(st.ops.last(), op)) {
        let top = st.ops.last();
        let popped = (MachineState {
            vals: st.vals,
            ops: st.ops.drop_last(),
            pending: st.pending,
            env: st.env,
        });
        lemma_apply_quiet(top, popped, env0);
        lemma_reduce_quiet(op, apply_op(top, popped)->Ok_0, env0);
    }
}

pub proof fn lemma_step_quiet(
    t: crate::tokenize::TokenView,
    st: MachineState,
    env0: Map<Seq<char>, bool>,
)
    requires
        quiet(st, env0),
        crate::eval::step(t, st) is Ok,
    ensures
        quiet(crate::eval::step(t, st)->Ok_0, env0),
{
    match t {
        crate::tokenize::TokenView::Op(op) => {
            match op {
                Op::PostValNot => lemma_apply_quiet(op, st, env0),
                Op::PostOpNot => lemma_apply_quiet(op, st, env0),
                _ => {
                    let flipped = st.ops.len() > 0 && st.ops.last() == Op::PrefixNot
                        && crate::tokenize::twin(op) is Some;
                    let op2 = if flipped {
                        crate::tokenize::twin(op)->Some_0
                    } else {
                        op
                    };
                    let st1 = if flipped {
                        (MachineState {
                            vals: st.vals,
                            ops: st.ops.drop_last(),
                            pending: st.pending,
                            env: st.env,
                        })
                    } else {
                        st
                    };
                    lemma_reduce_quiet(op2, st1, env0);
                },
            }
        },
        _ => {},
    }
}

pub proof fn lemma_drain_quiet(st: MachineState, env0: Map<Seq<char>, bool>)
    requires
        quiet(st, env0),
        drain_ops(st) is Ok,
    ensures
        quiet(drain_ops(st)->Ok_0, env0),
    decreases st.ops.len(),
{
    if st.ops.len() > 0 {
        let top = st.ops.last();
        let popped = (MachineState {
            vals: st.vals,
            ops: st.ops.drop_last(),
            pending: st.pending,
            env: st.env,
        });
        lemma_apply_quiet(top, popped, env0);
        lemma_drain_quiet(apply_op(top, popped)->Ok_0, env0);
    }
}

pub proof fn lemma_run_quiet(
    s: Seq<char>,
    i: int,
    st: MachineState,
    env0: Map<Seq<char>, bool>,
)
    requires
        0 <= i <= s.len(),
        quiet(st, env0),
        run_from(s, i, st) is Ok,
        run_from(s, i, st)->Ok_0.value is None,
    ensures
        run_from(s, i, st)->Ok_0.env == env0,
    decreases s.len() - i,
{
    crate::tokenize::lemma_next_token_bounds(s, i);
    match next_token(s, i) {
        LexResult::End => {
            lemma_drain_quiet(st, env0);
        },
        LexResult::Bad => {},
        LexResult::Tok(t, k) => {
            lemma_step_quiet(t, st, env0);
            lemma_run_quiet(s, k, crate::eval::step(t, st)->Ok_0, env0);
        },
    }
}

/// A statement that declares a free variable has no side effect at all:
/// the environment after it is exactly the environment before it. With the
/// contract of `evaluate`, which makes the result a function of the text
/// and the starting environment alone, evaluating the same statement twice
/// against the same environment yields the same result, and no effect
/// beyond an assignment's own binding ever occurs.
pub proof fn lemma_declaration_no_side_effect(s: Seq<char>, env: Map<Seq<char>, bool>)
    requires
        spec_evaluate(s, env) is Ok,
        spec_evaluate(s, env)->Ok_0.value is None,
    ensures
        spec_evaluate(s, env)->Ok_0.env == env,
{
    lemma_run_quiet(s, 0, init_state(env), env);
}

/// Two to the power `n`.
pub open spec fn pow2(n: nat) -> nat
    decreases n,
{
    if n == 0 {
        1
    } else {
        2 * pow2((n - 1) as nat)
    }
}

/// The number of statements from `i` on that declare a free variable when
/// the statements are executed in order from `env` (following the `false`
/// branch of every declaration; by `lemma_free_count_domains` the branch
/// does not matter).
pub open spec fn free_count(lines: Seq<Seq<char>>, i: int, env: Map<Seq<char>, bool>) -> nat
    decreases lines.len() - i
    when 0 <= i <= lines.len()
{
    if i >= lines.len() {
        0
    } else {
        match spec_evaluate(lines[i], env) {
            Err(e) => 0,
            Ok(out) => {
                if out.value is Some {
                    free_count(lines, i + 1, out.env)
                } else {
                    1 + free_count(lines, i + 1, out.env.insert(out.declared->Some_0, false))
                }
            },
        }
    }
}

/// The number of free-variable statements depends only on which names are
/// bound at the start, not on their values.
pub proof fn lemma_free_count_domains(
    lines: Seq<Seq<char>>,
    i: int,
    env1: Map<Seq<char>, bool>,
    env2: Map<Seq<char>, bool>,
)
    requires
        0 <= i <= lines.len(),
        env1.dom() == env2.dom(),
    ensures
        free_count(lines, i, env1) == free_count(lines, i, env2),
    decreases lines.len() - i,
{
    if i < lines.len() {
        lemma_evaluate_domains(lines[i], env1, env2);
        match (spec_evaluate(lines[i], env1), spec_evaluate(lines[i], env2)) {
            (Ok(a), Ok(b)) => {
                if a.value is Some {
                    lemma_free_count_domains(lines, i + 1, a.env, b.env);
                } else {
                    let k = a.declared->Some_0;
                    assert(a.env.insert(k, false).dom() =~= b.env.insert(k, false).dom());
                    lemma_free_count_domains(
                        lines,
                        i + 1,
                        a.env.insert(k, false),
                        b.env.insert(k, false),
                    );
                }
            },
            _ => {},
        }
    }
}

/// Whether a run of the statements from `i` on fails, and with which error,
/// depends only on which names are bound at the start.
pub proof fn lemma_execute_domains(
    lines: Seq<Seq<char>>,
    i: int,
    vals1: Seq<bool>,
    vals2: Seq<bool>,
    env1: Map<Seq<char>, bool>,
    env2: Map<Seq<char>, bool>,
)
    requires
        0 <= i <= lines.len(),
        env1.dom() == env2.dom(),
    ensures
        spec_execute(lines, i, vals1, env1) is Err <==> spec_execute(lines, i, vals2, env2)
            is Err,
        spec_execute(lines, i, vals1, env1) is Err ==> spec_execute(lines, i, vals1, env1)
            == spec_execute(lines, i, vals2, env2),
    decreases lines.len() - i,
{
    if i < lines.len() {
        lemma_evaluate_domains(lines[i], env1, env2);
        match (spec_evaluate(lines[i], env1), spec_evaluate(lines[i], env2)) {
            (Ok(a), Ok(b)) => {
                if a.value is Some {
                    lemma_execute_domains(
                        lines,
                        i + 1,
                        vals1.push(a.value->Some_0),
                        vals2.push(b.value->Some_0),
                        a.env,
                        b.env,
                    );
                } else {
                    let ka = a.declared->Some_0;
                    assert(a.env.insert(ka, false).dom() =~= b.env.insert(ka, false).dom());
                    assert(a.env.insert(ka, true).dom() =~= b.env.insert(ka, true).dom());
                    assert(a.env.insert(ka, false).dom() =~= a.env.insert(ka, true).dom());
                    lemma_execute_domains(
                        lines,
                        i + 1,
                        vals1.push(false),
                        vals2.push(false),
                        a.env.insert(ka, false),
                        b.env.insert(ka, false),
                    );
                    lemma_execute_domains(
                        lines,
                        i + 1,
                        vals1.push(true),
                        vals2.push(true),
                        a.env.insert(ka, true),
                        b.env.insert(ka, true),
                    );
                    lemma_execute_domains(
                        lines,
                        i + 1,
                        vals1.push(false),
                        vals1.push(true),
                        a.env.insert(ka, false),
                        a.env.insert(ka, true),
                    );
                }
            },
            _ => {},
        }
    }
}

/// The shape of a finished table: one row per assignment of the free
/// variables, `2^f` of them, and every row as long as the prefix plus the
/// number of statements still to run.
pub proof fn lemma_execute_shape(
    lines: Seq<Seq<char>>,
    i: int,
    vals: Seq<bool>,
    env: Map<Seq<char>, bool>,
)
    requires
        0 <= i <= lines.len(),
        spec_execute(lines, i, vals, env) is Ok,
    ensures
        ({
            let rows = spec_execute(lines, i, vals, env)->Ok_0;
            &&& rows.len() == pow2(free_count(lines, i, env))
            &&& forall|k: int|
                0 <= k < rows.len() ==> (#[trigger] rows[k]).len() == vals.len() + lines.len() - i
        }),
    decreases lines.len() - i,
{
    if i < lines.len() {
        match spec_evaluate(lines[i], env) {
            Err(e) => {},
            Ok(out) => {
                if out.value is Some {
                    lemma_execute_shape(lines, i + 1, vals.push(out.value->Some_0), out.env);
                } else {
                    let k = out.declared->Some_0;
                    lemma_execute_shape(lines, i + 1, vals.push(false), out.env.insert(k, false));
                    lemma_execute_shape(lines, i + 1, vals.push(true), out.env.insert(k, true));
                    assert(out.env.insert(k, false).dom() =~= out.env.insert(k, true).dom());
                    lemma_free_count_domains(
                        lines,
                        i + 1,
                        out.env.insert(k, false),
                        out.env.insert(k, true),
                    );
                }
            },
        }
    }
}

/// The table of a whole script, when it succeeds, has exactly `2^f` rows
/// (`f` the number of free-variable statements) and every row has one
/// column per statement.
pub proof fn lemma_table_shape(lines: Seq<Seq<char>>, env: Map<Seq<char>, bool>)
    requires
        spec_execute(lines, 0, Seq::empty(), env) is Ok,
    ensures
        ({
            let rows = spec_execute(lines, 0, Seq::empty(), env)->Ok_0;
            &&& rows.len() == pow2(free_count(lines, 0, env))
            &&& forall|k: int| 0 <= k < rows.len() ==> (#[trigger] rows[k]).len() == lines.len()
        }),
{
    lemma_execute_shape(lines, 0, Seq::empty(), env);
}

/// The shape of a whole script's table: when `run_script` succeeds on a
/// script with `s` statements, of which `f` declare a free variable, it
/// returns exactly `2^f` rows of `s` columns each.
pub proof fn lemma_run_script_shape(s: Seq<char>)
    requires
        crate::table::spec_run_script(s) is Ok,
    ensures
        ({
            let lines = crate::table::split_from(s, 0);
            let rows = crate::table::spec_run_script(s)->Ok_0;
            &&& rows.len() == pow2(free_count(lines, 0, Map::empty()))
            &&& forall|k: int| 0 <= k < rows.len() ==> (#[trigger] rows[k]).len() == lines.len()
        }),
{
    lemma_table_shape(crate::table::split_from(s, 0), Map::empty());
}

/// Prefix negation distributes onto the following literal: `~1` evaluates
/// to `false` (and `~0` to `true`), in any environment.
pub proof fn lemma_prefix_not_literal(env: Map<Seq<char>, bool>)
    ensures
        spec_evaluate(seq!['~', '1'], env) == Ok::<EvalOutcome, EvalError>(
            EvalOutcome { value: Some(false), declared: None, env: env },
        ),
        spec_evaluate(seq!['~', '0'], env) == Ok::<EvalOutcome, EvalError>(
            EvalOutcome { value: Some(true), declared: None, env: env },
        ),
{
    reveal_with_fuel(crate::tokenize::skip_ws, 4);
    reveal_with_fuel(crate::eval::run_from, 5);
    let s1 = seq!['~', '1'];
    let s0 = seq!['~', '0'];
    assert(spec_evaluate(s1, env) == Ok::<EvalOutcome, EvalError>(
        EvalOutcome { value: Some(false), declared: None, env: env },
    ));
    assert(spec_evaluate(s0, env) == Ok::<EvalOutcome, EvalError>(
        EvalOutcome { value: Some(true), declared: None, env: env },
    ));
}

/// Prefix negation distributes onto the following variable: `~p` evaluates
/// to the negation of `p`'s bound value.
pub proof fn lemma_prefix_not_variable(env: Map<Seq<char>, bool>, v: bool)
    requires
        env.contains_key(seq!['p']),
        env[seq!['p']] == v,
    ensures
        spec_evaluate(seq!['~', 'p'], env) == Ok::<EvalOutcome, EvalError>(
            EvalOutcome { value: Some(!v), declared: None, env: env },
        ),
{
    reveal_with_fuel(crate::tokenize::skip_ws, 4);
    reveal_with_fuel(crate::tokenize::ident_end, 4);
    reveal_with_fuel(crate::eval::run_from, 5);
    let s = seq!['~', 'p'];
    assert(s.subrange(1, 2) =~= seq!['p']);
    assert(spec_evaluate(s, env) == Ok::<EvalOutcome, EvalError>(
        EvalOutcome { value: Some(!v), declared: None, env: env },
    ));
}

/// Postfix operator negation: `p +! q` equals `!(p || q)` for every pair of
/// bound values of `p` and `q`.
pub proof fn lemma_postfix_op_negation(env: Map<Seq<char>, bool>, p: bool, q: bool)
    requires
        env.contains_key(seq!['p']),
        env[seq!['p']] == p,
        env.contains_key(seq!['q']),
        env[seq!['q']] == q,
    ensures
        spec_evaluate(seq!['p', '+', '!', 'q'], env) == Ok::<EvalOutcome, EvalError>(
            EvalOutcome { value: Some(!(p || q)), declared: None, env: env },
        ),
{
    reveal_with_fuel(crate::tokenize::skip_ws, 6);
    reveal_with_fuel(crate::tokenize::ident_end, 6);
    reveal_with_fuel(crate::eval::run_from, 7);
    reveal_with_fuel(crate::eval::drain_ops, 4);
    let s = seq!['p', '+', '!', 'q'];
    assert(s.subrange(0, 1) =~= seq!['p']);
    assert(s.subrange(3, 4) =~= seq!['q']);
    assert(spec_evaluate(s, env) == Ok::<EvalOutcome, EvalError>(
        EvalOutcome { value: Some(!(p || q)), declared: None, env: env },
    ));
}

/// Precedence: `a + b * c` evaluates exactly as `a + (b * c)` does, to the
/// disjunction of `a` with the conjunction of `b` and `c`, for every
/// assignment of the three variables.
pub proof fn lemma_precedence(env: Map<Seq<char>, bool>, a: bool, b: bool, c: bool)
    requires
        env.contains_key(seq!['a']),
        env[seq!['a']] == a,
        env.contains_key(seq!['b']),
        env[seq!['b']] == b,
        env.contains_key(seq!['c']),
        env[seq!['c']] == c,
    ensures
        spec_evaluate(seq!['a', '+', 'b', '*', 'c'], env) == Ok::<EvalOutcome, EvalError>(
            EvalOutcome { value: Some(a || (b && c)), declared: None, env: env },
        ),
        spec_evaluate(seq!['a', '+', '(', 'b', '*', 'c', ')'], env) == Ok::<
            EvalOutcome,
            EvalError,
        >(EvalOutcome { value: Some(a || (b && c)), declared: None, env: env }),
        spec_evaluate(seq!['a', '+', 'b', '*', 'c'], env) == spec_evaluate(
            seq!['a', '+', '(', 'b', '*', 'c', ')'],
            env,
        ),
{
    reveal_with_fuel(crate::tokenize::skip_ws, 9);
    reveal_with_fuel(crate::tokenize::ident_end, 9);
    reveal_with_fuel(crate::eval::run_from, 10);
    reveal_with_fuel(crate::eval::reduce, 5);
    reveal_with_fuel(crate::eval::drain_ops, 5);
    let s1 = seq!['a', '+', 'b', '*', 'c'];
    assert(s1.subrange(0, 1) =~= seq!['a']);
    assert(s1.subrange(2, 3) =~= seq!['b']);
    assert(s1.subrange(4, 5) =~= seq!['c']);
    assert(spec_evaluate(s1, env) == Ok::<EvalOutcome, EvalError>(
        EvalOutcome { value: Some(a || (b && c)), declared: None, env: env },
    ));
    let s2 = seq!['a', '+', '(', 'b', '*', 'c', ')'];
    assert(s2.subrange(0, 1) =~= seq!['a']);
    assert(s2.subrange(3, 4) =~= seq!['b']);
    assert(s2.subrange(5, 6) =~= seq!['c']);
    assert(spec_evaluate(s2, env) == Ok::<EvalOutcome, EvalError>(
        EvalOutcome { value: Some(a || (b && c)), declared: None, env: env },
    ));
}

/// A parenthesized disjunction reduces first: `(a + b) * c` evaluates to
/// the conjunction of `c` with the disjunction of `a` and `b`.
pub proof fn lemma_paren_group(env: Map<Seq<char>, bool>, a: bool, b: bool, c: bool)
    requires
        env.contains_key(seq!['a']),
        env[seq!['a']] == a,
        env.contains_key(seq!['b']),
        env[seq!['b']] == b,
        env.contains_key(seq!['c']),
        env[seq!['c']] == c,
    ensures
        spec_evaluate(seq!['(', 'a', '+', 'b', ')', '*', 'c'], env) == Ok::<
            EvalOutcome,
            EvalError,
        >(EvalOutcome { value: Some((a || b) && c), declared: None, env: env }),
{
    reveal_with_fuel(crate::tokenize::skip_ws, 9);
    reveal_with_fuel(crate::tokenize::ident_end, 9);
    reveal_with_fuel(crate::eval::run_from, 10);
    reveal_with_fuel(crate::eval::reduce, 5);
    reveal_with_fuel(crate::eval::drain_ops, 5);
    let s = seq!['(', 'a', '+', 'b', ')', '*', 'c'];
    assert(s.subrange(1, 2) =~= seq!['a']);
    assert(s.subrange(3, 4) =~= seq!['b']);
    assert(s.subrange(6, 7) =~= seq!['c']);
    assert(spec_evaluate(s, env) == Ok::<EvalOutcome, EvalError>(
        EvalOutcome { value: Some((a || b) && c), declared: None, env: env },
    ));
}

/// Parenthesization overrides precedence: on the assignment `a = true`,
/// `b = false`, `c = false`, the script `(a + b) * c` yields `false` where
/// `a + b * c` yields `true`.
pub proof fn lemma_paren_overrides_precedence(env: Map<Seq<char>, bool>)
    requires
        env.contains_key(seq!['a']),
        env[seq!['a']] == true,
        env.contains_key(seq!['b']),
        env[seq!['b']] == false,
        env.contains_key(seq!['c']),
        env[seq!['c']] == false,
    ensures
        spec_evaluate(seq!['(', 'a', '+', 'b', ')', '*', 'c'], env)->Ok_0.value == Some(false),
        spec_evaluate(seq!['a', '+', 'b', '*', 'c'], env)->Ok_0.value == Some(true),
        spec_evaluate(seq!['(', 'a', '+', 'b', ')', '*', 'c'], env) != spec_evaluate(
            seq!['a', '+', 'b', '*', 'c'],
            env,
        ),
{
    lemma_paren_group(env, true, false, false);
    lemma_precedence(env, true, false, false);
}

/// Assignment side effect: `x : (a * b)` yields the conjunction of `a` and
/// `b`, and binds `x` to that very value, so every later statement in the
/// same branch that reads `x` sees it.
pub proof fn lemma_assignment_binds(env: Map<Seq<char>, bool>, a: bool, b: bool)
    requires
        env.contains_key(seq!['a']),
        env[seq!['a']] == a,
        env.contains_key(seq!['b']),
        env[seq!['b']] == b,
        !env.contains_key(seq!['x']),
    ensures
        spec_evaluate(seq!['x', ':', '(', 'a', '*', 'b', ')'], env) == Ok::<
            EvalOutcome,
            EvalError,
        >(
            EvalOutcome {
                value: Some(a && b),
                declared: None,
                env: env.insert(seq!['x'], a && b),
            },
        ),
{
    reveal_with_fuel(crate::tokenize::skip_ws, 10);
    reveal_with_fuel(crate::tokenize::ident_end, 10);
    reveal_with_fuel(crate::eval::run_from, 11);
    reveal_with_fuel(crate::eval::reduce, 5);
    reveal_with_fuel(crate::eval::drain_ops, 5);
    let s = seq!['x', ':', '(', 'a', '*', 'b', ')'];
    assert(s.subrange(0, 1) =~= seq!['x']);
    assert(s.subrange(3, 4) =~= seq!['a']);
    assert(s.subrange(5, 6) =~= seq!['b']);
    assert(spec_evaluate(s, env) == Ok::<EvalOutcome, EvalError>(
        EvalOutcome {
            value: Some(a && b),
            declared: None,
            env: env.insert(seq!['x'], a && b),
        },
    ));
}

} // verus!
