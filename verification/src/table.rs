//! The script pipeline around the evaluator: comment stripping, the split
//! of a script into statements, the recursive enumeration of every
//! assignment of the free variables, and the rendering of the finished
//! rows.

use vstd::prelude::*;

use crate::env::Env;
use crate::eval::{evaluate_statement, spec_evaluate, EvalError, StatementOutcome};
use crate::tokenize::{is_whitespace, is_ws_char, push_char};

verus! {

/// Where the comment scanner stands: in plain code, inside a `%...` line
/// comment, or inside a `[...]` block comment.
#[derive(Clone, Copy, PartialEq, Eq, Structural)]
pub enum CommentState {
    Code,
    Uniline,
    Multiline,
}

/// The text from position `i` on with comments and whitespace removed,
/// given the state the scanner is in when it reaches `i`.
pub open spec fn strip_from(s: Seq<char>, i: int, st: CommentState) -> Seq<char>
    decreases s.len() - i
    when 0 <= i <= s.len()
{
    if i >= s.len() {
        Seq::empty()
    } else {
        let c = s[i];
        match st {
            CommentState::Code => {
                if c == '%' {
                    strip_from(s, i + 1, CommentState::Uniline)
                } else if c == '[' {
                    strip_from(s, i + 1, CommentState::Multiline)
                } else if is_ws_char(c) {
                    strip_from(s, i + 1, CommentState::Code)
                } else {
                    seq![c] + strip_from(s, i + 1, CommentState::Code)
                }
            },
            CommentState::Uniline => {
                if c == '\n' {
                    strip_from(s, i + 1, CommentState::Code)
                } else {
                    strip_from(s, i + 1, CommentState::Uniline)
                }
            },
            CommentState::Multiline => {
                if c == ']' {
                    strip_from(s, i + 1, CommentState::Code)
                } else {
                    strip_from(s, i + 1, CommentState::Multiline)
                }
            },
        }
    }
}

/// Removes `%...` line comments, `[...]` block comments, and whitespace
/// from a script, before the rest of the pipeline sees it.
pub fn remove_comments(old_script: String) -> (r: String)
    ensures
        r@ == strip_from(old_script@, 0, CommentState::Code),
{
    let ghost s = old_script@;
    let len = old_script.as_str().unicode_len();
    let mut new_script = String::new();
    let mut comment_state = CommentState::Code;
    let mut i: usize = 0;
    while i < len
        invariant
            i <= len == s.len(),
            s == old_script@,
            strip_from(s, 0, CommentState::Code) == new_script@ + strip_from(
                s,
                i as int,
                comment_state,
            ),
        decreases len - i,
    {
        let c = old_script.as_str().get_char(i);
        let ghost pre = new_script@;
        match comment_state {
            CommentState::Code => {
                if c == '%' {
                    comment_state = CommentState::Uniline;
                } else if c == '[' {
                    comment_state = CommentState::Multiline;
                } else if is_whitespace(c) {
                } else {
                    push_char(&mut new_script, c);
                    proof {
                        assert(pre + (seq![c] + strip_from(s, i + 1, CommentState::Code))
                            =~= new_script@ + strip_from(s, i + 1, CommentState::Code));
                    }
                }
            },
            CommentState::Uniline => {
                if c == '\n' {
                    comment_state = CommentState::Code;
                }
            },
            CommentState::Multiline => {
                if c == ']' {
                    comment_state = CommentState::Code;
                }
            },
        }
        i += 1;
    }
    proof {
        assert(new_script@ + strip_from(s, len as int, comment_state) =~= new_script@);
    }
    new_script
}

/// The position of the first `,` at or after `i` (or the end of the text).
pub open spec fn comma_end(s: Seq<char>, i: int) -> int
    decreases s.len() - i
    when 0 <= i <= s.len()
{
    if i >= s.len() {
        i
    } else if s[i] == ',' {
        i
    } else {
        comma_end(s, i + 1)
    }
}

pub proof fn lemma_comma_end_bounds(s: Seq<char>, i: int)
    requires
        0 <= i <= s.len(),
    ensures
        i <= comma_end(s, i) <= s.len(),
        comma_end(s, i) < s.len() ==> s[comma_end(s, i)] == ',',
        forall|k: int| i <= k < comma_end(s, i) ==> s[k] != ',',
    decreases s.len() - i,
{
    if i < s.len() && s[i] != ',' {
        lemma_comma_end_bounds(s, i + 1);
    }
}

/// The statements of the script from position `i` on: the text split on
/// every `,`. A script with no comma is one statement; an empty segment is
/// an empty statement.
pub open spec fn split_from(s: Seq<char>, i: int) -> Seq<Seq<char>>
    decreases s.len() - i
    when 0 <= i <= s.len()
{
    let j = comma_end(s, i);
    if j >= s.len() {
        seq![s.subrange(i, s.len() as int)]
    } else {
        proof {
            lemma_comma_end_bounds(s, i);
        }
        seq![s.subrange(i, j)] + split_from(s, j + 1)
    }
}

/// Splits a script into its comma-separated statements.
pub fn split_statements(script: &str) -> (r: Vec<String>)
    ensures
        r.deep_view() == split_from(script@, 0),
{
    let ghost s = script@;
    let len = script.unicode_len();
    let mut out: Vec<String> = Vec::new();
    let mut cur = String::new();
    let mut i: usize = 0;
    let ghost mut seg_start: int = 0;
    proof {
        lemma_comma_end_bounds(s, 0);
    }
    while i < len
        invariant
            0 <= seg_start <= i <= len == s.len(),
            s == script@,
            cur@ == s.subrange(seg_start, i as int),
            comma_end(s, seg_start) >= i,
            split_from(s, 0) == out.deep_view() + split_from(s, seg_start),
        decreases len - i,
    {
        let c = script.get_char(i);
        proof {
            lemma_comma_end_bounds(s, seg_start);
        }
        if c == ',' {
            proof {
                assert(comma_end(s, seg_start) == i as int);
            }
            let ghost out_pre = out.deep_view();
            let ghost cur_pre = cur@;
            out.push(cur);
            cur = String::new();
            proof {
                assert(out.deep_view() =~= out_pre.push(cur_pre));
                assert(split_from(s, seg_start) == seq![cur_pre] + split_from(s, i + 1));
                assert(out_pre + (seq![cur_pre] + split_from(s, i + 1)) =~= out.deep_view()
                    + split_from(s, i + 1));
                seg_start = i + 1;
                lemma_comma_end_bounds(s, seg_start);
                assert(cur@ =~= s.subrange(seg_start, i + 1));
            }
        } else {
            push_char(&mut cur, c);
            proof {
                assert(comma_end(s, seg_start) != i as int);
                assert(cur@ =~= s.subrange(seg_start, i + 1));
            }
        }
        i += 1;
    }
    proof {
        lemma_comma_end_bounds(s, seg_start);
        assert(comma_end(s, seg_start) == s.len());
        assert(split_from(s, seg_start) == seq![s.subrange(seg_start, s.len() as int)]);
    }
    let ghost out_pre = out.deep_view();
    let ghost cur_pre = cur@;
    out.push(cur);
    proof {
        assert(out.deep_view() =~= out_pre.push(cur_pre));
        assert(out_pre + seq![cur_pre] =~= out_pre.push(cur_pre));
    }
    out
}

/// The rows of the finished table for the statements from `i` on, starting
/// from the row prefix `vals` and the environment `env`: an evaluated
/// statement appends its value to the prefix; a declared free variable
/// branches, the `false` branch first; when no statements remain, the
/// prefix is one complete row. An error in any statement, in any branch,
/// is the result of the whole run.
pub open spec fn spec_execute(
    lines: Seq<Seq<char>>,
    i: int,
    vals: Seq<bool>,
    env: Map<Seq<char>, bool>,
) -> Result<Seq<Seq<bool>>, EvalError>
    decreases lines.len() - i
    when 0 <= i <= lines.len()
{
    if i >= lines.len() {
        Ok(seq![vals])
    } else {
        match spec_evaluate(lines[i], env) {
            Err(e) => Err(e),
            Ok(out) => {
                if out.value is Some {
                    spec_execute(lines, i + 1, vals.push(out.value->Some_0), out.env)
                } else {
                    let name = out.declared->Some_0;
                    match spec_execute(lines, i + 1, vals.push(false), out.env.insert(name, false)) {
                        Err(e) => Err(e),
                        Ok(rows_f) => match spec_execute(
                            lines,
                            i + 1,
                            vals.push(true),
                            out.env.insert(name, true),
                        ) {
                            Err(e) => Err(e),
                            Ok(rows_t) => Ok(rows_f + rows_t),
                        },
                    }
                }
            },
        }
    }
}

/// A copy of a row of booleans.
fn copy_row(row: &Vec<bool>) -> (r: Vec<bool>)
    ensures
        r@ == row@,
{
    let mut r: Vec<bool> = Vec::new();
    let mut i: usize = 0;
    while i < row.len()
        invariant
            i <= row@.len(),
            r@ =~= row@.take(i as int),
        decreases row@.len() - i,
    {
        r.push(row[i]);
        proof {
            assert(row@.take(i + 1) =~= row@.take(i as int).push(row@[i as int]));
        }
        i += 1;
    }
    proof {
        assert(row@.take(row@.len() as int) =~= row@);
    }
    r
}

/// Executes the statements from `i` on: evaluates each statement in order,
/// branches over both values of every newly declared free variable (the
/// `false` branch first), and appends one finished row per complete
/// assignment to `rows`.
pub fn execute(
    lines: &Vec<String>,
    i: usize,
    vals: Vec<bool>,
    env: Env,
    rows: &mut Vec<Vec<bool>>,
) -> (r: Result<(), EvalError>)
    requires
        i <= lines@.len(),
    ensures
        ({
            let res = spec_execute(lines.deep_view(), i as int, vals@, env@);
            match r {
                Ok(()) => res is Ok && final(rows).deep_view() == old(rows).deep_view()
                    + res->Ok_0,
                Err(e) => res == Err::<Seq<Seq<bool>>, EvalError>(e) && final(rows)@ == old(
                    rows,
                )@,
            }
        }),
    decreases lines@.len() - i,
{
    let ghost lv = lines.deep_view();
    proof {
        assert(lv.len() == lines@.len());
    }
    if i == lines.len() {
        let ghost pre = rows.deep_view();
        let ghost row = vals@;
        proof {
            assert(vals.deep_view() =~= row);
        }
        rows.push(vals);
        proof {
            assert(rows.deep_view() =~= pre.push(row));
            assert(pre + seq![row] =~= pre.push(row));
        }
        return Ok(());
    }
    let mut env1 = env;
    let ghost env0 = env1@;
    let ghost vals0 = vals@;
    proof {
        assert(lv[i as int] == lines@[i as int]@);
    }
    match evaluate_statement(lines[i].as_str(), &mut env1) {
        Err(e) => Err(e),
        Ok(StatementOutcome::Value(b)) => {
            let mut vals2 = vals;
            vals2.push(b);
            execute(lines, i + 1, vals2, env1, rows)
        },
        Ok(StatementOutcome::Declared(name)) => {
            let ghost out = spec_evaluate(lv[i as int], env0)->Ok_0;
            let mut vals_f = copy_row(&vals);
            vals_f.push(false);
            let mut env_f = env1.duplicate();
            env_f.set(name.clone(), false);
            let ghost rows0 = rows.deep_view();
            match execute(lines, i + 1, vals_f, env_f, rows) {
                Err(e) => Err(e),
                Ok(()) => {
                    let mut vals_t = vals;
                    vals_t.push(true);
                    env1.set(name, true);
                    match execute(lines, i + 1, vals_t, env1, rows) {
                        Err(e) => {
                            proof {
                                let k = out.declared->Some_0;
                                assert(out.env.insert(k, false).dom() =~= out.env.insert(
                                    k,
                                    true,
                                ).dom());
                                crate::laws::lemma_execute_domains(
                                    lv,
                                    i + 1,
                                    vals0.push(false),
                                    vals0.push(true),
                                    out.env.insert(k, false),
                                    out.env.insert(k, true),
                                );
                                assert(false);
                            }
                            Err(e)
                        },
                        Ok(()) => {
                            proof {
                                let rows_f = spec_execute(
                                    lv,
                                    i + 1,
                                    vals0.push(false),
                                    out.env.insert(out.declared->Some_0, false),
                                )->Ok_0;
                                let rows_t = spec_execute(
                                    lv,
                                    i + 1,
                                    vals0.push(true),
                                    out.env.insert(out.declared->Some_0, true),
                                )->Ok_0;
                                assert((rows0 + rows_f) + rows_t =~= rows0 + (rows_f + rows_t));
                            }
                            Ok(())
                        },
                    }
                },
            }
        },
    }
}

/// The finished table of a whole script: the script split on `,`, executed
/// from the first statement with no bindings and an empty row prefix.
pub open spec fn spec_run_script(s: Seq<char>) -> Result<Seq<Seq<bool>>, EvalError> {
    spec_execute(split_from(s, 0), 0, Seq::empty(), Map::empty())
}

/// Runs a whole script (already stripped of comments) and returns every
/// row of its truth table, or the first error any statement holds.
pub fn run_script(script: &str) -> (r: Result<Vec<Vec<bool>>, EvalError>)
    ensures
        ({
            let res = spec_run_script(script@);
            match r {
                Ok(rows) => res is Ok && rows.deep_view() == res->Ok_0,
                Err(e) => res == Err::<Seq<Seq<bool>>, EvalError>(e),
            }
        }),
{
    let lines = split_statements(script);
    let mut rows: Vec<Vec<bool>> = Vec::new();
    let vals: Vec<bool> = Vec::new();
    let env = Env::new();
    proof {
        assert(rows.deep_view() =~= Seq::<Seq<bool>>::empty());
        assert(vals@ =~= Seq::<bool>::empty());
    }
    match execute(&lines, 0, vals, env, &mut rows) {
        Ok(()) => {
            proof {
                assert(Seq::<Seq<bool>>::empty() + spec_run_script(script@)->Ok_0
                    =~= spec_run_script(script@)->Ok_0);
            }
            Ok(rows)
        },
        Err(e) => Err(e),
    }
}

/// The character a boolean is printed as.
pub open spec fn digit_char(b: bool) -> char {
    if b {
        '1'
    } else {
        '0'
    }
}

/// One printed row: the values as `1`/`0`, the columns joined by `,\t`.
pub open spec fn row_text(row: Seq<bool>) -> Seq<char>
    decreases row.len(),
{
    if row.len() == 0 {
        Seq::empty()
    } else if row.len() == 1 {
        seq![digit_char(row[0])]
    } else {
        seq![digit_char(row[0]), ',', '\t'] + row_text(row.drop_first())
    }
}

/// Renders one table row: values as `1`/`0`, columns joined by a comma and
/// a tab.
pub fn format_row(row: &Vec<bool>) -> (r: String)
    ensures
        r@ == row_text(row@),
{
    let mut out = String::new();
    let mut i: usize = 0;
    proof {
        assert(row@.skip(0) =~= row@);
        assert(Seq::<char>::empty() + row_text(row@) =~= row_text(row@));
    }
    while i < row.len()
        invariant
            i <= row@.len(),
            row_text(row@) == out@ + row_text(row@.skip(i as int)),
        decreases row@.len() - i,
    {
        let ghost pre = out@;
        let ghost rest = row@.skip(i as int);
        push_char(&mut out, if row[i] { '1' } else { '0' });
        if i + 1 < row.len() {
            push_char(&mut out, ',');
            push_char(&mut out, '\t');
            proof {
                assert(rest.drop_first() =~= row@.skip(i + 1));
                assert(rest[0] == row@[i as int]);
                assert(pre + (seq![digit_char(row@[i as int]), ',', '\t'] + row_text(
                    row@.skip(i + 1),
                )) =~= out@ + row_text(row@.skip(i + 1)));
            }
        } else {
            proof {
                assert(rest.len() == 1);
                assert(rest[0] == row@[i as int]);
                assert(row@.skip(i + 1) =~= Seq::<bool>::empty());
                assert(pre + seq![digit_char(row@[i as int])] =~= out@ + row_text(
                    row@.skip(i + 1),
                ));
            }
        }
        i += 1;
    }
    proof {
        assert(row@.skip(row@.len() as int) =~= Seq::<bool>::empty());
        assert(out@ + Seq::<char>::empty() =~= out@);
    }
    out
}

/// The whole printed table: every row's text, each terminated by a newline.
pub open spec fn table_text(rows: Seq<Seq<bool>>) -> Seq<char>
    decreases rows.len(),
{
    if rows.len() == 0 {
        Seq::empty()
    } else {
        row_text(rows[0]) + seq!['\n'] + table_text(rows.drop_first())
    }
}

/// Renders the whole table, one newline-terminated line per row.
pub fn format_table(rows: &Vec<Vec<bool>>) -> (r: String)
    ensures
        r@ == table_text(rows.deep_view()),
{
    let ghost rv = rows.deep_view();
    let mut out = String::new();
    let mut i: usize = 0;
    proof {
        assert(rv.skip(0) =~= rv);
        assert(Seq::<char>::empty() + table_text(rv) =~= table_text(rv));
    }
    while i < rows.len()
        invariant
            i <= rows@.len() == rv.len(),
            rv == rows.deep_view(),
            table_text(rv) == out@ + table_text(rv.skip(i as int)),
        decreases rows@.len() - i,
    {
        let ghost pre = out@;
        let ghost rest = rv.skip(i as int);
        let line = format_row(&rows[i]);
        out.append(line.as_str());
        push_char(&mut out, '\n');
        proof {
            assert(rest.drop_first() =~= rv.skip(i + 1));
            assert(rest[0] == rv[i as int]);
            assert(rv[i as int] == rows@[i as int].deep_view());
            assert(rows@[i as int].deep_view() =~= rows@[i as int]@);
            assert(pre + (row_text(rv[i as int]) + seq!['\n'] + table_text(rv.skip(i + 1))) =~= out@
                + table_text(rv.skip(i + 1)));
        }
        i += 1;
    }
    proof {
        assert(rv.skip(rv.len() as int) =~= Seq::<Seq<bool>>::empty());
        assert(out@ + Seq::<char>::empty() =~= out@);
    }
    out
}

} // verus!
