use ttable::eval::EvalError;
use ttable::table::{format_row, format_table, remove_comments, run_script, split_statements};

fn rows_of(bits: &[&[u8]]) -> Vec<Vec<bool>> {
    bits.iter().map(|row| row.iter().map(|b| *b == 1).collect()).collect()
}

#[test]
fn two_free_variables_and_conjunction() {
    let rows = run_script("a,b,a*b.").unwrap();
    assert_eq!(
        rows,
        rows_of(&[&[0, 0, 0], &[0, 1, 0], &[1, 0, 0], &[1, 1, 1]])
    );
}

#[test]
fn implication_column() {
    let rows = run_script("p,q,p>q.").unwrap();
    assert_eq!(
        rows,
        rows_of(&[&[0, 0, 1], &[0, 1, 1], &[1, 0, 0], &[1, 1, 1]])
    );
    for row in &rows {
        assert_eq!(row[2], !(row[0] && !row[1]));
    }
}

#[test]
fn row_and_column_counts() {
    let rows = run_script("a,b,c,a*b+c.").unwrap();
    assert_eq!(rows.len(), 8);
    for row in &rows {
        assert_eq!(row.len(), 4);
    }
    let rows = run_script("a,a',a=a.").unwrap();
    assert_eq!(rows.len(), 2);
    for row in &rows {
        assert_eq!(row.len(), 3);
    }
}

#[test]
fn assignment_feeds_later_statements() {
    let rows = run_script("a,x:(a'),x.").unwrap();
    assert_eq!(rows, rows_of(&[&[0, 1, 1], &[1, 0, 0]]));
}

#[test]
fn unassigned_variables_abort_the_run() {
    assert_eq!(run_script("a+b."), Err(EvalError::UnassignedVariable));
}

#[test]
fn any_error_aborts_the_run() {
    assert_eq!(run_script("a, $."), Err(EvalError::LexicalError));
    assert_eq!(run_script("a, b, 1+."), Err(EvalError::StackUnderflow));
}

#[test]
fn strips_line_comments() {
    assert_eq!(remove_comments("% note\na".to_string()), "a");
    assert_eq!(remove_comments("a % note".to_string()), "a");
}

#[test]
fn strips_block_comments() {
    assert_eq!(remove_comments("[block]x*y".to_string()), "x*y");
    assert_eq!(remove_comments("x[one]*[two]y".to_string()), "x*y");
}

#[test]
fn strips_whitespace() {
    assert_eq!(remove_comments("a b\tc\nd".to_string()), "abcd");
}

#[test]
fn comment_markers_inside_comments() {
    assert_eq!(remove_comments("[% not a line comment]a".to_string()), "a");
    assert_eq!(remove_comments("% [ no block\nb".to_string()), "b");
}

#[test]
fn splits_on_commas() {
    let parts = split_statements("a,b,a*b.");
    assert_eq!(parts, vec!["a".to_string(), "b".to_string(), "a*b.".to_string()]);
}

#[test]
fn split_keeps_empty_segments() {
    assert_eq!(split_statements(""), vec!["".to_string()]);
    assert_eq!(
        split_statements("a,,b"),
        vec!["a".to_string(), "".to_string(), "b".to_string()]
    );
}

#[test]
fn comments_then_table() {
    let script = remove_comments("p, q, [exclusive] p@q. % done".to_string());
    let rows = run_script(&script).unwrap();
    assert_eq!(
        rows,
        rows_of(&[&[0, 0, 0], &[0, 1, 1], &[1, 0, 1], &[1, 1, 0]])
    );
}

#[test]
fn formats_one_row() {
    assert_eq!(format_row(&vec![true, false]), "1,\t0");
    assert_eq!(format_row(&vec![true]), "1");
    assert_eq!(format_row(&vec![]), "");
    assert_eq!(format_row(&vec![false, true, true]), "0,\t1,\t1");
}

#[test]
fn formats_whole_table() {
    let rows = vec![vec![true], vec![false]];
    assert_eq!(format_table(&rows), "1\n0\n");
    assert_eq!(format_table(&vec![]), "");
}

#[test]
fn formats_generated_table() {
    let rows = run_script("a,b,a*b.").unwrap();
    assert_eq!(
        format_table(&rows),
        "0,\t0,\t0\n0,\t1,\t0\n1,\t0,\t0\n1,\t1,\t1\n"
    );
}
