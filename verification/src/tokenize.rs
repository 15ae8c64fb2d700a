//! Lexing: turning script text into tokens.
//!
//! The lexer works as a cursor over an immutable text slice: `get_token`
//! skips leading whitespace, recognizes the longest match at the cursor
//! (an identifier, a literal, a single-character operator, or a statement
//! or script terminator), advances the cursor past exactly the matched
//! characters, and returns the token. An unrecognized character is a fatal
//! lexical error.

use vstd::prelude::*;

use crate::eval::EvalError;

verus! {

/// An operator of the expression language. Each binary connective has a
/// "negated twin" (`Or`/`NotOr`, ...) that computes the negation of its
/// positive counterpart; the twins are never produced by the lexer, only by
/// postfix operator negation (`!`).
#[derive(Clone, Copy, PartialEq, Eq, Structural, Debug)]
pub enum Op {
    Assign,
    PrefixNot,
    PostValNot,
    PostOpNot,
    Or,
    NotOr,
    And,
    NotAnd,
    Xor,
    NotXor,
    Implies,
    NotImplies,
    Equiv,
    NotEquiv,
    Open,
    Close,
}

/// The precedence of each operator: `Assign` lowest, `Open` a catch-all
/// highest, and `Close` a sentinel below everything so that it forces a
/// full reduce back to the matching `Open`.
pub open spec fn precedence(op: Op) -> int {
    match op {
        Op::Assign => 0,
        Op::PrefixNot => 1,
        Op::Or => 2,
        Op::NotOr => 2,
        Op::And => 3,
        Op::NotAnd => 3,
        Op::Xor => 4,
        Op::NotXor => 4,
        Op::Implies => 5,
        Op::NotImplies => 5,
        Op::Equiv => 6,
        Op::NotEquiv => 6,
        Op::PostValNot => 7,
        Op::PostOpNot => 7,
        Op::Open => 8,
        Op::Close => -1,
    }
}

/// Returns the precedence of the operator.
pub fn prec(op: Op) -> (r: i32)
    ensures
        r as int == precedence(op),
{
    match op {
        Op::Assign => 0,
        Op::PrefixNot => 1,
        Op::Or => 2,
        Op::NotOr => 2,
        Op::And => 3,
        Op::NotAnd => 3,
        Op::Xor => 4,
        Op::NotXor => 4,
        Op::Implies => 5,
        Op::NotImplies => 5,
        Op::Equiv => 6,
        Op::NotEquiv => 6,
        Op::PostValNot => 7,
        Op::PostOpNot => 7,
        Op::Open => 8,
        Op::Close => -1,
    }
}

/// The negated twin of a binary connective, or `None` for an operator that
/// has no twin.
pub open spec fn twin(op: Op) -> Option<Op> {
    match op {
        Op::Or => Some(Op::NotOr),
        Op::NotOr => Some(Op::Or),
        Op::And => Some(Op::NotAnd),
        Op::NotAnd => Some(Op::And),
        Op::Xor => Some(Op::NotXor),
        Op::NotXor => Some(Op::Xor),
        Op::Implies => Some(Op::NotImplies),
        Op::NotImplies => Some(Op::Implies),
        Op::Equiv => Some(Op::NotEquiv),
        Op::NotEquiv => Some(Op::Equiv),
        _ => None,
    }
}

/// Flips a binary connective to its negated twin; `None` for an operator
/// that cannot be negated.
pub fn flip(op: Op) -> (r: Option<Op>)
    ensures
        r == twin(op),
{
    match op {
        Op::Or => Some(Op::NotOr),
        Op::NotOr => Some(Op::Or),
        Op::And => Some(Op::NotAnd),
        Op::NotAnd => Some(Op::And),
        Op::Xor => Some(Op::NotXor),
        Op::NotXor => Some(Op::Xor),
        Op::Implies => Some(Op::NotImplies),
        Op::NotImplies => Some(Op::Implies),
        Op::Equiv => Some(Op::NotEquiv),
        Op::NotEquiv => Some(Op::Equiv),
        _ => None,
    }
}

/// Flipping is an involution: the twin of a twin is the operator itself.
pub proof fn lemma_twin_involutive(op: Op)
    ensures
        twin(op) is Some ==> twin(twin(op)->Some_0) == Some(op),
{
}

/// The whitespace characters the lexer skips.
pub open spec fn is_ws_char(c: char) -> bool {
    c == ' ' || c == '\t' || c == '\n'
}

/// Checks if the char is whitespace.
pub fn is_whitespace(c: char) -> (r: bool)
    ensures
        r == is_ws_char(c),
{
    c == ' ' || c == '\t' || c == '\n'
}

/// An ASCII letter: the first character of an identifier.
pub open spec fn is_alpha_char(c: char) -> bool {
    (65 <= c as u32 && c as u32 <= 90) || (97 <= c as u32 && c as u32 <= 122)
}

/// Checks if the char is an ASCII letter.
pub fn is_alpha(c: char) -> (r: bool)
    ensures
        r == is_alpha_char(c),
{
    let val = c as u32;
    (65 <= val && val <= 90) || (97 <= val && val <= 122)
}

/// An ASCII letter, digit, or underscore: a continuation character of an
/// identifier.
pub open spec fn is_alnum_char(c: char) -> bool {
    is_alpha_char(c) || (48 <= c as u32 && c as u32 <= 57) || c as u32 == 95
}

/// Checks if the char is an ASCII letter, digit, or underscore.
pub fn is_alphanum(c: char) -> (r: bool)
    ensures
        r == is_alnum_char(c),
{
    let val = c as u32;
    (65 <= val && val <= 90) || (97 <= val && val <= 122) || (48 <= val && val <= 57) || val == 95
}

/// A token of the script language.
#[derive(Debug, PartialEq, Eq)]
pub enum Token {
    Val(bool),
    Var(String),
    Op(Op),
    EndLine,
    EndScript,
}

/// The mathematical value of a token: a variable name is a sequence of
/// characters.
pub enum TokenView {
    Val(bool),
    Var(Seq<char>),
    Op(Op),
    EndLine,
    EndScript,
}

impl View for Token {
    type V = TokenView;

    open spec fn view(&self) -> TokenView {
        match self {
            Token::Val(b) => TokenView::Val(*b),
            Token::Var(s) => TokenView::Var(s@),
            Token::Op(op) => TokenView::Op(*op),
            Token::EndLine => TokenView::EndLine,
            Token::EndScript => TokenView::EndScript,
        }
    }
}

/// The first position at or after `i` that does not hold whitespace (or the
/// end of the text).
pub open spec fn skip_ws(s: Seq<char>, i: int) -> int
    decreases s.len() - i
    when 0 <= i <= s.len()
{
    if i >= s.len() {
        i
    } else if is_ws_char(s[i]) {
        skip_ws(s, i + 1)
    } else {
        i
    }
}

/// The first position at or after `i` that does not continue an identifier
/// (or the end of the text).
pub open spec fn ident_end(s: Seq<char>, i: int) -> int
    decreases s.len() - i
    when 0 <= i <= s.len()
{
    if i >= s.len() {
        i
    } else if is_alnum_char(s[i]) {
        ident_end(s, i + 1)
    } else {
        i
    }
}

pub proof fn lemma_skip_ws_bounds(s: Seq<char>, i: int)
    requires
        0 <= i <= s.len(),
    ensures
        i <= skip_ws(s, i) <= s.len(),
        skip_ws(s, i) < s.len() ==> !is_ws_char(s[skip_ws(s, i)]),
    decreases s.len() - i,
{
    if i < s.len() && is_ws_char(s[i]) {
        lemma_skip_ws_bounds(s, i + 1);
    }
}

pub proof fn lemma_ident_end_bounds(s: Seq<char>, i: int)
    requires
        0 <= i <= s.len(),
    ensures
        i <= ident_end(s, i) <= s.len(),
        i < s.len() && is_alnum_char(s[i]) ==> i + 1 <= ident_end(s, i),
    decreases s.len() - i,
{
    if i < s.len() && is_alnum_char(s[i]) {
        lemma_ident_end_bounds(s, i + 1);
    }
}

/// The operator denoted by a single character, if any.
pub open spec fn op_for_char(c: char) -> Option<Op> {
    if c == ':' {
        Some(Op::Assign)
    } else if c == '~' {
        Some(Op::PrefixNot)
    } else if c == '\'' {
        Some(Op::PostValNot)
    } else if c == '!' {
        Some(Op::PostOpNot)
    } else if c == '+' {
        Some(Op::Or)
    } else if c == '*' {
        Some(Op::And)
    } else if c == '@' {
        Some(Op::Xor)
    } else if c == '=' {
        Some(Op::Equiv)
    } else if c == '>' {
        Some(Op::Implies)
    } else if c == '(' {
        Some(Op::Open)
    } else if c == ')' {
        Some(Op::Close)
    } else {
        None
    }
}

/// The token starting at the non-whitespace position `i`, together with the
/// position just past it; `None` if the character there begins no token.
pub open spec fn token_at(s: Seq<char>, i: int) -> Option<(TokenView, int)> {
    let c = s[i];
    if is_alpha_char(c) {
        Some((TokenView::Var(s.subrange(i, ident_end(s, i))), ident_end(s, i)))
    } else if c == '1' {
        Some((TokenView::Val(true), i + 1))
    } else if c == '0' {
        Some((TokenView::Val(false), i + 1))
    } else if c == ',' {
        Some((TokenView::EndLine, i + 1))
    } else if c == '.' {
        Some((TokenView::EndScript, i + 1))
    } else {
        match op_for_char(c) {
            Some(op) => Some((TokenView::Op(op), i + 1)),
            None => None,
        }
    }
}

/// What the lexer does at position `i`: reaches the end of the text, finds a
/// token (with the position just past it), or meets an unrecognized
/// character.
pub enum LexResult {
    End,
    Tok(TokenView, int),
    Bad,
}

/// The lexer's behaviour at position `i`, after skipping whitespace.
pub open spec fn next_token(s: Seq<char>, i: int) -> LexResult {
    let j = skip_ws(s, i);
    if j >= s.len() {
        LexResult::End
    } else {
        match token_at(s, j) {
            Some((t, k)) => LexResult::Tok(t, k),
            None => LexResult::Bad,
        }
    }
}

/// A found token begins strictly after `i` ends: the cursor always advances.
pub proof fn lemma_next_token_bounds(s: Seq<char>, i: int)
    requires
        0 <= i <= s.len(),
    ensures
        forall|t: TokenView, k: int|
            next_token(s, i) == LexResult::Tok(t, k) ==> i < k <= s.len(),
{
    lemma_skip_ws_bounds(s, i);
    let j = skip_ws(s, i);
    if j < s.len() {
        lemma_ident_end_bounds(s, j);
    }
}

/// Relies on `String::push`: appends the given character to the end of the
/// string.
#[verifier::external_body]
pub(crate) fn push_char(s: &mut String, c: char)
    ensures
        final(s)@ == old(s)@.push(c),
{
    s.push(c);
}

/// Gets a token from the text, advancing the cursor past exactly the matched
/// characters (and any whitespace before them). Returns `Ok(None)` when no
/// non-whitespace input remains, and a lexical error on an unrecognized
/// character.
pub fn get_token(script: &str, pos: &mut usize) -> (r: Result<Option<Token>, EvalError>)
    requires
        *old(pos) <= script@.len(),
    ensures
        match r {
            Ok(None) => next_token(script@, *old(pos) as int) is End && *final(pos)
                == script@.len(),
            Ok(Some(t)) => next_token(script@, *old(pos) as int) == LexResult::Tok(
                t@,
                *final(pos) as int,
            ) && *old(pos) < *final(pos) <= script@.len(),
            Err(e) => e == EvalError::LexicalError && next_token(script@, *old(pos) as int)
                is Bad,
        },
{
    let len = script.unicode_len();
    let ghost p0 = *pos as int;

    while *pos < len && is_whitespace(script.get_char(*pos))
        invariant
            len == script@.len(),
            p0 <= *pos <= len,
            skip_ws(script@, p0) == skip_ws(script@, *pos as int),
        decreases len - *pos,
    {
        *pos += 1;
    }
    assert(skip_ws(script@, *pos as int) == *pos as int);

    if *pos == len {
        return Ok(None);
    }
    let c = script.get_char(*pos);

    if is_alpha(c) {
        let ghost j0 = *pos as int;
        let mut name = String::new();
        while *pos < len && is_alphanum(script.get_char(*pos))
            invariant
                len == script@.len(),
                0 <= j0 <= *pos <= len,
                ident_end(script@, j0) == ident_end(script@, *pos as int),
                name@ == script@.subrange(j0, *pos as int),
            decreases len - *pos,
        {
            let ch = script.get_char(*pos);
            push_char(&mut name, ch);
            proof {
                assert(script@.subrange(j0, *pos as int + 1) =~= script@.subrange(
                    j0,
                    *pos as int,
                ).push(script@[*pos as int]));
            }
            *pos += 1;
        }
        assert(ident_end(script@, *pos as int) == *pos as int);
        proof {
            lemma_ident_end_bounds(script@, j0);
        }
        return Ok(Some(Token::Var(name)));
    }
    if c == '1' {
        *pos += 1;
        return Ok(Some(Token::Val(true)));
    }
    if c == '0' {
        *pos += 1;
        return Ok(Some(Token::Val(false)));
    }
    if c == ',' {
        *pos += 1;
        return Ok(Some(Token::EndLine));
    }
    if c == '.' {
        *pos += 1;
        return Ok(Some(Token::EndScript));
    }
    let op = if c == ':' {
        Some(Op::Assign)
    } else if c == '~' {
        Some(Op::PrefixNot)
    } else if c == '\'' {
        Some(Op::PostValNot)
    } else if c == '!' {
        Some(Op::PostOpNot)
    } else if c == '+' {
        Some(Op::Or)
    } else if c == '*' {
        Some(Op::And)
    } else if c == '@' {
        Some(Op::Xor)
    } else if c == '=' {
        Some(Op::Equiv)
    } else if c == '>' {
        Some(Op::Implies)
    } else if c == '(' {
        Some(Op::Open)
    } else if c == ')' {
        Some(Op::Close)
    } else {
        None
    };
    match op {
        Some(op) => {
            *pos += 1;
            Ok(Some(Token::Op(op)))
        },
        None => Err(EvalError::LexicalError),
    }
}

} // verus!
