use ttable::eval::EvalError;
use ttable::tokenize::{flip, get_token, is_alpha, is_alphanum, is_whitespace, prec, Op, Token};

fn lex_all(text: &str) -> Result<Vec<Token>, EvalError> {
    let mut pos: usize = 0;
    let mut out: Vec<Token> = Vec::new();
    loop {
        match get_token(text, &mut pos)? {
            None => {
                return Ok(out);
            },
            Some(t) => out.push(t),
        }
    }
}

#[test]
fn whitespace_classes() {
    assert!(is_whitespace(' '));
    assert!(is_whitespace('\t'));
    assert!(is_whitespace('\n'));
    assert!(!is_whitespace('a'));
    assert!(!is_whitespace('+'));
}

#[test]
fn alpha_classes() {
    assert!(is_alpha('a'));
    assert!(is_alpha('Z'));
    assert!(!is_alpha('0'));
    assert!(!is_alpha('_'));
    assert!(!is_alpha('+'));
}

#[test]
fn alphanum_classes() {
    assert!(is_alphanum('a'));
    assert!(is_alphanum('Z'));
    assert!(is_alphanum('7'));
    assert!(is_alphanum('_'));
    assert!(!is_alphanum('+'));
    assert!(!is_alphanum('.'));
}

#[test]
fn precedence_ordering() {
    assert_eq!(prec(Op::Assign), 0);
    assert_eq!(prec(Op::PrefixNot), 1);
    assert_eq!(prec(Op::Or), 2);
    assert_eq!(prec(Op::NotOr), 2);
    assert_eq!(prec(Op::And), 3);
    assert_eq!(prec(Op::NotAnd), 3);
    assert_eq!(prec(Op::Xor), 4);
    assert_eq!(prec(Op::NotXor), 4);
    assert_eq!(prec(Op::Implies), 5);
    assert_eq!(prec(Op::NotImplies), 5);
    assert_eq!(prec(Op::Equiv), 6);
    assert_eq!(prec(Op::NotEquiv), 6);
    assert_eq!(prec(Op::PostValNot), 7);
    assert_eq!(prec(Op::PostOpNot), 7);
    assert_eq!(prec(Op::Open), 8);
    assert_eq!(prec(Op::Close), -1);
}

#[test]
fn flip_twins() {
    assert_eq!(flip(Op::Or), Some(Op::NotOr));
    assert_eq!(flip(Op::NotOr), Some(Op::Or));
    assert_eq!(flip(Op::And), Some(Op::NotAnd));
    assert_eq!(flip(Op::Xor), Some(Op::NotXor));
    assert_eq!(flip(Op::Implies), Some(Op::NotImplies));
    assert_eq!(flip(Op::Equiv), Some(Op::NotEquiv));
    assert_eq!(flip(Op::Assign), None);
    assert_eq!(flip(Op::PrefixNot), None);
    assert_eq!(flip(Op::PostValNot), None);
    assert_eq!(flip(Op::PostOpNot), None);
    assert_eq!(flip(Op::Open), None);
    assert_eq!(flip(Op::Close), None);
}

#[test]
fn flip_is_involutive() {
    let all = vec![
        Op::Assign,
        Op::PrefixNot,
        Op::PostValNot,
        Op::PostOpNot,
        Op::Or,
        Op::NotOr,
        Op::And,
        Op::NotAnd,
        Op::Xor,
        Op::NotXor,
        Op::Implies,
        Op::NotImplies,
        Op::Equiv,
        Op::NotEquiv,
        Op::Open,
        Op::Close,
    ];
    for op in all {
        if let Some(t) = flip(op) {
            assert_eq!(flip(t), Some(op));
        }
    }
}

#[test]
fn lexes_identifier() {
    let toks = lex_all("ab1_z").unwrap();
    assert_eq!(toks, vec![Token::Var("ab1_z".to_string())]);
}

#[test]
fn lexes_identifier_and_rest() {
    let mut pos: usize = 0;
    let t = get_token("ab+cd", &mut pos).unwrap();
    assert_eq!(t, Some(Token::Var("ab".to_string())));
    assert_eq!(pos, 2);
    let t = get_token("ab+cd", &mut pos).unwrap();
    assert_eq!(t, Some(Token::Op(Op::Or)));
    assert_eq!(pos, 3);
    let t = get_token("ab+cd", &mut pos).unwrap();
    assert_eq!(t, Some(Token::Var("cd".to_string())));
    assert_eq!(pos, 5);
    let t = get_token("ab+cd", &mut pos).unwrap();
    assert_eq!(t, None);
}

#[test]
fn skips_whitespace() {
    let toks = lex_all(" \t\n a \t b \n").unwrap();
    assert_eq!(
        toks,
        vec![Token::Var("a".to_string()), Token::Var("b".to_string())]
    );
}

#[test]
fn lexes_literals() {
    let toks = lex_all("1 0").unwrap();
    assert_eq!(toks, vec![Token::Val(true), Token::Val(false)]);
}

#[test]
fn lexes_every_operator() {
    let toks = lex_all(": ~ ' ! + * @ = > ( ) , .").unwrap();
    assert_eq!(
        toks,
        vec![
            Token::Op(Op::Assign),
            Token::Op(Op::PrefixNot),
            Token::Op(Op::PostValNot),
            Token::Op(Op::PostOpNot),
            Token::Op(Op::Or),
            Token::Op(Op::And),
            Token::Op(Op::Xor),
            Token::Op(Op::Equiv),
            Token::Op(Op::Implies),
            Token::Op(Op::Open),
            Token::Op(Op::Close),
            Token::EndLine,
            Token::EndScript,
        ]
    );
}

#[test]
fn unrecognized_character_is_fatal() {
    assert_eq!(lex_all("a $ b"), Err(EvalError::LexicalError));
    assert_eq!(lex_all("?"), Err(EvalError::LexicalError));
}

#[test]
fn empty_input_lexes_to_nothing() {
    assert_eq!(lex_all("").unwrap(), vec![]);
    assert_eq!(lex_all("   ").unwrap(), vec![]);
}
