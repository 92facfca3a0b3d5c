use minipy::ast::{Expression, Statement};
use minipy::front::{parse_expression_source, parse_source, SourceError};
use minipy::lexer::{tokenize, LexError};
use minipy::parser::{parse_expression, parse_program, Expected, ParseError};
use minipy::token::Token;

fn ident(name: &str) -> Box<Expression> {
    Box::new(Expression::Identifier(Token::Identifier(name.to_string())))
}

fn integer(v: i32) -> Box<Expression> {
    Box::new(Expression::Integer(Token::Integer(v)))
}

fn assign(target: &str, v: i32) -> Box<Statement> {
    Box::new(Statement::Assignment(ident(target), integer(v)))
}

#[test]
fn calculator1() {
    assert!(parse_expression_source("22").is_ok());
    assert!(parse_expression_source("(22)").is_ok());
    assert!(parse_expression_source("((((22))))").is_ok());
    assert!(parse_expression_source("((22)").is_err());
}

#[test]
fn simple_assignment() {
    let program = parse_source("x = 1").unwrap();
    assert_eq!(program, Statement::Block(vec![assign("x", 1)]));
    match program {
        Statement::Block(stmts) => {
            assert_eq!(stmts.len(), 1);
            match *stmts[0] {
                Statement::Assignment(ref target, ref value) => {
                    assert!(matches!(**target, Expression::Identifier(_)));
                    assert!(matches!(**value, Expression::Integer(_)));
                }
                _ => panic!("not an assignment"),
            }
        }
        _ => panic!("not a block"),
    }
}

#[test]
fn if_elif_else() {
    let src = "if a:\n    b = 1\nelif c:\n    d = 2\nelse:\n    e = 3\n";
    let program = parse_source(src).unwrap();
    let expected = Statement::Block(vec![Box::new(Statement::If(
        ident("a"),
        Box::new(Statement::Block(vec![assign("b", 1)])),
        vec![Box::new(Statement::ElIf(
            ident("c"),
            Box::new(Statement::Block(vec![assign("d", 2)])),
        ))],
        Some(Box::new(Statement::Block(vec![assign("e", 3)]))),
    ))]);
    assert_eq!(program, expected);
}

#[test]
fn dedent_to_unknown_width_fails() {
    let r = parse_source("if a:\n  b=1\n c=2\n");
    assert_eq!(r, Err(SourceError::Lex(LexError::Indentation)));
}

#[test]
fn parentheses_leave_no_trace() {
    let plain = parse_expression_source("22").unwrap();
    assert_eq!(plain, *integer(22));
    assert_eq!(parse_expression_source("(22)").unwrap(), *integer(22));
    assert_eq!(parse_expression_source("((22))").unwrap(), *integer(22));
}

#[test]
fn unclosed_parenthesis_hits_end_of_input() {
    let r = parse_expression_source("((22)");
    assert_eq!(
        r,
        Err(SourceError::Parse(ParseError { position: 4, expected: Expected::ParenClose }))
    );
    let toks = vec![Token::ParenOpen, Token::ParenOpen, Token::Integer(22), Token::ParenClose];
    match parse_expression(&toks) {
        Err(e) => {
            assert_eq!(e.position, toks.len());
            assert_eq!(e.found(&toks), None);
        }
        Ok(_) => panic!("accepted an unclosed parenthesis"),
    }
}

#[test]
fn multiplication_binds_tighter() {
    let e = parse_expression_source("1 + 2 * 3").unwrap();
    assert_eq!(
        e,
        Expression::Add(integer(1), Box::new(Expression::Multiply(integer(2), integer(3))))
    );
}

#[test]
fn parentheses_override_precedence() {
    let e = parse_expression_source("(1 + 2) * 3").unwrap();
    assert_eq!(
        e,
        Expression::Multiply(Box::new(Expression::Add(integer(1), integer(2))), integer(3))
    );
}

#[test]
fn same_level_is_left_associative() {
    let e = parse_expression_source("a - b - c").unwrap();
    assert_eq!(
        e,
        Expression::Subtract(Box::new(Expression::Subtract(ident("a"), ident("b"))), ident("c"))
    );
    let c = parse_expression_source("a < b < c").unwrap();
    assert_eq!(c, Expression::LT(Box::new(Expression::LT(ident("a"), ident("b"))), ident("c")));
}

#[test]
fn boolean_levels_and_not() {
    let e = parse_expression_source("not a or b and c == d").unwrap();
    assert_eq!(
        e,
        Expression::Or(
            Box::new(Expression::Negate(ident("a"))),
            Box::new(Expression::And(
                ident("b"),
                Box::new(Expression::Equal(ident("c"), ident("d")))
            ))
        )
    );
}

#[test]
fn while_with_break() {
    let program = parse_source("while x >= 1:\n    break\ny = 2\n").unwrap();
    let expected = Statement::Block(vec![
        Box::new(Statement::While(
            Box::new(Expression::GTE(ident("x"), integer(1))),
            Box::new(Statement::Block(vec![Box::new(Statement::Break)])),
        )),
        assign("y", 2),
    ]);
    assert_eq!(program, expected);
}

#[test]
fn empty_program_is_a_syntax_error() {
    let r = parse_program(&Vec::new());
    assert_eq!(r, Err(ParseError { position: 0, expected: Expected::Expression }));
}

#[test]
fn missing_colon_reported() {
    let r = parse_source("if a\n    b = 1\n");
    assert_eq!(r, Err(SourceError::Parse(ParseError { position: 2, expected: Expected::Colon })));
}

#[test]
fn missing_assign_reported() {
    let toks = tokenize("x 1\n").unwrap();
    let e = parse_program(&toks).unwrap_err();
    assert_eq!(e.found(&toks), Some(&Token::Integer(1)));
    let r = parse_source("x 1\n");
    assert_eq!(r, Err(SourceError::Parse(ParseError { position: 1, expected: Expected::Assign })));
}

#[test]
fn missing_indent_reported() {
    let r = parse_source("if a:\nb = 1\n");
    assert_eq!(r, Err(SourceError::Parse(ParseError { position: 4, expected: Expected::Indent })));
}

#[test]
fn trailing_tokens_after_expression() {
    let r = parse_expression_source("1 2");
    assert_eq!(r, Err(SourceError::Parse(ParseError { position: 1, expected: Expected::EndOfInput })));
}

#[test]
fn break_needs_newline() {
    let toks = vec![Token::Break, Token::Break];
    assert_eq!(
        parse_program(&toks),
        Err(ParseError { position: 1, expected: Expected::Newline })
    );
}

#[test]
fn nested_blocks_parse() {
    let src = "if a:\n    if b:\n        c = 1\n    d = 2\ne = 3\n";
    let toks = tokenize(src).unwrap();
    let program = parse_program(&toks).unwrap();
    let expected = Statement::Block(vec![
        Box::new(Statement::If(
            ident("a"),
            Box::new(Statement::Block(vec![
                Box::new(Statement::If(
                    ident("b"),
                    Box::new(Statement::Block(vec![assign("c", 1)])),
                    vec![],
                    None,
                )),
                assign("d", 2),
            ])),
            vec![],
            None,
        )),
        assign("e", 3),
    ]);
    assert_eq!(program, expected);
}
