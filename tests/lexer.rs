use minipy::lexer::{split_lines, tokenize, tokenize_lines, LexError, Lexer};
use minipy::scan::{indentation_width, scan_rest, IndentHelper};
use minipy::token::Token;

fn count(ts: &[Token], t: &Token) -> usize {
    ts.iter().filter(|x| *x == t).count()
}

fn lines(v: &[&str]) -> Vec<String> {
    v.iter().map(|s| s.to_string()).collect()
}

#[test]
fn layout_tokens_of_a_nested_program() {
    let toks = tokenize("if a:\n    b = 1\nc = 2\n").unwrap();
    assert_eq!(
        toks,
        vec![
            Token::If,
            Token::Identifier("a".to_string()),
            Token::Colon,
            Token::Newline,
            Token::Indent,
            Token::Identifier("b".to_string()),
            Token::Assign,
            Token::Integer(1),
            Token::Newline,
            Token::Dedent,
            Token::Identifier("c".to_string()),
            Token::Assign,
            Token::Integer(2),
            Token::Newline,
        ]
    );
}

#[test]
fn indents_and_dedents_balance() {
    let src = "if a:\n  if b:\n    c = 1\n  d = 2\n  while e:\n      f = 3\n";
    let toks = tokenize(src).unwrap();
    assert_eq!(count(&toks, &Token::Indent), 3);
    assert_eq!(count(&toks, &Token::Dedent), 3);
}

#[test]
fn end_of_input_closes_open_blocks() {
    let toks = tokenize("if a:\n    b = 1").unwrap();
    assert_eq!(toks[toks.len() - 1], Token::Dedent);
    assert_eq!(toks[toks.len() - 2], Token::Newline);
}

#[test]
fn blank_lines_change_nothing() {
    let plain = tokenize("if a:\n    b = 1\nc = 2\n").unwrap();
    let spaced = tokenize("\nif a:\n\n    b = 1\n  \t \n\nc = 2\n   \n").unwrap();
    assert_eq!(plain, spaced);
    let mut lx = Lexer::new();
    assert_eq!(lx.push_line("    "), Ok(()));
    assert_eq!(lx.push_line(""), Ok(()));
    assert_eq!(lx.next_token(), None);
}

#[test]
fn comment_lines_yield_no_newline() {
    let toks = tokenize("# leading comment\nx = 1\n    # indented comment\n").unwrap();
    assert_eq!(count(&toks, &Token::Newline), 1);
    assert_eq!(
        toks,
        vec![
            Token::Identifier("x".to_string()),
            Token::Assign,
            Token::Integer(1),
            Token::Newline,
            Token::Indent,
            Token::Dedent,
        ]
    );
    let mut lx = Lexer::new();
    assert_eq!(lx.push_line("# only a comment"), Ok(()));
    assert_eq!(lx.next_token(), None);
}

#[test]
fn comment_after_code_truncates_line() {
    let toks = tokenize("x = 1 # set x = 2\n").unwrap();
    assert_eq!(
        toks,
        vec![Token::Identifier("x".to_string()), Token::Assign, Token::Integer(1), Token::Newline]
    );
}

#[test]
fn concatenated_programs_tokenize_apart() {
    let a = lines(&["if a:", "    b = 1"]);
    let b = lines(&["", "c = 2", "while d:", "  e = 3"]);
    let mut both = a.clone();
    both.extend(b.clone());
    let ta = tokenize_lines(&a).unwrap();
    let tb = tokenize_lines(&b).unwrap();
    let mut joined = ta.clone();
    joined.extend(tb);
    assert_eq!(tokenize_lines(&both).unwrap(), joined);
}

#[test]
fn inconsistent_dedent_is_an_error() {
    assert_eq!(tokenize("if a:\n  b=1\n c=2\n"), Err(LexError::Indentation));
}

#[test]
fn unrecognized_character_is_an_error() {
    assert_eq!(tokenize("x = $\n"), Err(LexError::Unrecognized { column: 4 }));
    assert_eq!(tokenize("a ! b\n"), Err(LexError::Unrecognized { column: 2 }));
}

#[test]
fn integer_range_is_checked() {
    assert_eq!(scan_rest("2147483647", 0), Ok(vec![Token::Integer(2147483647)]));
    assert_eq!(scan_rest("-2147483648", 0), Ok(vec![Token::Integer(-2147483648)]));
    assert_eq!(scan_rest("2147483648", 0), Err(LexError::Unrecognized { column: 0 }));
    assert_eq!(scan_rest("x 99999999999999999999", 0), Err(LexError::Unrecognized { column: 2 }));
}

#[test]
fn literals_and_keywords() {
    let toks = scan_rest("and break def elif else for if not or return while True False iffy", 0).unwrap();
    assert_eq!(
        toks,
        vec![
            Token::And,
            Token::Break,
            Token::Def,
            Token::Elif,
            Token::Else,
            Token::For,
            Token::If,
            Token::Not,
            Token::Or,
            Token::Return,
            Token::While,
            Token::Boolean(true),
            Token::Boolean(false),
            Token::Identifier("iffy".to_string()),
        ]
    );
    let nums = scan_rest("1.5 -.25 42 -7 3.", 0);
    assert_eq!(nums, Err(LexError::Unrecognized { column: 16 }));
    let nums = scan_rest("1.5 -.25 42 -7", 0).unwrap();
    assert_eq!(
        nums,
        vec![
            Token::Float("1.5".to_string()),
            Token::Float("-.25".to_string()),
            Token::Integer(42),
            Token::Integer(-7),
        ]
    );
}

#[test]
fn operators_take_the_longest_match() {
    let toks = scan_rest("== = != >= > <= < + - * / ( ) , : 1-2", 0).unwrap();
    assert_eq!(
        toks,
        vec![
            Token::Equal,
            Token::Assign,
            Token::NotEqual,
            Token::GTE,
            Token::GT,
            Token::LTE,
            Token::LT,
            Token::Add,
            Token::Subtract,
            Token::Multiply,
            Token::Divide,
            Token::ParenOpen,
            Token::ParenClose,
            Token::Comma,
            Token::Colon,
            Token::Integer(1),
            Token::Integer(-2),
        ]
    );
}

#[test]
fn lexer_queues_tokens_in_order() {
    let mut lx = Lexer::new();
    assert_eq!(lx.push_line("if x:\n"), Ok(()));
    assert_eq!(lx.push_line("    y = 1\n"), Ok(()));
    lx.finish();
    let mut out = Vec::new();
    while let Some(t) = lx.next_token() {
        out.push(t);
    }
    assert_eq!(out, tokenize("if x:\n    y = 1\n").unwrap());
    assert_eq!(out.len(), 10);
}

#[test]
fn failed_line_queues_nothing() {
    let mut lx = Lexer::new();
    assert_eq!(lx.push_line("x = @"), Err(LexError::Unrecognized { column: 4 }));
    assert_eq!(lx.next_token(), None);
}

#[test]
fn indentation_width_counts_leading_whitespace() {
    assert_eq!(indentation_width("    x"), 4);
    assert_eq!(indentation_width("\t x"), 2);
    assert_eq!(indentation_width("x  "), 0);
    let mut h = IndentHelper::new();
    h.on_whitespace();
    assert_eq!(h.whites, 0);
    h.on_advance();
    h.on_whitespace();
    h.on_whitespace();
    h.on_advance();
    h.on_whitespace();
    assert_eq!(h.whites, 2);
}

#[test]
fn lines_split_at_breaks() {
    assert_eq!(split_lines("a\n\nb\n"), vec!["a".to_string(), "".to_string(), "b".to_string()]);
    assert_eq!(split_lines("a\nb"), vec!["a".to_string(), "b".to_string()]);
    assert!(split_lines("").is_empty());
}

#[test]
fn concatenated_texts_tokenize_apart() {
    let a = "if a:\n    b = 1\n";
    let b = "\nc = 2\nwhile d:\n  e = 3\n";
    let mut joined = tokenize(a).unwrap();
    joined.extend(tokenize(b).unwrap());
    assert_eq!(tokenize(&format!("{}{}", a, b)).unwrap(), joined);
}
