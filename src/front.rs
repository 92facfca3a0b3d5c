use vstd::prelude::*;
use crate::ast::{Expression, Statement};
use crate::lexer::{LexError, tokenize, tokens_of_text};
use crate::parser::{expression_of, parse_expression, parse_program, program_of, ParseError};
use crate::scan::{scan_from, scan_rest};

verus! {

/// The first failure of a run from text to tree.
#[derive(Debug, Clone, Copy, PartialEq, Eq, Structural)]
pub enum SourceError {
    Lex(LexError),
    Parse(ParseError),
}

/// Tokenizes and parses a whole program.
pub fn parse_source(source: &str) -> (r: Result<Statement, SourceError>)
    ensures
        match tokens_of_text(source@) {
            Err(e) => r == Err::<Statement, SourceError>(SourceError::Lex(e)),
            Ok(ts) => match program_of(ts) {
                Ok(s) => r matches Ok(p) && p.view() == s,
                Err(x) => r == Err::<Statement, SourceError>(SourceError::Parse(x)),
            },
        },
{
    match tokenize(source) {
        Ok(toks) => match parse_program(&toks) {
            Ok(s) => Ok(s),
            Err(x) => Err(SourceError::Parse(x)),
        },
        Err(e) => Err(SourceError::Lex(e)),
    }
}

/// Scans a text without layout (no Indent, Dedent or Newline) and parses all of
/// it as one expression.
pub fn parse_expression_source(source: &str) -> (r: Result<Expression, SourceError>)
    ensures
        match scan_from(source@, 0) {
            Err(e) => r == Err::<Expression, SourceError>(SourceError::Lex(e)),
            Ok(ts) => match expression_of(ts) {
                Ok(e) => r matches Ok(x) && x.view() == e,
                Err(x) => r == Err::<Expression, SourceError>(SourceError::Parse(x)),
            },
        },
{
    match scan_rest(source, 0) {
        Ok(toks) => match parse_expression(&toks) {
            Ok(e) => Ok(e),
            Err(x) => Err(SourceError::Parse(x)),
        },
        Err(e) => Err(SourceError::Lex(e)),
    }
}

} // verus!
