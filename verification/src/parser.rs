//! The parser's front door: recursive descent for the structure, Pratt
//! parsing for the expressions.

use vstd::prelude::*;
use crate::ast::{statements_view, Statement};
use crate::error::ParseError;
use crate::laws::statement_in_order;
use crate::recursive::{spec_parse, RecursiveParser};
use crate::token::Token;

verus! {

/// A token stream ready to be parsed.
pub struct Parser {
    tokens: Vec<Token>,
}

impl Parser {
    /// The tokens to parse.
    pub closed spec fn input(self) -> Seq<Token> {
        self.tokens@
    }

    pub fn new(tokens: Vec<Token>) -> (r: Self)
        ensures
            r.input() == tokens@,
    {
        Self { tokens }
    }

    /// Parse all statements of the stream, from its start; the parser is
    /// left as it was, so every call gives the same result.
    pub fn parse(&self) -> (res: Result<Vec<Statement>, ParseError>)
        ensures
            match res {
                Ok(v) => spec_parse(self.input()) matches Ok((s, _)) && s == statements_view(v@),
                Err(e) => spec_parse(self.input()) matches Err((x, _)) && x == e@,
            },
            res matches Ok(v) ==> forall|i: int|
                0 <= i < statements_view(v@).len() ==> #[trigger] statement_in_order(
                    statements_view(v@)[i],
                ),
    {
        let tokens = self.tokens.clone();
        assert(tokens@ =~= self.tokens@);
        RecursiveParser::new(tokens).parse()
    }
}

} // verus!
