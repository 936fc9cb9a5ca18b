//! Pratt parser: expressions with precedence climbing, as used inside
//! `.where()` conditions and object values.
//!
//! The grammar is stated as spec functions over a token sequence and a
//! position (`spec_parse_*`); each returns the parsed value with the position
//! after it, or the error with the position at which the parser stopped.
//! Positions past the end read as `Eof`.

use vstd::prelude::*;
use crate::ast::{exprs_view, lemma_exprs_view_push, strings_view, BinaryOp, Expression, SpecExpr};
use crate::error::{ParseError, SpecError};
use crate::token::{is_symbol, token_at, token_debug, token_debug_text, symbol_token, Distance, Duration, Number, Symbol, Token};

verus! {

/// Outcome of a grammar rule: the value and the position after it, or the
/// error and the position where parsing stopped.
pub type SpecParse<T> = Result<(T, int), (SpecError, int)>;

/// Operator precedence levels.
#[derive(Debug, Clone, Copy, PartialEq, Eq, Structural, PartialOrd)]
pub enum Precedence {
    /// Binds nothing.
    Lowest,
    /// `|`
    Or,
    /// `,` inside where
    And,
    /// `> < >= <= = !=`
    Comparison,
    /// `!`
    Unary,
    /// `.near()` `.like()`
    Call,
}

pub open spec fn precedence_level(p: Precedence) -> u8 {
    match p {
        Precedence::Lowest => 0,
        Precedence::Or => 1,
        Precedence::And => 2,
        Precedence::Comparison => 3,
        Precedence::Unary => 4,
        Precedence::Call => 5,
    }
}

impl Precedence {
    /// The numeric level of this precedence (0 for `Lowest` up to 5 for `Call`).
    pub fn level(self) -> (r: u8)
        ensures
            r == precedence_level(self),
    {
        match self {
            Precedence::Lowest => 0,
            Precedence::Or => 1,
            Precedence::And => 2,
            Precedence::Comparison => 3,
            Precedence::Unary => 4,
            Precedence::Call => 5,
        }
    }
}

// ── Shared grammar helpers

/// The error for finding `found` where `expected` was needed.
pub open spec fn unexpected(expected: Seq<char>, found: Token) -> SpecError {
    SpecError::UnexpectedToken { expected, found: token_debug_text(found) }
}

/// Consume the token of symbol `s`, or fail without moving.
pub open spec fn spec_expect(ts: Seq<Token>, p: int, s: Symbol) -> Result<int, (SpecError, int)> {
    if token_at(ts, p) == symbol_token(s) {
        Ok(p + 1)
    } else {
        Err((unexpected(token_debug_text(symbol_token(s)), token_at(ts, p)), p))
    }
}

/// What an executable rule returned, together with where it stopped, in the
/// form of a `SpecParse`.
pub open spec fn result_view<T: View>(r: Result<T, ParseError>, p: int) -> SpecParse<T::V> {
    match r {
        Ok(v) => Ok((v@, p)),
        Err(e) => Err((e@, p)),
    }
}

pub open spec fn unit_result_view(r: Result<(), ParseError>, p: int) -> Result<int, (SpecError, int)> {
    match r {
        Ok(_) => Ok(p),
        Err(e) => Err((e@, p)),
    }
}

/// Whether a rule that started at `p` and stopped at `q` consumed input
/// without running past the end. Every rule that succeeds does, so the
/// grammar's loops only recur after such a step.
pub open spec fn advanced(ts: Seq<Token>, p: int, q: int) -> bool {
    p < q <= ts.len()
}

// ── Token classes

pub open spec fn token_precedence(t: Token) -> u8 {
    match t {
        Token::Pipe => precedence_level(Precedence::Or),
        Token::Comma => precedence_level(Precedence::And),
        Token::Eq | Token::NotEq | Token::Gt | Token::Lt | Token::Gte | Token::Lte => precedence_level(
            Precedence::Comparison,
        ),
        Token::Exists => precedence_level(Precedence::Comparison),
        _ => precedence_level(Precedence::Lowest),
    }
}

pub open spec fn token_binary_op(t: Token) -> BinaryOp {
    match t {
        Token::Eq => BinaryOp::Eq,
        Token::NotEq => BinaryOp::NotEq,
        Token::Gt => BinaryOp::Gt,
        Token::Lt => BinaryOp::Lt,
        Token::Gte => BinaryOp::Gte,
        Token::Lte => BinaryOp::Lte,
        _ => BinaryOp::Eq,
    }
}

pub open spec fn is_comparison(t: Token) -> bool {
    t is Eq || t is NotEq || t is Gt || t is Lt || t is Gte || t is Lte
}

/// The `.like()` threshold used when none is given: 0.80, as IEEE-754 bits.
pub open spec fn default_threshold() -> Number {
    Number::Float(0x3FE9_9999_9999_999A)
}

/// `left` followed by `, right`: one `And` whose operands are those of
/// `left` (when it is an `And` already) and then `right`.
pub open spec fn and_with(left: SpecExpr, right: SpecExpr) -> SpecExpr {
    match left {
        SpecExpr::And(es) => SpecExpr::And(es.push(right)),
        _ => SpecExpr::And(seq![left, right]),
    }
}

/// `left` followed by `| right`, built as `and_with` builds `And`.
pub open spec fn or_with(left: SpecExpr, right: SpecExpr) -> SpecExpr {
    match left {
        SpecExpr::Or(es) => SpecExpr::Or(es.push(right)),
        _ => SpecExpr::Or(seq![left, right]),
    }
}

/// The parts of a dotted path joined with `.`.
pub open spec fn join_dot(parts: Seq<Seq<char>>) -> Seq<char>
    decreases parts.len(),
{
    if parts.len() == 0 {
        Seq::empty()
    } else if parts.len() == 1 {
        parts[0]
    } else {
        join_dot(parts.subrange(0, parts.len() - 1)) + seq!['.'] + parts[parts.len() - 1]
    }
}

/// `left EXISTS`.
pub open spec fn exists_of(left: SpecExpr) -> SpecExpr {
    match left {
        SpecExpr::Field(name) => SpecExpr::Exists { field: name },
        SpecExpr::NestedField(parts) => SpecExpr::Exists { field: join_dot(parts) },
        _ => SpecExpr::Exists { field: "unknown"@ },
    }
}

// ── Terminals

pub open spec fn spec_expect_float(ts: Seq<Token>, p: int) -> SpecParse<Number> {
    match token_at(ts, p) {
        Token::Float(f) => Ok((Number::Float(f), p + 1)),
        Token::Int(n) => Ok((Number::Int(n), p + 1)),
        other => Err((unexpected("number"@, other), p)),
    }
}

pub open spec fn spec_expect_string(ts: Seq<Token>, p: int) -> SpecParse<Seq<char>> {
    match token_at(ts, p) {
        Token::Text(s) => Ok((s@, p + 1)),
        other => Err((unexpected("string"@, other), p)),
    }
}

pub open spec fn spec_expect_distance(ts: Seq<Token>, p: int) -> SpecParse<Distance> {
    match token_at(ts, p) {
        Token::Distance(d) => Ok((d, p + 1)),
        other => Err((unexpected("distance (e.g. 5km)"@, other), p)),
    }
}

pub open spec fn spec_expect_duration(ts: Seq<Token>, p: int) -> SpecParse<Duration> {
    match token_at(ts, p) {
        Token::Duration(d) => Ok((d, p + 1)),
        other => Err((unexpected("duration (e.g. 7d)"@, other), p)),
    }
}

// ── Field methods (p stands at the method token)

/// `.near(lat, lon, distance)`
pub open spec fn spec_near(ts: Seq<Token>, p: int, name: Seq<char>) -> SpecParse<SpecExpr> {
    match spec_expect(ts, p + 1, Symbol::LParen) {
        Err(e) => Err(e),
        Ok(p1) => match spec_expect_float(ts, p1) {
            Err(e) => Err(e),
            Ok((lat, p2)) => match spec_expect(ts, p2, Symbol::Comma) {
                Err(e) => Err(e),
                Ok(p3) => match spec_expect_float(ts, p3) {
                    Err(e) => Err(e),
                    Ok((lon, p4)) => match spec_expect(ts, p4, Symbol::Comma) {
                        Err(e) => Err(e),
                        Ok(p5) => match spec_expect_distance(ts, p5) {
                            Err(e) => Err(e),
                            Ok((distance, p6)) => match spec_expect(ts, p6, Symbol::RParen) {
                                Err(e) => Err(e),
                                Ok(p7) => Ok((SpecExpr::Near { field: name, lat, lon, distance }, p7)),
                            },
                        },
                    },
                },
            },
        },
    }
}

/// The optional `.threshold(t)` after `.like(..)`.
pub open spec fn spec_like_threshold(ts: Seq<Token>, p: int) -> SpecParse<Number> {
    if token_at(ts, p) == Token::Dot {
        if token_at(ts, p + 1) == Token::MethodThreshold {
            match spec_expect(ts, p + 2, Symbol::LParen) {
                Err(e) => Err(e),
                Ok(p1) => match spec_expect_float(ts, p1) {
                    Err(e) => Err(e),
                    Ok((t, p2)) => match spec_expect(ts, p2, Symbol::RParen) {
                        Err(e) => Err(e),
                        Ok(p3) => Ok((t, p3)),
                    },
                },
            }
        } else {
            Ok((default_threshold(), p + 1))
        }
    } else {
        Ok((default_threshold(), p))
    }
}

/// `.like("query")` with an optional `.threshold(t)`.
pub open spec fn spec_like(ts: Seq<Token>, p: int, name: Seq<char>) -> SpecParse<SpecExpr> {
    match spec_expect(ts, p + 1, Symbol::LParen) {
        Err(e) => Err(e),
        Ok(p1) => match spec_expect_string(ts, p1) {
            Err(e) => Err(e),
            Ok((query, p2)) => match spec_expect(ts, p2, Symbol::RParen) {
                Err(e) => Err(e),
                Ok(p3) => match spec_like_threshold(ts, p3) {
                    Err(e) => Err(e),
                    Ok((threshold, p4)) => Ok((SpecExpr::Like { field: name, query, threshold }, p4)),
                },
            },
        },
    }
}

/// `.last(duration)`
pub open spec fn spec_last(ts: Seq<Token>, p: int, name: Seq<char>) -> SpecParse<SpecExpr> {
    match spec_expect(ts, p + 1, Symbol::LParen) {
        Err(e) => Err(e),
        Ok(p1) => match spec_expect_duration(ts, p1) {
            Err(e) => Err(e),
            Ok((duration, p2)) => match spec_expect(ts, p2, Symbol::RParen) {
                Err(e) => Err(e),
                Ok(p3) => Ok((SpecExpr::Last { field: name, duration }, p3)),
            },
        },
    }
}

// ── Expressions

/// A full expression: a prefix, then infix operators binding tighter than
/// `min_prec`.
pub open spec fn spec_parse_expression(ts: Seq<Token>, p: int, min_prec: u8) -> SpecParse<SpecExpr>
    decreases ts.len() - p, 4nat,
{
    match spec_parse_prefix(ts, p) {
        Err(e) => Err(e),
        Ok((left, p1)) => if advanced(ts, p, p1) {
            spec_expression_loop(ts, p1, left, min_prec)
        } else {
            Ok((left, p1))
        },
    }
}

/// The infix loop of `spec_parse_expression`, with `left` parsed so far.
pub open spec fn spec_expression_loop(ts: Seq<Token>, p: int, left: SpecExpr, min_prec: u8) -> SpecParse<SpecExpr>
    decreases ts.len() - p, 3nat,
{
    let prec = token_precedence(token_at(ts, p));
    if prec <= min_prec {
        Ok((left, p))
    } else {
        match spec_parse_infix(ts, p, left, prec) {
            Err(e) => Err(e),
            Ok((next, p2)) => if advanced(ts, p, p2) {
                spec_expression_loop(ts, p2, next, min_prec)
            } else {
                Ok((next, p2))
            },
        }
    }
}

pub open spec fn spec_parse_infix(ts: Seq<Token>, p: int, left: SpecExpr, prec: u8) -> SpecParse<SpecExpr>
    decreases ts.len() - p, 2nat,
{
    let t = token_at(ts, p);
    if is_comparison(t) {
        match spec_parse_expression(ts, p + 1, prec) {
            Err(e) => Err(e),
            Ok((right, p2)) => Ok(
                (
                    SpecExpr::Binary {
                        left: Box::new(left),
                        op: token_binary_op(t),
                        right: Box::new(right),
                    },
                    p2,
                ),
            ),
        }
    } else if t == Token::Comma {
        match spec_parse_expression(ts, p + 1, precedence_level(Precedence::And)) {
            Err(e) => Err(e),
            Ok((right, p2)) => Ok((and_with(left, right), p2)),
        }
    } else if t == Token::Pipe {
        match spec_parse_expression(ts, p + 1, precedence_level(Precedence::Or)) {
            Err(e) => Err(e),
            Ok((right, p2)) => Ok((or_with(left, right), p2)),
        }
    } else if t == Token::Exists {
        Ok((exists_of(left), p + 1))
    } else {
        Ok((left, p))
    }
}

pub open spec fn spec_parse_prefix(ts: Seq<Token>, p: int) -> SpecParse<SpecExpr>
    decreases ts.len() - p, 1nat,
{
    match token_at(ts, p) {
        Token::Int(n) => Ok((SpecExpr::Int(n), p + 1)),
        Token::Float(f) => Ok((SpecExpr::Float(f), p + 1)),
        Token::Bool(b) => Ok((SpecExpr::Bool(b), p + 1)),
        Token::Null => Ok((SpecExpr::Null, p + 1)),
        Token::Text(s) => Ok((SpecExpr::Text(s@), p + 1)),
        Token::Wildcard => Ok((SpecExpr::Wildcard, p + 1)),
        Token::Bang => match spec_parse_expression(ts, p + 1, precedence_level(Precedence::Unary)) {
            Err(e) => Err(e),
            Ok((e, p2)) => Ok((SpecExpr::Not(Box::new(e)), p2)),
        },
        Token::LParen => match spec_parse_expression(ts, p + 1, 0) {
            Err(e) => Err(e),
            Ok((e, p2)) => match spec_expect(ts, p2, Symbol::RParen) {
                Err(x) => Err(x),
                Ok(p3) => Ok((e, p3)),
            },
        },
        Token::Collection { name, kind } => if token_at(ts, p + 1) == Token::Dot {
            match token_at(ts, p + 2) {
                Token::Identifier(field) => Ok((SpecExpr::NestedField(seq![name@, field@]), p + 3)),
                _ => Ok((SpecExpr::Field(name@), p + 2)),
            }
        } else {
            Ok((SpecExpr::Field(name@), p + 1))
        },
        Token::Identifier(name) => spec_parse_identifier_expr(ts, p + 1, name@),
        Token::FnUuid => spec_parse_fn_call(ts, p + 1, "uuid"@),
        Token::FnNow => spec_parse_fn_call(ts, p + 1, "now"@),
        Token::FnToday => spec_parse_fn_call(ts, p + 1, "today"@),
        Token::FnCount => spec_parse_fn_call(ts, p + 1, "COUNT"@),
        Token::FnSum => spec_parse_fn_call(ts, p + 1, "SUM"@),
        Token::FnAvg => spec_parse_fn_call(ts, p + 1, "AVG"@),
        Token::FnMax => spec_parse_fn_call(ts, p + 1, "MAX"@),
        Token::FnMin => spec_parse_fn_call(ts, p + 1, "MIN"@),
        other => Err((unexpected("expression"@, other), p)),
    }
}

/// After an identifier `name`: a plain field, a nested field, or a field
/// method.
pub open spec fn spec_parse_identifier_expr(ts: Seq<Token>, p: int, name: Seq<char>) -> SpecParse<SpecExpr>
    decreases ts.len() - p, 0nat,
{
    if token_at(ts, p) != Token::Dot {
        Ok((SpecExpr::Field(name), p))
    } else {
        let q = p + 1;
        match token_at(ts, q) {
            Token::MethodNear => spec_near(ts, q, name),
            Token::MethodLike => spec_like(ts, q, name),
            Token::MethodHas => match spec_expect(ts, q + 1, Symbol::LParen) {
                Err(e) => Err(e),
                Ok(p1) => match spec_parse_expression(ts, p1, 0) {
                    Err(e) => Err(e),
                    Ok((value, p2)) => match spec_expect(ts, p2, Symbol::RParen) {
                        Err(e) => Err(e),
                        Ok(p3) => Ok((SpecExpr::Has { field: name, value: Box::new(value) }, p3)),
                    },
                },
            },
            Token::MethodLast => spec_last(ts, q, name),
            Token::Identifier(field) => Ok((SpecExpr::NestedField(seq![name, field@]), q + 1)),
            _ => Ok((SpecExpr::Field(name), q)),
        }
    }
}

/// `(args)` after a built-in function name.
pub open spec fn spec_parse_fn_call(ts: Seq<Token>, p: int, name: Seq<char>) -> SpecParse<SpecExpr>
    decreases ts.len() - p, 0nat,
{
    match spec_expect(ts, p, Symbol::LParen) {
        Err(e) => Err(e),
        Ok(p1) => match spec_fn_args(ts, p1, Seq::empty()) {
            Err(e) => Err(e),
            Ok((args, p2)) => match spec_expect(ts, p2, Symbol::RParen) {
                Err(e) => Err(e),
                Ok(p3) => Ok((SpecExpr::FnCall { name, args }, p3)),
            },
        },
    }
}

/// Arguments up to `)` or the end, each optionally followed by `,`; `acc`
/// holds those parsed so far.
pub open spec fn spec_fn_args(ts: Seq<Token>, p: int, acc: Seq<SpecExpr>) -> SpecParse<Seq<SpecExpr>>
    decreases ts.len() - p, 5nat,
{
    if token_at(ts, p) == Token::RParen || token_at(ts, p) == Token::Eof {
        Ok((acc, p))
    } else {
        match spec_parse_expression(ts, p, 0) {
            Err(e) => Err(e),
            Ok((arg, p2)) => {
                let p3 = if token_at(ts, p2) == Token::Comma {
                    p2 + 1
                } else {
                    p2
                };
                if advanced(ts, p, p3) {
                    spec_fn_args(ts, p3, acc.push(arg))
                } else {
                    Ok((acc.push(arg), p3))
                }
            },
        }
    }
}

// ── Building blocks for the executable parser

/// The `And` of `left` and `right`, flattening a left `And`.
fn and_of(left: Expression, right: Expression) -> (r: Expression)
    ensures
        r@ == and_with(left@, right@),
{
    match left {
        Expression::And(mut exprs) => {
            proof {
                lemma_exprs_view_push(exprs@, right);
            }
            exprs.push(right);
            Expression::And(exprs)
        },
        _ => Expression::And(two_exprs(left, right)),
    }
}

/// The `Or` of `left` and `right`, flattening a left `Or`.
fn or_of(left: Expression, right: Expression) -> (r: Expression)
    ensures
        r@ == or_with(left@, right@),
{
    match left {
        Expression::Or(mut exprs) => {
            proof {
                lemma_exprs_view_push(exprs@, right);
            }
            exprs.push(right);
            Expression::Or(exprs)
        },
        _ => Expression::Or(two_exprs(left, right)),
    }
}

fn two_exprs(a: Expression, b: Expression) -> (r: Vec<Expression>)
    ensures
        exprs_view(r@) == seq![a@, b@],
{
    let mut v: Vec<Expression> = Vec::new();
    proof {
        lemma_exprs_view_push(v@, a);
    }
    v.push(a);
    proof {
        lemma_exprs_view_push(v@, b);
    }
    v.push(b);
    assert(exprs_view(Seq::<Expression>::empty()) =~= Seq::<SpecExpr>::empty());
    assert(seq![a@, b@] =~= Seq::<SpecExpr>::empty().push(a@).push(b@));
    v
}

/// `[a, b]` as a vector of strings.
fn two_strings(a: String, b: String) -> (r: Vec<String>)
    ensures
        strings_view(r@) == seq![a@, b@],
{
    let mut v: Vec<String> = Vec::new();
    v.push(a);
    v.push(b);
    assert(strings_view(v@) =~= seq![a@, b@]);
    v
}

/// The parts joined with `.`.
pub fn join_with_dots(parts: &Vec<String>) -> (r: String)
    ensures
        r@ == join_dot(strings_view(parts@)),
{
    let mut r = String::new();
    let mut i: usize = 0;
    while i < parts.len()
        invariant
            i <= parts@.len(),
            r@ == join_dot(strings_view(parts@.subrange(0, i as int))),
        decreases parts.len() - i,
    {
        let ghost before = strings_view(parts@.subrange(0, i as int));
        let ghost after = strings_view(parts@.subrange(0, i + 1));
        assert(after.subrange(0, i as int) =~= before);
        let ghost r0 = r@;
        proof {
            reveal_strlit(".");
        }
        assert(after[i as int] == parts@[i as int]@);
        if i > 0 {
            r.append(".");
            assert(r@ =~= r0 + seq!['.']);
        }
        r.append(parts[i].as_str());
        assert(r@ =~= join_dot(after));
        i = i + 1;
    }
    assert(parts@.subrange(0, parts@.len() as int) =~= parts@);
    r
}

/// What `left EXISTS` parses to.
fn exists_expr(left: Expression) -> (r: Expression)
    ensures
        r@ == exists_of(left@),
{
    match left {
        Expression::Field(name) => Expression::Exists { field: name },
        Expression::NestedField(parts) => Expression::Exists { field: join_with_dots(&parts) },
        _ => Expression::Exists { field: String::from_str("unknown") },
    }
}

/// The Pratt parser over a slice of tokens.
pub struct PrattParser<'a> {
    tokens: &'a [Token],
    current: usize,
}

impl<'a> PrattParser<'a> {
    #[verifier::type_invariant]
    spec fn inv(self) -> bool {
        self.current <= self.tokens@.len()
    }

    /// The tokens being parsed.
    pub closed spec fn input(self) -> Seq<Token> {
        self.tokens@
    }

    /// The position of the next token to read.
    pub closed spec fn at(self) -> int {
        self.current as int
    }

    /// A parser at the start of `tokens`.
    pub fn new(tokens: &'a [Token]) -> (r: Self)
        ensures
            r.input() == tokens@,
            r.at() == 0,
    {
        Self { tokens, current: 0 }
    }

    /// A parser over `tokens` that continues at position `pos`.
    pub fn starting_at(tokens: &'a [Token], pos: usize) -> (r: Self)
        requires
            pos <= tokens@.len(),
        ensures
            r.input() == tokens@,
            r.at() == pos,
    {
        Self { tokens, current: pos }
    }

    /// How many tokens have been consumed.
    pub fn position(&self) -> (r: usize)
        ensures
            r == self.at(),
            r <= self.input().len(),
    {
        proof {
            use_type_invariant(self);
        }
        self.current
    }

    /// Parse a full expression whose infix operators bind tighter than
    /// `min_prec`.
    pub fn parse_expression(&mut self, min_prec: u8) -> (res: Result<Expression, ParseError>)
        ensures
            final(self).input() == old(self).input(),
            old(self).at() <= final(self).at() <= final(self).input().len(),
            result_view(res, final(self).at()) == spec_parse_expression(
                old(self).input(),
                old(self).at(),
                min_prec,
            ),
            res is Ok ==> old(self).at() < final(self).at(),
        decreases self.input().len() - self.at(), 4nat,
    {
        proof {
            use_type_invariant(&*self);
        }
        let ghost ts = self.tokens@;
        let ghost p0 = self.current as int;
        let mut left = self.parse_prefix()?;
        proof {
            use_type_invariant(&*self);
        }
        loop
            invariant
                self.tokens@ == ts,
                old(self).tokens@ == ts,
                old(self).current == p0,
                p0 < self.current <= ts.len(),
                spec_expression_loop(ts, self.current as int, left@, min_prec)
                    == spec_parse_expression(ts, p0, min_prec),
            decreases ts.len() - self.current,
        {
            let prec = self.current_precedence();
            if prec <= min_prec {
                return Ok(left);
            }
            left = self.parse_infix(left, prec)?;
            proof {
                use_type_invariant(&*self);
            }
        }
    }

    // ── Prefix

    fn parse_prefix(&mut self) -> (res: Result<Expression, ParseError>)
        ensures
            final(self).input() == old(self).input(),
            old(self).at() <= final(self).at() <= final(self).input().len(),
            result_view(res, final(self).at()) == spec_parse_prefix(old(self).input(), old(self).at()),
            res is Ok ==> old(self).at() < final(self).at(),
        decreases self.input().len() - self.at(), 1nat,
    {
        proof {
            use_type_invariant(&*self);
        }
        let ghost ts = self.tokens@;
        let ghost p = self.current as int;
        match self.current() {
            Token::Int(n) => {
                self.advance();
                Ok(Expression::Int(n))
            },
            Token::Float(f) => {
                self.advance();
                Ok(Expression::Float(f))
            },
            Token::Bool(b) => {
                self.advance();
                Ok(Expression::Bool(b))
            },
            Token::Null => {
                self.advance();
                Ok(Expression::Null)
            },
            Token::Text(s) => {
                self.advance();
                Ok(Expression::Text(s))
            },
            Token::Wildcard => {
                self.advance();
                Ok(Expression::Wildcard)
            },
            // Negation: !active
            Token::Bang => {
                self.advance();
                let expr = self.parse_expression(Precedence::Unary.level())?;
                Ok(Expression::Not(Box::new(expr)))
            },
            // Grouped: (age > 18)
            Token::LParen => {
                self.advance();
                let expr = self.parse_expression(0)?;
                self.expect(Symbol::RParen)?;
                Ok(expr)
            },
            // A collection in an expression: orders[].status, users[].id
            Token::Collection { name, .. } => {
                self.advance();
                if self.check(Symbol::Dot) {
                    self.advance();
                    if let Token::Identifier(field) = self.current() {
                        self.advance();
                        return Ok(Expression::NestedField(two_strings(name, field)));
                    }
                }
                Ok(Expression::Field(name))
            },
            // Identifier or field method
            Token::Identifier(name) => {
                self.advance();
                self.parse_identifier_expr(name)
            },
            // Built-in functions
            Token::FnUuid => {
                self.advance();
                self.parse_fn_call("uuid")
            },
            Token::FnNow => {
                self.advance();
                self.parse_fn_call("now")
            },
            Token::FnToday => {
                self.advance();
                self.parse_fn_call("today")
            },
            Token::FnCount => {
                self.advance();
                self.parse_fn_call("COUNT")
            },
            Token::FnSum => {
                self.advance();
                self.parse_fn_call("SUM")
            },
            Token::FnAvg => {
                self.advance();
                self.parse_fn_call("AVG")
            },
            Token::FnMax => {
                self.advance();
                self.parse_fn_call("MAX")
            },
            Token::FnMin => {
                self.advance();
                self.parse_fn_call("MIN")
            },
            other => Err(
                ParseError::UnexpectedToken {
                    expected: String::from_str("expression"),
                    found: token_debug(&other),
                },
            ),
        }
    }

    // ── Infix

    fn parse_infix(&mut self, left: Expression, prec: u8) -> (res: Result<Expression, ParseError>)
        ensures
            final(self).input() == old(self).input(),
            old(self).at() <= final(self).at() <= final(self).input().len(),
            result_view(res, final(self).at()) == spec_parse_infix(
                old(self).input(),
                old(self).at(),
                left@,
                prec,
            ),
            res is Ok && token_precedence(token_at(old(self).input(), old(self).at())) > 0 ==> old(
                self,
            ).at() < final(self).at(),
        decreases self.input().len() - self.at(), 2nat,
    {
        proof {
            use_type_invariant(&*self);
        }
        match self.current() {
            // Binary operators
            Token::Eq | Token::NotEq | Token::Gt | Token::Lt | Token::Gte | Token::Lte => {
                let op = self.parse_binary_op();
                let right = self.parse_expression(prec)?;
                Ok(Expression::Binary { left: Box::new(left), op, right: Box::new(right) })
            },
            // AND: comma inside .where()
            Token::Comma => {
                self.advance();
                let right = self.parse_expression(Precedence::And.level())?;
                Ok(and_of(left, right))
            },
            // OR: pipe
            Token::Pipe => {
                self.advance();
                let right = self.parse_expression(Precedence::Or.level())?;
                Ok(or_of(left, right))
            },
            // field EXISTS
            Token::Exists => {
                self.advance();
                Ok(exists_expr(left))
            },
            _ => Ok(left),
        }
    }

    // ── Identifier / method

    fn parse_identifier_expr(&mut self, name: String) -> (res: Result<Expression, ParseError>)
        ensures
            final(self).input() == old(self).input(),
            final(self).at() <= final(self).input().len(),
            old(self).at() <= final(self).at(),
            result_view(res, final(self).at()) == spec_parse_identifier_expr(
                old(self).input(),
                old(self).at(),
                name@,
            ),
        decreases self.input().len() - self.at(), 0nat,
    {
        proof {
            use_type_invariant(&*self);
        }
        // No dot: a simple field
        if !self.check(Symbol::Dot) {
            return Ok(Expression::Field(name));
        }
        self.advance();
        match self.current() {
            // location.near(lat, lon, dist)
            Token::MethodNear => {
                self.advance();
                self.expect(Symbol::LParen)?;
                let lat = self.expect_float()?;
                self.expect(Symbol::Comma)?;
                let lon = self.expect_float()?;
                self.expect(Symbol::Comma)?;
                let distance = self.expect_distance()?;
                self.expect(Symbol::RParen)?;
                Ok(Expression::Near { field: name, lat, lon, distance })
            },
            // embed.like("query").threshold(0.85)
            Token::MethodLike => {
                self.advance();
                self.expect(Symbol::LParen)?;
                let query = self.expect_string()?;
                self.expect(Symbol::RParen)?;
                // Optional .threshold()
                let threshold = if self.check(Symbol::Dot) {
                    self.advance();
                    if self.check(Symbol::MethodThreshold) {
                        self.advance();
                        self.expect(Symbol::LParen)?;
                        let t = self.expect_float()?;
                        self.expect(Symbol::RParen)?;
                        t
                    } else {
                        Number::Float(0x3FE9_9999_9999_999A)
                    }
                } else {
                    Number::Float(0x3FE9_9999_9999_999A)
                };
                Ok(Expression::Like { field: name, query, threshold })
            },
            // items.has("latte")
            Token::MethodHas => {
                self.advance();
                self.expect(Symbol::LParen)?;
                let value = self.parse_expression(0)?;
                self.expect(Symbol::RParen)?;
                Ok(Expression::Has { field: name, value: Box::new(value) })
            },
            // time.last(7d)
            Token::MethodLast => {
                self.advance();
                self.expect(Symbol::LParen)?;
                let duration = self.expect_duration()?;
                self.expect(Symbol::RParen)?;
                Ok(Expression::Last { field: name, duration })
            },
            // Nested field: specs.color
            Token::Identifier(field) => {
                self.advance();
                Ok(Expression::NestedField(two_strings(name, field)))
            },
            _ => Ok(Expression::Field(name)),
        }
    }

    fn parse_fn_call(&mut self, name: &str) -> (res: Result<Expression, ParseError>)
        ensures
            final(self).input() == old(self).input(),
            old(self).at() <= final(self).at() <= final(self).input().len(),
            result_view(res, final(self).at()) == spec_parse_fn_call(
                old(self).input(),
                old(self).at(),
                name@,
            ),
            res is Ok ==> old(self).at() < final(self).at(),
        decreases self.input().len() - self.at(), 0nat,
    {
        proof {
            use_type_invariant(&*self);
        }
        let ghost ts = self.tokens@;
        self.expect(Symbol::LParen)?;
        let ghost p1 = self.current as int;
        let mut args: Vec<Expression> = Vec::new();
        assert(exprs_view(args@) =~= Seq::<SpecExpr>::empty());
        while !self.check(Symbol::RParen) && !self.is_at_end()
            invariant
                self.tokens@ == ts,
                old(self).tokens@ == ts,
                old(self).current < p1,
                spec_expect(ts, old(self).current as int, Symbol::LParen) == Ok::<int, (SpecError, int)>(p1),
                p1 <= self.current <= ts.len(),
                spec_fn_args(ts, self.current as int, exprs_view(args@)) == spec_fn_args(
                    ts,
                    p1,
                    Seq::empty(),
                ),
            decreases ts.len() - self.current,
        {
            let ghost before = self.current as int;
            let arg = self.parse_expression(0)?;
            proof {
                use_type_invariant(&*self);
                lemma_exprs_view_push(args@, arg);
            }
            args.push(arg);
            if self.check(Symbol::Comma) {
                self.advance();
            }
            assert(advanced(ts, before, self.current as int));
        }
        self.expect(Symbol::RParen)?;
        Ok(Expression::FnCall { name: String::from_str(name), args })
    }

    // ── Helpers

    fn current_precedence(&self) -> (r: u8)
        ensures
            r == token_precedence(token_at(self.input(), self.at())),
    {
        match self.current() {
            Token::Pipe => Precedence::Or.level(),
            Token::Comma => Precedence::And.level(),
            Token::Eq | Token::NotEq | Token::Gt | Token::Lt | Token::Gte | Token::Lte => {
                Precedence::Comparison.level()
            },
            Token::Exists => Precedence::Comparison.level(),
            _ => Precedence::Lowest.level(),
        }
    }

    fn parse_binary_op(&mut self) -> (op: BinaryOp)
        ensures
            final(self).input() == old(self).input(),
            op == token_binary_op(token_at(old(self).input(), old(self).at())),
            final(self).at() == if old(self).at() < old(self).input().len() {
                old(self).at() + 1
            } else {
                old(self).at()
            },
    {
        let op = match self.current() {
            Token::Eq => BinaryOp::Eq,
            Token::NotEq => BinaryOp::NotEq,
            Token::Gt => BinaryOp::Gt,
            Token::Lt => BinaryOp::Lt,
            Token::Gte => BinaryOp::Gte,
            Token::Lte => BinaryOp::Lte,
            _ => BinaryOp::Eq,
        };
        self.advance();
        op
    }

    /// The token at the current position (`Eof` at the end).
    fn current(&self) -> (t: Token)
        ensures
            t == token_at(self.input(), self.at()),
    {
        if self.current < self.tokens.len() {
            self.tokens[self.current].clone()
        } else {
            Token::Eof
        }
    }

    /// Whether the current token is that of symbol `s`.
    fn check(&self, s: Symbol) -> (r: bool)
        ensures
            r == (token_at(self.input(), self.at()) == symbol_token(s)),
    {
        let t = self.current();
        is_symbol(&t, s)
    }

    fn advance(&mut self)
        ensures
            final(self).input() == old(self).input(),
            final(self).at() == if old(self).at() < old(self).input().len() {
                old(self).at() + 1
            } else {
                old(self).at()
            },
    {
        proof {
            use_type_invariant(&*self);
        }
        if self.current < self.tokens.len() {
            self.current = self.current + 1;
        }
    }

    fn is_at_end(&self) -> (r: bool)
        ensures
            r == (token_at(self.input(), self.at()) == Token::Eof),
    {
        matches!(self.current(), Token::Eof)
    }

    fn expect(&mut self, s: Symbol) -> (res: Result<(), ParseError>)
        ensures
            final(self).input() == old(self).input(),
            old(self).at() <= final(self).at() <= final(self).input().len(),
            unit_result_view(res, final(self).at()) == spec_expect(old(self).input(), old(self).at(), s),
    {
        proof {
            use_type_invariant(&*self);
        }
        let t = self.current();
        if is_symbol(&t, s) {
            self.advance();
            Ok(())
        } else {
            Err(
                ParseError::UnexpectedToken {
                    expected: token_debug(&s.to_token()),
                    found: token_debug(&t),
                },
            )
        }
    }

    fn expect_float(&mut self) -> (res: Result<Number, ParseError>)
        ensures
            final(self).input() == old(self).input(),
            old(self).at() <= final(self).at() <= final(self).input().len(),
            result_view(res, final(self).at()) == spec_expect_float(old(self).input(), old(self).at()),
    {
        proof {
            use_type_invariant(&*self);
        }
        match self.current() {
            Token::Float(f) => {
                self.advance();
                Ok(Number::Float(f))
            },
            Token::Int(n) => {
                self.advance();
                Ok(Number::Int(n))
            },
            other => Err(
                ParseError::UnexpectedToken {
                    expected: String::from_str("number"),
                    found: token_debug(&other),
                },
            ),
        }
    }

    fn expect_string(&mut self) -> (res: Result<String, ParseError>)
        ensures
            final(self).input() == old(self).input(),
            old(self).at() <= final(self).at() <= final(self).input().len(),
            result_view(res, final(self).at()) == spec_expect_string(old(self).input(), old(self).at()),
    {
        proof {
            use_type_invariant(&*self);
        }
        match self.current() {
            Token::Text(s) => {
                self.advance();
                Ok(s)
            },
            other => Err(
                ParseError::UnexpectedToken {
                    expected: String::from_str("string"),
                    found: token_debug(&other),
                },
            ),
        }
    }

    fn expect_distance(&mut self) -> (res: Result<Distance, ParseError>)
        ensures
            final(self).input() == old(self).input(),
            old(self).at() <= final(self).at() <= final(self).input().len(),
            result_view(res, final(self).at()) == spec_expect_distance(old(self).input(), old(self).at()),
    {
        proof {
            use_type_invariant(&*self);
        }
        match self.current() {
            Token::Distance(d) => {
                self.advance();
                Ok(d)
            },
            other => Err(
                ParseError::UnexpectedToken {
                    expected: String::from_str("distance (e.g. 5km)"),
                    found: token_debug(&other),
                },
            ),
        }
    }

    fn expect_duration(&mut self) -> (res: Result<Duration, ParseError>)
        ensures
            final(self).input() == old(self).input(),
            old(self).at() <= final(self).at() <= final(self).input().len(),
            result_view(res, final(self).at()) == spec_expect_duration(old(self).input(), old(self).at()),
    {
        proof {
            use_type_invariant(&*self);
        }
        match self.current() {
            Token::Duration(d) => {
                self.advance();
                Ok(d)
            },
            other => Err(
                ParseError::UnexpectedToken {
                    expected: String::from_str("duration (e.g. 7d)"),
                    found: token_debug(&other),
                },
            ),
        }
    }
}

} // verus!
