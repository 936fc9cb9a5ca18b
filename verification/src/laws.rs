//! Properties that hold of every parse.

use vstd::prelude::*;
use crate::ast::{AggFunc, BinaryOp, SpecChainOp, SpecExpr, SpecFieldExpr, SpecQuery, SpecStatement};
use crate::error::SpecError;
use crate::pratt::{
    advanced, is_comparison, spec_expect, spec_expression_loop, spec_fn_args, spec_last, spec_like, spec_near,
    spec_parse_expression, spec_parse_fn_call, spec_parse_identifier_expr, spec_parse_infix,
    spec_parse_prefix, token_precedence, precedence_level, Precedence, SpecParse,
};
use crate::recursive::{
    chain_ends, chain_permits, spec_array_items, spec_chain, spec_constraints,
    spec_expect_collection, spec_expect_data_type, spec_expect_identifier, spec_give_fields,
    spec_object_fields, spec_object_key, spec_parse, spec_parse_chain_op, spec_parse_cup,
    spec_parse_field_expr, spec_parse_object, spec_parse_object_value, spec_parse_query,
    spec_parse_statement, spec_schema_fields, spec_shot_queries, spec_statements, wrong_order,
    spec_parse_where, spec_parse_give, spec_parse_sort, spec_parse_blend, spec_parse_mix,
    spec_parse_refill, spec_object_argument, spec_parse_shot, spec_parse_grind, spec_parse_menu,
    ChainMethod, ChainState,
};
use crate::token::{token_at, CollectionKind, Constraint, Number, SortDir, Token};

verus! {

/// The method whose place in the chain is checked, for the operations that
/// have one (`.pour()` and `.spill()` may stand anywhere).
pub open spec fn op_method(op: SpecChainOp) -> Option<ChainMethod> {
    match op {
        SpecChainOp::Where { .. } => Some(ChainMethod::Where),
        SpecChainOp::Give { .. } => Some(ChainMethod::Give),
        SpecChainOp::Sort { .. } => Some(ChainMethod::Sort),
        SpecChainOp::Cup { .. } => Some(ChainMethod::Cup),
        SpecChainOp::Blend { .. } => Some(ChainMethod::Blend),
        SpecChainOp::Mix { .. } => Some(ChainMethod::Mix),
        SpecChainOp::Refill { .. } => Some(ChainMethod::Refill),
        SpecChainOp::Pour { .. } | SpecChainOp::Spill => None,
    }
}

/// The state a chain is in after operation `op`.
pub open spec fn state_after(op: SpecChainOp) -> ChainState {
    match op {
        SpecChainOp::Where { .. } => ChainState::AfterWhere,
        SpecChainOp::Give { .. } => ChainState::AfterGive,
        SpecChainOp::Sort { .. } => ChainState::AfterSort,
        SpecChainOp::Cup { .. } => ChainState::AfterCup,
        SpecChainOp::Blend { .. } => ChainState::AfterBlend,
        SpecChainOp::Mix { .. } => ChainState::AfterMix,
        SpecChainOp::Pour { .. } => ChainState::AfterPour,
        SpecChainOp::Refill { .. } => ChainState::AfterRefill,
        SpecChainOp::Spill => ChainState::Done,
    }
}

/// Whether `op` may come in state `st`.
pub open spec fn op_allowed(st: ChainState, op: SpecChainOp) -> bool {
    match op_method(op) {
        Some(m) => chain_permits(st, m),
        None => true,
    }
}

/// Whether the operations `ops`, starting in state `st`, follow the chain
/// order: each is allowed in the state the ones before it left, nothing
/// follows a cup or a spill, and every cup has a positive limit.
pub open spec fn chain_in_order(st: ChainState, ops: Seq<SpecChainOp>) -> bool
    decreases ops.len(),
{
    if ops.len() == 0 {
        true
    } else {
        let op = ops[0];
        &&& op_allowed(st, op)
        &&& (chain_ends(state_after(op)) ==> ops.len() == 1)
        &&& (op matches SpecChainOp::Cup { limit } ==> limit > 0)
        &&& chain_in_order(state_after(op), ops.subrange(1, ops.len() as int))
    }
}

/// A query whose chain follows the chain order from the start.
pub open spec fn query_in_order(q: SpecQuery) -> bool {
    chain_in_order(ChainState::Start, q.chain)
}

/// A statement whose queries follow the chain order, with at least one query
/// in a shot.
pub open spec fn statement_in_order(s: SpecStatement) -> bool {
    match s {
        SpecStatement::Query(q) => query_in_order(q),
        SpecStatement::Shot { queries } => queries.len() > 0 && forall|i: int|
            0 <= i < queries.len() ==> #[trigger] query_in_order(queries[i]),
        _ => true,
    }
}

/// One chain operation is allowed where it stands, moves to the state named
/// by `state_after`, and a cup's limit is positive.
pub proof fn lemma_chain_op_in_order(ts: Seq<Token>, p: int, st: ChainState)
    ensures
        spec_parse_chain_op(ts, p, st) matches Ok(((op, st2), _)) ==> {
            &&& op_allowed(st, op)
            &&& st2 == state_after(op)
            &&& (op matches SpecChainOp::Cup { limit } ==> limit > 0)
        },
{
    if token_at(ts, p) == Token::Cup {
        assert(spec_parse_chain_op(ts, p, st) == spec_parse_cup(ts, p, st));
    }
}

/// What `spec_chain` adds to `acc` follows the chain order from `st`.
pub proof fn lemma_chain_in_order(ts: Seq<Token>, p: int, st: ChainState, acc: Seq<SpecChainOp>)
    ensures
        spec_chain(ts, p, st, acc) matches Ok((ops, _)) ==> {
            &&& acc.len() <= ops.len()
            &&& ops.subrange(0, acc.len() as int) == acc
            &&& chain_in_order(st, ops.subrange(acc.len() as int, ops.len() as int))
        },
    decreases ts.len() - p,
{
    if token_at(ts, p) != Token::Dot {
        assert(acc.subrange(0, acc.len() as int) =~= acc);
        assert(acc.subrange(acc.len() as int, acc.len() as int).len() == 0);
    } else {
        lemma_chain_op_in_order(ts, p + 1, st);
        match spec_parse_chain_op(ts, p + 1, st) {
            Err(_) => {},
            Ok(((op, st2), p2)) => {
                let acc2 = acc.push(op);
                assert(acc2.subrange(0, acc.len() as int) =~= acc);
                let one = acc2.subrange(acc.len() as int, acc2.len() as int);
                assert(one =~= seq![op]);
                assert(one.subrange(1, one.len() as int).len() == 0);
                assert(chain_in_order(state_after(op), one.subrange(1, one.len() as int)));
                assert(chain_in_order(st, one));
                if chain_ends(st2) {
                } else if advanced(ts, p, p2) {
                    lemma_chain_in_order(ts, p2, st2, acc2);
                    if let Ok((ops, _)) = spec_chain(ts, p2, st2, acc2) {
                        let rest = ops.subrange(acc.len() as int, ops.len() as int);
                        assert(ops.subrange(0, acc.len() as int) =~= ops.subrange(
                            0,
                            acc2.len() as int,
                        ).subrange(0, acc.len() as int));
                        assert(ops.subrange(0, acc2.len() as int)[acc.len() as int] == acc2[acc.len() as int]);
                        assert(rest[0] == op);
                        assert(ops.subrange(0, acc.len() as int) =~= acc);
                        assert(rest.subrange(1, rest.len() as int) =~= ops.subrange(
                            acc2.len() as int,
                            ops.len() as int,
                        ));
                    }
                }
            },
        }
    }
}

/// Every query parsed follows the chain order.
pub proof fn lemma_query_in_order(ts: Seq<Token>, p: int)
    ensures
        spec_parse_query(ts, p) matches Ok((q, _)) ==> query_in_order(q),
{
    if let Ok(((_, _), p1)) = spec_expect_collection(ts, p) {
        lemma_chain_in_order(ts, p1, ChainState::Start, Seq::empty());
        if let Ok((ops, _)) = spec_chain(ts, p1, ChainState::Start, Seq::empty()) {
            assert(ops.subrange(0, ops.len() as int) =~= ops);
        }
    }
}

/// The queries that `spec_shot_queries` adds to `acc` follow the chain order.
pub proof fn lemma_shot_queries_in_order(ts: Seq<Token>, p: int, acc: Seq<SpecQuery>)
    requires
        forall|i: int| 0 <= i < acc.len() ==> #[trigger] query_in_order(acc[i]),
    ensures
        spec_shot_queries(ts, p, acc) matches Ok((qs, _)) ==> {
            &&& acc.len() <= qs.len()
            &&& forall|i: int| 0 <= i < qs.len() ==> #[trigger] query_in_order(qs[i])
        },
    decreases ts.len() - p,
{
    if token_at(ts, p) != Token::RBrace && token_at(ts, p) != Token::Eof {
        lemma_query_in_order(ts, p);
        if let Ok((q, p2)) = spec_parse_query(ts, p) {
            let acc2 = acc.push(q);
            assert forall|i: int| 0 <= i < acc2.len() implies #[trigger] query_in_order(acc2[i]) by {
                if i < acc.len() {
                    assert(acc2[i] == acc[i]);
                }
            }
            if advanced(ts, p, p2) {
                lemma_shot_queries_in_order(ts, p2, acc2);
            }
        }
    }
}

pub proof fn lemma_statement_in_order(ts: Seq<Token>, p: int)
    ensures
        spec_parse_statement(ts, p) matches Ok((s, _)) ==> statement_in_order(s),
{
    match token_at(ts, p) {
        Token::Shot => {
            if let Ok(p1) = spec_expect(ts, p + 1, crate::token::Symbol::LBrace) {
                lemma_shot_queries_in_order(ts, p1, Seq::empty());
            }
        },
        Token::Collection { .. } => {
            lemma_query_in_order(ts, p);
        },
        _ => {},
    }
}

pub proof fn lemma_statements_in_order(ts: Seq<Token>, p: int, acc: Seq<SpecStatement>)
    requires
        forall|i: int| 0 <= i < acc.len() ==> #[trigger] statement_in_order(acc[i]),
    ensures
        spec_statements(ts, p, acc) matches Ok((stmts, _)) ==> forall|i: int|
            0 <= i < stmts.len() ==> #[trigger] statement_in_order(stmts[i]),
    decreases ts.len() - p,
{
    if token_at(ts, p) != Token::Eof {
        lemma_statement_in_order(ts, p);
        if let Ok((s, p2)) = spec_parse_statement(ts, p) {
            let acc2 = acc.push(s);
            assert forall|i: int| 0 <= i < acc2.len() implies #[trigger] statement_in_order(acc2[i]) by {
                if i < acc.len() {
                    assert(acc2[i] == acc[i]);
                }
            }
            if advanced(ts, p, p2) {
                lemma_statements_in_order(ts, p2, acc2);
            }
        }
    }
}

/// Chain order: in every stream that parses, every query's chain (those in
/// shots too) follows the chain state machine: each method stands only in a
/// state that permits it, nothing follows `.cup()` or `.spill()`, and every
/// cup limit is positive; and no `shot{}` block is empty.
pub proof fn law_parsed_statements_follow_chain_order(ts: Seq<Token>)
    ensures
        spec_parse(ts) matches Ok((stmts, _)) ==> forall|i: int|
            0 <= i < stmts.len() ==> #[trigger] statement_in_order(stmts[i]),
{
    lemma_statements_in_order(ts, 0, Seq::empty());
}

/// Whether a rule started at `p` that gave `r` has, on success, stopped at
/// a position after `p` (`strict`) or not before it, and not past the end.
pub open spec fn moves_forward<T>(ts: Seq<Token>, p: int, r: SpecParse<T>, strict: bool) -> bool {
    r matches Ok((_, q)) ==> (if strict {
        p < q
    } else {
        p <= q
    }) && q <= ts.len()
}

pub proof fn lemma_near_like_last_progress(ts: Seq<Token>, p: int, name: Seq<char>)
    requires
        0 <= p < ts.len(),
    ensures
        moves_forward(ts, p, spec_near(ts, p, name), true),
        moves_forward(ts, p, spec_like(ts, p, name), true),
        moves_forward(ts, p, spec_last(ts, p, name), true),
{
}

pub proof fn lemma_expression_progress(ts: Seq<Token>, p: int, min_prec: u8)
    requires
        0 <= p <= ts.len(),
    ensures
        moves_forward(ts, p, spec_parse_expression(ts, p, min_prec), true),
    decreases ts.len() - p, 4nat,
{
    lemma_prefix_progress(ts, p);
    if let Ok((left, p1)) = spec_parse_prefix(ts, p) {
        if advanced(ts, p, p1) {
            lemma_loop_progress(ts, p1, left, min_prec);
        }
    }
}

pub proof fn lemma_loop_progress(ts: Seq<Token>, p: int, left: SpecExpr, min_prec: u8)
    requires
        0 <= p <= ts.len(),
    ensures
        moves_forward(ts, p, spec_expression_loop(ts, p, left, min_prec), false),
    decreases ts.len() - p, 3nat,
{
    let prec = token_precedence(token_at(ts, p));
    if prec > min_prec {
        lemma_infix_progress(ts, p, left, prec);
        if let Ok((next, p2)) = spec_parse_infix(ts, p, left, prec) {
            if advanced(ts, p, p2) {
                lemma_loop_progress(ts, p2, next, min_prec);
            }
        }
    }
}

pub proof fn lemma_infix_progress(ts: Seq<Token>, p: int, left: SpecExpr, prec: u8)
    requires
        0 <= p <= ts.len(),
    ensures
        moves_forward(ts, p, spec_parse_infix(ts, p, left, prec), token_precedence(token_at(ts, p)) > 0),
    decreases ts.len() - p, 2nat,
{
    let t = token_at(ts, p);
    if t != Token::Eof && token_precedence(t) > 0 {
        lemma_expression_progress(ts, p + 1, prec);
        lemma_expression_progress(ts, p + 1, 1);
        lemma_expression_progress(ts, p + 1, 2);
    }
}

pub proof fn lemma_prefix_progress(ts: Seq<Token>, p: int)
    requires
        0 <= p <= ts.len(),
    ensures
        moves_forward(ts, p, spec_parse_prefix(ts, p), true),
    decreases ts.len() - p, 1nat,
{
    if p < ts.len() {
        match token_at(ts, p) {
            Token::Bang => {
                lemma_expression_progress(ts, p + 1, 4);
            },
            Token::LParen => {
                lemma_expression_progress(ts, p + 1, 0);
            },
            Token::Identifier(name) => {
                lemma_identifier_progress(ts, p + 1, name@);
            },
            Token::FnUuid | Token::FnNow | Token::FnToday | Token::FnCount | Token::FnSum
            | Token::FnAvg | Token::FnMax | Token::FnMin => {
                lemma_fn_call_progress(ts, p + 1, "uuid"@);
                lemma_fn_call_progress(ts, p + 1, "now"@);
                lemma_fn_call_progress(ts, p + 1, "today"@);
                lemma_fn_call_progress(ts, p + 1, "COUNT"@);
                lemma_fn_call_progress(ts, p + 1, "SUM"@);
                lemma_fn_call_progress(ts, p + 1, "AVG"@);
                lemma_fn_call_progress(ts, p + 1, "MAX"@);
                lemma_fn_call_progress(ts, p + 1, "MIN"@);
            },
            _ => {},
        }
    }
}

pub proof fn lemma_identifier_progress(ts: Seq<Token>, p: int, name: Seq<char>)
    requires
        0 <= p <= ts.len(),
    ensures
        moves_forward(ts, p, spec_parse_identifier_expr(ts, p, name), false),
    decreases ts.len() - p, 0nat,
{
    if token_at(ts, p) == Token::Dot {
        let q = p + 1;
        if q < ts.len() {
            lemma_near_like_last_progress(ts, q, name);
        }
        if token_at(ts, q) == Token::MethodHas {
            if let Ok(p1) = spec_expect(ts, q + 1, crate::token::Symbol::LParen) {
                lemma_expression_progress(ts, p1, 0);
            }
        }
    }
}

pub proof fn lemma_fn_call_progress(ts: Seq<Token>, p: int, name: Seq<char>)
    requires
        0 <= p <= ts.len(),
    ensures
        moves_forward(ts, p, spec_parse_fn_call(ts, p, name), true),
    decreases ts.len() - p, 0nat,
{
    if let Ok(p1) = spec_expect(ts, p, crate::token::Symbol::LParen) {
        lemma_fn_args_progress(ts, p1, Seq::empty());
    }
}

pub proof fn lemma_fn_args_progress(ts: Seq<Token>, p: int, acc: Seq<SpecExpr>)
    requires
        0 <= p <= ts.len(),
    ensures
        moves_forward(ts, p, spec_fn_args(ts, p, acc), false),
    decreases ts.len() - p, 5nat,
{
    if token_at(ts, p) != Token::RParen && token_at(ts, p) != Token::Eof {
        lemma_expression_progress(ts, p, 0);
        if let Ok((arg, p2)) = spec_parse_expression(ts, p, 0) {
            let p3 = if token_at(ts, p2) == Token::Comma {
                p2 + 1
            } else {
                p2
            };
            if advanced(ts, p, p3) {
                lemma_fn_args_progress(ts, p3, acc.push(arg));
            }
        }
    }
}

/// Progress: an expression that parses has consumed at least one token and
/// stops within the input. So the steps of the expression grammar's loops
/// always advance, and the guards on them never cut a parse short.
pub proof fn law_expression_consumes_input(ts: Seq<Token>, p: int, min_prec: u8)
    requires
        0 <= p <= ts.len(),
    ensures
        spec_parse_expression(ts, p, min_prec) matches Ok((_, q)) ==> p < q <= ts.len(),
{
    lemma_expression_progress(ts, p, min_prec);
}

/// The chain method a token names, for those whose place is checked.
pub open spec fn checked_method(t: Token) -> Option<ChainMethod> {
    match t {
        Token::Where => Some(ChainMethod::Where),
        Token::Give => Some(ChainMethod::Give),
        Token::Sort => Some(ChainMethod::Sort),
        Token::Cup => Some(ChainMethod::Cup),
        Token::Blend => Some(ChainMethod::Blend),
        Token::Mix => Some(ChainMethod::Mix),
        Token::Refill => Some(ChainMethod::Refill),
        _ => None,
    }
}

/// Refusal: a chain method standing in a state that does not permit it is
/// refused with `WrongChainOrder`, naming the method and the state, at the
/// method's position and before anything after it is read.
pub proof fn law_out_of_order_method_refused(ts: Seq<Token>, p: int, st: ChainState)
    requires
        checked_method(token_at(ts, p)) is Some,
        !chain_permits(st, checked_method(token_at(ts, p))->0),
    ensures
        spec_parse_chain_op(ts, p, st) == Err::<((SpecChainOp, ChainState), int), (SpecError, int)>(
            (wrong_order(checked_method(token_at(ts, p))->0, st), p),
        ),
{
}

// ── Shape of parsed expressions

/// Every `And` and `Or` in `e` has at least two operands, and none has, as
/// its first operand, a node of its own kind: a run of `,` (or of `|`)
/// builds one flat node.
pub open spec fn operands_ok(e: SpecExpr) -> bool
    decreases e,
{
    match e {
        SpecExpr::Binary { left, right, .. } => operands_ok(*left) && operands_ok(*right),
        SpecExpr::And(es) => es.len() >= 2 && !(es[0] is And) && all_operands_ok(es),
        SpecExpr::Or(es) => es.len() >= 2 && !(es[0] is Or) && all_operands_ok(es),
        SpecExpr::Not(x) => operands_ok(*x),
        SpecExpr::Has { value, .. } => operands_ok(*value),
        SpecExpr::FnCall { args, .. } => all_operands_ok(args),
        _ => true,
    }
}

/// `operands_ok` of every expression in `es`.
pub open spec fn all_operands_ok(es: Seq<SpecExpr>) -> bool
    decreases es,
{
    if es.len() == 0 {
        true
    } else {
        all_operands_ok(es.subrange(0, es.len() - 1)) && operands_ok(es[es.len() - 1])
    }
}

pub proof fn lemma_all_operands_ok_push(es: Seq<SpecExpr>, x: SpecExpr)
    ensures
        all_operands_ok(es.push(x)) == (all_operands_ok(es) && operands_ok(x)),
{
    assert(es.push(x).subrange(0, es.len() as int) =~= es);
}

pub open spec fn parsed_ok(r: SpecParse<SpecExpr>) -> bool {
    r matches Ok((e, _)) ==> operands_ok(e)
}

pub proof fn lemma_and_or_with_ok(left: SpecExpr, right: SpecExpr)
    requires
        operands_ok(left),
        operands_ok(right),
    ensures
        operands_ok(crate::pratt::and_with(left, right)),
        operands_ok(crate::pratt::or_with(left, right)),
{
    let pair = seq![left, right];
    assert(pair =~= Seq::<SpecExpr>::empty().push(left).push(right));
    lemma_all_operands_ok_push(Seq::empty(), left);
    lemma_all_operands_ok_push(Seq::empty().push(left), right);
    assert(all_operands_ok(Seq::<SpecExpr>::empty()));
    match left {
        SpecExpr::And(es) => {
            lemma_all_operands_ok_push(es, right);
            assert(es.push(right)[0] == es[0]);
        },
        _ => {},
    }
    match left {
        SpecExpr::Or(es) => {
            lemma_all_operands_ok_push(es, right);
            assert(es.push(right)[0] == es[0]);
        },
        _ => {},
    }
}

pub proof fn lemma_expression_shape(ts: Seq<Token>, p: int, min_prec: u8)
    ensures
        parsed_ok(spec_parse_expression(ts, p, min_prec)),
    decreases ts.len() - p, 4nat,
{
    lemma_prefix_shape(ts, p);
    if let Ok((left, p1)) = spec_parse_prefix(ts, p) {
        if advanced(ts, p, p1) {
            lemma_loop_shape(ts, p1, left, min_prec);
        }
    }
}

pub proof fn lemma_loop_shape(ts: Seq<Token>, p: int, left: SpecExpr, min_prec: u8)
    requires
        operands_ok(left),
    ensures
        parsed_ok(spec_expression_loop(ts, p, left, min_prec)),
    decreases ts.len() - p, 3nat,
{
    let prec = token_precedence(token_at(ts, p));
    if prec > min_prec {
        lemma_infix_shape(ts, p, left, prec);
        if let Ok((next, p2)) = spec_parse_infix(ts, p, left, prec) {
            if advanced(ts, p, p2) {
                lemma_loop_shape(ts, p2, next, min_prec);
            }
        }
    }
}

pub proof fn lemma_infix_shape(ts: Seq<Token>, p: int, left: SpecExpr, prec: u8)
    requires
        operands_ok(left),
    ensures
        parsed_ok(spec_parse_infix(ts, p, left, prec)),
    decreases ts.len() - p, 2nat,
{
    let t = token_at(ts, p);
    if t != Token::Eof && token_precedence(t) > 0 {
        lemma_expression_shape(ts, p + 1, prec);
        lemma_expression_shape(ts, p + 1, 1);
        lemma_expression_shape(ts, p + 1, 2);
        if let Ok((right, _)) = spec_parse_expression(ts, p + 1, 2) {
            lemma_and_or_with_ok(left, right);
        }
        if let Ok((right, _)) = spec_parse_expression(ts, p + 1, 1) {
            lemma_and_or_with_ok(left, right);
        }
    }
}

pub proof fn lemma_prefix_shape(ts: Seq<Token>, p: int)
    ensures
        parsed_ok(spec_parse_prefix(ts, p)),
    decreases ts.len() - p, 1nat,
{
    if 0 <= p < ts.len() {
        match token_at(ts, p) {
            Token::Bang => {
                lemma_expression_shape(ts, p + 1, 4);
            },
            Token::LParen => {
                lemma_expression_shape(ts, p + 1, 0);
            },
            Token::Identifier(name) => {
                lemma_identifier_shape(ts, p + 1, name@);
            },
            Token::FnUuid | Token::FnNow | Token::FnToday | Token::FnCount | Token::FnSum
            | Token::FnAvg | Token::FnMax | Token::FnMin => {
                lemma_fn_call_shape(ts, p + 1, "uuid"@);
                lemma_fn_call_shape(ts, p + 1, "now"@);
                lemma_fn_call_shape(ts, p + 1, "today"@);
                lemma_fn_call_shape(ts, p + 1, "COUNT"@);
                lemma_fn_call_shape(ts, p + 1, "SUM"@);
                lemma_fn_call_shape(ts, p + 1, "AVG"@);
                lemma_fn_call_shape(ts, p + 1, "MAX"@);
                lemma_fn_call_shape(ts, p + 1, "MIN"@);
            },
            _ => {},
        }
    }
}

pub proof fn lemma_identifier_shape(ts: Seq<Token>, p: int, name: Seq<char>)
    ensures
        parsed_ok(spec_parse_identifier_expr(ts, p, name)),
    decreases ts.len() - p, 0nat,
{
    if token_at(ts, p) == Token::Dot {
        let q = p + 1;
        if token_at(ts, q) == Token::MethodHas {
            if let Ok(p1) = spec_expect(ts, q + 1, crate::token::Symbol::LParen) {
                lemma_expression_shape(ts, p1, 0);
            }
        }
    }
}

pub proof fn lemma_fn_call_shape(ts: Seq<Token>, p: int, name: Seq<char>)
    ensures
        parsed_ok(spec_parse_fn_call(ts, p, name)),
    decreases ts.len() - p, 0nat,
{
    if let Ok(p1) = spec_expect(ts, p, crate::token::Symbol::LParen) {
        lemma_fn_args_shape(ts, p1, Seq::empty());
        assert(all_operands_ok(Seq::<SpecExpr>::empty()));
    }
}

pub proof fn lemma_fn_args_shape(ts: Seq<Token>, p: int, acc: Seq<SpecExpr>)
    requires
        all_operands_ok(acc),
    ensures
        spec_fn_args(ts, p, acc) matches Ok((args, _)) ==> all_operands_ok(args),
    decreases ts.len() - p, 5nat,
{
    if token_at(ts, p) != Token::RParen && token_at(ts, p) != Token::Eof {
        lemma_expression_shape(ts, p, 0);
        if let Ok((arg, p2)) = spec_parse_expression(ts, p, 0) {
            let p3 = if token_at(ts, p2) == Token::Comma {
                p2 + 1
            } else {
                p2
            };
            let acc2 = acc.push(arg);
            lemma_all_operands_ok_push(acc, arg);
            if advanced(ts, p, p3) {
                lemma_fn_args_shape(ts, p3, acc2);
            }
        }
    }
}

/// Operand shape: in every expression the Pratt parser returns, each `And`
/// and `Or` has at least two operands, and a run of `,` (or `|`) at one
/// level builds one flat `And` (or `Or`) rather than nesting on the left.
pub proof fn law_logical_operands_shape(ts: Seq<Token>, p: int, min_prec: u8)
    ensures
        spec_parse_expression(ts, p, min_prec) matches Ok((e, _)) ==> operands_ok(e),
{
    lemma_expression_shape(ts, p, min_prec);
}

/// Refusal inside a chain: when a chain reaches, after a `.`, a method that
/// its state forbids, the chain fails with that `WrongChainOrder`.
pub proof fn law_chain_refuses_out_of_order(ts: Seq<Token>, p: int, st: ChainState, acc: Seq<SpecChainOp>)
    requires
        token_at(ts, p) == Token::Dot,
        checked_method(token_at(ts, p + 1)) is Some,
        !chain_permits(st, checked_method(token_at(ts, p + 1))->0),
    ensures
        spec_chain(ts, p, st, acc) == Err::<(Seq<SpecChainOp>, int), (SpecError, int)>(
            (wrong_order(checked_method(token_at(ts, p + 1))->0, st), p + 1),
        ),
{
    law_out_of_order_method_refused(ts, p + 1, st);
}

/// The first statement that fails decides the outcome: the whole parse fails
/// with that statement's error, at the same position.
pub proof fn law_first_failing_statement_decides(ts: Seq<Token>, p: int, acc: Seq<SpecStatement>)
    requires
        token_at(ts, p) != Token::Eof,
        spec_parse_statement(ts, p) is Err,
    ensures
        spec_statements(ts, p, acc) == Err::<(Seq<SpecStatement>, int), (SpecError, int)>(
            spec_parse_statement(ts, p)->Err_0,
        ),
{
}

/// The front door (`Parser::parse`) and a fresh `RecursiveParser` parse the
/// same stream the same way: both are `spec_statements` from position 0.
pub proof fn law_front_door_matches_fresh_parser(ts: Seq<Token>)
    ensures
        spec_parse(ts) == spec_statements(ts, 0, Seq::empty()),
{
}

// ── Progress of the statement grammar

pub proof fn lemma_object_progress(ts: Seq<Token>, p: int)
    requires
        0 <= p <= ts.len(),
    ensures
        moves_forward(ts, p, spec_parse_object(ts, p), true),
    decreases ts.len() - p, 1nat,
{
    if let Ok(p1) = spec_expect(ts, p, crate::token::Symbol::LBrace) {
        lemma_object_fields_progress(ts, p1, Seq::empty());
    }
}

pub proof fn lemma_object_fields_progress(
    ts: Seq<Token>,
    p: int,
    acc: Seq<(Seq<char>, SpecExpr)>,
)
    requires
        0 <= p <= ts.len(),
    ensures
        moves_forward(ts, p, spec_object_fields(ts, p, acc), false),
    decreases ts.len() - p, 3nat,
{
    if token_at(ts, p) != Token::RBrace && token_at(ts, p) != Token::Eof {
        if let Ok((key, p1)) = spec_object_key(ts, p) {
            if let Ok(p2) = spec_expect(ts, p1, crate::token::Symbol::Colon) {
                lemma_object_value_progress(ts, p2);
                if let Ok((value, p3)) = spec_parse_object_value(ts, p2) {
                    let p4 = if token_at(ts, p3) == Token::Comma {
                        p3 + 1
                    } else {
                        p3
                    };
                    if advanced(ts, p, p4) {
                        lemma_object_fields_progress(ts, p4, acc.push((key, value)));
                    }
                }
            }
        }
    }
}

pub proof fn lemma_object_value_progress(ts: Seq<Token>, p: int)
    requires
        0 <= p <= ts.len(),
    ensures
        moves_forward(ts, p, spec_parse_object_value(ts, p), true),
    decreases ts.len() - p, 2nat,
{
    match token_at(ts, p) {
        Token::LBrace => {
            lemma_object_progress(ts, p);
        },
        Token::LBracket => {
            lemma_array_items_progress(ts, p + 1, Seq::empty());
        },
        _ => {
            lemma_expression_progress(ts, p, 2);
        },
    }
}

pub proof fn lemma_array_items_progress(ts: Seq<Token>, p: int, acc: Seq<SpecExpr>)
    requires
        0 <= p <= ts.len(),
    ensures
        moves_forward(ts, p, spec_array_items(ts, p, acc), false),
    decreases ts.len() - p, 3nat,
{
    if token_at(ts, p) != Token::RBracket && token_at(ts, p) != Token::Eof {
        lemma_object_value_progress(ts, p);
        if let Ok((item, p2)) = spec_parse_object_value(ts, p) {
            let p3 = if token_at(ts, p2) == Token::Comma {
                p2 + 1
            } else {
                p2
            };
            if advanced(ts, p, p3) {
                lemma_array_items_progress(ts, p3, acc.push(item));
            }
        }
    }
}

pub proof fn lemma_give_fields_progress(ts: Seq<Token>, p: int, acc: Seq<crate::ast::SpecFieldExpr>)
    requires
        0 <= p <= ts.len(),
    ensures
        moves_forward(ts, p, spec_give_fields(ts, p, acc), true),
    decreases ts.len() - p,
{
    if let Ok((f, p2)) = spec_parse_field_expr(ts, p) {
        if token_at(ts, p2) == Token::Comma && advanced(ts, p, p2 + 1) {
            lemma_give_fields_progress(ts, p2 + 1, acc.push(f));
        }
    }
}

pub proof fn lemma_chain_op_progress(ts: Seq<Token>, p: int, st: ChainState)
    requires
        0 <= p <= ts.len(),
    ensures
        moves_forward(ts, p, spec_parse_chain_op(ts, p, st), true),
{
    if p < ts.len() {
        if let Ok(p1) = spec_expect(ts, p + 1, crate::token::Symbol::LParen) {
            lemma_expression_progress(ts, p1, 0);
            lemma_give_fields_progress(ts, p1, Seq::empty());
            lemma_object_progress(ts, p1);
        }
    }
}

pub proof fn lemma_chain_progress(ts: Seq<Token>, p: int, st: ChainState, acc: Seq<SpecChainOp>)
    requires
        0 <= p <= ts.len(),
    ensures
        moves_forward(ts, p, spec_chain(ts, p, st, acc), false),
    decreases ts.len() - p,
{
    if token_at(ts, p) == Token::Dot {
        lemma_chain_op_progress(ts, p + 1, st);
        if let Ok(((op, st2), p2)) = spec_parse_chain_op(ts, p + 1, st) {
            if !chain_ends(st2) && advanced(ts, p, p2) {
                lemma_chain_progress(ts, p2, st2, acc.push(op));
            }
        }
    }
}

pub proof fn lemma_query_progress(ts: Seq<Token>, p: int)
    requires
        0 <= p <= ts.len(),
    ensures
        moves_forward(ts, p, spec_parse_query(ts, p), true),
{
    if let Ok((_, p1)) = spec_expect_collection(ts, p) {
        lemma_chain_progress(ts, p1, ChainState::Start, Seq::empty());
    }
}

pub proof fn lemma_shot_queries_progress(ts: Seq<Token>, p: int, acc: Seq<SpecQuery>)
    requires
        0 <= p <= ts.len(),
    ensures
        moves_forward(ts, p, spec_shot_queries(ts, p, acc), false),
    decreases ts.len() - p,
{
    if token_at(ts, p) != Token::RBrace && token_at(ts, p) != Token::Eof {
        lemma_query_progress(ts, p);
        if let Ok((q, p2)) = spec_parse_query(ts, p) {
            if advanced(ts, p, p2) {
                lemma_shot_queries_progress(ts, p2, acc.push(q));
            }
        }
    }
}

pub proof fn lemma_constraints_progress(ts: Seq<Token>, p: int, acc: Seq<crate::token::Constraint>)
    requires
        0 <= p <= ts.len(),
    ensures
        p <= spec_constraints(ts, p, acc).1 <= ts.len(),
    decreases ts.len() - p,
{
    if let Token::Constraint(c) = token_at(ts, p) {
        lemma_constraints_progress(ts, p + 1, acc.push(c));
    }
}

pub proof fn lemma_schema_fields_progress(
    ts: Seq<Token>,
    p: int,
    acc: Seq<crate::ast::SpecSchemaField>,
)
    requires
        0 <= p <= ts.len(),
    ensures
        moves_forward(ts, p, spec_schema_fields(ts, p, acc), false),
    decreases ts.len() - p,
{
    if token_at(ts, p) != Token::RParen && token_at(ts, p) != Token::Eof {
        if let Ok((name, p1)) = spec_expect_identifier(ts, p) {
            if let Ok((data_type, p2)) = spec_expect_data_type(ts, p1) {
                lemma_constraints_progress(ts, p2, Seq::empty());
                let (constraints, p3) = spec_constraints(ts, p2, Seq::empty());
                let p4 = if token_at(ts, p3) == Token::Comma {
                    p3 + 1
                } else {
                    p3
                };
                let field = crate::ast::SpecSchemaField { name, data_type, constraints };
                if advanced(ts, p, p4) {
                    lemma_schema_fields_progress(ts, p4, acc.push(field));
                }
            }
        }
    }
}

pub proof fn lemma_statement_progress(ts: Seq<Token>, p: int)
    requires
        0 <= p <= ts.len(),
    ensures
        moves_forward(ts, p, spec_parse_statement(ts, p), true),
{
    if p < ts.len() {
        match token_at(ts, p) {
            Token::Shot => {
                if let Ok(p1) = spec_expect(ts, p + 1, crate::token::Symbol::LBrace) {
                    lemma_shot_queries_progress(ts, p1, Seq::empty());
                }
            },
            Token::Grind => {
                if let Ok((_, p1)) = spec_expect_collection(ts, p + 1) {
                    if p1 < ts.len() {
                        lemma_schema_fields_progress(ts, p1 + 1, Seq::empty());
                    }
                }
            },
            Token::Collection { .. } => {
                lemma_query_progress(ts, p);
            },
            _ => {},
        }
    }
}

pub proof fn lemma_statements_progress(ts: Seq<Token>, p: int, acc: Seq<SpecStatement>)
    requires
        0 <= p <= ts.len(),
    ensures
        spec_statements(ts, p, acc) matches Ok((_, q)) ==> p <= q <= ts.len() && token_at(ts, q)
            == Token::Eof,
    decreases ts.len() - p,
{
    if token_at(ts, p) != Token::Eof {
        lemma_statement_progress(ts, p);
        if let Ok((s, p2)) = spec_parse_statement(ts, p) {
            lemma_statements_progress(ts, p2, acc.push(s));
        }
    }
}

/// A stream that parses is read up to its end: the parse stops at the first
/// `Eof` token (or past the last token), having consumed input at every
/// statement, so the guards on the grammar's loops never cut a parse short.
pub proof fn law_parse_reads_to_end(ts: Seq<Token>)
    ensures
        spec_parse(ts) matches Ok((_, q)) ==> q <= ts.len() && token_at(ts, q) == Token::Eof,
{
    lemma_statements_progress(ts, 0, Seq::empty());
}

// ── Locality: a rule reads only the tokens it spans

/// The tokens of `ts1` at positions `lo..hi` equal those of `ts2` at the same
/// positions moved by `k` (either reads `Eof` past its ends).
pub open spec fn same_window(ts1: Seq<Token>, ts2: Seq<Token>, k: int, lo: int, hi: int) -> bool {
    forall|i: int| lo <= i < hi ==> #[trigger] token_at(ts1, i) == token_at(ts2, i + k)
}

/// A rule that gave `r1` on `ts1` from `p` gives the same value on `ts2` from
/// `p + k`, stopping `k` further on, when the two streams agree on the tokens
/// it spans and its end position (`inclusive`) or only those before its end.
pub open spec fn carries_over<T>(
    ts1: Seq<Token>,
    ts2: Seq<Token>,
    k: int,
    p: int,
    r1: SpecParse<T>,
    r2: SpecParse<T>,
    inclusive: bool,
) -> bool {
    match r1 {
        Ok((v, q)) => {
            let hi = if inclusive {
                q + 1
            } else {
                q
            };
            same_window(ts1, ts2, k, p, hi) && q + k <= ts2.len() ==> r2 == Ok::<
                (T, int),
                (SpecError, int),
            >((v, q + k))
        },
        Err(_) => true,
    }
}

pub proof fn lemma_frame_expression(ts1: Seq<Token>, ts2: Seq<Token>, k: int, p: int, min_prec: u8)
    requires
        0 <= p <= ts1.len(),
        0 <= k,
    ensures
        carries_over(
            ts1,
            ts2,
            k,
            p,
            spec_parse_expression(ts1, p, min_prec),
            spec_parse_expression(ts2, p + k, min_prec),
            true,
        ),
    decreases ts1.len() - p, 4nat,
{
    lemma_prefix_progress(ts1, p);
    lemma_frame_prefix(ts1, ts2, k, p);
    if let Ok((left, p1)) = spec_parse_prefix(ts1, p) {
        lemma_loop_progress(ts1, p1, left, min_prec);
        lemma_frame_loop(ts1, ts2, k, p1, left, min_prec);
    }
}

pub proof fn lemma_frame_loop(
    ts1: Seq<Token>,
    ts2: Seq<Token>,
    k: int,
    p: int,
    left: SpecExpr,
    min_prec: u8,
)
    requires
        0 <= p <= ts1.len(),
        0 <= k,
    ensures
        carries_over(
            ts1,
            ts2,
            k,
            p,
            spec_expression_loop(ts1, p, left, min_prec),
            spec_expression_loop(ts2, p + k, left, min_prec),
            true,
        ),
    decreases ts1.len() - p, 3nat,
{
    let prec = token_precedence(token_at(ts1, p));
    if prec > min_prec {
        lemma_infix_progress(ts1, p, left, prec);
        lemma_frame_infix(ts1, ts2, k, p, left, prec);
        if let Ok((next, p2)) = spec_parse_infix(ts1, p, left, prec) {
            lemma_loop_progress(ts1, p2, next, min_prec);
            lemma_frame_loop(ts1, ts2, k, p2, next, min_prec);
        }
    }
}

pub proof fn lemma_frame_infix(ts1: Seq<Token>, ts2: Seq<Token>, k: int, p: int, left: SpecExpr, prec: u8)
    requires
        0 <= p <= ts1.len(),
        0 <= k,
    ensures
        carries_over(
            ts1,
            ts2,
            k,
            p,
            spec_parse_infix(ts1, p, left, prec),
            spec_parse_infix(ts2, p + k, left, prec),
            true,
        ),
    decreases ts1.len() - p, 2nat,
{
    let t = token_at(ts1, p);
    lemma_infix_progress(ts1, p, left, prec);
    if t != Token::Eof && token_precedence(t) > 0 {
        lemma_frame_expression(ts1, ts2, k, p + 1, prec);
        lemma_frame_expression(ts1, ts2, k, p + 1, 1);
        lemma_frame_expression(ts1, ts2, k, p + 1, 2);
    }
}

pub proof fn lemma_frame_prefix(ts1: Seq<Token>, ts2: Seq<Token>, k: int, p: int)
    requires
        0 <= p <= ts1.len(),
        0 <= k,
    ensures
        carries_over(ts1, ts2, k, p, spec_parse_prefix(ts1, p), spec_parse_prefix(ts2, p + k), true),
    decreases ts1.len() - p, 1nat,
{
    lemma_prefix_progress(ts1, p);
    if p < ts1.len() {
        match token_at(ts1, p) {
            Token::Bang => {
                lemma_frame_expression(ts1, ts2, k, p + 1, 4);
            },
            Token::LParen => {
                lemma_expression_progress(ts1, p + 1, 0);
                lemma_frame_expression(ts1, ts2, k, p + 1, 0);
            },
            Token::Identifier(name) => {
                lemma_frame_identifier(ts1, ts2, k, p + 1, name@);
            },
            Token::FnUuid | Token::FnNow | Token::FnToday | Token::FnCount | Token::FnSum
            | Token::FnAvg | Token::FnMax | Token::FnMin => {
                lemma_frame_fn_call(ts1, ts2, k, p + 1, "uuid"@);
                lemma_frame_fn_call(ts1, ts2, k, p + 1, "now"@);
                lemma_frame_fn_call(ts1, ts2, k, p + 1, "today"@);
                lemma_frame_fn_call(ts1, ts2, k, p + 1, "COUNT"@);
                lemma_frame_fn_call(ts1, ts2, k, p + 1, "SUM"@);
                lemma_frame_fn_call(ts1, ts2, k, p + 1, "AVG"@);
                lemma_frame_fn_call(ts1, ts2, k, p + 1, "MAX"@);
                lemma_frame_fn_call(ts1, ts2, k, p + 1, "MIN"@);
            },
            _ => {},
        }
    }
}

pub proof fn lemma_frame_identifier(ts1: Seq<Token>, ts2: Seq<Token>, k: int, p: int, name: Seq<char>)
    requires
        0 <= p <= ts1.len(),
        0 <= k,
    ensures
        carries_over(
            ts1,
            ts2,
            k,
            p,
            spec_parse_identifier_expr(ts1, p, name),
            spec_parse_identifier_expr(ts2, p + k, name),
            true,
        ),
    decreases ts1.len() - p, 0nat,
{
    if token_at(ts1, p) == Token::Dot {
        let q = p + 1;
        if token_at(ts1, q) == Token::MethodHas {
            if let Ok(p1) = spec_expect(ts1, q + 1, crate::token::Symbol::LParen) {
                lemma_expression_progress(ts1, p1, 0);
                lemma_frame_expression(ts1, ts2, k, p1, 0);
            }
        }
    }
}

pub proof fn lemma_frame_fn_call(ts1: Seq<Token>, ts2: Seq<Token>, k: int, p: int, name: Seq<char>)
    requires
        0 <= p <= ts1.len(),
        0 <= k,
    ensures
        carries_over(
            ts1,
            ts2,
            k,
            p,
            spec_parse_fn_call(ts1, p, name),
            spec_parse_fn_call(ts2, p + k, name),
            true,
        ),
    decreases ts1.len() - p, 0nat,
{
    if let Ok(p1) = spec_expect(ts1, p, crate::token::Symbol::LParen) {
        lemma_fn_args_progress(ts1, p1, Seq::empty());
        lemma_frame_fn_args(ts1, ts2, k, p1, Seq::empty());
    }
}

pub proof fn lemma_frame_fn_args(ts1: Seq<Token>, ts2: Seq<Token>, k: int, p: int, acc: Seq<SpecExpr>)
    requires
        0 <= p <= ts1.len(),
        0 <= k,
    ensures
        carries_over(
            ts1,
            ts2,
            k,
            p,
            spec_fn_args(ts1, p, acc),
            spec_fn_args(ts2, p + k, acc),
            true,
        ),
    decreases ts1.len() - p, 5nat,
{
    if token_at(ts1, p) != Token::RParen && token_at(ts1, p) != Token::Eof {
        lemma_expression_progress(ts1, p, 0);
        lemma_frame_expression(ts1, ts2, k, p, 0);
        if let Ok((arg, p2)) = spec_parse_expression(ts1, p, 0) {
            let p3 = if token_at(ts1, p2) == Token::Comma {
                p2 + 1
            } else {
                p2
            };
            lemma_fn_args_progress(ts1, p3, acc.push(arg));
            lemma_frame_fn_args(ts1, ts2, k, p3, acc.push(arg));
        }
    }
}

pub proof fn lemma_frame_object(ts1: Seq<Token>, ts2: Seq<Token>, k: int, p: int)
    requires
        0 <= p <= ts1.len(),
        0 <= k,
    ensures
        carries_over(ts1, ts2, k, p, spec_parse_object(ts1, p), spec_parse_object(ts2, p + k), true),
    decreases ts1.len() - p, 1nat,
{
    lemma_object_progress(ts1, p);
    if let Ok(p1) = spec_expect(ts1, p, crate::token::Symbol::LBrace) {
        lemma_object_fields_progress(ts1, p1, Seq::empty());
        lemma_frame_object_fields(ts1, ts2, k, p1, Seq::empty());
    }
}

pub proof fn lemma_frame_object_fields(
    ts1: Seq<Token>,
    ts2: Seq<Token>,
    k: int,
    p: int,
    acc: Seq<(Seq<char>, SpecExpr)>,
)
    requires
        0 <= p <= ts1.len(),
        0 <= k,
    ensures
        carries_over(
            ts1,
            ts2,
            k,
            p,
            spec_object_fields(ts1, p, acc),
            spec_object_fields(ts2, p + k, acc),
            true,
        ),
    decreases ts1.len() - p, 3nat,
{
    lemma_object_fields_progress(ts1, p, acc);
    if token_at(ts1, p) != Token::RBrace && token_at(ts1, p) != Token::Eof {
        if let Ok((key, p1)) = spec_object_key(ts1, p) {
            if let Ok(p2) = spec_expect(ts1, p1, crate::token::Symbol::Colon) {
                lemma_object_value_progress(ts1, p2);
                lemma_frame_object_value(ts1, ts2, k, p2);
                if let Ok((value, p3)) = spec_parse_object_value(ts1, p2) {
                    let p4 = if token_at(ts1, p3) == Token::Comma {
                        p3 + 1
                    } else {
                        p3
                    };
                    lemma_object_fields_progress(ts1, p4, acc.push((key, value)));
                    lemma_frame_object_fields(ts1, ts2, k, p4, acc.push((key, value)));
                }
            }
        }
    }
}

pub proof fn lemma_frame_object_value(ts1: Seq<Token>, ts2: Seq<Token>, k: int, p: int)
    requires
        0 <= p <= ts1.len(),
        0 <= k,
    ensures
        carries_over(
            ts1,
            ts2,
            k,
            p,
            spec_parse_object_value(ts1, p),
            spec_parse_object_value(ts2, p + k),
            true,
        ),
    decreases ts1.len() - p, 2nat,
{
    lemma_object_value_progress(ts1, p);
    match token_at(ts1, p) {
        Token::LBrace => {
            lemma_frame_object(ts1, ts2, k, p);
        },
        Token::LBracket => {
            lemma_array_items_progress(ts1, p + 1, Seq::empty());
            lemma_frame_array_items(ts1, ts2, k, p + 1, Seq::empty());
        },
        _ => {
            lemma_frame_expression(ts1, ts2, k, p, 2);
        },
    }
}

pub proof fn lemma_frame_array_items(ts1: Seq<Token>, ts2: Seq<Token>, k: int, p: int, acc: Seq<SpecExpr>)
    requires
        0 <= p <= ts1.len(),
        0 <= k,
    ensures
        carries_over(
            ts1,
            ts2,
            k,
            p,
            spec_array_items(ts1, p, acc),
            spec_array_items(ts2, p + k, acc),
            true,
        ),
    decreases ts1.len() - p, 3nat,
{
    lemma_array_items_progress(ts1, p, acc);
    if token_at(ts1, p) != Token::RBracket && token_at(ts1, p) != Token::Eof {
        lemma_object_value_progress(ts1, p);
        lemma_frame_object_value(ts1, ts2, k, p);
        if let Ok((item, p2)) = spec_parse_object_value(ts1, p) {
            let p3 = if token_at(ts1, p2) == Token::Comma {
                p2 + 1
            } else {
                p2
            };
            lemma_array_items_progress(ts1, p3, acc.push(item));
            lemma_frame_array_items(ts1, ts2, k, p3, acc.push(item));
        }
    }
}

pub proof fn lemma_frame_field_expr(ts1: Seq<Token>, ts2: Seq<Token>, k: int, p: int)
    requires
        0 <= p <= ts1.len(),
        0 <= k,
    ensures
        carries_over(ts1, ts2, k, p, spec_parse_field_expr(ts1, p), spec_parse_field_expr(ts2, p + k), true),
{
}

pub proof fn lemma_frame_give_fields(
    ts1: Seq<Token>,
    ts2: Seq<Token>,
    k: int,
    p: int,
    acc: Seq<crate::ast::SpecFieldExpr>,
)
    requires
        0 <= p <= ts1.len(),
        0 <= k,
    ensures
        carries_over(
            ts1,
            ts2,
            k,
            p,
            spec_give_fields(ts1, p, acc),
            spec_give_fields(ts2, p + k, acc),
            true,
        ),
    decreases ts1.len() - p,
{
    lemma_give_fields_progress(ts1, p, acc);
    lemma_frame_field_expr(ts1, ts2, k, p);
    if let Ok((f, p2)) = spec_parse_field_expr(ts1, p) {
        if token_at(ts1, p2) == Token::Comma && advanced(ts1, p, p2 + 1) {
            lemma_give_fields_progress(ts1, p2 + 1, acc.push(f));
            lemma_frame_give_fields(ts1, ts2, k, p2 + 1, acc.push(f));
        }
    }
}

pub proof fn lemma_frame_where(ts1: Seq<Token>, ts2: Seq<Token>, k: int, p: int, st: ChainState)
    requires
        0 <= p < ts1.len(),
        0 <= k,
    ensures
        carries_over(ts1, ts2, k, p, spec_parse_where(ts1, p, st), spec_parse_where(ts2, p + k, st), false),
{
    if let Ok(p1) = spec_expect(ts1, p + 1, crate::token::Symbol::LParen) {
        lemma_expression_progress(ts1, p1, 0);
        lemma_frame_expression(ts1, ts2, k, p1, 0);
    }
}

pub proof fn lemma_frame_give(ts1: Seq<Token>, ts2: Seq<Token>, k: int, p: int, st: ChainState)
    requires
        0 <= p < ts1.len(),
        0 <= k,
    ensures
        carries_over(ts1, ts2, k, p, spec_parse_give(ts1, p, st), spec_parse_give(ts2, p + k, st), false),
{
    if let Ok(p1) = spec_expect(ts1, p + 1, crate::token::Symbol::LParen) {
        lemma_give_fields_progress(ts1, p1, Seq::empty());
        lemma_frame_give_fields(ts1, ts2, k, p1, Seq::empty());
    }
}

pub proof fn lemma_frame_sort(ts1: Seq<Token>, ts2: Seq<Token>, k: int, p: int, st: ChainState)
    requires
        0 <= p < ts1.len(),
        0 <= k,
    ensures
        carries_over(ts1, ts2, k, p, spec_parse_sort(ts1, p, st), spec_parse_sort(ts2, p + k, st), false),
{
}

pub proof fn lemma_frame_cup(ts1: Seq<Token>, ts2: Seq<Token>, k: int, p: int, st: ChainState)
    requires
        0 <= p < ts1.len(),
        0 <= k,
    ensures
        carries_over(ts1, ts2, k, p, spec_parse_cup(ts1, p, st), spec_parse_cup(ts2, p + k, st), false),
{
}

pub proof fn lemma_frame_blend(ts1: Seq<Token>, ts2: Seq<Token>, k: int, p: int, st: ChainState)
    requires
        0 <= p < ts1.len(),
        0 <= k,
    ensures
        carries_over(ts1, ts2, k, p, spec_parse_blend(ts1, p, st), spec_parse_blend(ts2, p + k, st), false),
{
}

#[verifier::rlimit(50)]
pub proof fn lemma_frame_mix(ts1: Seq<Token>, ts2: Seq<Token>, k: int, p: int, st: ChainState)
    requires
        0 <= p < ts1.len(),
        0 <= k,
    ensures
        carries_over(ts1, ts2, k, p, spec_parse_mix(ts1, p, st), spec_parse_mix(ts2, p + k, st), false),
{
}

pub proof fn lemma_frame_refill(ts1: Seq<Token>, ts2: Seq<Token>, k: int, p: int, st: ChainState)
    requires
        0 <= p < ts1.len(),
        0 <= k,
    ensures
        carries_over(ts1, ts2, k, p, spec_parse_refill(ts1, p, st), spec_parse_refill(ts2, p + k, st), false),
{
    lemma_frame_object_argument(ts1, ts2, k, p);
}

pub proof fn lemma_frame_object_argument(ts1: Seq<Token>, ts2: Seq<Token>, k: int, p: int)
    requires
        0 <= p < ts1.len(),
        0 <= k,
    ensures
        carries_over(ts1, ts2, k, p, spec_object_argument(ts1, p), spec_object_argument(ts2, p + k), false),
{
    if let Ok(p1) = spec_expect(ts1, p + 1, crate::token::Symbol::LParen) {
        lemma_object_progress(ts1, p1);
        lemma_frame_object(ts1, ts2, k, p1);
    }
}

/// Chain operations end with a consumed `)`, so they read only the tokens
/// before their end.
pub proof fn lemma_frame_chain_op(ts1: Seq<Token>, ts2: Seq<Token>, k: int, p: int, st: ChainState)
    requires
        0 <= p <= ts1.len(),
        0 <= k,
    ensures
        carries_over(
            ts1,
            ts2,
            k,
            p,
            spec_parse_chain_op(ts1, p, st),
            spec_parse_chain_op(ts2, p + k, st),
            false,
        ),
{
    lemma_chain_op_progress(ts1, p, st);
    if p < ts1.len() {
        match token_at(ts1, p) {
            Token::Where => lemma_frame_where(ts1, ts2, k, p, st),
            Token::Give => lemma_frame_give(ts1, ts2, k, p, st),
            Token::Sort => lemma_frame_sort(ts1, ts2, k, p, st),
            Token::Cup => lemma_frame_cup(ts1, ts2, k, p, st),
            Token::Blend => lemma_frame_blend(ts1, ts2, k, p, st),
            Token::Mix => lemma_frame_mix(ts1, ts2, k, p, st),
            Token::Pour => lemma_frame_object_argument(ts1, ts2, k, p),
            Token::Refill => lemma_frame_refill(ts1, ts2, k, p, st),
            _ => {},
        }
    }
}

/// Tokens after which no statement can continue: a statement stops before
/// any other token only when that token is none of these.
pub open spec fn stmt_boundary(t: Token) -> bool {
    t != Token::Dot && t != Token::LParen && t != Token::Flex
}

/// Like `carries_over`, for the statement-level rules, which may look at the
/// token at their end: it must be a boundary in `ts2` too.
pub open spec fn carries_over_to_boundary<T>(
    ts1: Seq<Token>,
    ts2: Seq<Token>,
    k: int,
    p: int,
    r1: SpecParse<T>,
    r2: SpecParse<T>,
) -> bool {
    match r1 {
        Ok((v, q)) => same_window(ts1, ts2, k, p, q) && q + k <= ts2.len() && stmt_boundary(
            token_at(ts2, q + k),
        ) ==> r2 == Ok::<(T, int), (SpecError, int)>((v, q + k)),
        Err(_) => true,
    }
}

pub proof fn lemma_frame_chain(ts1: Seq<Token>, ts2: Seq<Token>, k: int, p: int, st: ChainState, acc: Seq<SpecChainOp>)
    requires
        0 <= p <= ts1.len(),
        0 <= k,
    ensures
        carries_over_to_boundary(ts1, ts2, k, p, spec_chain(ts1, p, st, acc), spec_chain(ts2, p + k, st, acc)),
    decreases ts1.len() - p,
{
    lemma_chain_progress(ts1, p, st, acc);
    if token_at(ts1, p) == Token::Dot {
        lemma_chain_op_progress(ts1, p + 1, st);
        lemma_frame_chain_op(ts1, ts2, k, p + 1, st);
        if let Ok(((op, st2), p2)) = spec_parse_chain_op(ts1, p + 1, st) {
            if !chain_ends(st2) && advanced(ts1, p, p2) {
                lemma_chain_progress(ts1, p2, st2, acc.push(op));
                lemma_frame_chain(ts1, ts2, k, p2, st2, acc.push(op));
            }
        }
    }
}

pub proof fn lemma_frame_query(ts1: Seq<Token>, ts2: Seq<Token>, k: int, p: int)
    requires
        0 <= p <= ts1.len(),
        0 <= k,
    ensures
        carries_over_to_boundary(ts1, ts2, k, p, spec_parse_query(ts1, p), spec_parse_query(ts2, p + k)),
{
    lemma_query_progress(ts1, p);
    if let Ok((_, p1)) = spec_expect_collection(ts1, p) {
        lemma_frame_chain(ts1, ts2, k, p1, ChainState::Start, Seq::empty());
    }
}

pub proof fn lemma_frame_shot_queries(ts1: Seq<Token>, ts2: Seq<Token>, k: int, p: int, acc: Seq<SpecQuery>)
    requires
        0 <= p <= ts1.len(),
        0 <= k,
    ensures
        carries_over(
            ts1,
            ts2,
            k,
            p,
            spec_shot_queries(ts1, p, acc),
            spec_shot_queries(ts2, p + k, acc),
            true,
        ),
    decreases ts1.len() - p,
{
    lemma_shot_queries_progress(ts1, p, acc);
    if token_at(ts1, p) != Token::RBrace && token_at(ts1, p) != Token::Eof {
        lemma_query_progress(ts1, p);
        lemma_frame_query(ts1, ts2, k, p);
        if let Ok((q, p2)) = spec_parse_query(ts1, p) {
            lemma_shot_queries_progress(ts1, p2, acc.push(q));
            lemma_frame_shot_queries(ts1, ts2, k, p2, acc.push(q));
            if spec_shot_queries(ts1, p2, acc.push(q)) is Ok && token_at(ts1, p2) != Token::RBrace {
                lemma_query_progress(ts1, p2);
                assert(spec_parse_query(ts1, p2) is Ok);
                assert(token_at(ts1, p2) is Collection);
            }
        }
    }
}

pub proof fn lemma_frame_constraints(
    ts1: Seq<Token>,
    ts2: Seq<Token>,
    k: int,
    p: int,
    acc: Seq<crate::token::Constraint>,
)
    requires
        0 <= p <= ts1.len(),
        0 <= k,
    ensures
        same_window(ts1, ts2, k, p, spec_constraints(ts1, p, acc).1 + 1) ==> spec_constraints(
            ts2,
            p + k,
            acc,
        ) == (spec_constraints(ts1, p, acc).0, spec_constraints(ts1, p, acc).1 + k),
    decreases ts1.len() - p,
{
    lemma_constraints_progress(ts1, p, acc);
    if let Token::Constraint(c) = token_at(ts1, p) {
        lemma_constraints_progress(ts1, p + 1, acc.push(c));
        lemma_frame_constraints(ts1, ts2, k, p + 1, acc.push(c));
    }
}

pub proof fn lemma_frame_schema_fields(
    ts1: Seq<Token>,
    ts2: Seq<Token>,
    k: int,
    p: int,
    acc: Seq<crate::ast::SpecSchemaField>,
)
    requires
        0 <= p <= ts1.len(),
        0 <= k,
    ensures
        carries_over(
            ts1,
            ts2,
            k,
            p,
            spec_schema_fields(ts1, p, acc),
            spec_schema_fields(ts2, p + k, acc),
            true,
        ),
    decreases ts1.len() - p,
{
    lemma_schema_fields_progress(ts1, p, acc);
    if token_at(ts1, p) != Token::RParen && token_at(ts1, p) != Token::Eof {
        if let Ok((name, p1)) = spec_expect_identifier(ts1, p) {
            if let Ok((data_type, p2)) = spec_expect_data_type(ts1, p1) {
                lemma_constraints_progress(ts1, p2, Seq::empty());
                lemma_frame_constraints(ts1, ts2, k, p2, Seq::empty());
                let (constraints, p3) = spec_constraints(ts1, p2, Seq::empty());
                let p4 = if token_at(ts1, p3) == Token::Comma {
                    p3 + 1
                } else {
                    p3
                };
                let field = crate::ast::SpecSchemaField { name, data_type, constraints };
                lemma_schema_fields_progress(ts1, p4, acc.push(field));
                lemma_frame_schema_fields(ts1, ts2, k, p4, acc.push(field));
            }
        }
    }
}

pub proof fn lemma_frame_shot(ts1: Seq<Token>, ts2: Seq<Token>, k: int, p: int)
    requires
        0 <= p < ts1.len(),
        0 <= k,
    ensures
        carries_over(ts1, ts2, k, p, spec_parse_shot(ts1, p), spec_parse_shot(ts2, p + k), false),
{
    if let Ok(p1) = spec_expect(ts1, p + 1, crate::token::Symbol::LBrace) {
        lemma_shot_queries_progress(ts1, p1, Seq::empty());
        lemma_frame_shot_queries(ts1, ts2, k, p1, Seq::empty());
    }
}

pub proof fn lemma_frame_grind(ts1: Seq<Token>, ts2: Seq<Token>, k: int, p: int)
    requires
        0 <= p < ts1.len(),
        0 <= k,
    ensures
        carries_over_to_boundary(ts1, ts2, k, p, spec_parse_grind(ts1, p), spec_parse_grind(ts2, p + k)),
{
    if let Ok((_, p1)) = spec_expect_collection(ts1, p + 1) {
        if p1 < ts1.len() {
            lemma_schema_fields_progress(ts1, p1 + 1, Seq::empty());
            lemma_frame_schema_fields(ts1, ts2, k, p1 + 1, Seq::empty());
        }
    }
}

pub proof fn lemma_frame_menu(ts1: Seq<Token>, ts2: Seq<Token>, k: int, p: int)
    requires
        0 <= p < ts1.len(),
        0 <= k,
    ensures
        carries_over(ts1, ts2, k, p, spec_parse_menu(ts1, p), spec_parse_menu(ts2, p + k), false),
{
}

pub proof fn lemma_frame_statement(ts1: Seq<Token>, ts2: Seq<Token>, k: int, p: int)
    requires
        0 <= p <= ts1.len(),
        0 <= k,
    ensures
        carries_over_to_boundary(ts1, ts2, k, p, spec_parse_statement(ts1, p), spec_parse_statement(ts2, p + k)),
{
    lemma_statement_progress(ts1, p);
    if p < ts1.len() {
        match token_at(ts1, p) {
            Token::Shot => lemma_frame_shot(ts1, ts2, k, p),
            Token::Grind => lemma_frame_grind(ts1, ts2, k, p),
            Token::Menu => lemma_frame_menu(ts1, ts2, k, p),
            Token::Collection { .. } => lemma_frame_query(ts1, ts2, k, p),
            _ => {},
        }
    }
}

/// A statement that parses starts with one of the four statement keywords,
/// none of which a statement can continue with.
pub proof fn lemma_statement_start(ts: Seq<Token>, p: int)
    ensures
        spec_parse_statement(ts, p) is Ok ==> stmt_boundary(token_at(ts, p)) && token_at(ts, p)
            != Token::Eof,
{
}

pub proof fn lemma_frame_statements(ts1: Seq<Token>, ts2: Seq<Token>, k: int, p: int, acc: Seq<SpecStatement>)
    requires
        0 <= p <= ts1.len(),
        0 <= k,
    ensures
        match spec_statements(ts1, p, acc) {
            Ok((xs, q)) => same_window(ts1, ts2, k, p, q) && q + k <= ts2.len() && stmt_boundary(
                token_at(ts2, q + k),
            ) ==> spec_statements(ts2, p + k, acc) == spec_statements(ts2, q + k, xs),
            Err(_) => true,
        },
    decreases ts1.len() - p,
{
    lemma_statements_progress(ts1, p, acc);
    if token_at(ts1, p) != Token::Eof {
        lemma_statement_progress(ts1, p);
        if let Ok((s, p2)) = spec_parse_statement(ts1, p) {
            lemma_statements_progress(ts1, p2, acc.push(s));
            lemma_frame_statements(ts1, ts2, k, p2, acc.push(s));
            if let Ok((xs, q)) = spec_statements(ts1, p, acc) {
                if same_window(ts1, ts2, k, p, q) && q + k <= ts2.len() && stmt_boundary(
                    token_at(ts2, q + k),
                ) {
                    assert(token_at(ts1, p) == token_at(ts2, p + k));
                    if p2 < q {
                        lemma_statement_start(ts1, p2);
                        assert(token_at(ts1, p2) == token_at(ts2, p2 + k));
                    }
                    lemma_frame_statement(ts1, ts2, k, p);
                    assert(same_window(ts1, ts2, k, p2, q));
                }
            }
        }
    }
}

/// The statements already collected only stand in front of those parsed on.
pub proof fn lemma_statements_acc(ts: Seq<Token>, p: int, pre: Seq<SpecStatement>, acc: Seq<SpecStatement>)
    requires
        0 <= p <= ts.len(),
    ensures
        spec_statements(ts, p, acc) matches Ok((ys, q)) ==> spec_statements(ts, p, pre + acc) == Ok::<
            (Seq<SpecStatement>, int),
            (SpecError, int),
        >((pre + ys, q)),
    decreases ts.len() - p,
{
    lemma_statements_progress(ts, p, acc);
    if token_at(ts, p) != Token::Eof {
        lemma_statement_progress(ts, p);
        if let Ok((s, p2)) = spec_parse_statement(ts, p) {
            assert((pre + acc).push(s) == pre + acc.push(s));
            lemma_statements_acc(ts, p2, pre, acc.push(s));
        }
    }
}

/// A token stream with no `Eof` token in it (the end is read as `Eof`).
pub open spec fn no_eof(ts: Seq<Token>) -> bool {
    forall|i: int| 0 <= i < ts.len() ==> ts[i] != Token::Eof
}

/// A stream with no `Eof` token that parses is read to its last token.
pub proof fn lemma_parse_ends_at_len(ts: Seq<Token>)
    requires
        no_eof(ts),
    ensures
        spec_parse(ts) matches Ok((_, q)) ==> q == ts.len(),
{
    lemma_statements_progress(ts, 0, Seq::empty());
    if let Ok((_, q)) = spec_parse(ts) {
        if q < ts.len() {
            assert(ts[q] != Token::Eof);
        }
    }
}

/// Joining `b` behind `a` leaves the parse of `a` in place, up to `a`'s end.
pub proof fn lemma_concat_front(a: Seq<Token>, b: Seq<Token>)
    requires
        no_eof(a),
        no_eof(b),
        spec_parse(a) is Ok,
        spec_parse(b) is Ok,
    ensures
        spec_parse(a + b) == spec_statements(a + b, a.len() as int, spec_parse(a)->Ok_0.0),
{
    let ab = a + b;
    lemma_parse_ends_at_len(a);
    assert forall|i: int| 0 <= i < a.len() implies #[trigger] token_at(a, i) == token_at(ab, i + 0) by {
        assert(ab[i] == a[i]);
    }
    if b.len() > 0 {
        assert(token_at(ab, a.len() as int) == b[0]);
        assert(token_at(b, 0) != Token::Eof);
        lemma_statement_start(b, 0);
    }
    lemma_frame_statements(a, ab, 0, 0, Seq::empty());
}

/// The parse of `b`, read behind `a` and behind the statements `x`, gives
/// `x` followed by `b`'s statements, up to the joined stream's end.
pub proof fn lemma_concat_back(a: Seq<Token>, b: Seq<Token>, x: Seq<SpecStatement>)
    requires
        no_eof(b),
        spec_parse(b) is Ok,
    ensures
        spec_statements(a + b, a.len() as int, x) == Ok::<(Seq<SpecStatement>, int), (SpecError, int)>(
            (x + spec_parse(b)->Ok_0.0, (a.len() + b.len()) as int),
        ),
{
    let ab = a + b;
    lemma_parse_ends_at_len(b);
    lemma_statements_acc(b, 0, x, Seq::empty());
    assert(x + Seq::<SpecStatement>::empty() == x);
    assert forall|i: int| 0 <= i < b.len() implies #[trigger] token_at(b, i) == token_at(ab, i + a.len()) by {
        assert(ab[i + a.len()] == b[i]);
    }
    lemma_frame_statements(b, ab, a.len() as int, 0, x);
    assert(token_at(ab, ab.len() as int) == Token::Eof);
}

/// Statements are parsed independently and kept in source order: two token
/// streams (with no `Eof` token of their own) that each parse give, once
/// joined, the first stream's statements followed by the second's, and the
/// parse stops at the end of the joined stream.
pub proof fn law_concatenated_streams_parse_in_order(a: Seq<Token>, b: Seq<Token>)
    requires
        no_eof(a),
        no_eof(b),
    ensures
        match (spec_parse(a), spec_parse(b)) {
            (Ok((x, _)), Ok((y, _))) => spec_parse(a + b) == Ok::<
                (Seq<SpecStatement>, int),
                (SpecError, int),
            >((x + y, (a.len() + b.len()) as int)),
            _ => true,
        },
{
    if spec_parse(a) is Ok && spec_parse(b) is Ok {
        lemma_concat_front(a, b);
        lemma_concat_back(a, b, spec_parse(a)->Ok_0.0);
    }
}

// ── What each keyword or operator token stands for

/// `e` is a binary node with left operand `left` and operator `op`.
pub open spec fn binary_with(e: SpecExpr, left: SpecExpr, op: BinaryOp) -> bool {
    e matches SpecExpr::Binary { left: l, op: o, .. } && *l == left && o == op
}

/// A comparison `left OP right` builds a binary node on `left` whose operator
/// is the one the token names: `=` Eq, `!=` NotEq, `>` Gt, `<` Lt, `>=` Gte,
/// `<=` Lte. Distinct operator tokens thus give distinct operators.
pub proof fn law_comparison_keeps_its_operator(ts: Seq<Token>, p: int, left: SpecExpr, prec: u8)
    ensures
        match spec_parse_infix(ts, p, left, prec) {
            Ok((e, _)) => match token_at(ts, p) {
                Token::Eq => binary_with(e, left, BinaryOp::Eq),
                Token::NotEq => binary_with(e, left, BinaryOp::NotEq),
                Token::Gt => binary_with(e, left, BinaryOp::Gt),
                Token::Lt => binary_with(e, left, BinaryOp::Lt),
                Token::Gte => binary_with(e, left, BinaryOp::Gte),
                Token::Lte => binary_with(e, left, BinaryOp::Lte),
                _ => true,
            },
            Err(_) => true,
        },
{
}

/// `.sort(field, DIR)` sorts in the direction its direction token names:
/// the token just before the closing `)` is `ASC` for `Asc` and `DESC` for
/// `Desc`.
pub proof fn law_sort_keeps_its_direction(ts: Seq<Token>, p: int, st: ChainState)
    ensures
        match spec_parse_sort(ts, p, st) {
            Ok(((op, _), q)) => token_at(ts, q - 1) == Token::RParen && match op {
                SpecChainOp::Sort { direction, .. } => (token_at(ts, q - 2) == Token::Asc
                    && direction == SortDir::Asc) || (token_at(ts, q - 2) == Token::Desc
                    && direction == SortDir::Desc),
                _ => false,
            },
            Err(_) => true,
        },
{
}

/// An aggregate field `FUNC(f) as a` computes the function its token names:
/// `COUNT` Count, `SUM` Sum, `AVG` Avg, `MAX` Max, `MIN` Min.
pub proof fn law_aggregate_keeps_its_function(ts: Seq<Token>, p: int)
    ensures
        match spec_parse_field_expr(ts, p) {
            Ok((f, _)) => match token_at(ts, p) {
                Token::FnCount => f matches SpecFieldExpr::Aggregate { func: AggFunc::Count, .. },
                Token::FnSum => f matches SpecFieldExpr::Aggregate { func: AggFunc::Sum, .. },
                Token::FnAvg => f matches SpecFieldExpr::Aggregate { func: AggFunc::Avg, .. },
                Token::FnMax => f matches SpecFieldExpr::Aggregate { func: AggFunc::Max, .. },
                Token::FnMin => f matches SpecFieldExpr::Aggregate { func: AggFunc::Min, .. },
                _ => true,
            },
            Err(_) => true,
        },
{
}

/// `.mix(coll ON a = b)` joins exactly the collection written after `mix(`:
/// the node carries that token's name and kind.
pub proof fn law_mix_keeps_its_collection(ts: Seq<Token>, p: int, st: ChainState)
    ensures
        match spec_parse_mix(ts, p, st) {
            Ok(((op, _), _)) => match (op, token_at(ts, p + 2)) {
                (SpecChainOp::Mix { collection, kind, .. }, Token::Collection { name, kind: k }) =>
                    collection == name@ && kind == k,
                _ => false,
            },
            Err(_) => true,
        },
{
}

/// `grind coll ...` defines exactly the collection written after `grind`: the
/// statement carries that token's name and kind.
pub proof fn law_grind_keeps_its_collection(ts: Seq<Token>, p: int)
    ensures
        match spec_parse_grind(ts, p) {
            Ok((s, _)) => match (s, token_at(ts, p + 1)) {
                (SpecStatement::Grind { collection, kind, .. }, Token::Collection { name, kind: k }) =>
                    collection == name@ && kind == k,
                _ => false,
            },
            Err(_) => true,
        },
{
}

/// The order a chain's methods may come in: which method each state admits.
/// `where` after nothing or a mix; `give` after nothing, a where, a blend or
/// a mix; `sort` after a where or a give; `cup` after nothing, a where, a
/// give, a sort or a blend; `blend` and `mix` after nothing or a where;
/// `refill` only after a where.
pub proof fn law_chain_order_table(st: ChainState, m: ChainMethod)
    ensures
        chain_permits(st, m) <==> match m {
            ChainMethod::Where => st is Start || st is AfterMix,
            ChainMethod::Give => st is Start || st is AfterWhere || st is AfterBlend || st is AfterMix,
            ChainMethod::Sort => st is AfterWhere || st is AfterGive,
            ChainMethod::Cup => st is Start || st is AfterWhere || st is AfterGive || st is AfterSort
                || st is AfterBlend,
            ChainMethod::Blend => st is Start || st is AfterWhere,
            ChainMethod::Mix => st is Start || st is AfterWhere,
            ChainMethod::Refill => st is AfterWhere,
        },
{
}

/// A chain method builds the operation its keyword names and moves the chain
/// to the state after it: `where` to AfterWhere, ..., `spill` to Done.
pub proof fn law_chain_op_follows_its_keyword(ts: Seq<Token>, p: int, st: ChainState)
    ensures
        match spec_parse_chain_op(ts, p, st) {
            Ok(((op, st2), _)) => match token_at(ts, p) {
                Token::Where => op is Where && st2 is AfterWhere,
                Token::Give => op is Give && st2 is AfterGive,
                Token::Sort => op is Sort && st2 is AfterSort,
                Token::Cup => op is Cup && st2 is AfterCup,
                Token::Blend => op is Blend && st2 is AfterBlend,
                Token::Mix => op is Mix && st2 is AfterMix,
                Token::Pour => op is Pour && st2 is AfterPour,
                Token::Refill => op is Refill && st2 is AfterRefill,
                Token::Spill => op is Spill && st2 is Done,
                _ => false,
            },
            Err(_) => true,
        },
{
}

/// A statement is the kind its first keyword names: `shot`, `grind`, `menu`,
/// or a query for a collection token.
pub proof fn law_statement_follows_its_keyword(ts: Seq<Token>, p: int)
    ensures
        match spec_parse_statement(ts, p) {
            Ok((s, _)) => match token_at(ts, p) {
                Token::Shot => s is Shot,
                Token::Grind => s is Grind,
                Token::Menu => s is Menu,
                Token::Collection { .. } => s is Query,
                _ => false,
            },
            Err(_) => true,
        },
{
}

/// A query reads the collection its first token names.
pub proof fn law_query_keeps_its_collection(ts: Seq<Token>, p: int)
    ensures
        match spec_parse_query(ts, p) {
            Ok((q, _)) => match token_at(ts, p) {
                Token::Collection { name, kind } => q.collection == name@ && q.kind == kind,
                _ => false,
            },
            Err(_) => true,
        },
{
}

/// `.cup(n)` keeps the integer written in it, which is positive.
pub proof fn law_cup_keeps_its_limit(ts: Seq<Token>, p: int, st: ChainState)
    ensures
        match spec_parse_cup(ts, p, st) {
            Ok(((op, _), _)) => match (op, token_at(ts, p + 2)) {
                (SpecChainOp::Cup { limit }, Token::Int(n)) => n > 0 && limit == n,
                _ => false,
            },
            Err(_) => true,
        },
{
}

/// `.blend(f)` keeps the field written in it.
pub proof fn law_blend_keeps_its_field(ts: Seq<Token>, p: int, st: ChainState)
    ensures
        match spec_parse_blend(ts, p, st) {
            Ok(((op, _), _)) => match (op, token_at(ts, p + 2)) {
                (SpecChainOp::Blend { field }, Token::Identifier(f)) => field == f@,
                _ => false,
            },
            Err(_) => true,
        },
{
}

/// The name a field path starts with: an identifier or a collection.
pub open spec fn path_base(t: Token) -> Option<Seq<char>> {
    match t {
        Token::Identifier(s) => Some(s@),
        Token::Collection { name, .. } => Some(name@),
        _ => None,
    }
}

/// Whether `text` is the field path written from position `i` up to `j`:
/// `base` alone, or `base.field` (joined with a dot).
pub open spec fn path_written(ts: Seq<Token>, i: int, j: int, text: Seq<char>) -> bool {
    match path_base(token_at(ts, i)) {
        Some(b) => if token_at(ts, i + 1) == Token::Dot {
            j == i + 3 && match token_at(ts, i + 2) {
                Token::Identifier(f) => text == b + "."@ + f@,
                _ => false,
            }
        } else {
            j == i + 1 && text == b
        },
        None => false,
    }
}

/// `.sort(f, DIR)` sorts by the field path written before the comma.
pub proof fn law_sort_keeps_its_field(ts: Seq<Token>, p: int, st: ChainState)
    ensures
        match spec_parse_sort(ts, p, st) {
            Ok(((SpecChainOp::Sort { field, .. }, _), q)) => path_written(ts, p + 2, q - 3, field)
                && token_at(ts, q - 3) == Token::Comma,
            Ok(_) => false,
            Err(_) => true,
        },
{
}

/// `.mix(coll ON a = b)` joins on the path written before `=` on the left
/// and the one written after it on the right, in that order.
pub proof fn law_mix_keeps_its_join_fields(ts: Seq<Token>, p: int, st: ChainState)
    ensures
        match spec_parse_mix(ts, p, st) {
            Ok(((SpecChainOp::Mix { left_field, right_field, .. }, _), q)) => exists|e: int|
                #![trigger token_at(ts, e)]
                path_written(ts, p + 4, e, left_field) && token_at(ts, e) == Token::Eq
                    && path_written(ts, e + 1, q - 1, right_field),
            Ok(_) => false,
            Err(_) => true,
        },
{
    if let Ok(((SpecChainOp::Mix { left_field, right_field, .. }, _), q)) = spec_parse_mix(ts, p, st) {
        let e = if token_at(ts, p + 5) == Token::Dot {
            p + 7
        } else {
            p + 5
        };
        assert(token_at(ts, e) == Token::Eq);
    }
}

/// `grind ... FLEX` is flexible exactly when it ends with the `FLEX` keyword.
pub proof fn law_grind_flex_is_written(ts: Seq<Token>, p: int)
    ensures
        match spec_parse_grind(ts, p) {
            Ok((SpecStatement::Grind { flex, .. }, q)) => flex == (token_at(ts, q - 1) == Token::Flex),
            Ok(_) => false,
            Err(_) => true,
        },
{
}

/// `menu()` lists every collection and `menu(coll)` the one written.
pub proof fn law_menu_keeps_its_collection(ts: Seq<Token>, p: int)
    ensures
        match spec_parse_menu(ts, p) {
            Ok((SpecStatement::Menu { collection }, _)) => match token_at(ts, p + 2) {
                Token::RParen => collection is None,
                Token::Collection { name, kind } => collection == Some((name@, kind)),
                _ => false,
            },
            Ok(_) => false,
            Err(_) => true,
        },
{
}

/// A `.give()` field is what its tokens write: `name` a plain field,
/// `name.sub` a nested one, `users[].sub` a field of a structured
/// collection, `orders{}.sub` one of an unstructured collection, a bare
/// collection a plain field of that name, and `*` the wildcard.
pub proof fn law_field_follows_its_tokens(ts: Seq<Token>, p: int)
    ensures
        match spec_parse_field_expr(ts, p) {
            Ok((f, _)) => match token_at(ts, p) {
                Token::Wildcard => f is Wildcard,
                Token::Identifier(n) => if token_at(ts, p + 1) == Token::Dot {
                    match token_at(ts, p + 2) {
                        Token::Identifier(sub) => f == SpecFieldExpr::Nested(seq![n@, sub@]),
                        _ => false,
                    }
                } else {
                    f == SpecFieldExpr::Simple(n@)
                },
                Token::Collection { name, kind } => if token_at(ts, p + 1) == Token::Dot {
                    match (token_at(ts, p + 2), kind) {
                        (Token::Identifier(sub), CollectionKind::Structured) => f
                            == SpecFieldExpr::CrossStructured(name@, sub@),
                        (Token::Identifier(sub), CollectionKind::Unstructured) => f
                            == SpecFieldExpr::CrossUnstructured(name@, sub@),
                        _ => false,
                    }
                } else {
                    f == SpecFieldExpr::Simple(name@)
                },
                _ => f is Aggregate,
            },
            Err(_) => true,
        },
{
}

/// A literal token gives the value it carries, `!` a negation, and a
/// function keyword a call of the function it names.
pub proof fn law_prefix_follows_its_token(ts: Seq<Token>, p: int)
    ensures
        match spec_parse_prefix(ts, p) {
            Ok((e, _)) => match token_at(ts, p) {
                Token::Int(n) => e == SpecExpr::Int(n),
                Token::Float(f) => e == SpecExpr::Float(f),
                Token::Bool(b) => e == SpecExpr::Bool(b),
                Token::Null => e is Null,
                Token::Text(s) => e == SpecExpr::Text(s@),
                Token::Wildcard => e is Wildcard,
                Token::Bang => e is Not,
                Token::FnUuid => e matches SpecExpr::FnCall { name, .. } && name == "uuid"@,
                Token::FnNow => e matches SpecExpr::FnCall { name, .. } && name == "now"@,
                Token::FnToday => e matches SpecExpr::FnCall { name, .. } && name == "today"@,
                Token::FnCount => e matches SpecExpr::FnCall { name, .. } && name == "COUNT"@,
                Token::FnSum => e matches SpecExpr::FnCall { name, .. } && name == "SUM"@,
                Token::FnAvg => e matches SpecExpr::FnCall { name, .. } && name == "AVG"@,
                Token::FnMax => e matches SpecExpr::FnCall { name, .. } && name == "MAX"@,
                Token::FnMin => e matches SpecExpr::FnCall { name, .. } && name == "MIN"@,
                _ => true,
            },
            Err(_) => true,
        },
{
}

/// `,` joins conditions with AND, `|` with OR, and a trailing `exists`
/// tests a field's presence.
pub proof fn law_connectives_keep_their_meaning(ts: Seq<Token>, p: int, left: SpecExpr, prec: u8)
    ensures
        match spec_parse_infix(ts, p, left, prec) {
            Ok((e, _)) => match token_at(ts, p) {
                Token::Comma => e is And,
                Token::Pipe => e is Or,
                Token::Exists => e is Exists,
                _ => true,
            },
            Err(_) => true,
        },
{
}

/// The number a numeric literal token writes.
pub open spec fn number_written(t: Token) -> Option<Number> {
    match t {
        Token::Int(n) => Some(Number::Int(n)),
        Token::Float(f) => Some(Number::Float(f)),
        _ => None,
    }
}

/// `field.near(lat, lon, distance)` keeps the field and its three arguments,
/// in the order written.
pub proof fn law_near_keeps_its_arguments(ts: Seq<Token>, p: int, name: Seq<char>)
    ensures
        match spec_near(ts, p, name) {
            Ok((e, _)) => match (number_written(token_at(ts, p + 2)), number_written(token_at(ts, p + 4)), token_at(ts, p + 6)) {
                (Some(lat), Some(lon), Token::Distance(distance)) => e == SpecExpr::Near {
                    field: name,
                    lat,
                    lon,
                    distance,
                },
                _ => false,
            },
            Err(_) => true,
        },
{
}

/// `field.like("q")` keeps the field and the query text; its threshold is
/// the number in a following `.threshold(t)`, and 0.8 without one.
pub proof fn law_like_keeps_its_arguments(ts: Seq<Token>, p: int, name: Seq<char>)
    ensures
        match spec_like(ts, p, name) {
            Ok((SpecExpr::Like { field, query, threshold }, _)) => field == name && match token_at(ts, p + 2) {
                Token::Text(s) => query == s@,
                _ => false,
            } && if token_at(ts, p + 4) == Token::Dot && token_at(ts, p + 5) == Token::MethodThreshold {
                number_written(token_at(ts, p + 7)) == Some(threshold)
            } else {
                threshold == Number::Float(0x3FE9_9999_9999_999A)
            },
            Ok(_) => false,
            Err(_) => true,
        },
{
}

/// `field.last(duration)` keeps the field and the duration written.
pub proof fn law_last_keeps_its_duration(ts: Seq<Token>, p: int, name: Seq<char>)
    ensures
        match spec_last(ts, p, name) {
            Ok((e, _)) => match token_at(ts, p + 2) {
                Token::Duration(duration) => e == SpecExpr::Last { field: name, duration },
                _ => false,
            },
            Err(_) => true,
        },
{
}

/// After an identifier `name`: a plain field unless a `.` follows; then
/// `name.sub` a nested field, and `.near`, `.like`, `.has`, `.last` the
/// method on the field `name`.
pub proof fn law_identifier_expr_follows_its_tokens(ts: Seq<Token>, p: int, name: Seq<char>)
    ensures
        match spec_parse_identifier_expr(ts, p, name) {
            Ok((e, _)) => if token_at(ts, p) != Token::Dot {
                e == SpecExpr::Field(name)
            } else {
                match token_at(ts, p + 1) {
                    Token::Identifier(sub) => e == SpecExpr::NestedField(seq![name, sub@]),
                    Token::MethodNear => e matches SpecExpr::Near { field, .. } && field == name,
                    Token::MethodLike => e matches SpecExpr::Like { field, .. } && field == name,
                    Token::MethodHas => e matches SpecExpr::Has { field, .. } && field == name,
                    Token::MethodLast => e matches SpecExpr::Last { field, .. } && field == name,
                    _ => e == SpecExpr::Field(name),
                }
            },
            Err(_) => true,
        },
{
}

/// Binding strength, loosest first: `|` (1), `,` (2), comparisons and
/// `exists` (3); every other token ends an expression (0). Unary `!` binds
/// at 4.
pub proof fn law_precedence_table(t: Token)
    ensures
        token_precedence(t) == match t {
            Token::Pipe => 1u8,
            Token::Comma => 2u8,
            Token::Eq | Token::NotEq | Token::Gt | Token::Lt | Token::Gte | Token::Lte | Token::Exists => 3u8,
            _ => 0u8,
        },
        precedence_level(Precedence::Lowest) == 0,
        precedence_level(Precedence::Or) == 1,
        precedence_level(Precedence::And) == 2,
        precedence_level(Precedence::Comparison) == 3,
        precedence_level(Precedence::Unary) == 4,
        precedence_level(Precedence::Call) == 5,
{
}

/// A value in an object is what its first token writes: a literal its
/// value, `uuid()`/`now()`/`today()` a call without arguments, `{` a nested
/// object and `[` an array.
pub proof fn law_object_value_follows_its_token(ts: Seq<Token>, p: int)
    ensures
        match spec_parse_object_value(ts, p) {
            Ok((e, _)) => match token_at(ts, p) {
                Token::Text(s) => e == SpecExpr::Text(s@),
                Token::Int(n) => e == SpecExpr::Int(n),
                Token::Float(f) => e == SpecExpr::Float(f),
                Token::Bool(b) => e == SpecExpr::Bool(b),
                Token::Null => e is Null,
                Token::FnUuid => e == SpecExpr::FnCall { name: "uuid"@, args: Seq::empty() },
                Token::FnNow => e == SpecExpr::FnCall { name: "now"@, args: Seq::empty() },
                Token::FnToday => e == SpecExpr::FnCall { name: "today"@, args: Seq::empty() },
                Token::LBrace => e matches SpecExpr::FnCall { name, .. } && name == "__object__"@,
                Token::LBracket => e matches SpecExpr::FnCall { name, .. } && name == "__array__"@,
                _ => true,
            },
            Err(_) => true,
        },
{
}

/// Constraint tokens are collected in the order written, up to the first
/// token that is not one.
pub proof fn law_constraints_in_order(ts: Seq<Token>, p: int, acc: Seq<Constraint>)
    requires
        0 <= p <= ts.len(),
    ensures
        ({
            let (cs, q) = spec_constraints(ts, p, acc);
            &&& p <= q
            &&& cs.len() == acc.len() + (q - p)
            &&& cs.subrange(0, acc.len() as int) == acc
            &&& forall|i: int| 0 <= i < q - p ==> #[trigger] token_at(ts, p + i) == Token::Constraint(cs[acc.len() + i])
            &&& !(token_at(ts, q) is Constraint)
        }),
    decreases ts.len() - p,
{
    lemma_constraints_progress(ts, p, acc);
    if let Token::Constraint(c) = token_at(ts, p) {
        law_constraints_in_order(ts, p + 1, acc.push(c));
        let (cs, q) = spec_constraints(ts, p, acc);
        assert(cs.subrange(0, acc.len() as int) =~= acc) by {
            assert(cs.subrange(0, acc.len() + 1 as int) == acc.push(c));
            assert forall|i: int| 0 <= i < acc.len() implies cs[i] == acc[i] by {
                assert(cs.subrange(0, acc.len() + 1 as int)[i] == acc.push(c)[i]);
            }
        }
        assert forall|i: int| 0 <= i < q - p implies #[trigger] token_at(ts, p + i) == Token::Constraint(
            cs[acc.len() + i],
        ) by {
            if i == 0 {
                assert(cs.subrange(0, acc.len() + 1 as int)[acc.len() as int] == acc.push(c)[acc.len() as int]);
            } else {
                assert(token_at(ts, (p + 1) + (i - 1)) == Token::Constraint(cs[acc.push(c).len() + (i - 1)]));
            }
        }
    }
}

/// Schema fields are collected behind those already read, in order.
pub proof fn lemma_schema_fields_keep_prefix(ts: Seq<Token>, p: int, acc: Seq<crate::ast::SpecSchemaField>)
    ensures
        spec_schema_fields(ts, p, acc) matches Ok((fs, _)) ==> acc.len() <= fs.len() && fs.subrange(
            0,
            acc.len() as int,
        ) == acc,
    decreases ts.len() - p,
{
    if token_at(ts, p) != Token::RParen && token_at(ts, p) != Token::Eof {
        if let Ok((name, p1)) = spec_expect_identifier(ts, p) {
            if let Ok((data_type, p2)) = spec_expect_data_type(ts, p1) {
                let (constraints, p3) = spec_constraints(ts, p2, Seq::empty());
                let p4 = if token_at(ts, p3) == Token::Comma {
                    p3 + 1
                } else {
                    p3
                };
                let field = crate::ast::SpecSchemaField { name, data_type, constraints };
                if advanced(ts, p, p4) {
                    lemma_schema_fields_keep_prefix(ts, p4, acc.push(field));
                }
                if let Ok((fs, _)) = spec_schema_fields(ts, p, acc) {
                    if advanced(ts, p, p4) {
                        assert forall|i: int| 0 <= i < acc.len() implies fs[i] == acc[i] by {
                            assert(fs.subrange(0, acc.len() + 1 as int)[i] == acc.push(field)[i]);
                        }
                    }
                    assert(fs.subrange(0, acc.len() as int) =~= acc);
                }
            }
        }
    }
}

/// A schema field `name TYPE CONSTRAINT...` keeps the name, the data type
/// and the constraints written, in order.
pub proof fn law_schema_field_follows_its_tokens(ts: Seq<Token>, p: int, acc: Seq<crate::ast::SpecSchemaField>)
    requires
        0 <= p <= ts.len(),
    ensures
        match spec_schema_fields(ts, p, acc) {
            Ok((fs, _)) => token_at(ts, p) != Token::RParen && token_at(ts, p) != Token::Eof ==> {
                &&& acc.len() < fs.len()
                &&& match (token_at(ts, p), token_at(ts, p + 1)) {
                    (Token::Identifier(n), Token::DataType(dt)) => {
                        let f = fs[acc.len() as int];
                        &&& f.name == n@
                        &&& f.data_type == dt
                        &&& forall|i: int| 0 <= i < f.constraints.len() ==> #[trigger] token_at(ts, p + 2 + i)
                            == Token::Constraint(f.constraints[i])
                        &&& !(token_at(ts, p + 2 + f.constraints.len()) is Constraint)
                    },
                    _ => false,
                }
            },
            Err(_) => true,
        },
{
    if token_at(ts, p) != Token::RParen && token_at(ts, p) != Token::Eof {
        if let Ok((name, p1)) = spec_expect_identifier(ts, p) {
            if let Ok((data_type, p2)) = spec_expect_data_type(ts, p1) {
                lemma_constraints_progress(ts, p2, Seq::empty());
                law_constraints_in_order(ts, p2, Seq::empty());
                let (constraints, p3) = spec_constraints(ts, p2, Seq::empty());
                let p4 = if token_at(ts, p3) == Token::Comma {
                    p3 + 1
                } else {
                    p3
                };
                let field = crate::ast::SpecSchemaField { name, data_type, constraints };
                if advanced(ts, p, p4) {
                    lemma_schema_fields_keep_prefix(ts, p4, acc.push(field));
                }
                if let Ok((fs, _)) = spec_schema_fields(ts, p, acc) {
                    if advanced(ts, p, p4) {
                        assert(fs.subrange(0, acc.len() + 1 as int)[acc.len() as int] == field);
                    }
                    assert(fs[acc.len() as int] == field);
                    assert forall|i: int| 0 <= i < constraints.len() implies #[trigger] token_at(ts, p + 2 + i)
                        == Token::Constraint(constraints[i]) by {
                        assert(token_at(ts, p2 + i) == Token::Constraint(constraints[0 + i]));
                    }
                }
            }
        }
    }
}

/// `field exists` tests the field it follows: a plain field by its name, a
/// nested one by its dotted path.
pub proof fn law_exists_keeps_its_field(ts: Seq<Token>, p: int, left: SpecExpr, prec: u8)
    ensures
        match spec_parse_infix(ts, p, left, prec) {
            Ok((e, _)) => token_at(ts, p) == Token::Exists ==> match left {
                SpecExpr::Field(name) => e == SpecExpr::Exists { field: name },
                SpecExpr::NestedField(parts) => parts.len() == 2 ==> e == SpecExpr::Exists {
                    field: parts[0] + seq!['.'] + parts[1],
                },
                _ => e is Exists,
            },
            Err(_) => true,
        },
{
    if token_at(ts, p) == Token::Exists {
        if let SpecExpr::NestedField(parts) = left {
            if parts.len() == 2 {
                assert(parts.subrange(0, 1).len() == 1);
                assert(parts.subrange(0, 1)[0] == parts[0]);
                assert(crate::pratt::join_dot(parts.subrange(0, 1)) == parts[0]);
                assert(crate::pratt::join_dot(parts) == parts[0] + seq!['.'] + parts[1]);
            }
        }
    }
}

/// Each field of an object is read behind those before it: its key is the
/// identifier or string written first.
pub proof fn law_object_key_is_written(ts: Seq<Token>, p: int, acc: Seq<(Seq<char>, SpecExpr)>)
    ensures
        match spec_object_fields(ts, p, acc) {
            Ok((fs, _)) => token_at(ts, p) != Token::RBrace && token_at(ts, p) != Token::Eof ==> acc.len()
                < fs.len() && match token_at(ts, p) {
                Token::Identifier(k) => fs[acc.len() as int].0 == k@,
                Token::Text(k) => fs[acc.len() as int].0 == k@,
                _ => false,
            },
            Err(_) => true,
        },
{
    if token_at(ts, p) != Token::RBrace && token_at(ts, p) != Token::Eof {
        if let Ok((key, p1)) = spec_object_key(ts, p) {
            if let Ok(p2) = spec_expect(ts, p1, crate::token::Symbol::Colon) {
                if let Ok((value, p3)) = spec_parse_object_value(ts, p2) {
                    let p4 = if token_at(ts, p3) == Token::Comma {
                        p3 + 1
                    } else {
                        p3
                    };
                    if advanced(ts, p, p4) {
                        lemma_object_fields_keep_prefix(ts, p4, acc.push((key, value)));
                        if let Ok((fs, _)) = spec_object_fields(ts, p, acc) {
                            assert(fs.subrange(0, acc.len() + 1 as int)[acc.len() as int] == acc.push(
                                (key, value),
                            )[acc.len() as int]);
                        }
                    }
                }
            }
        }
    }
}

/// Object fields are collected behind those already read, in order.
pub proof fn lemma_object_fields_keep_prefix(ts: Seq<Token>, p: int, acc: Seq<(Seq<char>, SpecExpr)>)
    ensures
        spec_object_fields(ts, p, acc) matches Ok((fs, _)) ==> acc.len() <= fs.len() && fs.subrange(
            0,
            acc.len() as int,
        ) == acc,
    decreases ts.len() - p,
{
    if token_at(ts, p) != Token::RBrace && token_at(ts, p) != Token::Eof {
        if let Ok((key, p1)) = spec_object_key(ts, p) {
            if let Ok(p2) = spec_expect(ts, p1, crate::token::Symbol::Colon) {
                if let Ok((value, p3)) = spec_parse_object_value(ts, p2) {
                    let p4 = if token_at(ts, p3) == Token::Comma {
                        p3 + 1
                    } else {
                        p3
                    };
                    if advanced(ts, p, p4) {
                        lemma_object_fields_keep_prefix(ts, p4, acc.push((key, value)));
                        if let Ok((fs, _)) = spec_object_fields(ts, p, acc) {
                            assert forall|i: int| 0 <= i < acc.len() implies fs[i] == acc[i] by {
                                assert(fs.subrange(0, acc.len() + 1 as int)[i] == acc.push((key, value))[i]);
                            }
                        }
                    }
                    if let Ok((fs, _)) = spec_object_fields(ts, p, acc) {
                        assert(fs.subrange(0, acc.len() as int) =~= acc);
                    }
                }
            }
        }
    }
}

} // verus!
