//! Recursive descent parser: statements, query chains, shot, grind and menu.
//!
//! As in `pratt`, the grammar is stated as spec functions over a token
//! sequence and a position (`spec_parse_*`, `spec_*`), and each executable
//! rule is proved to compute exactly what its spec function says, the
//! position where it stops included.

use vstd::prelude::*;
use crate::ast::{
    chain_view, exprs_view, field_exprs_view, lemma_exprs_view_push, object_view, queries_view,
    schema_view, statements_view, strings_view, AggFunc, BlendNode, ChainOp, CupNode, Expression,
    FieldExpr, GiveNode, GrindNode, MenuNode, MixNode, ObjectExpr, PourNode, QueryNode,
    RefillNode, SchemaField, ShotNode, SortNode, SpecChainOp, SpecExpr, SpecFieldExpr, SpecQuery,
    SpecSchemaField, SpecStatement, Statement, WhereNode,
};
use crate::error::{ParseError, SpecError};
use crate::laws::{lemma_query_in_order, lemma_statements_in_order, query_in_order, statement_in_order};
use crate::pratt::{
    advanced, precedence_level, result_view, spec_expect, spec_parse_expression, unexpected,
    unit_result_view, Precedence, PrattParser, SpecParse,
};
use crate::token::{
    is_symbol, str_equal, symbol_token, to_uppercase, token_at, token_debug, token_debug_text,
    uppercase_text, CollectionKind, Constraint, DataType, SortDir, Symbol, Token,
};

verus! {

/// Chain state machine: where a query's chain stands after the operations
/// read so far.
#[derive(Debug, Clone, Copy, PartialEq, Eq, Structural)]
pub enum ChainState {
    Start,
    AfterWhere,
    AfterMix,
    AfterBlend,
    AfterGive,
    AfterSort,
    AfterCup,
    AfterPour,
    AfterRefill,
    Done,
}

/// The chain methods whose place in the chain is checked.
#[derive(Debug, Clone, Copy, PartialEq, Eq, Structural)]
pub enum ChainMethod {
    Where,
    Give,
    Sort,
    Cup,
    Blend,
    Mix,
    Refill,
}

/// Whether method `m` may come in state `st`.
pub open spec fn chain_permits(st: ChainState, m: ChainMethod) -> bool {
    match m {
        ChainMethod::Where => st == ChainState::Start || st == ChainState::AfterMix,
        ChainMethod::Give => st == ChainState::Start || st == ChainState::AfterWhere || st
            == ChainState::AfterBlend || st == ChainState::AfterMix,
        ChainMethod::Sort => st == ChainState::AfterWhere || st == ChainState::AfterGive,
        ChainMethod::Cup => st == ChainState::Start || st == ChainState::AfterWhere || st
            == ChainState::AfterGive || st == ChainState::AfterSort || st == ChainState::AfterBlend,
        ChainMethod::Blend => st == ChainState::AfterWhere || st == ChainState::Start,
        ChainMethod::Mix => st == ChainState::Start || st == ChainState::AfterWhere,
        ChainMethod::Refill => st == ChainState::AfterWhere,
    }
}

pub open spec fn method_name(m: ChainMethod) -> Seq<char> {
    match m {
        ChainMethod::Where => "where"@,
        ChainMethod::Give => "give"@,
        ChainMethod::Sort => "sort"@,
        ChainMethod::Cup => "cup"@,
        ChainMethod::Blend => "blend"@,
        ChainMethod::Mix => "mix"@,
        ChainMethod::Refill => "refill"@,
    }
}

/// The name of a state, as `{:?}` writes it.
pub open spec fn state_name(st: ChainState) -> Seq<char> {
    match st {
        ChainState::Start => "Start"@,
        ChainState::AfterWhere => "AfterWhere"@,
        ChainState::AfterMix => "AfterMix"@,
        ChainState::AfterBlend => "AfterBlend"@,
        ChainState::AfterGive => "AfterGive"@,
        ChainState::AfterSort => "AfterSort"@,
        ChainState::AfterCup => "AfterCup"@,
        ChainState::AfterPour => "AfterPour"@,
        ChainState::AfterRefill => "AfterRefill"@,
        ChainState::Done => "Done"@,
    }
}

/// The error for method `m` in state `st`.
pub open spec fn wrong_order(m: ChainMethod, st: ChainState) -> SpecError {
    SpecError::WrongChainOrder {
        found: method_name(m),
        after: state_name(st),
        hint: "."@ + method_name(m) + "() is not valid after "@ + state_name(st),
    }
}

// ── Terminals

/// An expression read by the Pratt parser from position `p`; on failure
/// the position stays at `p`.
pub open spec fn spec_pratt_expression(ts: Seq<Token>, p: int, min_prec: u8) -> SpecParse<SpecExpr> {
    match spec_parse_expression(ts, p, min_prec) {
        Err((e, _)) => Err((e, p)),
        Ok(r) => Ok(r),
    }
}

pub open spec fn spec_expect_collection(ts: Seq<Token>, p: int) -> SpecParse<(Seq<char>, CollectionKind)> {
    match token_at(ts, p) {
        Token::Collection { name, kind } => Ok(((name@, kind), p + 1)),
        other => Err((unexpected("collection (e.g. users[] or products{})"@, other), p)),
    }
}

pub open spec fn spec_expect_identifier(ts: Seq<Token>, p: int) -> SpecParse<Seq<char>> {
    match token_at(ts, p) {
        Token::Identifier(s) => Ok((s@, p + 1)),
        other => Err((unexpected("identifier"@, other), p)),
    }
}

/// `name` or `name.field`, where `name` is an identifier or a collection.
pub open spec fn spec_expect_dot_field(ts: Seq<Token>, p: int) -> SpecParse<Seq<char>> {
    let base = match token_at(ts, p) {
        Token::Identifier(s) => Some(s@),
        Token::Collection { name, .. } => Some(name@),
        _ => None,
    };
    match base {
        None => Err((unexpected("identifier or collection"@, token_at(ts, p)), p)),
        Some(b) => if token_at(ts, p + 1) == Token::Dot {
            match spec_expect_identifier(ts, p + 2) {
                Err(e) => Err(e),
                Ok((f, p3)) => Ok((b + "."@ + f, p3)),
            }
        } else {
            Ok((b, p + 1))
        },
    }
}

pub open spec fn spec_expect_data_type(ts: Seq<Token>, p: int) -> SpecParse<DataType> {
    match token_at(ts, p) {
        Token::DataType(dt) => Ok((dt, p + 1)),
        other => Err(
            (
                unexpected(
                    "data type (UUID, TEXT, INT, FLOAT, BOOL, DATETIME, GEOPOINT, VECTOR)"@,
                    other,
                ),
                p,
            ),
        ),
    }
}

/// The constraints that follow, none or more; this never fails.
pub open spec fn spec_constraints(ts: Seq<Token>, p: int, acc: Seq<Constraint>) -> (Seq<Constraint>, int)
    decreases ts.len() - p,
{
    match token_at(ts, p) {
        Token::Constraint(c) => spec_constraints(ts, p + 1, acc.push(c)),
        _ => (acc, p),
    }
}

// ── Objects: { key: value, ... }

pub open spec fn spec_object_key(ts: Seq<Token>, p: int) -> SpecParse<Seq<char>> {
    match token_at(ts, p) {
        Token::Identifier(s) => Ok((s@, p + 1)),
        Token::Text(s) => Ok((s@, p + 1)),
        other => Err((unexpected("field key (identifier or string)"@, other), p)),
    }
}

/// `name()` for the built-ins without arguments in object values; `p`
/// stands at the function token.
pub open spec fn spec_builtin_call(ts: Seq<Token>, p: int, name: Seq<char>) -> SpecParse<SpecExpr> {
    match spec_expect(ts, p + 1, Symbol::LParen) {
        Err(e) => Err(e),
        Ok(p1) => match spec_expect(ts, p1, Symbol::RParen) {
            Err(e) => Err(e),
            Ok(p2) => Ok((SpecExpr::FnCall { name, args: Seq::empty() }, p2)),
        },
    }
}

/// The values of an object's fields, in order.
pub open spec fn object_values(fields: Seq<(Seq<char>, SpecExpr)>) -> Seq<SpecExpr> {
    fields.map_values(|kv: (Seq<char>, SpecExpr)| kv.1)
}

pub open spec fn spec_parse_object(ts: Seq<Token>, p: int) -> SpecParse<Seq<(Seq<char>, SpecExpr)>>
    decreases ts.len() - p, 1nat,
{
    match spec_expect(ts, p, Symbol::LBrace) {
        Err(e) => Err(e),
        Ok(p1) => match spec_object_fields(ts, p1, Seq::empty()) {
            Err(e) => Err(e),
            Ok((fields, p2)) => match spec_expect(ts, p2, Symbol::RBrace) {
                Err(e) => Err(e),
                Ok(p3) => Ok((fields, p3)),
            },
        },
    }
}

/// Fields up to `}` or the end, each optionally followed by `,`.
pub open spec fn spec_object_fields(ts: Seq<Token>, p: int, acc: Seq<(Seq<char>, SpecExpr)>) -> SpecParse<
    Seq<(Seq<char>, SpecExpr)>,
>
    decreases ts.len() - p, 3nat,
{
    if token_at(ts, p) == Token::RBrace || token_at(ts, p) == Token::Eof {
        Ok((acc, p))
    } else {
        match spec_object_key(ts, p) {
            Err(e) => Err(e),
            Ok((key, p1)) => match spec_expect(ts, p1, Symbol::Colon) {
                Err(e) => Err(e),
                Ok(p2) => match spec_parse_object_value(ts, p2) {
                    Err(e) => Err(e),
                    Ok((value, p3)) => {
                        let p4 = if token_at(ts, p3) == Token::Comma {
                            p3 + 1
                        } else {
                            p3
                        };
                        if advanced(ts, p, p4) {
                            spec_object_fields(ts, p4, acc.push((key, value)))
                        } else {
                            Ok((acc.push((key, value)), p4))
                        }
                    },
                },
            },
        }
    }
}

pub open spec fn spec_parse_object_value(ts: Seq<Token>, p: int) -> SpecParse<SpecExpr>
    decreases ts.len() - p, 2nat,
{
    match token_at(ts, p) {
        Token::LBrace => match spec_parse_object(ts, p) {
            Err(e) => Err(e),
            Ok((fields, p2)) => Ok(
                (SpecExpr::FnCall { name: "__object__"@, args: object_values(fields) }, p2),
            ),
        },
        Token::LBracket => match spec_array_items(ts, p + 1, Seq::empty()) {
            Err(e) => Err(e),
            Ok((items, p2)) => Ok(
                (
                    SpecExpr::FnCall { name: "__array__"@, args: items },
                    if token_at(ts, p2) == Token::RBracket {
                        p2 + 1
                    } else {
                        p2
                    },
                ),
            ),
        },
        Token::Text(s) => Ok((SpecExpr::Text(s@), p + 1)),
        Token::Int(n) => Ok((SpecExpr::Int(n), p + 1)),
        Token::Float(f) => Ok((SpecExpr::Float(f), p + 1)),
        Token::Bool(b) => Ok((SpecExpr::Bool(b), p + 1)),
        Token::Null => Ok((SpecExpr::Null, p + 1)),
        Token::FnUuid => spec_builtin_call(ts, p, "uuid"@),
        Token::FnNow => spec_builtin_call(ts, p, "now"@),
        Token::FnToday => spec_builtin_call(ts, p, "today"@),
        _ => spec_pratt_expression(ts, p, precedence_level(Precedence::And)),
    }
}

/// Array items up to `]` or the end, each optionally followed by `,`.
pub open spec fn spec_array_items(ts: Seq<Token>, p: int, acc: Seq<SpecExpr>) -> SpecParse<Seq<SpecExpr>>
    decreases ts.len() - p, 3nat,
{
    if token_at(ts, p) == Token::RBracket || token_at(ts, p) == Token::Eof {
        Ok((acc, p))
    } else {
        match spec_parse_object_value(ts, p) {
            Err(e) => Err(e),
            Ok((item, p2)) => {
                let p3 = if token_at(ts, p2) == Token::Comma {
                    p2 + 1
                } else {
                    p2
                };
                if advanced(ts, p, p3) {
                    spec_array_items(ts, p3, acc.push(item))
                } else {
                    Ok((acc.push(item), p3))
                }
            },
        }
    }
}

// ── Field expressions in .give()

pub open spec fn aggregate_of(t: Token) -> Option<AggFunc> {
    match t {
        Token::FnCount => Some(AggFunc::Count),
        Token::FnSum => Some(AggFunc::Sum),
        Token::FnAvg => Some(AggFunc::Avg),
        Token::FnMax => Some(AggFunc::Max),
        Token::FnMin => Some(AggFunc::Min),
        _ => None,
    }
}

/// The optional field inside `COUNT(..)`: present unless `)` follows.
pub open spec fn spec_aggregate_field(ts: Seq<Token>, p: int) -> SpecParse<Option<Seq<char>>> {
    if token_at(ts, p) != Token::RParen {
        match spec_expect_identifier(ts, p) {
            Err(e) => Err(e),
            Ok((f, p2)) => Ok((Some(f), p2)),
        }
    } else {
        Ok((None, p))
    }
}

/// `FUNC(field) as alias`, `p` at the function token.
pub open spec fn spec_parse_aggregate(ts: Seq<Token>, p: int, func: AggFunc) -> SpecParse<SpecFieldExpr> {
    match spec_expect(ts, p + 1, Symbol::LParen) {
        Err(e) => Err(e),
        Ok(p1) => match spec_aggregate_field(ts, p1) {
            Err(e) => Err(e),
            Ok((field, p2)) => match spec_expect(ts, p2, Symbol::RParen) {
                Err(e) => Err(e),
                Ok(p3) => match spec_expect(ts, p3, Symbol::As) {
                    Err(e) => Err(e),
                    Ok(p4) => match spec_expect_identifier(ts, p4) {
                        Err(e) => Err(e),
                        Ok((alias, p5)) => Ok((SpecFieldExpr::Aggregate { func, field, alias }, p5)),
                    },
                },
            },
        },
    }
}

/// A field of another collection: `users[].name` or `orders{}.total`.
pub open spec fn cross_field(collection: Seq<char>, kind: CollectionKind, field: Seq<char>) -> SpecFieldExpr {
    match kind {
        CollectionKind::Structured => SpecFieldExpr::CrossStructured(collection, field),
        CollectionKind::Unstructured => SpecFieldExpr::CrossUnstructured(collection, field),
    }
}

pub open spec fn spec_parse_field_expr(ts: Seq<Token>, p: int) -> SpecParse<SpecFieldExpr> {
    if token_at(ts, p) == Token::Wildcard {
        Ok((SpecFieldExpr::Wildcard, p + 1))
    } else {
        match aggregate_of(token_at(ts, p)) {
            Some(func) => spec_parse_aggregate(ts, p, func),
            None => match token_at(ts, p) {
                // name or name.sub
                Token::Identifier(n) => if token_at(ts, p + 1) == Token::Dot {
                    match spec_expect_identifier(ts, p + 2) {
                        Err(e) => Err(e),
                        Ok((sub, p3)) => Ok((SpecFieldExpr::Nested(seq![n@, sub]), p3)),
                    }
                } else {
                    Ok((SpecFieldExpr::Simple(n@), p + 1))
                },
                // users[] or users[].name (orders{}.total for an unstructured one)
                Token::Collection { name, kind } => if token_at(ts, p + 1) == Token::Dot {
                    match spec_expect_identifier(ts, p + 2) {
                        Err(e) => Err(e),
                        Ok((sub, p3)) => Ok((cross_field(name@, kind, sub), p3)),
                    }
                } else {
                    Ok((SpecFieldExpr::Simple(name@), p + 1))
                },
                other => Err((unexpected("field name"@, other), p)),
            },
        }
    }
}

/// Field expressions separated by `,`.
pub open spec fn spec_give_fields(ts: Seq<Token>, p: int, acc: Seq<SpecFieldExpr>) -> SpecParse<Seq<SpecFieldExpr>>
    decreases ts.len() - p,
{
    match spec_parse_field_expr(ts, p) {
        Err(e) => Err(e),
        Ok((f, p2)) => if token_at(ts, p2) != Token::Comma {
            Ok((acc.push(f), p2))
        } else if advanced(ts, p, p2 + 1) {
            spec_give_fields(ts, p2 + 1, acc.push(f))
        } else {
            Ok((acc.push(f), p2 + 1))
        },
    }
}

// ── Chain operations (p stands at the method token)

pub open spec fn spec_parse_where(ts: Seq<Token>, p: int, st: ChainState) -> SpecParse<(SpecChainOp, ChainState)> {
    if !chain_permits(st, ChainMethod::Where) {
        Err((wrong_order(ChainMethod::Where, st), p))
    } else {
        match spec_expect(ts, p + 1, Symbol::LParen) {
            Err(e) => Err(e),
            Ok(p1) => match spec_pratt_expression(ts, p1, 0) {
                Err(e) => Err(e),
                Ok((condition, p2)) => match spec_expect(ts, p2, Symbol::RParen) {
                    Err(e) => Err(e),
                    Ok(p3) => Ok(((SpecChainOp::Where { condition }, ChainState::AfterWhere), p3)),
                },
            },
        }
    }
}

pub open spec fn spec_parse_give(ts: Seq<Token>, p: int, st: ChainState) -> SpecParse<(SpecChainOp, ChainState)> {
    if !chain_permits(st, ChainMethod::Give) {
        Err((wrong_order(ChainMethod::Give, st), p))
    } else {
        match spec_expect(ts, p + 1, Symbol::LParen) {
            Err(e) => Err(e),
            Ok(p1) => match spec_give_fields(ts, p1, Seq::empty()) {
                Err(e) => Err(e),
                Ok((fields, p2)) => match spec_expect(ts, p2, Symbol::RParen) {
                    Err(e) => Err(e),
                    Ok(p3) => Ok(((SpecChainOp::Give { fields }, ChainState::AfterGive), p3)),
                },
            },
        }
    }
}

pub open spec fn spec_sort_direction(ts: Seq<Token>, p: int) -> SpecParse<SortDir> {
    match token_at(ts, p) {
        Token::Asc => Ok((SortDir::Asc, p + 1)),
        Token::Desc => Ok((SortDir::Desc, p + 1)),
        other => Err((SpecError::InvalidSortDir { got: token_debug_text(other) }, p)),
    }
}

pub open spec fn spec_parse_sort(ts: Seq<Token>, p: int, st: ChainState) -> SpecParse<(SpecChainOp, ChainState)> {
    if !chain_permits(st, ChainMethod::Sort) {
        Err((wrong_order(ChainMethod::Sort, st), p))
    } else {
        match spec_expect(ts, p + 1, Symbol::LParen) {
            Err(e) => Err(e),
            Ok(p1) => match spec_expect_dot_field(ts, p1) {
                Err(e) => Err(e),
                Ok((field, p2)) => match spec_expect(ts, p2, Symbol::Comma) {
                    Err(e) => Err(e),
                    Ok(p3) => match spec_sort_direction(ts, p3) {
                        Err(e) => Err(e),
                        Ok((direction, p4)) => match spec_expect(ts, p4, Symbol::RParen) {
                            Err(e) => Err(e),
                            Ok(p5) => Ok(
                                ((SpecChainOp::Sort { field, direction }, ChainState::AfterSort), p5),
                            ),
                        },
                    },
                },
            },
        }
    }
}

/// The limit of `.cup(n)`: a positive integer token.
pub open spec fn spec_cup_limit(ts: Seq<Token>, p: int) -> SpecParse<u64> {
    match token_at(ts, p) {
        Token::Int(n) => if n > 0 {
            Ok((n as u64, p + 1))
        } else {
            Err((SpecError::InvalidCupLimit { got: token_debug_text(token_at(ts, p)) }, p))
        },
        other => Err((SpecError::InvalidCupLimit { got: token_debug_text(other) }, p)),
    }
}

pub open spec fn spec_parse_cup(ts: Seq<Token>, p: int, st: ChainState) -> SpecParse<(SpecChainOp, ChainState)> {
    if !chain_permits(st, ChainMethod::Cup) {
        Err((wrong_order(ChainMethod::Cup, st), p))
    } else {
        match spec_expect(ts, p + 1, Symbol::LParen) {
            Err(e) => Err(e),
            Ok(p1) => match spec_cup_limit(ts, p1) {
                Err(e) => Err(e),
                Ok((limit, p2)) => match spec_expect(ts, p2, Symbol::RParen) {
                    Err(e) => Err(e),
                    Ok(p3) => Ok(((SpecChainOp::Cup { limit }, ChainState::AfterCup), p3)),
                },
            },
        }
    }
}

pub open spec fn spec_parse_blend(ts: Seq<Token>, p: int, st: ChainState) -> SpecParse<(SpecChainOp, ChainState)> {
    if !chain_permits(st, ChainMethod::Blend) {
        Err((wrong_order(ChainMethod::Blend, st), p))
    } else {
        match spec_expect(ts, p + 1, Symbol::LParen) {
            Err(e) => Err(e),
            Ok(p1) => match spec_expect_identifier(ts, p1) {
                Err(e) => Err(e),
                Ok((field, p2)) => match spec_expect(ts, p2, Symbol::RParen) {
                    Err(e) => Err(e),
                    Ok(p3) => Ok(((SpecChainOp::Blend { field }, ChainState::AfterBlend), p3)),
                },
            },
        }
    }
}

/// The `ON` of `.mix()`: the keyword, or an identifier that upper-cases to `ON`.
pub open spec fn spec_expect_on(ts: Seq<Token>, p: int) -> Result<int, (SpecError, int)> {
    match token_at(ts, p) {
        Token::On => Ok(p + 1),
        Token::Identifier(s) => if uppercase_text(s@) == "ON"@ {
            Ok(p + 1)
        } else {
            Err((unexpected("ON"@, token_at(ts, p)), p))
        },
        other => Err((unexpected("ON"@, other), p)),
    }
}

pub open spec fn spec_parse_mix(ts: Seq<Token>, p: int, st: ChainState) -> SpecParse<(SpecChainOp, ChainState)> {
    if !chain_permits(st, ChainMethod::Mix) {
        Err((wrong_order(ChainMethod::Mix, st), p))
    } else {
        match spec_expect(ts, p + 1, Symbol::LParen) {
            Err(e) => Err(e),
            Ok(p1) => match spec_expect_collection(ts, p1) {
                Err(e) => Err(e),
                Ok(((collection, kind), p2)) => match spec_expect_on(ts, p2) {
                    Err(e) => Err(e),
                    Ok(p3) => match spec_expect_dot_field(ts, p3) {
                        Err(e) => Err(e),
                        Ok((left_field, p4)) => match spec_expect(ts, p4, Symbol::Eq) {
                            Err(e) => Err(e),
                            Ok(p5) => match spec_expect_dot_field(ts, p5) {
                                Err(e) => Err(e),
                                Ok((right_field, p6)) => match spec_expect(ts, p6, Symbol::RParen) {
                                    Err(e) => Err(e),
                                    Ok(p7) => Ok(
                                        (
                                            (
                                                SpecChainOp::Mix {
                                                    collection,
                                                    kind,
                                                    left_field,
                                                    right_field,
                                                },
                                                ChainState::AfterMix,
                                            ),
                                            p7,
                                        ),
                                    ),
                                },
                            },
                        },
                    },
                },
            },
        }
    }
}

/// `(object)` after `.pour` or `.refill`, `p` at the method token.
pub open spec fn spec_object_argument(ts: Seq<Token>, p: int) -> SpecParse<Seq<(Seq<char>, SpecExpr)>> {
    match spec_expect(ts, p + 1, Symbol::LParen) {
        Err(e) => Err(e),
        Ok(p1) => match spec_parse_object(ts, p1) {
            Err(e) => Err(e),
            Ok((data, p2)) => match spec_expect(ts, p2, Symbol::RParen) {
                Err(e) => Err(e),
                Ok(p3) => Ok((data, p3)),
            },
        },
    }
}

/// `.pour(..)` is accepted in every state.
pub open spec fn spec_parse_pour(ts: Seq<Token>, p: int) -> SpecParse<(SpecChainOp, ChainState)> {
    match spec_object_argument(ts, p) {
        Err(e) => Err(e),
        Ok((data, p2)) => Ok(((SpecChainOp::Pour { data }, ChainState::AfterPour), p2)),
    }
}

pub open spec fn spec_parse_refill(ts: Seq<Token>, p: int, st: ChainState) -> SpecParse<(SpecChainOp, ChainState)> {
    if !chain_permits(st, ChainMethod::Refill) {
        Err((wrong_order(ChainMethod::Refill, st), p))
    } else {
        match spec_object_argument(ts, p) {
            Err(e) => Err(e),
            Ok((data, p2)) => Ok(((SpecChainOp::Refill { data }, ChainState::AfterRefill), p2)),
        }
    }
}

/// `.spill()` is accepted in every state and ends the chain.
pub open spec fn spec_parse_spill(ts: Seq<Token>, p: int) -> SpecParse<(SpecChainOp, ChainState)> {
    match spec_expect(ts, p + 1, Symbol::LParen) {
        Err(e) => Err(e),
        Ok(p1) => match spec_expect(ts, p1, Symbol::RParen) {
            Err(e) => Err(e),
            Ok(p2) => Ok(((SpecChainOp::Spill, ChainState::Done), p2)),
        },
    }
}

/// One chain operation after a `.`, in state `st`: the operation and the
/// state after it.
pub open spec fn spec_parse_chain_op(ts: Seq<Token>, p: int, st: ChainState) -> SpecParse<(SpecChainOp, ChainState)> {
    match token_at(ts, p) {
        Token::Where => spec_parse_where(ts, p, st),
        Token::Give => spec_parse_give(ts, p, st),
        Token::Sort => spec_parse_sort(ts, p, st),
        Token::Cup => spec_parse_cup(ts, p, st),
        Token::Blend => spec_parse_blend(ts, p, st),
        Token::Mix => spec_parse_mix(ts, p, st),
        Token::Pour => spec_parse_pour(ts, p),
        Token::Refill => spec_parse_refill(ts, p, st),
        Token::Spill => spec_parse_spill(ts, p),
        other => Err((SpecError::UnknownChainMethod { method: token_debug_text(other) }, p)),
    }
}

/// Whether a chain stops after reaching state `st`.
pub open spec fn chain_ends(st: ChainState) -> bool {
    st == ChainState::AfterCup || st == ChainState::Done
}

/// `.op(..)` repeated while a `.` follows, from state `st`; a cup or a spill
/// ends it.
pub open spec fn spec_chain(ts: Seq<Token>, p: int, st: ChainState, acc: Seq<SpecChainOp>) -> SpecParse<Seq<SpecChainOp>>
    decreases ts.len() - p,
{
    if token_at(ts, p) != Token::Dot {
        Ok((acc, p))
    } else {
        match spec_parse_chain_op(ts, p + 1, st) {
            Err(e) => Err(e),
            Ok(((op, st2), p2)) => if chain_ends(st2) {
                Ok((acc.push(op), p2))
            } else if advanced(ts, p, p2) {
                spec_chain(ts, p2, st2, acc.push(op))
            } else {
                Ok((acc.push(op), p2))
            },
        }
    }
}

/// A query: a collection and its chain.
pub open spec fn spec_parse_query(ts: Seq<Token>, p: int) -> SpecParse<SpecQuery> {
    match spec_expect_collection(ts, p) {
        Err(e) => Err(e),
        Ok(((collection, kind), p1)) => match spec_chain(ts, p1, ChainState::Start, Seq::empty()) {
            Err(e) => Err(e),
            Ok((chain, p2)) => Ok((SpecQuery { collection, kind, chain }, p2)),
        },
    }
}

// ── Shot

/// Queries up to `}`; the end of input before it is an error.
pub open spec fn spec_shot_queries(ts: Seq<Token>, p: int, acc: Seq<SpecQuery>) -> SpecParse<Seq<SpecQuery>>
    decreases ts.len() - p,
{
    if token_at(ts, p) == Token::RBrace {
        Ok((acc, p))
    } else if token_at(ts, p) == Token::Eof {
        Err((SpecError::UnexpectedEof { hint: "Close shot block with '}'"@ }, p))
    } else {
        match spec_parse_query(ts, p) {
            Err(e) => Err(e),
            Ok((q, p2)) => if advanced(ts, p, p2) {
                spec_shot_queries(ts, p2, acc.push(q))
            } else {
                Ok((acc.push(q), p2))
            },
        }
    }
}

/// `shot { query ... }`, `p` at `shot`.
pub open spec fn spec_parse_shot(ts: Seq<Token>, p: int) -> SpecParse<SpecStatement> {
    match spec_expect(ts, p + 1, Symbol::LBrace) {
        Err(e) => Err(e),
        Ok(p1) => match spec_shot_queries(ts, p1, Seq::empty()) {
            Err(e) => Err(e),
            Ok((queries, p2)) => if queries.len() == 0 {
                Err((SpecError::EmptyShot, p2))
            } else {
                match spec_expect(ts, p2, Symbol::RBrace) {
                    Err(e) => Err(e),
                    Ok(p3) => Ok((SpecStatement::Shot { queries }, p3)),
                }
            },
        },
    }
}

// ── Grind

/// Schema fields up to `)` or the end, each optionally followed by `,`.
pub open spec fn spec_schema_fields(ts: Seq<Token>, p: int, acc: Seq<SpecSchemaField>) -> SpecParse<Seq<SpecSchemaField>>
    decreases ts.len() - p,
{
    if token_at(ts, p) == Token::RParen || token_at(ts, p) == Token::Eof {
        Ok((acc, p))
    } else {
        match spec_expect_identifier(ts, p) {
            Err(e) => Err(e),
            Ok((name, p1)) => match spec_expect_data_type(ts, p1) {
                Err(e) => Err(e),
                Ok((data_type, p2)) => {
                    let (constraints, p3) = spec_constraints(ts, p2, Seq::empty());
                    let p4 = if token_at(ts, p3) == Token::Comma {
                        p3 + 1
                    } else {
                        p3
                    };
                    let field = SpecSchemaField { name, data_type, constraints };
                    if advanced(ts, p, p4) {
                        spec_schema_fields(ts, p4, acc.push(field))
                    } else {
                        Ok((acc.push(field), p4))
                    }
                },
            },
        }
    }
}

/// `grind coll` with an optional `(schema)` and `FLEX`, `p` at `grind`.
pub open spec fn spec_parse_grind(ts: Seq<Token>, p: int) -> SpecParse<SpecStatement> {
    match spec_expect_collection(ts, p + 1) {
        Err(e) => Err(e),
        Ok(((collection, kind), p1)) => if token_at(ts, p1) == Token::LParen {
            match spec_schema_fields(ts, p1 + 1, Seq::empty()) {
                Err(e) => Err(e),
                Ok((fields, p2)) => match spec_expect(ts, p2, Symbol::RParen) {
                    Err(e) => Err(e),
                    Ok(p3) => {
                        let flex = token_at(ts, p3) == Token::Flex;
                        Ok(
                            (
                                SpecStatement::Grind { collection, kind, schema: Some(fields), flex },
                                if flex {
                                    p3 + 1
                                } else {
                                    p3
                                },
                            ),
                        )
                    },
                },
            }
        } else {
            Ok((SpecStatement::Grind { collection, kind, schema: None, flex: false }, p1))
        },
    }
}

// ── Menu

/// `menu()` or `menu(coll)`, `p` at `menu`.
pub open spec fn spec_parse_menu(ts: Seq<Token>, p: int) -> SpecParse<SpecStatement> {
    match spec_expect(ts, p + 1, Symbol::LParen) {
        Err(e) => Err(e),
        Ok(p1) => {
            let coll: SpecParse<Option<(Seq<char>, CollectionKind)>> = if token_at(ts, p1)
                != Token::RParen {
                match spec_expect_collection(ts, p1) {
                    Err(e) => Err(e),
                    Ok((c, p2)) => Ok((Some(c), p2)),
                }
            } else {
                Ok((None, p1))
            };
            match coll {
                Err(e) => Err(e),
                Ok((collection, p2)) => match spec_expect(ts, p2, Symbol::RParen) {
                    Err(e) => Err(e),
                    Ok(p3) => Ok((SpecStatement::Menu { collection }, p3)),
                },
            }
        },
    }
}

// ── Statements

pub open spec fn spec_parse_statement(ts: Seq<Token>, p: int) -> SpecParse<SpecStatement> {
    match token_at(ts, p) {
        Token::Shot => spec_parse_shot(ts, p),
        Token::Grind => spec_parse_grind(ts, p),
        Token::Menu => spec_parse_menu(ts, p),
        Token::Collection { .. } => match spec_parse_query(ts, p) {
            Err(e) => Err(e),
            Ok((q, p2)) => Ok((SpecStatement::Query(q), p2)),
        },
        other => Err((unexpected("query, shot, grind, or menu"@, other), p)),
    }
}

/// Statements until `Eof`.
pub open spec fn spec_statements(ts: Seq<Token>, p: int, acc: Seq<SpecStatement>) -> SpecParse<Seq<SpecStatement>>
    decreases ts.len() - p,
{
    if token_at(ts, p) == Token::Eof {
        Ok((acc, p))
    } else {
        match spec_parse_statement(ts, p) {
            Err(e) => Err(e),
            Ok((s, p2)) => if advanced(ts, p, p2) {
                spec_statements(ts, p2, acc.push(s))
            } else {
                Ok((acc.push(s), p2))
            },
        }
    }
}

/// The whole token stream, parsed from its start.
pub open spec fn spec_parse(ts: Seq<Token>) -> SpecParse<Seq<SpecStatement>> {
    spec_statements(ts, 0, Seq::empty())
}

// ── The executable parser

/// What an executable chain rule returned, with the state it left and
/// where it stopped, in the form of the spec rule's outcome.
/// What the executable `parse` returned, with where it stopped.
pub open spec fn statements_result_view(r: Result<Vec<Statement>, ParseError>, p: int) -> SpecParse<
    Seq<SpecStatement>,
> {
    match r {
        Ok(v) => Ok((statements_view(v@), p)),
        Err(e) => Err((e@, p)),
    }
}

pub open spec fn chain_op_result_view(r: Result<ChainOp, ParseError>, st: ChainState, p: int) -> SpecParse<
    (SpecChainOp, ChainState),
> {
    match r {
        Ok(op) => Ok(((op@, st), p)),
        Err(e) => Err((e@, p)),
    }
}

fn method_str(m: ChainMethod) -> (r: &'static str)
    ensures
        r@ == method_name(m),
{
    match m {
        ChainMethod::Where => "where",
        ChainMethod::Give => "give",
        ChainMethod::Sort => "sort",
        ChainMethod::Cup => "cup",
        ChainMethod::Blend => "blend",
        ChainMethod::Mix => "mix",
        ChainMethod::Refill => "refill",
    }
}

fn state_str(st: ChainState) -> (r: &'static str)
    ensures
        r@ == state_name(st),
{
    match st {
        ChainState::Start => "Start",
        ChainState::AfterWhere => "AfterWhere",
        ChainState::AfterMix => "AfterMix",
        ChainState::AfterBlend => "AfterBlend",
        ChainState::AfterGive => "AfterGive",
        ChainState::AfterSort => "AfterSort",
        ChainState::AfterCup => "AfterCup",
        ChainState::AfterPour => "AfterPour",
        ChainState::AfterRefill => "AfterRefill",
        ChainState::Done => "Done",
    }
}

/// Whether method `m` may come in state `st`.
pub fn permits(st: ChainState, m: ChainMethod) -> (r: bool)
    ensures
        r == chain_permits(st, m),
{
    match m {
        ChainMethod::Where => st == ChainState::Start || st == ChainState::AfterMix,
        ChainMethod::Give => st == ChainState::Start || st == ChainState::AfterWhere || st
            == ChainState::AfterBlend || st == ChainState::AfterMix,
        ChainMethod::Sort => st == ChainState::AfterWhere || st == ChainState::AfterGive,
        ChainMethod::Cup => st == ChainState::Start || st == ChainState::AfterWhere || st
            == ChainState::AfterGive || st == ChainState::AfterSort || st == ChainState::AfterBlend,
        ChainMethod::Blend => st == ChainState::AfterWhere || st == ChainState::Start,
        ChainMethod::Mix => st == ChainState::Start || st == ChainState::AfterWhere,
        ChainMethod::Refill => st == ChainState::AfterWhere,
    }
}

/// The values of an object's fields, in order.
fn field_values(fields: Vec<(String, Expression)>) -> (r: Vec<Expression>)
    ensures
        exprs_view(r@) == object_values(object_view(fields@)),
{
    let ghost all = fields@;
    let mut fields = fields;
    let mut r: Vec<Expression> = Vec::new();
    assert(exprs_view(r@) =~= object_values(object_view(all.subrange(0, 0))));
    while fields.len() > 0
        invariant
            fields@.len() <= all.len(),
            fields@ == all.subrange(all.len() - fields@.len(), all.len() as int),
            exprs_view(r@) == object_values(
                object_view(all.subrange(0, all.len() - fields@.len())),
            ),
        decreases fields.len(),
    {
        let ghost k = all.len() - fields@.len();
        let (_key, value) = fields.remove(0);
        assert(all[k] == (_key, value));
        proof {
            lemma_exprs_view_push(r@, value);
        }
        r.push(value);
        assert(object_values(object_view(all.subrange(0, k + 1))) =~= object_values(
            object_view(all.subrange(0, k)),
        ).push(value@));
        assert(fields@ =~= all.subrange(k + 1, all.len() as int));
    }
    assert(all.subrange(0, all.len() as int) =~= all);
    r
}

/// The recursive descent parser over a vector of tokens.
pub struct RecursiveParser {
    tokens: Vec<Token>,
    current: usize,
}

impl RecursiveParser {
    #[verifier::type_invariant]
    spec fn inv(self) -> bool {
        self.current <= self.tokens@.len()
    }

    /// The tokens being parsed.
    pub closed spec fn input(self) -> Seq<Token> {
        self.tokens@
    }

    /// The position of the next token to read.
    pub closed spec fn at(self) -> int {
        self.current as int
    }

    /// A parser at the start of `tokens`.
    pub fn new(tokens: Vec<Token>) -> (r: Self)
        ensures
            r.input() == tokens@,
            r.at() == 0,
    {
        Self { tokens, current: 0 }
    }

    // ── Object expression

    fn parse_object(&mut self) -> (res: Result<ObjectExpr, ParseError>)
        ensures
            final(self).input() == old(self).input(),
            old(self).at() <= final(self).at() <= final(self).input().len(),
            result_view(res, final(self).at()) == spec_parse_object(old(self).input(), old(self).at()),
            res is Ok ==> old(self).at() < final(self).at(),
        decreases self.input().len() - self.at(), 1nat,
    {
        proof {
            use_type_invariant(&*self);
        }
        let ghost ts = self.tokens@;
        self.expect(Symbol::LBrace)?;
        let ghost p1 = self.current as int;
        let mut fields: Vec<(String, Expression)> = Vec::new();
        assert(object_view(fields@) =~= Seq::<(Seq<char>, SpecExpr)>::empty());
        while !self.check(Symbol::RBrace) && !self.is_at_end()
            invariant
                self.tokens@ == ts,
                old(self).tokens@ == ts,
                old(self).current < p1,
                spec_expect(ts, old(self).current as int, Symbol::LBrace) == Ok::<int, (SpecError, int)>(p1),
                p1 <= self.current <= ts.len(),
                spec_object_fields(ts, self.current as int, object_view(fields@)) == spec_object_fields(
                    ts,
                    p1,
                    Seq::empty(),
                ),
            decreases ts.len() - self.current,
        {
            proof {
                use_type_invariant(&*self);
            }
            let ghost before = self.current as int;
            let key = match self.current() {
                Token::Identifier(s) => {
                    self.advance();
                    s
                },
                Token::Text(s) => {
                    self.advance();
                    s
                },
                other => {
                    return Err(
                        ParseError::UnexpectedToken {
                            expected: String::from_str("field key (identifier or string)"),
                            found: token_debug(&other),
                        },
                    );
                },
            };
            self.expect(Symbol::Colon)?;
            let val = self.parse_object_value()?;
            proof {
                use_type_invariant(&*self);
            }
            let ghost kv = (key, val);
            assert(object_view(fields@.push(kv)) =~= object_view(fields@).push((key@, val@)));
            fields.push((key, val));
            if self.check(Symbol::Comma) {
                self.advance();
            }
            assert(advanced(ts, before, self.current as int));
        }
        self.expect(Symbol::RBrace)?;
        Ok(ObjectExpr { fields })
    }

    fn parse_object_value(&mut self) -> (res: Result<Expression, ParseError>)
        ensures
            final(self).input() == old(self).input(),
            old(self).at() <= final(self).at() <= final(self).input().len(),
            result_view(res, final(self).at()) == spec_parse_object_value(
                old(self).input(),
                old(self).at(),
            ),
            res is Ok ==> old(self).at() < final(self).at(),
        decreases self.input().len() - self.at(), 2nat,
    {
        proof {
            use_type_invariant(&*self);
        }
        let ghost ts = self.tokens@;
        let ghost p = self.current as int;
        assert(exprs_view(Seq::<Expression>::empty()) =~= Seq::<SpecExpr>::empty());
        match self.current() {
            Token::LBrace => {
                let obj = self.parse_object()?;
                Ok(Expression::FnCall { name: String::from_str("__object__"), args: field_values(obj.fields) })
            },
            Token::LBracket => {
                self.advance();
                let ghost p1 = self.current as int;
                let mut items: Vec<Expression> = Vec::new();
                assert(exprs_view(items@) =~= Seq::<SpecExpr>::empty());
                while !self.check(Symbol::RBracket) && !self.is_at_end()
                    invariant
                        self.tokens@ == ts,
                        old(self).tokens@ == ts,
                        old(self).current == p,
                        p1 == p + 1,
                        token_at(ts, p) == Token::LBracket,
                        p1 <= self.current <= ts.len(),
                        spec_array_items(ts, self.current as int, exprs_view(items@))
                            == spec_array_items(ts, p1, Seq::empty()),
                    decreases ts.len() - self.current,
                {
                    let ghost before = self.current as int;
                    let item = self.parse_object_value()?;
                    proof {
                        use_type_invariant(&*self);
                        lemma_exprs_view_push(items@, item);
                    }
                    items.push(item);
                    if self.check(Symbol::Comma) {
                        self.advance();
                    }
                    assert(advanced(ts, before, self.current as int));
                }
                if self.check(Symbol::RBracket) {
                    self.advance();
                }
                Ok(Expression::FnCall { name: String::from_str("__array__"), args: items })
            },
            Token::Text(s) => {
                self.advance();
                Ok(Expression::Text(s))
            },
            Token::Int(n) => {
                self.advance();
                Ok(Expression::Int(n))
            },
            Token::Float(f) => {
                self.advance();
                Ok(Expression::Float(f))
            },
            Token::Bool(b) => {
                self.advance();
                Ok(Expression::Bool(b))
            },
            Token::Null => {
                self.advance();
                Ok(Expression::Null)
            },
            Token::FnUuid => {
                self.advance();
                self.expect(Symbol::LParen)?;
                self.expect(Symbol::RParen)?;
                Ok(Expression::FnCall { name: String::from_str("uuid"), args: Vec::new() })
            },
            Token::FnNow => {
                self.advance();
                self.expect(Symbol::LParen)?;
                self.expect(Symbol::RParen)?;
                Ok(Expression::FnCall { name: String::from_str("now"), args: Vec::new() })
            },
            Token::FnToday => {
                self.advance();
                self.expect(Symbol::LParen)?;
                self.expect(Symbol::RParen)?;
                Ok(Expression::FnCall { name: String::from_str("today"), args: Vec::new() })
            },
            _ => {
                let mut pratt = PrattParser::starting_at(self.tokens.as_slice(), self.current);
                let expr = pratt.parse_expression(Precedence::And.level())?;
                self.current = pratt.position();
                Ok(expr)
            },
        }
    }

    // ── Entry

    /// Parse statements until the end of the input.
    pub fn parse(&mut self) -> (res: Result<Vec<Statement>, ParseError>)
        ensures
            final(self).input() == old(self).input(),
            old(self).at() <= final(self).at() <= final(self).input().len(),
            statements_result_view(res, final(self).at()) == spec_statements(
                old(self).input(),
                old(self).at(),
                Seq::empty(),
            ),
            res is Ok ==> token_at(final(self).input(), final(self).at()) == Token::Eof,
            res matches Ok(v) ==> forall|i: int|
                0 <= i < statements_view(v@).len() ==> #[trigger] statement_in_order(
                    statements_view(v@)[i],
                ),
    {
        proof {
            use_type_invariant(&*self);
        }
        let ghost ts = self.tokens@;
        let ghost p0 = self.current as int;
        let mut statements: Vec<Statement> = Vec::new();
        assert(statements_view(statements@) =~= Seq::<SpecStatement>::empty());
        while !self.is_at_end()
            invariant
                self.tokens@ == ts,
                old(self).tokens@ == ts,
                old(self).current == p0,
                p0 <= self.current <= ts.len(),
                spec_statements(ts, self.current as int, statements_view(statements@))
                    == spec_statements(ts, p0, Seq::empty()),
            decreases ts.len() - self.current,
        {
            let ghost before = self.current as int;
            let stmt = match self.current() {
                Token::Shot => self.parse_shot()?,
                Token::Grind => self.parse_grind()?,
                Token::Menu => self.parse_menu()?,
                Token::Collection { .. } => self.parse_query_stmt()?,
                other => {
                    return Err(
                        ParseError::UnexpectedToken {
                            expected: String::from_str("query, shot, grind, or menu"),
                            found: token_debug(&other),
                        },
                    );
                },
            };
            proof {
                use_type_invariant(&*self);
            }
            assert(statements_view(statements@.push(stmt)) =~= statements_view(statements@).push(
                stmt@,
            ));
            statements.push(stmt);
            assert(advanced(ts, before, self.current as int));
        }
        proof {
            lemma_statements_in_order(ts, p0, Seq::empty());
            assert(spec_statements(ts, p0, Seq::empty()) == Ok::<
                (Seq<SpecStatement>, int),
                (SpecError, int),
            >((statements_view(statements@), self.current as int)));
            let sv = statements_view(statements@);
            assert forall|i: int| 0 <= i < sv.len() implies #[trigger] statement_in_order(sv[i]) by {
                let r = spec_statements(ts, p0, Seq::empty());
                assert(r is Ok);
                assert(r->Ok_0.0 == sv);
                assert(0 <= i < r->Ok_0.0.len());
                assert(statement_in_order(r->Ok_0.0[i]));
            }
        }
        Ok(statements)
    }

    // ── Query

    fn parse_query_stmt(&mut self) -> (res: Result<Statement, ParseError>)
        requires
            token_at(old(self).input(), old(self).at()) is Collection,
        ensures
            final(self).input() == old(self).input(),
            old(self).at() <= final(self).at() <= final(self).input().len(),
            result_view(res, final(self).at()) == spec_parse_statement(old(self).input(), old(self).at()),
            res is Ok ==> old(self).at() < final(self).at(),
    {
        Ok(Statement::Query(self.parse_query()?))
    }

    fn parse_query(&mut self) -> (res: Result<QueryNode, ParseError>)
        ensures
            final(self).input() == old(self).input(),
            old(self).at() <= final(self).at() <= final(self).input().len(),
            result_view(res, final(self).at()) == spec_parse_query(old(self).input(), old(self).at()),
            res is Ok ==> old(self).at() < final(self).at(),
            res matches Ok(q) ==> query_in_order(q@),
    {
        proof {
            use_type_invariant(&*self);
            lemma_query_in_order(self.tokens@, self.current as int);
        }
        let ghost ts = self.tokens@;
        let (name, kind) = self.expect_collection()?;
        let ghost p1 = self.current as int;
        let ghost target = spec_chain(ts, p1, ChainState::Start, Seq::empty());
        let mut chain: Vec<ChainOp> = Vec::new();
        let mut state = ChainState::Start;
        assert(chain_view(chain@) =~= Seq::<SpecChainOp>::empty());
        loop
            invariant_except_break
                spec_chain(ts, self.current as int, state, chain_view(chain@)) == target,
            invariant
                self.tokens@ == ts,
                old(self).tokens@ == ts,
                old(self).current < p1,
                spec_expect_collection(ts, old(self).current as int) == Ok::<
                    ((Seq<char>, CollectionKind), int),
                    (SpecError, int),
                >(((name@, kind), p1)),
                target == spec_chain(ts, p1, ChainState::Start, Seq::empty()),
                p1 <= self.current <= ts.len(),
            ensures
                target == Ok::<(Seq<SpecChainOp>, int), (SpecError, int)>(
                    (chain_view(chain@), self.current as int),
                ),
            decreases ts.len() - self.current,
        {
            if !self.check(Symbol::Dot) {
                break;
            }
            let ghost before = self.current as int;
            self.advance();
            let op = self.parse_chain_op(&mut state)?;
            proof {
                use_type_invariant(&*self);
            }
            assert(chain_view(chain@.push(op)) =~= chain_view(chain@).push(op@));
            chain.push(op);
            if state == ChainState::AfterCup || state == ChainState::Done {
                break;
            }
            assert(advanced(ts, before, self.current as int));
        }
        Ok(QueryNode { collection: name, kind, chain })
    }

    // ── Field expression

    fn parse_field_expr(&mut self) -> (res: Result<FieldExpr, ParseError>)
        ensures
            final(self).input() == old(self).input(),
            old(self).at() <= final(self).at() <= final(self).input().len(),
            result_view(res, final(self).at()) == spec_parse_field_expr(old(self).input(), old(self).at()),
            res is Ok ==> old(self).at() < final(self).at(),
    {
        proof {
            use_type_invariant(&*self);
        }
        if self.check(Symbol::Wildcard) {
            self.advance();
            return Ok(FieldExpr::Wildcard);
        }
        let agg = match self.current() {
            Token::FnCount => Some(AggFunc::Count),
            Token::FnSum => Some(AggFunc::Sum),
            Token::FnAvg => Some(AggFunc::Avg),
            Token::FnMax => Some(AggFunc::Max),
            Token::FnMin => Some(AggFunc::Min),
            _ => None,
        };
        if let Some(func) = agg {
            self.advance();
            self.expect(Symbol::LParen)?;
            let field = if !self.check(Symbol::RParen) {
                Some(self.expect_identifier()?)
            } else {
                None
            };
            self.expect(Symbol::RParen)?;
            self.expect(Symbol::As)?;
            let alias = self.expect_identifier()?;
            return Ok(FieldExpr::Aggregate { func, field, alias });
        }
        match self.current() {
            // name or name.sub
            Token::Identifier(name) => {
                self.advance();
                if self.check(Symbol::Dot) {
                    self.advance();
                    let sub = self.expect_identifier()?;
                    let mut parts: Vec<String> = Vec::new();
                    parts.push(name);
                    parts.push(sub);
                    assert(strings_view(parts@) =~= seq![name@, sub@]);
                    return Ok(FieldExpr::Nested(parts));
                }
                Ok(FieldExpr::Simple(name))
            },
            // users[].name or orders{}.total
            Token::Collection { name, kind } => {
                self.advance();
                if self.check(Symbol::Dot) {
                    self.advance();
                    let sub = self.expect_identifier()?;
                    return Ok(
                        match kind {
                            CollectionKind::Structured => FieldExpr::CrossStructured(name, sub),
                            CollectionKind::Unstructured => FieldExpr::CrossUnstructured(name, sub),
                        },
                    );
                }
                Ok(FieldExpr::Simple(name))
            },
            other => Err(
                ParseError::UnexpectedToken {
                    expected: String::from_str("field name"),
                    found: token_debug(&other),
                },
            ),
        }
    }

    // ── Chain operations

    fn parse_chain_op(&mut self, state: &mut ChainState) -> (res: Result<ChainOp, ParseError>)
        ensures
            final(self).input() == old(self).input(),
            old(self).at() <= final(self).at() <= final(self).input().len(),
            chain_op_result_view(res, *final(state), final(self).at()) == spec_parse_chain_op(
                old(self).input(),
                old(self).at(),
                *old(state),
            ),
            res is Err ==> *final(state) == *old(state),
            res is Ok ==> old(self).at() < final(self).at(),
    {
        proof {
            use_type_invariant(&*self);
        }
        match self.current() {
            Token::Where => self.parse_where(state),
            Token::Give => self.parse_give(state),
            Token::Sort => self.parse_sort(state),
            Token::Cup => self.parse_cup(state),
            Token::Blend => self.parse_blend(state),
            Token::Mix => self.parse_mix(state),
            Token::Pour => self.parse_pour(state),
            Token::Refill => self.parse_refill(state),
            Token::Spill => {
                self.advance();
                self.expect(Symbol::LParen)?;
                self.expect(Symbol::RParen)?;
                *state = ChainState::Done;
                Ok(ChainOp::Spill)
            },
            other => Err(ParseError::UnknownChainMethod { method: token_debug(&other) }),
        }
    }

    fn parse_where(&mut self, state: &mut ChainState) -> (res: Result<ChainOp, ParseError>)
        requires
            token_at(old(self).input(), old(self).at()) == Token::Where,
        ensures
            final(self).input() == old(self).input(),
            old(self).at() <= final(self).at() <= final(self).input().len(),
            chain_op_result_view(res, *final(state), final(self).at()) == spec_parse_where(
                old(self).input(),
                old(self).at(),
                *old(state),
            ),
            res is Err ==> *final(state) == *old(state),
            res is Ok ==> old(self).at() < final(self).at(),
    {
        proof {
            use_type_invariant(&*self);
        }
        self.validate_state(state, ChainMethod::Where)?;
        self.advance();
        self.expect(Symbol::LParen)?;
        let condition = self.parse_expr_until(Symbol::RParen)?;
        self.expect(Symbol::RParen)?;
        *state = ChainState::AfterWhere;
        Ok(ChainOp::Where(WhereNode { condition }))
    }

    fn parse_give(&mut self, state: &mut ChainState) -> (res: Result<ChainOp, ParseError>)
        requires
            token_at(old(self).input(), old(self).at()) == Token::Give,
        ensures
            final(self).input() == old(self).input(),
            old(self).at() <= final(self).at() <= final(self).input().len(),
            chain_op_result_view(res, *final(state), final(self).at()) == spec_parse_give(
                old(self).input(),
                old(self).at(),
                *old(state),
            ),
            res is Err ==> *final(state) == *old(state),
            res is Ok ==> old(self).at() < final(self).at(),
    {
        proof {
            use_type_invariant(&*self);
        }
        let ghost ts = self.tokens@;
        self.validate_state(state, ChainMethod::Give)?;
        self.advance();
        self.expect(Symbol::LParen)?;
        let ghost p1 = self.current as int;
        let ghost target = spec_give_fields(ts, p1, Seq::empty());
        let mut fields: Vec<FieldExpr> = Vec::new();
        assert(field_exprs_view(fields@) =~= Seq::<SpecFieldExpr>::empty());
        loop
            invariant_except_break
                spec_give_fields(ts, self.current as int, field_exprs_view(fields@)) == target,
            invariant
                self.tokens@ == ts,
                old(self).tokens@ == ts,
                old(self).current < p1,
                *state == *old(state),
                chain_permits(*old(state), ChainMethod::Give),
                target == spec_give_fields(ts, p1, Seq::empty()),
                token_at(ts, old(self).current as int) == Token::Give,
                spec_expect(ts, old(self).current + 1, Symbol::LParen) == Ok::<int, (SpecError, int)>(p1),
                p1 <= self.current <= ts.len(),
            ensures
                target == Ok::<(Seq<SpecFieldExpr>, int), (SpecError, int)>(
                    (field_exprs_view(fields@), self.current as int),
                ),
            decreases ts.len() - self.current,
        {
            let ghost before = self.current as int;
            let f = self.parse_field_expr()?;
            proof {
                use_type_invariant(&*self);
            }
            assert(field_exprs_view(fields@.push(f)) =~= field_exprs_view(fields@).push(f@));
            fields.push(f);
            if !self.check(Symbol::Comma) {
                break;
            }
            self.advance();
            assert(advanced(ts, before, self.current as int));
        }
        self.expect(Symbol::RParen)?;
        *state = ChainState::AfterGive;
        Ok(ChainOp::Give(GiveNode { fields }))
    }

    fn parse_sort(&mut self, state: &mut ChainState) -> (res: Result<ChainOp, ParseError>)
        requires
            token_at(old(self).input(), old(self).at()) == Token::Sort,
        ensures
            final(self).input() == old(self).input(),
            old(self).at() <= final(self).at() <= final(self).input().len(),
            chain_op_result_view(res, *final(state), final(self).at()) == spec_parse_sort(
                old(self).input(),
                old(self).at(),
                *old(state),
            ),
            res is Err ==> *final(state) == *old(state),
            res is Ok ==> old(self).at() < final(self).at(),
    {
        proof {
            use_type_invariant(&*self);
        }
        self.validate_state(state, ChainMethod::Sort)?;
        self.advance();
        self.expect(Symbol::LParen)?;
        let field = self.expect_dot_field()?;
        self.expect(Symbol::Comma)?;
        let direction = match self.current() {
            Token::Asc => {
                self.advance();
                SortDir::Asc
            },
            Token::Desc => {
                self.advance();
                SortDir::Desc
            },
            other => {
                return Err(ParseError::InvalidSortDir { got: token_debug(&other) });
            },
        };
        self.expect(Symbol::RParen)?;
        *state = ChainState::AfterSort;
        Ok(ChainOp::Sort(SortNode { field, direction }))
    }

    fn parse_cup(&mut self, state: &mut ChainState) -> (res: Result<ChainOp, ParseError>)
        requires
            token_at(old(self).input(), old(self).at()) == Token::Cup,
        ensures
            final(self).input() == old(self).input(),
            old(self).at() <= final(self).at() <= final(self).input().len(),
            chain_op_result_view(res, *final(state), final(self).at()) == spec_parse_cup(
                old(self).input(),
                old(self).at(),
                *old(state),
            ),
            res is Err ==> *final(state) == *old(state),
            res is Ok ==> old(self).at() < final(self).at(),
    {
        proof {
            use_type_invariant(&*self);
        }
        self.validate_state(state, ChainMethod::Cup)?;
        self.advance();
        self.expect(Symbol::LParen)?;
        let t = self.current();
        let limit = match t {
            Token::Int(n) => {
                if n > 0 {
                    self.advance();
                    n as u64
                } else {
                    return Err(ParseError::InvalidCupLimit { got: token_debug(&t) });
                }
            },
            other => {
                return Err(ParseError::InvalidCupLimit { got: token_debug(&other) });
            },
        };
        self.expect(Symbol::RParen)?;
        *state = ChainState::AfterCup;
        Ok(ChainOp::Cup(CupNode { limit }))
    }

    fn parse_blend(&mut self, state: &mut ChainState) -> (res: Result<ChainOp, ParseError>)
        requires
            token_at(old(self).input(), old(self).at()) == Token::Blend,
        ensures
            final(self).input() == old(self).input(),
            old(self).at() <= final(self).at() <= final(self).input().len(),
            chain_op_result_view(res, *final(state), final(self).at()) == spec_parse_blend(
                old(self).input(),
                old(self).at(),
                *old(state),
            ),
            res is Err ==> *final(state) == *old(state),
            res is Ok ==> old(self).at() < final(self).at(),
    {
        proof {
            use_type_invariant(&*self);
        }
        self.validate_state(state, ChainMethod::Blend)?;
        self.advance();
        self.expect(Symbol::LParen)?;
        let field = self.expect_identifier()?;
        self.expect(Symbol::RParen)?;
        *state = ChainState::AfterBlend;
        Ok(ChainOp::Blend(BlendNode { field }))
    }

    fn parse_mix(&mut self, state: &mut ChainState) -> (res: Result<ChainOp, ParseError>)
        requires
            token_at(old(self).input(), old(self).at()) == Token::Mix,
        ensures
            final(self).input() == old(self).input(),
            old(self).at() <= final(self).at() <= final(self).input().len(),
            chain_op_result_view(res, *final(state), final(self).at()) == spec_parse_mix(
                old(self).input(),
                old(self).at(),
                *old(state),
            ),
            res is Err ==> *final(state) == *old(state),
            res is Ok ==> old(self).at() < final(self).at(),
    {
        proof {
            use_type_invariant(&*self);
        }
        self.validate_state(state, ChainMethod::Mix)?;
        self.advance();
        self.expect(Symbol::LParen)?;
        let (coll_name, coll_kind) = self.expect_collection()?;
        let t = self.current();
        match t {
            Token::On => {
                self.advance();
            },
            Token::Identifier(s) => {
                let upper = to_uppercase(s.as_str());
                if str_equal(upper.as_str(), "ON") {
                    self.advance();
                } else {
                    return Err(
                        ParseError::UnexpectedToken {
                            expected: String::from_str("ON"),
                            found: token_debug(&self.current()),
                        },
                    );
                }
            },
            other => {
                return Err(
                    ParseError::UnexpectedToken {
                        expected: String::from_str("ON"),
                        found: token_debug(&other),
                    },
                );
            },
        }
        let left_field = self.expect_dot_field()?;
        self.expect(Symbol::Eq)?;
        let right_field = self.expect_dot_field()?;
        self.expect(Symbol::RParen)?;
        *state = ChainState::AfterMix;
        Ok(
            ChainOp::Mix(
                MixNode { collection: coll_name, kind: coll_kind, left_field, right_field },
            ),
        )
    }

    fn parse_pour(&mut self, state: &mut ChainState) -> (res: Result<ChainOp, ParseError>)
        requires
            token_at(old(self).input(), old(self).at()) == Token::Pour,
        ensures
            final(self).input() == old(self).input(),
            old(self).at() <= final(self).at() <= final(self).input().len(),
            chain_op_result_view(res, *final(state), final(self).at()) == spec_parse_pour(
                old(self).input(),
                old(self).at(),
            ),
            res is Err ==> *final(state) == *old(state),
            res is Ok ==> old(self).at() < final(self).at(),
    {
        proof {
            use_type_invariant(&*self);
        }
        self.advance();
        self.expect(Symbol::LParen)?;
        let data = self.parse_object()?;
        self.expect(Symbol::RParen)?;
        *state = ChainState::AfterPour;
        Ok(ChainOp::Pour(PourNode { data }))
    }

    fn parse_refill(&mut self, state: &mut ChainState) -> (res: Result<ChainOp, ParseError>)
        requires
            token_at(old(self).input(), old(self).at()) == Token::Refill,
        ensures
            final(self).input() == old(self).input(),
            old(self).at() <= final(self).at() <= final(self).input().len(),
            chain_op_result_view(res, *final(state), final(self).at()) == spec_parse_refill(
                old(self).input(),
                old(self).at(),
                *old(state),
            ),
            res is Err ==> *final(state) == *old(state),
            res is Ok ==> old(self).at() < final(self).at(),
    {
        proof {
            use_type_invariant(&*self);
        }
        self.validate_state(state, ChainMethod::Refill)?;
        self.advance();
        self.expect(Symbol::LParen)?;
        let data = self.parse_object()?;
        self.expect(Symbol::RParen)?;
        *state = ChainState::AfterRefill;
        Ok(ChainOp::Refill(RefillNode { data }))
    }

    // ── Shot

    fn parse_shot(&mut self) -> (res: Result<Statement, ParseError>)
        requires
            token_at(old(self).input(), old(self).at()) == Token::Shot,
        ensures
            final(self).input() == old(self).input(),
            old(self).at() <= final(self).at() <= final(self).input().len(),
            result_view(res, final(self).at()) == spec_parse_shot(old(self).input(), old(self).at()),
            res is Ok ==> old(self).at() < final(self).at(),
    {
        proof {
            use_type_invariant(&*self);
        }
        let ghost ts = self.tokens@;
        self.advance();
        self.expect(Symbol::LBrace)?;
        let ghost p1 = self.current as int;
        let mut queries: Vec<QueryNode> = Vec::new();
        assert(queries_view(queries@) =~= Seq::<SpecQuery>::empty());
        while !self.check(Symbol::RBrace)
            invariant
                self.tokens@ == ts,
                old(self).tokens@ == ts,
                old(self).current < p1,
                token_at(ts, old(self).current as int) == Token::Shot,
                spec_expect(ts, old(self).current + 1, Symbol::LBrace) == Ok::<int, (SpecError, int)>(p1),
                p1 <= self.current <= ts.len(),
                spec_shot_queries(ts, self.current as int, queries_view(queries@))
                    == spec_shot_queries(ts, p1, Seq::empty()),
            decreases ts.len() - self.current,
        {
            if self.is_at_end() {
                return Err(
                    ParseError::UnexpectedEof { hint: String::from_str("Close shot block with '}'") },
                );
            }
            let ghost before = self.current as int;
            let q = self.parse_query()?;
            proof {
                use_type_invariant(&*self);
            }
            assert(queries_view(queries@.push(q)) =~= queries_view(queries@).push(q@));
            queries.push(q);
            assert(advanced(ts, before, self.current as int));
        }
        if queries.len() == 0 {
            return Err(ParseError::EmptyShot);
        }
        self.expect(Symbol::RBrace)?;
        Ok(Statement::Shot(ShotNode { queries }))
    }

    // ── Grind

    fn parse_grind(&mut self) -> (res: Result<Statement, ParseError>)
        requires
            token_at(old(self).input(), old(self).at()) == Token::Grind,
        ensures
            final(self).input() == old(self).input(),
            old(self).at() <= final(self).at() <= final(self).input().len(),
            result_view(res, final(self).at()) == spec_parse_grind(old(self).input(), old(self).at()),
            res is Ok ==> old(self).at() < final(self).at(),
    {
        proof {
            use_type_invariant(&*self);
        }
        let ghost ts = self.tokens@;
        self.advance();
        let (name, kind) = self.expect_collection()?;
        let ghost p1 = self.current as int;
        if !self.check(Symbol::LParen) {
            return Ok(Statement::Grind(GrindNode { collection: name, kind, schema: None, flex: false }));
        }
        self.advance();
        let mut fields: Vec<SchemaField> = Vec::new();
        assert(schema_view(fields@) =~= Seq::<SpecSchemaField>::empty());
        while !self.check(Symbol::RParen) && !self.is_at_end()
            invariant
                self.tokens@ == ts,
                old(self).tokens@ == ts,
                old(self).current < p1,
                token_at(ts, old(self).current as int) == Token::Grind,
                spec_expect_collection(ts, old(self).current + 1) == Ok::<
                    ((Seq<char>, CollectionKind), int),
                    (SpecError, int),
                >(((name@, kind), p1)),
                token_at(ts, p1) == Token::LParen,
                p1 + 1 <= self.current <= ts.len(),
                spec_schema_fields(ts, self.current as int, schema_view(fields@))
                    == spec_schema_fields(ts, p1 + 1, Seq::empty()),
            decreases ts.len() - self.current,
        {
            let ghost before = self.current as int;
            let field_name = self.expect_identifier()?;
            let data_type = self.expect_data_type()?;
            let ghost p2 = self.current as int;
            let mut constraints: Vec<Constraint> = Vec::new();
            loop
                invariant
                    self.tokens@ == ts,
                    p2 <= self.current <= ts.len(),
                    spec_constraints(ts, self.current as int, constraints@) == spec_constraints(
                        ts,
                        p2,
                        Seq::empty(),
                    ),
                ensures
                    spec_constraints(ts, p2, Seq::empty()) == (constraints@, self.current as int),
                    p2 <= self.current <= ts.len(),
                decreases ts.len() - self.current,
            {
                proof {
                    use_type_invariant(&*self);
                }
                match self.try_constraint() {
                    Some(c) => {
                        constraints.push(c);
                    },
                    None => {
                        break;
                    },
                }
            }
            let field = SchemaField { name: field_name, data_type, constraints };
            assert(schema_view(fields@.push(field)) =~= schema_view(fields@).push(field@));
            fields.push(field);
            if self.check(Symbol::Comma) {
                self.advance();
            }
            proof {
                use_type_invariant(&*self);
            }
            assert(advanced(ts, before, self.current as int));
        }
        self.expect(Symbol::RParen)?;
        let flex = if self.check(Symbol::Flex) {
            self.advance();
            true
        } else {
            false
        };
        Ok(Statement::Grind(GrindNode { collection: name, kind, schema: Some(fields), flex }))
    }

    // ── Menu

    fn parse_menu(&mut self) -> (res: Result<Statement, ParseError>)
        requires
            token_at(old(self).input(), old(self).at()) == Token::Menu,
        ensures
            final(self).input() == old(self).input(),
            old(self).at() <= final(self).at() <= final(self).input().len(),
            result_view(res, final(self).at()) == spec_parse_menu(old(self).input(), old(self).at()),
            res is Ok ==> old(self).at() < final(self).at(),
    {
        proof {
            use_type_invariant(&*self);
        }
        self.advance();
        self.expect(Symbol::LParen)?;
        let collection = if !self.check(Symbol::RParen) {
            Some(self.expect_collection()?)
        } else {
            None
        };
        self.expect(Symbol::RParen)?;
        Ok(Statement::Menu(MenuNode { collection }))
    }

    // ── Helpers

    fn parse_expr_until(&mut self, _stop: Symbol) -> (res: Result<Expression, ParseError>)
        ensures
            final(self).input() == old(self).input(),
            old(self).at() <= final(self).at() <= final(self).input().len(),
            result_view(res, final(self).at()) == spec_pratt_expression(
                old(self).input(),
                old(self).at(),
                0,
            ),
            res is Ok ==> old(self).at() < final(self).at(),
    {
        proof {
            use_type_invariant(&*self);
        }
        let mut pratt = PrattParser::starting_at(self.tokens.as_slice(), self.current);
        let expr = pratt.parse_expression(0)?;
        self.current = pratt.position();
        Ok(expr)
    }

    fn expect_collection(&mut self) -> (res: Result<(String, CollectionKind), ParseError>)
        ensures
            final(self).input() == old(self).input(),
            old(self).at() <= final(self).at() <= final(self).input().len(),
            match res {
                Ok((n, k)) => spec_expect_collection(old(self).input(), old(self).at()) == Ok::<
                    ((Seq<char>, CollectionKind), int),
                    (SpecError, int),
                >(((n@, k), final(self).at())),
                Err(e) => spec_expect_collection(old(self).input(), old(self).at()) == Err::<
                    ((Seq<char>, CollectionKind), int),
                    (SpecError, int),
                >((e@, final(self).at())),
            },
    {
        proof {
            use_type_invariant(&*self);
        }
        match self.current() {
            Token::Collection { name, kind } => {
                self.advance();
                Ok((name, kind))
            },
            other => Err(
                ParseError::UnexpectedToken {
                    expected: String::from_str("collection (e.g. users[] or products{})"),
                    found: token_debug(&other),
                },
            ),
        }
    }

    fn expect_identifier(&mut self) -> (res: Result<String, ParseError>)
        ensures
            final(self).input() == old(self).input(),
            old(self).at() <= final(self).at() <= final(self).input().len(),
            result_view(res, final(self).at()) == spec_expect_identifier(old(self).input(), old(self).at()),
    {
        proof {
            use_type_invariant(&*self);
        }
        match self.current() {
            Token::Identifier(s) => {
                self.advance();
                Ok(s)
            },
            other => Err(
                ParseError::UnexpectedToken {
                    expected: String::from_str("identifier"),
                    found: token_debug(&other),
                },
            ),
        }
    }

    fn expect_dot_field(&mut self) -> (res: Result<String, ParseError>)
        ensures
            final(self).input() == old(self).input(),
            old(self).at() <= final(self).at() <= final(self).input().len(),
            result_view(res, final(self).at()) == spec_expect_dot_field(old(self).input(), old(self).at()),
    {
        proof {
            use_type_invariant(&*self);
        }
        let base = match self.current() {
            Token::Identifier(s) => {
                self.advance();
                s
            },
            Token::Collection { name, .. } => {
                self.advance();
                name
            },
            other => {
                return Err(
                    ParseError::UnexpectedToken {
                        expected: String::from_str("identifier or collection"),
                        found: token_debug(&other),
                    },
                );
            },
        };
        if self.check(Symbol::Dot) {
            self.advance();
            let field = self.expect_identifier()?;
            let joined = base.concat(".").concat(field.as_str());
            return Ok(joined);
        }
        Ok(base)
    }

    fn expect_data_type(&mut self) -> (res: Result<DataType, ParseError>)
        ensures
            final(self).input() == old(self).input(),
            old(self).at() <= final(self).at() <= final(self).input().len(),
            match res {
                Ok(dt) => spec_expect_data_type(old(self).input(), old(self).at()) == Ok::<
                    (DataType, int),
                    (SpecError, int),
                >((dt, final(self).at())),
                Err(e) => spec_expect_data_type(old(self).input(), old(self).at()) == Err::<
                    (DataType, int),
                    (SpecError, int),
                >((e@, final(self).at())),
            },
    {
        proof {
            use_type_invariant(&*self);
        }
        match self.current() {
            Token::DataType(dt) => {
                self.advance();
                Ok(dt)
            },
            other => Err(
                ParseError::UnexpectedToken {
                    expected: String::from_str(
                        "data type (UUID, TEXT, INT, FLOAT, BOOL, DATETIME, GEOPOINT, VECTOR)",
                    ),
                    found: token_debug(&other),
                },
            ),
        }
    }

    fn try_constraint(&mut self) -> (r: Option<Constraint>)
        ensures
            final(self).input() == old(self).input(),
            match token_at(old(self).input(), old(self).at()) {
                Token::Constraint(c) => r == Some(c) && final(self).at() == old(self).at() + 1,
                _ => r is None && final(self).at() == old(self).at(),
            },
    {
        proof {
            use_type_invariant(&*self);
        }
        match self.current() {
            Token::Constraint(c) => {
                self.advance();
                Some(c)
            },
            _ => None,
        }
    }

    fn validate_state(&self, state: &ChainState, method: ChainMethod) -> (res: Result<(), ParseError>)
        ensures
            res is Ok <==> chain_permits(*state, method),
            res matches Err(e) ==> e@ == wrong_order(method, *state),
    {
        if permits(*state, method) {
            return Ok(());
        }
        let m = method_str(method);
        let st = state_str(*state);
        let hint = String::from_str(".").concat(m).concat("() is not valid after ").concat(st);
        Err(ParseError::WrongChainOrder { found: String::from_str(m), after: String::from_str(st), hint })
    }

    fn expect(&mut self, s: Symbol) -> (res: Result<(), ParseError>)
        ensures
            final(self).input() == old(self).input(),
            old(self).at() <= final(self).at() <= final(self).input().len(),
            unit_result_view(res, final(self).at()) == spec_expect(old(self).input(), old(self).at(), s),
    {
        proof {
            use_type_invariant(&*self);
        }
        let t = self.current();
        if is_symbol(&t, s) {
            self.advance();
            Ok(())
        } else {
            Err(
                ParseError::UnexpectedToken {
                    expected: token_debug(&s.to_token()),
                    found: token_debug(&t),
                },
            )
        }
    }

    /// The token at the current position (`Eof` at the end).
    fn current(&self) -> (t: Token)
        ensures
            t == token_at(self.input(), self.at()),
    {
        if self.current < self.tokens.len() {
            self.tokens[self.current].clone()
        } else {
            Token::Eof
        }
    }

    /// Whether the current token is that of symbol `s`.
    fn check(&self, s: Symbol) -> (r: bool)
        ensures
            r == (token_at(self.input(), self.at()) == symbol_token(s)),
    {
        let t = self.current();
        is_symbol(&t, s)
    }

    fn advance(&mut self)
        ensures
            final(self).input() == old(self).input(),
            final(self).at() == if old(self).at() < old(self).input().len() {
                old(self).at() + 1
            } else {
                old(self).at()
            },
    {
        proof {
            use_type_invariant(&*self);
        }
        if self.current < self.tokens.len() {
            self.current = self.current + 1;
        }
    }

    fn is_at_end(&self) -> (r: bool)
        ensures
            r == (token_at(self.input(), self.at()) == Token::Eof),
    {
        matches!(self.current(), Token::Eof)
    }
}

} // verus!
