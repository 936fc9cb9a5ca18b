//! The CoffeeQL syntax tree, and its mathematical model (the `Spec*` types)
//! in which every string is a `Seq<char>`.

use vstd::prelude::*;
use crate::token::{CollectionKind, Constraint, DataType, Distance, Duration, Number, SortDir};

verus! {

// ── Root

#[derive(Debug, Clone)]
pub enum Statement {
    Query(QueryNode),
    Shot(ShotNode),
    Grind(GrindNode),
    Menu(MenuNode),
}

// ── Query

#[derive(Debug, Clone)]
pub struct QueryNode {
    pub collection: String,
    pub kind: CollectionKind,
    pub chain: Vec<ChainOp>,
}

// ── Chain operations

#[derive(Debug, Clone)]
pub enum ChainOp {
    Where(WhereNode),
    Give(GiveNode),
    Sort(SortNode),
    Cup(CupNode),
    Blend(BlendNode),
    Mix(MixNode),
    Pour(PourNode),
    Refill(RefillNode),
    Spill,
}

#[derive(Debug, Clone)]
pub struct WhereNode {
    pub condition: Expression,
}

#[derive(Debug, Clone)]
pub struct GiveNode {
    pub fields: Vec<FieldExpr>,
}

#[derive(Debug, Clone)]
pub enum FieldExpr {
    /// name, email
    Simple(String),
    /// specs.color
    Nested(Vec<String>),
    /// users[].name
    CrossStructured(String, String),
    /// orders{}.total
    CrossUnstructured(String, String),
    /// COUNT() as total
    Aggregate { func: AggFunc, field: Option<String>, alias: String },
    /// *
    Wildcard,
}

#[derive(Debug, Clone, Copy, PartialEq, Eq, Structural)]
pub enum AggFunc {
    Count,
    Sum,
    Avg,
    Max,
    Min,
}

#[derive(Debug, Clone)]
pub struct SortNode {
    pub field: String,
    pub direction: SortDir,
}

#[derive(Debug, Clone)]
pub struct CupNode {
    pub limit: u64,
}

#[derive(Debug, Clone)]
pub struct BlendNode {
    pub field: String,
}

#[derive(Debug, Clone)]
pub struct MixNode {
    pub collection: String,
    pub kind: CollectionKind,
    pub left_field: String,
    pub right_field: String,
}

#[derive(Debug, Clone)]
pub struct PourNode {
    pub data: ObjectExpr,
}

#[derive(Debug, Clone)]
pub struct RefillNode {
    pub data: ObjectExpr,
}

#[derive(Debug, Clone)]
pub struct ObjectExpr {
    pub fields: Vec<(String, Expression)>,
}

// ── Shot

#[derive(Debug, Clone)]
pub struct ShotNode {
    pub queries: Vec<QueryNode>,
}

// ── Grind

#[derive(Debug, Clone)]
pub struct GrindNode {
    pub collection: String,
    pub kind: CollectionKind,
    pub schema: Option<Vec<SchemaField>>,
    pub flex: bool,
}

#[derive(Debug, Clone)]
pub struct SchemaField {
    pub name: String,
    pub data_type: DataType,
    pub constraints: Vec<Constraint>,
}

// ── Menu

#[derive(Debug, Clone)]
pub struct MenuNode {
    pub collection: Option<(String, CollectionKind)>,
}

// ── Expression

#[derive(Debug)]
pub enum Expression {
    // Literals
    Int(i64),
    /// A float literal, by its IEEE-754 bit pattern.
    Float(u64),
    Text(String),
    Bool(bool),
    Null,
    // Fields
    Field(String),
    NestedField(Vec<String>),
    // Binary ops
    Binary { left: Box<Expression>, op: BinaryOp, right: Box<Expression> },
    // Logical
    And(Vec<Expression>),
    Or(Vec<Expression>),
    Not(Box<Expression>),
    // Geospatial
    Near { field: String, lat: Number, lon: Number, distance: Distance },
    // Similarity
    Like { field: String, query: String, threshold: Number },
    // Array contains
    Has { field: String, value: Box<Expression> },
    // Time window
    Last { field: String, duration: Duration },
    // Field exists check
    Exists { field: String },
    // Function calls
    FnCall { name: String, args: Vec<Expression> },
    Wildcard,
}

#[derive(Debug, Clone, Copy, PartialEq, Eq, Structural)]
pub enum BinaryOp {
    Eq,
    NotEq,
    Gt,
    Lt,
    Gte,
    Lte,
}

// ── The model

/// An expression, with its strings as character sequences.
#[verifier::ext_equal]
pub enum SpecExpr {
    Int(i64),
    Float(u64),
    Text(Seq<char>),
    Bool(bool),
    Null,
    Field(Seq<char>),
    NestedField(Seq<Seq<char>>),
    Binary { left: Box<SpecExpr>, op: BinaryOp, right: Box<SpecExpr> },
    And(Seq<SpecExpr>),
    Or(Seq<SpecExpr>),
    Not(Box<SpecExpr>),
    Near { field: Seq<char>, lat: Number, lon: Number, distance: Distance },
    Like { field: Seq<char>, query: Seq<char>, threshold: Number },
    Has { field: Seq<char>, value: Box<SpecExpr> },
    Last { field: Seq<char>, duration: Duration },
    Exists { field: Seq<char> },
    FnCall { name: Seq<char>, args: Seq<SpecExpr> },
    Wildcard,
}

#[verifier::ext_equal]
pub enum SpecFieldExpr {
    Simple(Seq<char>),
    Nested(Seq<Seq<char>>),
    CrossStructured(Seq<char>, Seq<char>),
    CrossUnstructured(Seq<char>, Seq<char>),
    Aggregate { func: AggFunc, field: Option<Seq<char>>, alias: Seq<char> },
    Wildcard,
}

#[verifier::ext_equal]
pub enum SpecChainOp {
    Where { condition: SpecExpr },
    Give { fields: Seq<SpecFieldExpr> },
    Sort { field: Seq<char>, direction: SortDir },
    Cup { limit: u64 },
    Blend { field: Seq<char> },
    Mix { collection: Seq<char>, kind: CollectionKind, left_field: Seq<char>, right_field: Seq<char> },
    Pour { data: Seq<(Seq<char>, SpecExpr)> },
    Refill { data: Seq<(Seq<char>, SpecExpr)> },
    Spill,
}

#[verifier::ext_equal]
pub struct SpecQuery {
    pub collection: Seq<char>,
    pub kind: CollectionKind,
    pub chain: Seq<SpecChainOp>,
}

#[verifier::ext_equal]
pub struct SpecSchemaField {
    pub name: Seq<char>,
    pub data_type: DataType,
    pub constraints: Seq<Constraint>,
}

#[verifier::ext_equal]
#[allow(inconsistent_fields)]
pub enum SpecStatement {
    Query(SpecQuery),
    Shot { queries: Seq<SpecQuery> },
    Grind {
        collection: Seq<char>,
        kind: CollectionKind,
        schema: Option<Seq<SpecSchemaField>>,
        flex: bool,
    },
    Menu { collection: Option<(Seq<char>, CollectionKind)> },
}

pub open spec fn strings_view(s: Seq<String>) -> Seq<Seq<char>> {
    s.map_values(|x: String| x@)
}

pub open spec fn opt_string_view(o: Option<String>) -> Option<Seq<char>> {
    match o {
        Some(s) => Some(s@),
        None => None,
    }
}

pub open spec fn expr_view(e: Expression) -> SpecExpr
    decreases e,
{
    match e {
        Expression::Int(n) => SpecExpr::Int(n),
        Expression::Float(f) => SpecExpr::Float(f),
        Expression::Text(s) => SpecExpr::Text(s@),
        Expression::Bool(b) => SpecExpr::Bool(b),
        Expression::Null => SpecExpr::Null,
        Expression::Field(s) => SpecExpr::Field(s@),
        Expression::NestedField(v) => SpecExpr::NestedField(strings_view(v@)),
        Expression::Binary { left, op, right } => SpecExpr::Binary {
            left: Box::new(expr_view(*left)),
            op,
            right: Box::new(expr_view(*right)),
        },
        Expression::And(v) => SpecExpr::And(exprs_view(v@)),
        Expression::Or(v) => SpecExpr::Or(exprs_view(v@)),
        Expression::Not(x) => SpecExpr::Not(Box::new(expr_view(*x))),
        Expression::Near { field, lat, lon, distance } => SpecExpr::Near {
            field: field@,
            lat,
            lon,
            distance,
        },
        Expression::Like { field, query, threshold } => SpecExpr::Like {
            field: field@,
            query: query@,
            threshold,
        },
        Expression::Has { field, value } => SpecExpr::Has {
            field: field@,
            value: Box::new(expr_view(*value)),
        },
        Expression::Last { field, duration } => SpecExpr::Last { field: field@, duration },
        Expression::Exists { field } => SpecExpr::Exists { field: field@ },
        Expression::FnCall { name, args } => SpecExpr::FnCall { name: name@, args: exprs_view(args@) },
        Expression::Wildcard => SpecExpr::Wildcard,
    }
}

pub open spec fn exprs_view(s: Seq<Expression>) -> Seq<SpecExpr>
    decreases s,
{
    if s.len() == 0 {
        Seq::empty()
    } else {
        exprs_view(s.subrange(0, s.len() - 1)).push(expr_view(s[s.len() - 1]))
    }
}

pub proof fn lemma_exprs_view_push(s: Seq<Expression>, x: Expression)
    ensures
        exprs_view(s.push(x)) == exprs_view(s).push(expr_view(x)),
{
    assert(s.push(x).subrange(0, s.len() as int) =~= s);
}

pub proof fn lemma_exprs_view_index(s: Seq<Expression>)
    ensures
        exprs_view(s).len() == s.len(),
        forall|i: int| 0 <= i < s.len() ==> #[trigger] exprs_view(s)[i] == expr_view(s[i]),
    decreases s.len(),
{
    if s.len() > 0 {
        let t = s.subrange(0, s.len() - 1);
        lemma_exprs_view_index(t);
        assert forall|i: int| 0 <= i < s.len() implies #[trigger] exprs_view(s)[i] == expr_view(s[i]) by {
            if i < s.len() - 1 {
                assert(t[i] == s[i]);
            }
        }
    }
}

impl View for Expression {
    type V = SpecExpr;

    open spec fn view(&self) -> SpecExpr {
        expr_view(*self)
    }
}

fn copy_strings(v: &Vec<String>) -> (r: Vec<String>)
    ensures
        r@ == v@,
{
    let mut r: Vec<String> = Vec::new();
    let mut i: usize = 0;
    while i < v.len()
        invariant
            i <= v.len(),
            r@ == v@.subrange(0, i as int),
        decreases v.len() - i,
    {
        r.push(v[i].clone());
        i = i + 1;
    }
    assert(r@ =~= v@);
    r
}

/// A deep copy of an expression.
fn copy_expr(e: &Expression) -> (r: Expression)
    ensures
        r@ == e@,
    decreases e,
{
    match e {
        Expression::Int(n) => Expression::Int(*n),
        Expression::Float(f) => Expression::Float(*f),
        Expression::Text(s) => Expression::Text(s.clone()),
        Expression::Bool(b) => Expression::Bool(*b),
        Expression::Null => Expression::Null,
        Expression::Field(s) => Expression::Field(s.clone()),
        Expression::NestedField(v) => {
            let c = copy_strings(v);
            Expression::NestedField(c)
        },
        Expression::Binary { left, op, right } => Expression::Binary {
            left: Box::new(copy_expr(left)),
            op: *op,
            right: Box::new(copy_expr(right)),
        },
        Expression::And(v) => Expression::And(copy_exprs(v)),
        Expression::Or(v) => Expression::Or(copy_exprs(v)),
        Expression::Not(x) => Expression::Not(Box::new(copy_expr(x))),
        Expression::Near { field, lat, lon, distance } => Expression::Near {
            field: field.clone(),
            lat: *lat,
            lon: *lon,
            distance: *distance,
        },
        Expression::Like { field, query, threshold } => Expression::Like {
            field: field.clone(),
            query: query.clone(),
            threshold: *threshold,
        },
        Expression::Has { field, value } => Expression::Has {
            field: field.clone(),
            value: Box::new(copy_expr(value)),
        },
        Expression::Last { field, duration } => Expression::Last {
            field: field.clone(),
            duration: *duration,
        },
        Expression::Exists { field } => Expression::Exists { field: field.clone() },
        Expression::FnCall { name, args } => Expression::FnCall {
            name: name.clone(),
            args: copy_exprs(args),
        },
        Expression::Wildcard => Expression::Wildcard,
    }
}

fn copy_exprs(v: &Vec<Expression>) -> (r: Vec<Expression>)
    ensures
        exprs_view(r@) == exprs_view(v@),
    decreases v,
{
    let mut r: Vec<Expression> = Vec::new();
    let mut i: usize = 0;
    while i < v.len()
        invariant
            i <= v.len(),
            exprs_view(r@) == exprs_view(v@.subrange(0, i as int)),
        decreases v.len() - i,
    {
        assert(v@.subrange(0, i + 1).subrange(0, i as int) =~= v@.subrange(0, i as int));
        let c = copy_expr(&v[i]);
        proof {
            lemma_exprs_view_push(r@, c);
        }
        r.push(c);
        i = i + 1;
    }
    assert(v@.subrange(0, v.len() as int) =~= v@);
    r
}

impl Clone for Expression {
    fn clone(&self) -> (r: Self)
        ensures
            r@ == self@,
    {
        copy_expr(self)
    }
}

impl View for FieldExpr {
    type V = SpecFieldExpr;

    open spec fn view(&self) -> SpecFieldExpr {
        match *self {
            FieldExpr::Simple(s) => SpecFieldExpr::Simple(s@),
            FieldExpr::Nested(v) => SpecFieldExpr::Nested(strings_view(v@)),
            FieldExpr::CrossStructured(a, b) => SpecFieldExpr::CrossStructured(a@, b@),
            FieldExpr::CrossUnstructured(a, b) => SpecFieldExpr::CrossUnstructured(a@, b@),
            FieldExpr::Aggregate { func, field, alias } => SpecFieldExpr::Aggregate {
                func,
                field: opt_string_view(field),
                alias: alias@,
            },
            FieldExpr::Wildcard => SpecFieldExpr::Wildcard,
        }
    }
}

pub open spec fn field_exprs_view(s: Seq<FieldExpr>) -> Seq<SpecFieldExpr> {
    s.map_values(|f: FieldExpr| f@)
}

pub open spec fn object_view(fields: Seq<(String, Expression)>) -> Seq<(Seq<char>, SpecExpr)> {
    fields.map_values(|kv: (String, Expression)| (kv.0@, kv.1@))
}

impl View for ObjectExpr {
    type V = Seq<(Seq<char>, SpecExpr)>;

    open spec fn view(&self) -> Seq<(Seq<char>, SpecExpr)> {
        object_view(self.fields@)
    }
}

impl View for ChainOp {
    type V = SpecChainOp;

    open spec fn view(&self) -> SpecChainOp {
        match *self {
            ChainOp::Where(n) => SpecChainOp::Where { condition: n.condition@ },
            ChainOp::Give(n) => SpecChainOp::Give { fields: field_exprs_view(n.fields@) },
            ChainOp::Sort(n) => SpecChainOp::Sort { field: n.field@, direction: n.direction },
            ChainOp::Cup(n) => SpecChainOp::Cup { limit: n.limit },
            ChainOp::Blend(n) => SpecChainOp::Blend { field: n.field@ },
            ChainOp::Mix(n) => SpecChainOp::Mix {
                collection: n.collection@,
                kind: n.kind,
                left_field: n.left_field@,
                right_field: n.right_field@,
            },
            ChainOp::Pour(n) => SpecChainOp::Pour { data: n.data@ },
            ChainOp::Refill(n) => SpecChainOp::Refill { data: n.data@ },
            ChainOp::Spill => SpecChainOp::Spill,
        }
    }
}

pub open spec fn chain_view(s: Seq<ChainOp>) -> Seq<SpecChainOp> {
    s.map_values(|c: ChainOp| c@)
}

impl View for QueryNode {
    type V = SpecQuery;

    open spec fn view(&self) -> SpecQuery {
        SpecQuery { collection: self.collection@, kind: self.kind, chain: chain_view(self.chain@) }
    }
}

pub open spec fn queries_view(s: Seq<QueryNode>) -> Seq<SpecQuery> {
    s.map_values(|q: QueryNode| q@)
}

impl View for SchemaField {
    type V = SpecSchemaField;

    open spec fn view(&self) -> SpecSchemaField {
        SpecSchemaField {
            name: self.name@,
            data_type: self.data_type,
            constraints: self.constraints@,
        }
    }
}

pub open spec fn schema_view(s: Seq<SchemaField>) -> Seq<SpecSchemaField> {
    s.map_values(|f: SchemaField| f@)
}

impl View for Statement {
    type V = SpecStatement;

    open spec fn view(&self) -> SpecStatement {
        match *self {
            Statement::Query(q) => SpecStatement::Query(q@),
            Statement::Shot(s) => SpecStatement::Shot { queries: queries_view(s.queries@) },
            Statement::Grind(g) => SpecStatement::Grind {
                collection: g.collection@,
                kind: g.kind,
                schema: match g.schema {
                    Some(v) => Some(schema_view(v@)),
                    None => None,
                },
                flex: g.flex,
            },
            Statement::Menu(m) => SpecStatement::Menu {
                collection: match m.collection {
                    Some((n, k)) => Some((n@, k)),
                    None => None,
                },
            },
        }
    }
}

pub open spec fn statements_view(s: Seq<Statement>) -> Seq<SpecStatement> {
    s.map_values(|x: Statement| x@)
}

} // verus!
