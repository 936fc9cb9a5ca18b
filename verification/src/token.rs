//! The tokens that the parser reads, with the small value types they carry.

use vstd::prelude::*;

verus! {

/// Whether a collection is structured (`users[]`) or unstructured (`products{}`).
#[derive(Debug, Clone, Copy, PartialEq, Eq, Structural)]
pub enum CollectionKind {
    Structured,
    Unstructured,
}

/// Direction of a `.sort()`.
#[derive(Debug, Clone, Copy, PartialEq, Eq, Structural)]
pub enum SortDir {
    Asc,
    Desc,
}

/// Column type in a `grind` schema.
#[derive(Debug, Clone, Copy, PartialEq, Eq, Structural)]
pub enum DataType {
    Uuid,
    Text,
    Int,
    Float,
    Bool,
    DateTime,
    GeoPoint,
    Vector,
}

/// Column constraint in a `grind` schema.
#[derive(Debug, Clone, Copy, PartialEq, Eq, Structural)]
pub enum Constraint {
    PrimaryKey,
    Unique,
    Required,
    Indexed,
}

/// A numeric literal as written: an integer, or a 64-bit IEEE-754 float held
/// by its bit pattern.
#[derive(Debug, Clone, Copy, PartialEq, Eq, Structural)]
pub enum Number {
    Int(i64),
    Float(u64),
}

/// Unit of a distance such as `5km`.
#[derive(Debug, Clone, Copy, PartialEq, Eq, Structural)]
pub enum DistanceUnit {
    Meters,
    Kilometers,
    Miles,
}

/// A distance literal such as `5km`.
#[derive(Debug, Clone, Copy, PartialEq, Eq, Structural)]
pub struct Distance {
    pub value: Number,
    pub unit: DistanceUnit,
}

/// Unit of a duration such as `7d`.
#[derive(Debug, Clone, Copy, PartialEq, Eq, Structural)]
pub enum DurationUnit {
    Seconds,
    Minutes,
    Hours,
    Days,
    Weeks,
}

/// A duration literal such as `7d`.
#[derive(Debug, Clone, Copy, PartialEq, Eq, Structural)]
pub struct Duration {
    pub amount: u64,
    pub unit: DurationUnit,
}

impl View for Number {
    type V = Number;

    open spec fn view(&self) -> Number {
        *self
    }
}

impl View for Distance {
    type V = Distance;

    open spec fn view(&self) -> Distance {
        *self
    }
}

impl View for Duration {
    type V = Duration;

    open spec fn view(&self) -> Duration {
        *self
    }
}

/// A CoffeeQL token.
#[derive(Debug)]
pub enum Token {
    // Statements
    Collection { name: String, kind: CollectionKind },
    Shot,
    Grind,
    Menu,
    Flex,
    // Chain methods
    Where,
    Give,
    Sort,
    Cup,
    Blend,
    Mix,
    Pour,
    Refill,
    Spill,
    // Keywords
    Asc,
    Desc,
    On,
    As,
    Exists,
    // Literals and names
    Identifier(String),
    Text(String),
    Int(i64),
    Float(u64),
    Bool(bool),
    Null,
    DataType(DataType),
    Constraint(Constraint),
    Distance(Distance),
    Duration(Duration),
    // Built-in functions
    FnUuid,
    FnNow,
    FnToday,
    FnCount,
    FnSum,
    FnAvg,
    FnMax,
    FnMin,
    // Field methods
    MethodNear,
    MethodLike,
    MethodThreshold,
    MethodHas,
    MethodLast,
    // Operators
    Eq,
    NotEq,
    Gt,
    Lt,
    Gte,
    Lte,
    Bang,
    Pipe,
    Wildcard,
    // Punctuation
    Dot,
    Comma,
    Colon,
    LParen,
    RParen,
    LBrace,
    RBrace,
    LBracket,
    RBracket,
    Eof,
}

impl Clone for Token {
    fn clone(&self) -> (r: Self)
        ensures
            r == *self,
    {
        match self {
            Token::Collection { name, kind } => Token::Collection { name: name.clone(), kind: *kind },
            Token::Shot => Token::Shot,
            Token::Grind => Token::Grind,
            Token::Menu => Token::Menu,
            Token::Flex => Token::Flex,
            Token::Where => Token::Where,
            Token::Give => Token::Give,
            Token::Sort => Token::Sort,
            Token::Cup => Token::Cup,
            Token::Blend => Token::Blend,
            Token::Mix => Token::Mix,
            Token::Pour => Token::Pour,
            Token::Refill => Token::Refill,
            Token::Spill => Token::Spill,
            Token::Asc => Token::Asc,
            Token::Desc => Token::Desc,
            Token::On => Token::On,
            Token::As => Token::As,
            Token::Exists => Token::Exists,
            Token::Identifier(s) => Token::Identifier(s.clone()),
            Token::Text(s) => Token::Text(s.clone()),
            Token::Int(n) => Token::Int(*n),
            Token::Float(f) => Token::Float(*f),
            Token::Bool(b) => Token::Bool(*b),
            Token::Null => Token::Null,
            Token::DataType(d) => Token::DataType(*d),
            Token::Constraint(c) => Token::Constraint(*c),
            Token::Distance(d) => Token::Distance(*d),
            Token::Duration(d) => Token::Duration(*d),
            Token::FnUuid => Token::FnUuid,
            Token::FnNow => Token::FnNow,
            Token::FnToday => Token::FnToday,
            Token::FnCount => Token::FnCount,
            Token::FnSum => Token::FnSum,
            Token::FnAvg => Token::FnAvg,
            Token::FnMax => Token::FnMax,
            Token::FnMin => Token::FnMin,
            Token::MethodNear => Token::MethodNear,
            Token::MethodLike => Token::MethodLike,
            Token::MethodThreshold => Token::MethodThreshold,
            Token::MethodHas => Token::MethodHas,
            Token::MethodLast => Token::MethodLast,
            Token::Eq => Token::Eq,
            Token::NotEq => Token::NotEq,
            Token::Gt => Token::Gt,
            Token::Lt => Token::Lt,
            Token::Gte => Token::Gte,
            Token::Lte => Token::Lte,
            Token::Bang => Token::Bang,
            Token::Pipe => Token::Pipe,
            Token::Wildcard => Token::Wildcard,
            Token::Dot => Token::Dot,
            Token::Comma => Token::Comma,
            Token::Colon => Token::Colon,
            Token::LParen => Token::LParen,
            Token::RParen => Token::RParen,
            Token::LBrace => Token::LBrace,
            Token::RBrace => Token::RBrace,
            Token::LBracket => Token::LBracket,
            Token::RBracket => Token::RBracket,
            Token::Eof => Token::Eof,
        }
    }
}

/// The tokens without payload that the parsers expect or test for at a
/// given position.
#[derive(Debug, Clone, Copy, PartialEq, Eq, Structural)]
pub enum Symbol {
    Dot,
    Comma,
    Colon,
    LParen,
    RParen,
    LBrace,
    RBrace,
    RBracket,
    Eq,
    As,
    Wildcard,
    Flex,
    MethodThreshold,
}

/// The token that a symbol stands for.
pub open spec fn symbol_token(s: Symbol) -> Token {
    match s {
        Symbol::Dot => Token::Dot,
        Symbol::Comma => Token::Comma,
        Symbol::Colon => Token::Colon,
        Symbol::LParen => Token::LParen,
        Symbol::RParen => Token::RParen,
        Symbol::LBrace => Token::LBrace,
        Symbol::RBrace => Token::RBrace,
        Symbol::RBracket => Token::RBracket,
        Symbol::Eq => Token::Eq,
        Symbol::As => Token::As,
        Symbol::Wildcard => Token::Wildcard,
        Symbol::Flex => Token::Flex,
        Symbol::MethodThreshold => Token::MethodThreshold,
    }
}

impl Symbol {
    /// The token that this symbol stands for.
    pub fn to_token(self) -> (t: Token)
        ensures
            t == symbol_token(self),
    {
        match self {
            Symbol::Dot => Token::Dot,
            Symbol::Comma => Token::Comma,
            Symbol::Colon => Token::Colon,
            Symbol::LParen => Token::LParen,
            Symbol::RParen => Token::RParen,
            Symbol::LBrace => Token::LBrace,
            Symbol::RBrace => Token::RBrace,
            Symbol::RBracket => Token::RBracket,
            Symbol::Eq => Token::Eq,
            Symbol::As => Token::As,
            Symbol::Wildcard => Token::Wildcard,
            Symbol::Flex => Token::Flex,
            Symbol::MethodThreshold => Token::MethodThreshold,
        }
    }
}

/// Whether `t` is the token that symbol `s` stands for.
pub fn is_symbol(t: &Token, s: Symbol) -> (r: bool)
    ensures
        r == (*t == symbol_token(s)),
{
    match s {
        Symbol::Dot => matches!(t, Token::Dot),
        Symbol::Comma => matches!(t, Token::Comma),
        Symbol::Colon => matches!(t, Token::Colon),
        Symbol::LParen => matches!(t, Token::LParen),
        Symbol::RParen => matches!(t, Token::RParen),
        Symbol::LBrace => matches!(t, Token::LBrace),
        Symbol::RBrace => matches!(t, Token::RBrace),
        Symbol::RBracket => matches!(t, Token::RBracket),
        Symbol::Eq => matches!(t, Token::Eq),
        Symbol::As => matches!(t, Token::As),
        Symbol::Wildcard => matches!(t, Token::Wildcard),
        Symbol::Flex => matches!(t, Token::Flex),
        Symbol::MethodThreshold => matches!(t, Token::MethodThreshold),
    }
}

/// The token at position `p` of `ts`, or `Eof` past either end.
pub open spec fn token_at(ts: Seq<Token>, p: int) -> Token {
    if 0 <= p < ts.len() {
        ts[p]
    } else {
        Token::Eof
    }
}

/// What the derived `Debug` formatting (`{:?}`) writes for a token.
pub uninterp spec fn token_debug_text(t: Token) -> Seq<char>;

/// Formats a token with `{:?}`, the std formatting machinery run on the
/// derived `Debug` impl. Claimed: the text is a fixed function of the token
/// (named `token_debug_text`); nothing more about its characters is stated.
#[verifier::external_body]
pub(crate) fn token_debug(t: &Token) -> (s: String)
    ensures
        s@ == token_debug_text(*t),
{
    format!("{:?}", t)
}

/// What `str::to_uppercase` returns: the Unicode upper-case mapping of each
/// character.
pub uninterp spec fn uppercase_text(s: Seq<char>) -> Seq<char>;

/// Calls `str::to_uppercase`. Claimed: the result is a fixed function of the
/// argument's characters (named `uppercase_text`); the Unicode tables it
/// follows are not restated.
#[verifier::external_body]
pub(crate) fn to_uppercase(s: &str) -> (r: String)
    ensures
        r@ == uppercase_text(s@),
{
    s.to_uppercase()
}

/// Character-wise equality of two strings.
pub fn str_equal(a: &str, b: &str) -> (r: bool)
    ensures
        r == (a@ == b@),
{
    let n = a.unicode_len();
    let m = b.unicode_len();
    if n != m {
        return false;
    }
    let mut i: usize = 0;
    while i < n
        invariant
            n == a@.len(),
            m == b@.len(),
            n == m,
            i <= n,
            forall|j: int| 0 <= j < i ==> a@[j] == b@[j],
        decreases n - i,
    {
        if a.get_char(i) != b.get_char(i) {
            return false;
        }
        i = i + 1;
    }
    assert(a@ =~= b@);
    true
}

} // verus!
