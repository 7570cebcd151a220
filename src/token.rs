use vstd::prelude::*;
use vstd::string::StringExecFns;
use crate::chars::{push_signed_decimal, signed_decimal};

verus! {

/// What a token is. The kind alone determines both the lexeme's shape and, for literals,
/// the decoded value.
#[derive(Debug, Clone, PartialEq)]
pub enum Kind {
    /// An identifier, such as `foo`.
    Identifier(String),
    /// An integer literal, already decoded.
    Integer(i64),
    /// A floating-point literal, kept as its validated decimal text (with a leading `-` when negative).
    Float(String),
    /// A string literal, with its escapes decoded.
    String(String),
    Plus,
    Increment,
    AddAssign,
    Minus,
    Decrement,
    SubtractAssign,
    Star,
    Power,
    MultiplyAssign,
    Slash,
    DivisionAssign,
    Percent,
    ModuloAssign,
    BitwiseXor,
    BitwiseXorAssign,
    LogicalNot,
    NotEqual,
    Assign,
    Equality,
    LessThan,
    BitwiseLeftShift,
    BitwiseLeftShiftAssign,
    LessThanOrEqual,
    GreaterThan,
    BitwiseRightShift,
    BitwiseRightShiftAssign,
    GreaterThanOrEqual,
    BitwiseAnd,
    LogicalAnd,
    BitwiseAndAssign,
    BitwiseOr,
    BitwiseOrAssign,
    LogicalOr,
    LeftParenthesis,
    RightParenthesis,
    LeftCurlyBrace,
    RightCurlyBrace,
    LeftBracket,
    RightBracket,
    Comma,
    Dot,
    Colon,
    Semicolon,
    Arrow,
    True,
    False,
    If,
    Else,
    While,
    For,
    Range,
    To,
    Break,
    Continue,
    Return,
    Function,
    Variable,
    /// A comment; it never leaves the lexer.
    Comment,
    /// The end of the input.
    EndOfFile,
}

impl Kind {
    /// Whether the kind carries no payload.
    pub open spec fn is_plain(self) -> bool {
        !(self is Identifier || self is Integer || self is Float || self is String)
    }

    /// Two kinds are the same variant, with payloads of equal contents.
    pub open spec fn same(self, other: Kind) -> bool {
        match (self, other) {
            (Kind::Identifier(a), Kind::Identifier(b)) => a@ == b@,
            (Kind::Integer(a), Kind::Integer(b)) => a == b,
            (Kind::Float(a), Kind::Float(b)) => a@ == b@,
            (Kind::String(a), Kind::String(b)) => a@ == b@,
            _ => self.is_plain() && other.is_plain() && self == other,
        }
    }

    /// A copy of the kind.
    pub fn duplicate(&self) -> (r: Kind)
        ensures
            r.same(*self),
            self.is_plain() ==> r == *self,
    {
        match self {
            Kind::Identifier(s) => Kind::Identifier(s.clone()),
            Kind::Integer(v) => Kind::Integer(*v),
            Kind::Float(s) => Kind::Float(s.clone()),
            Kind::String(s) => Kind::String(s.clone()),
            Kind::Plus => Kind::Plus,
            Kind::Increment => Kind::Increment,
            Kind::AddAssign => Kind::AddAssign,
            Kind::Minus => Kind::Minus,
            Kind::Decrement => Kind::Decrement,
            Kind::SubtractAssign => Kind::SubtractAssign,
            Kind::Star => Kind::Star,
            Kind::Power => Kind::Power,
            Kind::MultiplyAssign => Kind::MultiplyAssign,
            Kind::Slash => Kind::Slash,
            Kind::DivisionAssign => Kind::DivisionAssign,
            Kind::Percent => Kind::Percent,
            Kind::ModuloAssign => Kind::ModuloAssign,
            Kind::BitwiseXor => Kind::BitwiseXor,
            Kind::BitwiseXorAssign => Kind::BitwiseXorAssign,
            Kind::LogicalNot => Kind::LogicalNot,
            Kind::NotEqual => Kind::NotEqual,
            Kind::Assign => Kind::Assign,
            Kind::Equality => Kind::Equality,
            Kind::LessThan => Kind::LessThan,
            Kind::BitwiseLeftShift => Kind::BitwiseLeftShift,
            Kind::BitwiseLeftShiftAssign => Kind::BitwiseLeftShiftAssign,
            Kind::LessThanOrEqual => Kind::LessThanOrEqual,
            Kind::GreaterThan => Kind::GreaterThan,
            Kind::BitwiseRightShift => Kind::BitwiseRightShift,
            Kind::BitwiseRightShiftAssign => Kind::BitwiseRightShiftAssign,
            Kind::GreaterThanOrEqual => Kind::GreaterThanOrEqual,
            Kind::BitwiseAnd => Kind::BitwiseAnd,
            Kind::LogicalAnd => Kind::LogicalAnd,
            Kind::BitwiseAndAssign => Kind::BitwiseAndAssign,
            Kind::BitwiseOr => Kind::BitwiseOr,
            Kind::BitwiseOrAssign => Kind::BitwiseOrAssign,
            Kind::LogicalOr => Kind::LogicalOr,
            Kind::LeftParenthesis => Kind::LeftParenthesis,
            Kind::RightParenthesis => Kind::RightParenthesis,
            Kind::LeftCurlyBrace => Kind::LeftCurlyBrace,
            Kind::RightCurlyBrace => Kind::RightCurlyBrace,
            Kind::LeftBracket => Kind::LeftBracket,
            Kind::RightBracket => Kind::RightBracket,
            Kind::Comma => Kind::Comma,
            Kind::Dot => Kind::Dot,
            Kind::Colon => Kind::Colon,
            Kind::Semicolon => Kind::Semicolon,
            Kind::Arrow => Kind::Arrow,
            Kind::True => Kind::True,
            Kind::False => Kind::False,
            Kind::If => Kind::If,
            Kind::Else => Kind::Else,
            Kind::While => Kind::While,
            Kind::For => Kind::For,
            Kind::Range => Kind::Range,
            Kind::To => Kind::To,
            Kind::Break => Kind::Break,
            Kind::Continue => Kind::Continue,
            Kind::Return => Kind::Return,
            Kind::Function => Kind::Function,
            Kind::Variable => Kind::Variable,
            Kind::Comment => Kind::Comment,
            Kind::EndOfFile => Kind::EndOfFile,
        }
    }

    /// Whether `self` is the payload-free kind `plain`.
    pub fn is(&self, plain: &Kind) -> (r: bool)
        requires
            plain.is_plain(),
        ensures
            r == (*self == *plain),
    {
        match (self, plain) {
            (Kind::Plus, Kind::Plus) => true,
            (Kind::Increment, Kind::Increment) => true,
            (Kind::AddAssign, Kind::AddAssign) => true,
            (Kind::Minus, Kind::Minus) => true,
            (Kind::Decrement, Kind::Decrement) => true,
            (Kind::SubtractAssign, Kind::SubtractAssign) => true,
            (Kind::Star, Kind::Star) => true,
            (Kind::Power, Kind::Power) => true,
            (Kind::MultiplyAssign, Kind::MultiplyAssign) => true,
            (Kind::Slash, Kind::Slash) => true,
            (Kind::DivisionAssign, Kind::DivisionAssign) => true,
            (Kind::Percent, Kind::Percent) => true,
            (Kind::ModuloAssign, Kind::ModuloAssign) => true,
            (Kind::BitwiseXor, Kind::BitwiseXor) => true,
            (Kind::BitwiseXorAssign, Kind::BitwiseXorAssign) => true,
            (Kind::LogicalNot, Kind::LogicalNot) => true,
            (Kind::NotEqual, Kind::NotEqual) => true,
            (Kind::Assign, Kind::Assign) => true,
            (Kind::Equality, Kind::Equality) => true,
            (Kind::LessThan, Kind::LessThan) => true,
            (Kind::BitwiseLeftShift, Kind::BitwiseLeftShift) => true,
            (Kind::BitwiseLeftShiftAssign, Kind::BitwiseLeftShiftAssign) => true,
            (Kind::LessThanOrEqual, Kind::LessThanOrEqual) => true,
            (Kind::GreaterThan, Kind::GreaterThan) => true,
            (Kind::BitwiseRightShift, Kind::BitwiseRightShift) => true,
            (Kind::BitwiseRightShiftAssign, Kind::BitwiseRightShiftAssign) => true,
            (Kind::GreaterThanOrEqual, Kind::GreaterThanOrEqual) => true,
            (Kind::BitwiseAnd, Kind::BitwiseAnd) => true,
            (Kind::LogicalAnd, Kind::LogicalAnd) => true,
            (Kind::BitwiseAndAssign, Kind::BitwiseAndAssign) => true,
            (Kind::BitwiseOr, Kind::BitwiseOr) => true,
            (Kind::BitwiseOrAssign, Kind::BitwiseOrAssign) => true,
            (Kind::LogicalOr, Kind::LogicalOr) => true,
            (Kind::LeftParenthesis, Kind::LeftParenthesis) => true,
            (Kind::RightParenthesis, Kind::RightParenthesis) => true,
            (Kind::LeftCurlyBrace, Kind::LeftCurlyBrace) => true,
            (Kind::RightCurlyBrace, Kind::RightCurlyBrace) => true,
            (Kind::LeftBracket, Kind::LeftBracket) => true,
            (Kind::RightBracket, Kind::RightBracket) => true,
            (Kind::Comma, Kind::Comma) => true,
            (Kind::Dot, Kind::Dot) => true,
            (Kind::Colon, Kind::Colon) => true,
            (Kind::Semicolon, Kind::Semicolon) => true,
            (Kind::Arrow, Kind::Arrow) => true,
            (Kind::True, Kind::True) => true,
            (Kind::False, Kind::False) => true,
            (Kind::If, Kind::If) => true,
            (Kind::Else, Kind::Else) => true,
            (Kind::While, Kind::While) => true,
            (Kind::For, Kind::For) => true,
            (Kind::Range, Kind::Range) => true,
            (Kind::To, Kind::To) => true,
            (Kind::Break, Kind::Break) => true,
            (Kind::Continue, Kind::Continue) => true,
            (Kind::Return, Kind::Return) => true,
            (Kind::Function, Kind::Function) => true,
            (Kind::Variable, Kind::Variable) => true,
            (Kind::Comment, Kind::Comment) => true,
            (Kind::EndOfFile, Kind::EndOfFile) => true,
            _ => false,
        }
    }
}

/// A token: its kind and the source position of its first character (1-based line and
/// column).
#[derive(Debug, Clone, PartialEq)]
pub struct Token {
    pub kind: Kind,
    pub line: usize,
    pub column: usize,
}

impl Token {
    /// Creates a token.
    pub fn new(kind: Kind, line: usize, column: usize) -> (r: Token)
        ensures
            r == (Token { kind, line, column }),
    {
        Token { kind, line, column }
    }

    /// Two tokens have the same kind and position.
    pub open spec fn same(self, other: Token) -> bool {
        self.kind.same(other.kind) && self.line == other.line && self.column == other.column
    }

    /// A copy of the token.
    pub fn duplicate(&self) -> (r: Token)
        ensures
            r.same(*self),
            self.kind.is_plain() ==> r == *self,
    {
        Token { kind: self.kind.duplicate(), line: self.line, column: self.column }
    }
}


/// The text of a token kind: an identifier's name, a literal's value, an operator's or
/// punctuation mark's spelling, a keyword's name; nothing for a comment or the end of file.
pub open spec fn kind_text(k: Kind) -> Seq<char> {
    match k {
        Kind::Identifier(s) => s@,
        Kind::Integer(v) => signed_decimal(v as int),
        Kind::Float(t) => t@,
        Kind::String(s) => s@,
        Kind::Plus => "+"@,
        Kind::Increment => "++"@,
        Kind::AddAssign => "+="@,
        Kind::Minus => "-"@,
        Kind::Decrement => "--"@,
        Kind::SubtractAssign => "-="@,
        Kind::Star => "*"@,
        Kind::Power => "**"@,
        Kind::MultiplyAssign => "*="@,
        Kind::Slash => "/"@,
        Kind::DivisionAssign => "/="@,
        Kind::Percent => "%"@,
        Kind::ModuloAssign => "%="@,
        Kind::BitwiseXor => "^"@,
        Kind::BitwiseXorAssign => "^="@,
        Kind::LogicalNot => "!"@,
        Kind::NotEqual => "!="@,
        Kind::Assign => "="@,
        Kind::Equality => "=="@,
        Kind::LessThan => "<"@,
        Kind::BitwiseLeftShift => "<<"@,
        Kind::BitwiseLeftShiftAssign => "<<="@,
        Kind::LessThanOrEqual => "<="@,
        Kind::GreaterThan => ">"@,
        Kind::BitwiseRightShift => ">>"@,
        Kind::BitwiseRightShiftAssign => ">>="@,
        Kind::GreaterThanOrEqual => ">="@,
        Kind::BitwiseAnd => "&"@,
        Kind::LogicalAnd => "&&"@,
        Kind::BitwiseAndAssign => "&="@,
        Kind::BitwiseOr => "|"@,
        Kind::BitwiseOrAssign => "|="@,
        Kind::LogicalOr => "||"@,
        Kind::LeftParenthesis => "("@,
        Kind::RightParenthesis => ")"@,
        Kind::LeftCurlyBrace => "{"@,
        Kind::RightCurlyBrace => "}"@,
        Kind::LeftBracket => "["@,
        Kind::RightBracket => "]"@,
        Kind::Comma => ","@,
        Kind::Dot => "."@,
        Kind::Colon => ":"@,
        Kind::Semicolon => ";"@,
        Kind::Arrow => "->"@,
        Kind::True => "true"@,
        Kind::False => "false"@,
        Kind::If => "if"@,
        Kind::Else => "else"@,
        Kind::While => "while"@,
        Kind::For => "for"@,
        Kind::Range => "in"@,
        Kind::To => "to"@,
        Kind::Break => "break"@,
        Kind::Continue => "continue"@,
        Kind::Return => "return"@,
        Kind::Function => "function"@,
        Kind::Variable => "variable"@,
        Kind::Comment | Kind::EndOfFile => seq![],
    }
}

impl Kind {
    /// The text of the kind (see `kind_text`).
    pub fn text(&self) -> (r: String)
        ensures
            r@ == kind_text(*self),
    {
        match self {
            Kind::Identifier(s) => s.clone(),
            Kind::Integer(v) => {
                let mut r = String::new();
                push_signed_decimal(&mut r, *v);
                r
            },
            Kind::Float(t) => t.clone(),
            Kind::String(s) => s.clone(),
            Kind::Plus => String::from_str("+"),
            Kind::Increment => String::from_str("++"),
            Kind::AddAssign => String::from_str("+="),
            Kind::Minus => String::from_str("-"),
            Kind::Decrement => String::from_str("--"),
            Kind::SubtractAssign => String::from_str("-="),
            Kind::Star => String::from_str("*"),
            Kind::Power => String::from_str("**"),
            Kind::MultiplyAssign => String::from_str("*="),
            Kind::Slash => String::from_str("/"),
            Kind::DivisionAssign => String::from_str("/="),
            Kind::Percent => String::from_str("%"),
            Kind::ModuloAssign => String::from_str("%="),
            Kind::BitwiseXor => String::from_str("^"),
            Kind::BitwiseXorAssign => String::from_str("^="),
            Kind::LogicalNot => String::from_str("!"),
            Kind::NotEqual => String::from_str("!="),
            Kind::Assign => String::from_str("="),
            Kind::Equality => String::from_str("=="),
            Kind::LessThan => String::from_str("<"),
            Kind::BitwiseLeftShift => String::from_str("<<"),
            Kind::BitwiseLeftShiftAssign => String::from_str("<<="),
            Kind::LessThanOrEqual => String::from_str("<="),
            Kind::GreaterThan => String::from_str(">"),
            Kind::BitwiseRightShift => String::from_str(">>"),
            Kind::BitwiseRightShiftAssign => String::from_str(">>="),
            Kind::GreaterThanOrEqual => String::from_str(">="),
            Kind::BitwiseAnd => String::from_str("&"),
            Kind::LogicalAnd => String::from_str("&&"),
            Kind::BitwiseAndAssign => String::from_str("&="),
            Kind::BitwiseOr => String::from_str("|"),
            Kind::BitwiseOrAssign => String::from_str("|="),
            Kind::LogicalOr => String::from_str("||"),
            Kind::LeftParenthesis => String::from_str("("),
            Kind::RightParenthesis => String::from_str(")"),
            Kind::LeftCurlyBrace => String::from_str("{"),
            Kind::RightCurlyBrace => String::from_str("}"),
            Kind::LeftBracket => String::from_str("["),
            Kind::RightBracket => String::from_str("]"),
            Kind::Comma => String::from_str(","),
            Kind::Dot => String::from_str("."),
            Kind::Colon => String::from_str(":"),
            Kind::Semicolon => String::from_str(";"),
            Kind::Arrow => String::from_str("->"),
            Kind::True => String::from_str("true"),
            Kind::False => String::from_str("false"),
            Kind::If => String::from_str("if"),
            Kind::Else => String::from_str("else"),
            Kind::While => String::from_str("while"),
            Kind::For => String::from_str("for"),
            Kind::Range => String::from_str("in"),
            Kind::To => String::from_str("to"),
            Kind::Break => String::from_str("break"),
            Kind::Continue => String::from_str("continue"),
            Kind::Return => String::from_str("return"),
            Kind::Function => String::from_str("function"),
            Kind::Variable => String::from_str("variable"),
            Kind::Comment | Kind::EndOfFile => String::new(),
        }
    }
}

} // verus!
