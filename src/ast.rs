use vstd::prelude::*;
use crate::token::{Kind, Token};

verus! {

broadcast use vstd::std_specs::vec::axiom_vec_decreases_to_view;

/// A number literal: an integer, or a float kept as its decimal text.
#[derive(Debug, Clone, PartialEq)]
pub enum Number {
    Integer(i64),
    Float(String),
}

/// A literal expression.
#[derive(Debug, Clone, PartialEq)]
pub enum Literal {
    String(String),
    Number(Number),
    Boolean(bool),
}

/// An expression. Every token it holds is kept for its position.
#[derive(Debug, PartialEq)]
pub enum Expression {
    Literal(Literal),
    Unary { operator: Token, right: Box<Expression> },
    Binary { left: Box<Expression>, operator: Token, right: Box<Expression> },
    Grouping { expression: Box<Expression> },
    Assignment { name: Token, value: Box<Expression> },
    Variable { name: Token },
    Call { callee: Box<Expression>, arguments: Vec<Expression> },
}

/// A statement.
#[derive(Debug, PartialEq)]
pub enum Statement {
    Expression { expression: Expression },
    Variable { name: Token, initializer: Option<Expression> },
    Block { statements: Vec<Statement> },
    If { condition: Expression, then_branch: Box<Statement>, else_branch: Option<Box<Statement>> },
    While { condition: Expression, body: Box<Statement> },
    For {
        initializer: Option<Box<Statement>>,
        condition: Option<Expression>,
        increment: Option<Expression>,
        body: Box<Statement>,
    },
    Break,
    Continue,
    Return { keyword: Token, value: Option<Expression> },
    Function {
        name: Token,
        parameters: Vec<(Token, Token)>,
        return_type: Option<Token>,
        body: Box<Statement>,
    },
}

/// The syntax tree of a compilation unit: its top-level statements in program order.
#[derive(Debug, PartialEq)]
pub struct AST {
    pub statements: Vec<Statement>,
}

impl AST {
    pub fn new(statements: Vec<Statement>) -> (r: AST)
        ensures
            r.statements == statements,
    {
        AST { statements }
    }
}

/// One piece of the text a tree spells: a token kind where the tree keeps no token (a
/// punctuation mark, a keyword, a literal), or the very token the tree keeps (a name, an
/// operator, a `return` keyword), position included.
pub enum Piece {
    Plain(Kind),
    Held(Token),
}

/// A piece matches an input token: a plain kind its kind, a held token the token itself.
pub open spec fn piece_matches(p: Piece, t: Token) -> bool {
    match p {
        Piece::Plain(k) => k.same(t.kind),
        Piece::Held(h) => h.same(t),
    }
}

/// The pieces that spell a literal.
pub open spec fn literal_spelling(l: Literal) -> Seq<Piece> {
    match l {
        Literal::String(s) => seq![Piece::Plain(Kind::String(s))],
        Literal::Number(Number::Integer(v)) => seq![Piece::Plain(Kind::Integer(v))],
        Literal::Number(Number::Float(t)) => seq![Piece::Plain(Kind::Float(t))],
        Literal::Boolean(b) => seq![Piece::Plain(if b { Kind::True } else { Kind::False })],
    }
}

/// The pieces that spell an expression, with the parentheses of each grouping.
pub open spec fn expression_spelling(e: Expression) -> Seq<Piece>
    decreases e,
{
    match e {
        Expression::Literal(l) => literal_spelling(l),
        Expression::Unary { operator, right } => seq![Piece::Held(operator)] + expression_spelling(*right),
        Expression::Binary { left, operator, right } => expression_spelling(*left) + seq![Piece::Held(operator)]
            + expression_spelling(*right),
        Expression::Grouping { expression } => seq![Piece::Plain(Kind::LeftParenthesis)] + expression_spelling(*expression)
            + seq![Piece::Plain(Kind::RightParenthesis)],
        Expression::Assignment { name, value } => seq![Piece::Held(name), Piece::Plain(Kind::Assign)] + expression_spelling(*value),
        Expression::Variable { name } => seq![Piece::Held(name)],
        Expression::Call { callee, arguments } => expression_spelling(*callee) + seq![Piece::Plain(Kind::LeftParenthesis)]
            + arguments_spelling(arguments@) + seq![Piece::Plain(Kind::RightParenthesis)],
    }
}

/// The pieces that spell a list of call arguments, separated by commas.
pub open spec fn arguments_spelling(args: Seq<Expression>) -> Seq<Piece>
    decreases args,
{
    if args.len() == 0 {
        seq![]
    } else if args.len() == 1 {
        expression_spelling(args[0])
    } else {
        arguments_spelling(args.drop_last()) + seq![Piece::Plain(Kind::Comma)] + expression_spelling(args.last())
    }
}

/// The pieces that spell a list of parameters `name: type`, separated by commas.
pub open spec fn parameters_spelling(ps: Seq<(Token, Token)>) -> Seq<Piece>
    decreases ps.len(),
{
    if ps.len() == 0 {
        seq![]
    } else if ps.len() == 1 {
        seq![Piece::Held(ps[0].0), Piece::Plain(Kind::Colon), Piece::Held(ps[0].1)]
    } else {
        parameters_spelling(ps.drop_last()) + seq![Piece::Plain(Kind::Comma), Piece::Held(ps.last().0), Piece::Plain(Kind::Colon), Piece::Held(ps.last().1)]
    }
}

pub open spec fn initializer_spelling(e: Option<Expression>) -> Seq<Piece> {
    match e {
        Some(e) => seq![Piece::Plain(Kind::Assign)] + expression_spelling(e),
        None => seq![],
    }
}

pub open spec fn return_type_spelling(t: Option<Token>) -> Seq<Piece> {
    match t {
        Some(t) => seq![Piece::Plain(Kind::Arrow), Piece::Held(t)],
        None => seq![],
    }
}

pub open spec fn optional_spelling(e: Option<Expression>) -> Seq<Piece> {
    match e {
        Some(e) => expression_spelling(e),
        None => seq![],
    }
}

/// The pieces that spell a statement.
pub open spec fn statement_spelling(s: Statement) -> Seq<Piece>
    decreases s,
{
    match s {
        Statement::Expression { expression } => expression_spelling(expression) + seq![Piece::Plain(Kind::Semicolon)],
        Statement::Variable { name, initializer } => seq![Piece::Plain(Kind::Variable), Piece::Held(name)] + initializer_spelling(
            initializer,
        ) + seq![Piece::Plain(Kind::Semicolon)],
        Statement::Block { statements } => seq![Piece::Plain(Kind::LeftCurlyBrace)] + statements_spelling(statements@)
            + seq![Piece::Plain(Kind::RightCurlyBrace)],
        Statement::If { condition, then_branch, else_branch } => seq![Piece::Plain(Kind::If), Piece::Plain(Kind::LeftParenthesis)]
            + expression_spelling(condition) + seq![Piece::Plain(Kind::RightParenthesis)] + statement_spelling(*then_branch)
            + match else_branch {
            Some(b) => seq![Piece::Plain(Kind::Else)] + statement_spelling(*b),
            None => seq![],
        },
        Statement::While { condition, body } => seq![Piece::Plain(Kind::While), Piece::Plain(Kind::LeftParenthesis)] + expression_spelling(
            condition,
        ) + seq![Piece::Plain(Kind::RightParenthesis)] + statement_spelling(*body),
        Statement::For { initializer, condition, increment, body } => seq![Piece::Plain(Kind::For), Piece::Plain(Kind::LeftParenthesis)]
            + match initializer {
            Some(i) => statement_spelling(*i),
            None => seq![Piece::Plain(Kind::Semicolon)],
        } + optional_spelling(condition) + seq![Piece::Plain(Kind::Semicolon)] + optional_spelling(increment) + seq![
            Piece::Plain(Kind::RightParenthesis),
        ] + statement_spelling(*body),
        Statement::Break => seq![Piece::Plain(Kind::Break), Piece::Plain(Kind::Semicolon)],
        Statement::Continue => seq![Piece::Plain(Kind::Continue), Piece::Plain(Kind::Semicolon)],
        Statement::Return { keyword, value } => seq![Piece::Held(keyword)] + optional_spelling(value) + seq![
            Piece::Plain(Kind::Semicolon),
        ],
        Statement::Function { name, parameters, return_type, body } => seq![
            Piece::Plain(Kind::Function),
            Piece::Held(name),
            Piece::Plain(Kind::LeftParenthesis),
        ] + parameters_spelling(parameters@) + seq![Piece::Plain(Kind::RightParenthesis)] + match return_type {
            Some(t) => seq![Piece::Plain(Kind::Arrow), Piece::Held(t)],
            None => seq![],
        } + statement_spelling(*body),
    }
}

/// The pieces that spell a sequence of statements.
pub open spec fn statements_spelling(ss: Seq<Statement>) -> Seq<Piece>
    decreases ss,
{
    if ss.len() == 0 {
        seq![]
    } else {
        statements_spelling(ss.drop_last()) + statement_spelling(ss.last())
    }
}

/// The precedence level of a binary operator: 6 (loosest) for `||`, 5 for `&&`, 4 for `==`
/// `!=`, 3 for `<` `<=` `>` `>=`, 2 for `+` `-`, 1 (tightest) for `*` `/` `%`; 0 for any other
/// kind.
pub open spec fn operator_level(k: Kind) -> int {
    if k == Kind::LogicalOr {
        6
    } else if k == Kind::LogicalAnd {
        5
    } else if k == Kind::Equality || k == Kind::NotEqual {
        4
    } else if k == Kind::LessThan || k == Kind::LessThanOrEqual || k == Kind::GreaterThan || k
        == Kind::GreaterThanOrEqual {
        3
    } else if k == Kind::Plus || k == Kind::Minus {
        2
    } else if k == Kind::Star || k == Kind::Slash || k == Kind::Percent {
        1
    } else {
        0
    }
}

/// How loosely an expression binds: 0 for a literal, variable, grouping or call, 1 for a
/// prefix operator, one more than its level for a binary operator, 8 for an assignment.
pub open spec fn binding(e: Expression) -> int {
    match e {
        Expression::Unary { .. } => 1,
        Expression::Binary { operator, .. } => 1 + operator_level(operator.kind),
        Expression::Assignment { .. } => 8,
        _ => 0,
    }
}

/// The expression has the shape that the precedence rules give it: each operand binds more
/// tightly than its operator (the left operand of a binary operator may bind as loosely,
/// which makes the operators left-associative), prefix operators are `-` and `!`, a callee
/// binds as tightly as a primary expression, and variables and assignment targets are
/// identifiers. Parentheses, kept as groupings, reset the level.
pub open spec fn canonical(e: Expression) -> bool
    decreases e,
{
    match e {
        Expression::Literal(_) => true,
        Expression::Variable { name } => name.kind is Identifier,
        Expression::Unary { operator, right } => (operator.kind == Kind::Minus || operator.kind
            == Kind::LogicalNot) && binding(*right) <= 1 && canonical(*right),
        Expression::Binary { left, operator, right } => {
            let level = operator_level(operator.kind);
            &&& level >= 1
            &&& binding(*left) <= level + 1
            &&& binding(*right) <= level
            &&& canonical(*left)
            &&& canonical(*right)
        },
        Expression::Grouping { expression } => canonical(*expression),
        Expression::Assignment { name, value } => name.kind is Identifier && canonical(*value),
        Expression::Call { callee, arguments } => binding(*callee) == 0 && canonical(*callee)
            && all_canonical(arguments@),
    }
}

pub open spec fn all_canonical(args: Seq<Expression>) -> bool
    decreases args,
{
    if args.len() == 0 {
        true
    } else {
        all_canonical(args.drop_last()) && canonical(args.last())
    }
}

pub open spec fn optional_canonical(e: Option<Expression>) -> bool {
    match e {
        Some(e) => canonical(e),
        None => true,
    }
}

/// The statement ends with an `if` that has no `else` (directly, or as the body of a loop or
/// the `else` branch of another `if`): an `else` right after it would belong to that `if`.
pub open spec fn open_ended(s: Statement) -> bool
    decreases s,
{
    match s {
        Statement::If { else_branch, .. } => match else_branch {
            Some(b) => open_ended(*b),
            None => true,
        },
        Statement::While { body, .. } => open_ended(*body),
        Statement::For { body, .. } => open_ended(*body),
        _ => false,
    }
}

/// Every expression in the statement has its precedence shape, a function's body is a
/// block, a `return` statement's keyword is `return`, an `else` belongs to the nearest `if`
/// (the branch before it is never open-ended), and a `for` loop's initializer is a variable declaration or an expression
/// statement.
pub open spec fn statement_canonical(s: Statement) -> bool
    decreases s,
{
    match s {
        Statement::Expression { expression } => canonical(expression),
        Statement::Variable { name, initializer } => optional_canonical(initializer),
        Statement::Block { statements } => statements_canonical(statements@),
        Statement::If { condition, then_branch, else_branch } => canonical(condition) && statement_canonical(
            *then_branch,
        ) && match else_branch {
            Some(b) => !open_ended(*then_branch) && statement_canonical(*b),
            None => true,
        },
        Statement::While { condition, body } => canonical(condition) && statement_canonical(*body),
        Statement::For { initializer, condition, increment, body } => (match initializer {
            Some(i) => (*i is Variable || *i is Expression) && statement_canonical(*i),
            None => true,
        }) && optional_canonical(condition) && optional_canonical(increment) && statement_canonical(*body),
        Statement::Function { name, parameters, return_type, body } => *body is Block && statement_canonical(
            *body,
        ),
        Statement::Return { keyword, value } => keyword.kind == Kind::Return && optional_canonical(value),
        Statement::Break | Statement::Continue => true,
    }
}

pub open spec fn statements_canonical(ss: Seq<Statement>) -> bool
    decreases ss,
{
    if ss.len() == 0 {
        true
    } else {
        statements_canonical(ss.drop_last()) && statement_canonical(ss.last())
    }
}

} // verus!
