use vstd::prelude::*;
use crate::parser::binary_operator;
use crate::token::{Kind, Token};

verus! {

// The grammar as a recognizer over token sequences: each function gives the index just past
// the construct that starts at `p`, or the first expectation that the tokens violate: the
// index of the token where it fails and the message that names what was expected, or the
// `=` of an assignment whose target is not a single identifier. A construct whose parts are
// recognized one after another ends where its last part ends and fails where its first
// failing part fails. (Every part ends past where it begins; the checks on that below only
// make the measures of the recursion plain.)

/// Why the tokens from some index on do not form a construct.
pub enum ParseFault {
    /// The token at this index violates the expectation that the message names.
    Unexpected(int, Seq<char>),
    /// The `=` at this index has a left-hand side that is not a variable.
    BadTarget(int),
}

/// Where a construct ends, or why it does not.
pub type End = Result<int, ParseFault>;

/// The token at `q` is `k` (and is not the end-of-file token).
pub open spec fn is_at(t: Seq<Token>, q: int, k: Kind) -> bool {
    0 <= q < t.len() && t[q].kind != Kind::EndOfFile && t[q].kind == k
}

pub open spec fn identifier_at(t: Seq<Token>, q: int) -> bool {
    0 <= q < t.len() && t[q].kind is Identifier
}

/// Past `k` at the index `q` reached, if it is there; otherwise a failure there with `message`.
pub open spec fn expect(t: Seq<Token>, q: End, k: Kind, message: Seq<char>) -> End {
    match q {
        Ok(q) => if is_at(t, q, k) { Ok(q + 1) } else { Err(ParseFault::Unexpected(q, message)) },
        Err(f) => Err(f),
    }
}

/// A failure that the recognizer never reaches (no part ends where it began).
pub open spec fn stuck(p: int) -> End {
    Err(ParseFault::Unexpected(p, seq![]))
}

/// A step from `p` that ended at `q`, past `p` and before the end of the tokens.
pub open spec fn advanced(p: int, q: int, t: Seq<Token>) -> bool {
    p < q < t.len()
}

/// A literal, a variable, or a parenthesized expression.
pub open spec fn primary_end(t: Seq<Token>, p: int) -> End
    decreases t.len() - p, 1int,
{
    if !(0 <= p < t.len()) {
        stuck(p)
    } else {
        let k = t[p].kind;
        if k == Kind::False || k == Kind::True || k is Float || k is Integer || k is String || k is Identifier {
            Ok(p + 1)
        } else if k == Kind::LeftParenthesis {
            expect(t, expression_end(t, p + 1), Kind::RightParenthesis, "Expected ')' after expression."@)
        } else {
            Err(ParseFault::Unexpected(p, "Expected expression."@))
        }
    }
}

/// Argument lists after a callee that ended at `q`.
pub open spec fn call_rest(t: Seq<Token>, q: int) -> End
    decreases t.len() - q, 2int,
{
    if is_at(t, q, Kind::LeftParenthesis) {
        match arguments_end(t, q) {
            Ok(r) => if advanced(q, r, t) { call_rest(t, r) } else { stuck(q) },
            Err(f) => Err(f),
        }
    } else {
        Ok(q)
    }
}

pub open spec fn call_end(t: Seq<Token>, p: int) -> End
    decreases t.len() - p, 3int,
{
    match primary_end(t, p) {
        Ok(q) => if advanced(p, q, t) { call_rest(t, q) } else { stuck(p) },
        Err(f) => Err(f),
    }
}

/// `(arguments)` from the `(` at `p`.
pub open spec fn arguments_end(t: Seq<Token>, p: int) -> End
    decreases t.len() - p, 0int,
{
    if is_at(t, p + 1, Kind::RightParenthesis) {
        Ok(p + 2)
    } else if 0 <= p < t.len() {
        arguments_list(t, p + 1)
    } else {
        stuck(p)
    }
}

/// Arguments from `q`, each followed by `,` and another or by the closing `)`.
pub open spec fn arguments_list(t: Seq<Token>, q: int) -> End
    decreases t.len() - q, 22int,
{
    match expression_end(t, q) {
        Ok(r) => if !advanced(q, r, t) {
            stuck(q)
        } else if is_at(t, r, Kind::Comma) {
            arguments_list(t, r + 1)
        } else {
            expect(t, Ok(r), Kind::RightParenthesis, "Expected ')' after arguments."@)
        },
        Err(f) => Err(f),
    }
}

pub open spec fn unary_end(t: Seq<Token>, p: int) -> End
    decreases t.len() - p, 5int,
{
    if is_at(t, p, Kind::Minus) || is_at(t, p, Kind::LogicalNot) {
        unary_end(t, p + 1)
    } else {
        call_end(t, p)
    }
}

/// An operand of the binary operators of `level`.
pub open spec fn operand_end(t: Seq<Token>, p: int, level: int) -> End
    decreases t.len() - p, 2 * level + 6,
{
    if level == 1 {
        unary_end(t, p)
    } else if level > 1 {
        binary_end(t, p, level - 1)
    } else {
        stuck(p)
    }
}

/// Operators of `level`, each with its operand, after an operand that ended at `q`.
pub open spec fn binary_rest(t: Seq<Token>, q: int, level: int) -> End
    decreases t.len() - q, 2 * level + 7,
{
    if 0 <= q < t.len() && t[q].kind != Kind::EndOfFile && binary_operator(t[q].kind, level) {
        match operand_end(t, q + 1, level) {
            Ok(r) => if advanced(q, r, t) { binary_rest(t, r, level) } else { stuck(q) },
            Err(f) => Err(f),
        }
    } else {
        Ok(q)
    }
}

pub open spec fn binary_end(t: Seq<Token>, p: int, level: int) -> End
    decreases t.len() - p, 2 * level + 7,
{
    if level < 1 || level > 6 {
        stuck(p)
    } else {
        match operand_end(t, p, level) {
            Ok(q) => if advanced(p, q, t) { binary_rest(t, q, level) } else { stuck(p) },
            Err(f) => Err(f),
        }
    }
}

/// An assignment, whose target is a single identifier, or a looser binary expression. The
/// value is recognized before the target is judged.
pub open spec fn assignment_end(t: Seq<Token>, p: int) -> End
    decreases t.len() - p, 20int,
{
    match binary_end(t, p, 6) {
        Ok(q) => if !advanced(p, q, t) {
            stuck(p)
        } else if is_at(t, q, Kind::Assign) {
            match assignment_end(t, q + 1) {
                Ok(r) => if q == p + 1 && identifier_at(t, p) { Ok(r) } else { Err(ParseFault::BadTarget(q)) },
                Err(f) => Err(f),
            }
        } else {
            Ok(q)
        },
        Err(f) => Err(f),
    }
}

pub open spec fn expression_end(t: Seq<Token>, p: int) -> End
    decreases t.len() - p, 21int,
{
    assignment_end(t, p)
}

/// `let name [= expression];` from the `let` at `p`.
pub open spec fn variable_end(t: Seq<Token>, p: int) -> End
    decreases t.len() - p, 0int,
{
    if p < 0 {
        stuck(p)
    } else if !identifier_at(t, p + 1) {
        Err(ParseFault::Unexpected(p + 1, "Expected variable name."@))
    } else {
        let q = p + 2;
        let value = if is_at(t, q, Kind::Assign) { expression_end(t, q + 1) } else { Ok(q) };
        expect(t, value, Kind::Semicolon, "Expected ';' after variable declaration."@)
    }
}

/// Parameters `name: type` from `q`, separated by commas: the index past the last one.
pub open spec fn parameters_end(t: Seq<Token>, q: int) -> End
    decreases t.len() - q,
{
    if !identifier_at(t, q) {
        Err(ParseFault::Unexpected(q, "Expected parameter name."@))
    } else if !is_at(t, q + 1, Kind::Colon) {
        Err(ParseFault::Unexpected(q + 1, "Expected ':' after parameter name."@))
    } else if !identifier_at(t, q + 2) {
        Err(ParseFault::Unexpected(q + 2, "Expected parameter type."@))
    } else if is_at(t, q + 3, Kind::Comma) {
        parameters_end(t, q + 4)
    } else {
        Ok(q + 3)
    }
}

/// A function's parameter list from `q`: empty where `)` stands there.
pub open spec fn parameter_list_end(t: Seq<Token>, q: int) -> End {
    if is_at(t, q, Kind::RightParenthesis) {
        Ok(q)
    } else {
        parameters_end(t, q)
    }
}

/// `fn name(parameters) [-> type] { ... }` from the `fn` at `p`.
pub open spec fn function_end(t: Seq<Token>, p: int) -> End
    decreases t.len() - p, 0int,
{
    if p < 0 {
        stuck(p)
    } else if !identifier_at(t, p + 1) {
        Err(ParseFault::Unexpected(p + 1, "Expected function name."@))
    } else if !is_at(t, p + 2, Kind::LeftParenthesis) {
        Err(ParseFault::Unexpected(p + 2, "Expected '(' after function name."@))
    } else {
        match expect(t, parameter_list_end(t, p + 3), Kind::RightParenthesis, "Expected ')' after parameters."@) {
            Ok(q) => {
                let r = if is_at(t, q, Kind::Arrow) {
                    if identifier_at(t, q + 1) {
                        Ok(q + 2)
                    } else {
                        Err(ParseFault::Unexpected(q + 1, "Expected return type."@))
                    }
                } else {
                    Ok(q)
                };
                match r {
                    Ok(r) => if !is_at(t, r, Kind::LeftCurlyBrace) {
                        Err(ParseFault::Unexpected(r, "Expected '{' before function body."@))
                    } else if p < r {
                        block_end(t, r)
                    } else {
                        stuck(p)
                    },
                    Err(f) => Err(f),
                }
            },
            Err(f) => Err(f),
        }
    }
}

/// `{ declarations }` from the `{` at `p`.
pub open spec fn block_end(t: Seq<Token>, p: int) -> End
    decreases t.len() - p, 0int,
{
    if !(0 <= p < t.len()) {
        stuck(p)
    } else {
        block_list(t, p + 1)
    }
}

/// Declarations from `q` up to the closing `}`.
pub open spec fn block_list(t: Seq<Token>, q: int) -> End
    decreases t.len() - q, 25int,
{
    if !(0 <= q < t.len()) {
        stuck(q)
    } else if !is_at(t, q, Kind::RightCurlyBrace) && t[q].kind != Kind::EndOfFile {
        match declaration_end(t, q) {
            Ok(r) => if advanced(q, r, t) { block_list(t, r) } else { stuck(q) },
            Err(f) => Err(f),
        }
    } else {
        expect(t, Ok(q), Kind::RightCurlyBrace, "Expected '}' after block."@)
    }
}

/// `( expression )` from the `(` at `p`, with the messages for a missing `(` and `)`.
pub open spec fn condition_end(t: Seq<Token>, p: int, open: Seq<char>, close: Seq<char>) -> End
    decreases t.len() - p, 15int,
{
    if is_at(t, p, Kind::LeftParenthesis) {
        expect(t, expression_end(t, p + 1), Kind::RightParenthesis, close)
    } else {
        Err(ParseFault::Unexpected(p, open))
    }
}

/// An optional expression from `p`, absent where `end` stands there.
pub open spec fn optional_end(t: Seq<Token>, p: int, end: Kind) -> End
    decreases t.len() - p, 22int,
{
    if is_at(t, p, end) {
        Ok(p)
    } else {
        expression_end(t, p)
    }
}

pub open spec fn if_end(t: Seq<Token>, p: int) -> End
    decreases t.len() - p, 0int,
{
    match condition_end(t, p + 1, "Expected '(' after 'if'."@, "Expected ')' after if condition."@) {
        Ok(q) => if !advanced(p, q, t) {
            stuck(p)
        } else {
            match statement_end(t, q) {
                Ok(r) => if !advanced(p, r, t) {
                    stuck(p)
                } else if is_at(t, r, Kind::Else) {
                    statement_end(t, r + 1)
                } else {
                    Ok(r)
                },
                Err(f) => Err(f),
            }
        },
        Err(f) => Err(f),
    }
}

pub open spec fn while_end(t: Seq<Token>, p: int) -> End
    decreases t.len() - p, 0int,
{
    match condition_end(t, p + 1, "Expected '(' after 'while'."@, "Expected ')' after while condition."@) {
        Ok(q) => if advanced(p, q, t) { statement_end(t, q) } else { stuck(p) },
        Err(f) => Err(f),
    }
}

/// A `for` loop's first clause from `q`: nothing but its `;`, a variable declaration, or an
/// expression statement.
pub open spec fn for_initializer_end(t: Seq<Token>, q: int) -> End
    decreases t.len() - q, 23int,
{
    if is_at(t, q, Kind::Semicolon) {
        Ok(q + 1)
    } else if is_at(t, q, Kind::Variable) {
        variable_end(t, q)
    } else {
        expression_statement_end(t, q)
    }
}

/// A `for` loop's condition and increment clauses from `q`, each optional: `condition;
/// increment)`.
pub open spec fn for_clauses_end(t: Seq<Token>, q: int) -> End
    decreases t.len() - q, 23int,
{
    match expect(t, optional_end(t, q, Kind::Semicolon), Kind::Semicolon, "Expected ';' after loop condition."@) {
        Ok(q4) => if !advanced(q, q4, t) {
            stuck(q)
        } else {
            expect(t, optional_end(t, q4, Kind::RightParenthesis), Kind::RightParenthesis, "Expected ')' after for clauses."@)
        },
        Err(f) => Err(f),
    }
}

/// `for (initializer; condition; increment) statement` from the `for` at `p`.
pub open spec fn for_end(t: Seq<Token>, p: int) -> End
    decreases t.len() - p, 0int,
{
    if p < 0 {
        stuck(p)
    } else if !is_at(t, p + 1, Kind::LeftParenthesis) {
        Err(ParseFault::Unexpected(p + 1, "Expected '(' after 'for'."@))
    } else {
        match for_initializer_end(t, p + 2) {
            Ok(q2) => if !advanced(p, q2, t) {
                stuck(p)
            } else {
                match for_clauses_end(t, q2) {
                    Ok(q6) => if advanced(p, q6, t) { statement_end(t, q6) } else { stuck(p) },
                    Err(f) => Err(f),
                }
            },
            Err(f) => Err(f),
        }
    }
}

/// `return [value];` from the `return` at `p`.
pub open spec fn return_end(t: Seq<Token>, p: int) -> End
    decreases t.len() - p, 0int,
{
    if p < 0 {
        stuck(p)
    } else {
        expect(t, optional_end(t, p + 1, Kind::Semicolon), Kind::Semicolon, "Expected ';' after return value."@)
    }
}

pub open spec fn expression_statement_end(t: Seq<Token>, p: int) -> End
    decreases t.len() - p, 22int,
{
    expect(t, expression_end(t, p), Kind::Semicolon, "Expected ';' after expression."@)
}

pub open spec fn statement_end(t: Seq<Token>, p: int) -> End
    decreases t.len() - p, 23int,
{
    if is_at(t, p, Kind::LeftCurlyBrace) {
        block_end(t, p)
    } else if is_at(t, p, Kind::If) {
        if_end(t, p)
    } else if is_at(t, p, Kind::While) {
        while_end(t, p)
    } else if is_at(t, p, Kind::For) {
        for_end(t, p)
    } else if is_at(t, p, Kind::Break) {
        expect(t, Ok(p + 1), Kind::Semicolon, "Expected ';' after 'break'."@)
    } else if is_at(t, p, Kind::Continue) {
        expect(t, Ok(p + 1), Kind::Semicolon, "Expected ';' after 'continue'."@)
    } else if is_at(t, p, Kind::Return) {
        return_end(t, p)
    } else {
        expression_statement_end(t, p)
    }
}

pub open spec fn declaration_end(t: Seq<Token>, p: int) -> End
    decreases t.len() - p, 24int,
{
    if is_at(t, p, Kind::Variable) {
        variable_end(t, p)
    } else if is_at(t, p, Kind::Function) {
        function_end(t, p)
    } else {
        statement_end(t, p)
    }
}

/// Declarations from `q` up to the first end-of-file token, which must be the last token:
/// success, or the first violated expectation.
pub open spec fn program_from(t: Seq<Token>, q: int) -> Result<(), ParseFault>
    decreases t.len() - q,
{
    if !(0 <= q < t.len()) {
        Err(ParseFault::Unexpected(q, seq![]))
    } else if t[q].kind == Kind::EndOfFile {
        if q == t.len() - 1 {
            Ok(())
        } else {
            Err(ParseFault::Unexpected(q, "Expected no tokens after the end of file."@))
        }
    } else {
        match declaration_end(t, q) {
            Ok(r) => if advanced(q, r, t) { program_from(t, r) } else { Err(ParseFault::Unexpected(q, seq![])) },
            Err(f) => Err(f),
        }
    }
}

} // verus!
