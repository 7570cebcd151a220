use vstd::prelude::*;
use vstd::string::StringExecFns;
use crate::ast::{
    piece_matches, Piece,
    arguments_spelling, expression_spelling, parameters_spelling, statement_spelling,
    statements_spelling, optional_spelling, initializer_spelling, return_type_spelling, binding, canonical,
    all_canonical, optional_canonical, statement_canonical, statements_canonical, open_ended, Expression, Literal, Number, Statement, AST,
};
use crate::grammar::{
    End, ParseFault,
    is_at, identifier_at,
    arguments_end, arguments_list, operand_end, assignment_end, binary_end, binary_rest, block_end, block_list,
    call_end, call_rest, condition_end, declaration_end, expression_end, expression_statement_end,
    for_end, for_initializer_end, for_clauses_end, function_end, parameter_list_end, if_end, optional_end, parameters_end, primary_end, program_from,
    return_end, statement_end, unary_end, variable_end, while_end, expect,
};
use crate::token::{Kind, Token};

verus! {

/// A parsing error.
#[derive(Debug, Clone, PartialEq, Eq)]
pub enum Error {
    /// A token that the grammar does not allow where it stands; the message names what was
    /// expected.
    UnexpectedToken { line: usize, column: usize, message: String },
    /// An `=` whose left-hand side is not a variable; the position is that of the `=`.
    InvalidAssignmentTarget { line: usize, column: usize },
}

/// The tokens end with an end-of-file token.
pub open spec fn well_ended(t: Seq<Token>) -> bool {
    t.len() > 0 && t.last().kind == Kind::EndOfFile && t.len() <= usize::MAX
}

/// The pieces `k` spell the tokens of `t` from `a` up to `b`: each matches its token.
pub open spec fn spells(k: Seq<Piece>, t: Seq<Token>, a: int, b: int) -> bool {
    &&& 0 <= a <= b <= t.len()
    &&& k.len() == b - a
    &&& forall|i: int| 0 <= i < k.len() ==> piece_matches(#[trigger] k[i], t[a + i])
}

proof fn lemma_spells_concat(x: Seq<Piece>, y: Seq<Piece>, t: Seq<Token>, a: int, b: int, c: int)
    requires
        spells(x, t, a, b),
        spells(y, t, b, c),
    ensures
        spells(x + y, t, a, c),
{
    assert forall|i: int| 0 <= i < (x + y).len() implies piece_matches(#[trigger] (x + y)[i], t[a + i]) by {
        if i < x.len() {
            assert((x + y)[i] == x[i]);
        } else {
            assert((x + y)[i] == y[i - x.len()]);
            assert(b + (i - x.len()) == a + i);
        }
    }
}

proof fn lemma_spells_one(k: Piece, t: Seq<Token>, a: int)
    requires
        0 <= a < t.len(),
        piece_matches(k, t[a]),
    ensures
        spells(seq![k], t, a, a + 1),
{
}

/// The error is the one that the recognizer's fault `f` describes: an unexpected token at the
/// position of the failing token with the message naming the expectation, or an invalid
/// assignment target at the position of the `=`.
pub open spec fn error_at(e: Error, f: ParseFault, t: Seq<Token>) -> bool {
    match f {
        ParseFault::Unexpected(i, m) => 0 <= i < t.len() && (e matches Error::UnexpectedToken {
            line,
            column,
            message,
        } && line == t[i].line && column == t[i].column && message@ == m),
        ParseFault::BadTarget(i) => 0 <= i < t.len() && e == (Error::InvalidAssignmentTarget {
            line: t[i].line,
            column: t[i].column,
        }),
    }
}

/// A parse result agrees with the recognizer's answer `end`: it succeeds exactly when the
/// recognizer does and ends where it does, and otherwise fails with the error it describes.
pub open spec fn agrees<T>(r: Result<(T, usize), Error>, end: End, t: Seq<Token>) -> bool {
    match end {
        Ok(q) => r is Ok && r->Ok_0.1 == q,
        Err(f) => r matches Err(e) && error_at(e, f, t),
    }
}

/// The precedence table of the binary operators: level 6 (loosest) is `||`, 5 is `&&`, 4 is
/// `==` `!=`, 3 is `<` `<=` `>` `>=`, 2 is `+` `-`, 1 (tightest) is `*` `/` `%`.
pub open spec fn binary_operator(k: Kind, level: int) -> bool {
    if level == 6 {
        k == Kind::LogicalOr
    } else if level == 5 {
        k == Kind::LogicalAnd
    } else if level == 4 {
        k == Kind::Equality || k == Kind::NotEqual
    } else if level == 3 {
        k == Kind::LessThan || k == Kind::LessThanOrEqual || k == Kind::GreaterThan || k
            == Kind::GreaterThanOrEqual
    } else if level == 2 {
        k == Kind::Plus || k == Kind::Minus
    } else if level == 1 {
        k == Kind::Star || k == Kind::Slash || k == Kind::Percent
    } else {
        false
    }
}

/// What a parse of one construct from `p` promises when it succeeds: it ends at `q`, past `p`
/// and before the end-of-file token, and the pieces `k` spell the tokens it consumed.
pub open spec fn parsed(k: Seq<Piece>, t: Seq<Token>, p: int, q: int) -> bool {
    p < q < t.len() && spells(k, t, p, q)
}

/// A parser over a token sequence that ends with an end-of-file token.
pub struct Parser<'a> {
    tokens: &'a Vec<Token>,
    current: usize,
}

impl<'a> Parser<'a> {
    pub closed spec fn tokens(&self) -> Seq<Token> {
        self.tokens@
    }

    pub fn new(tokens: &'a Vec<Token>) -> (r: Parser<'a>)
        ensures
            r.tokens() == tokens@,
    {
        Parser { tokens, current: 0 }
    }

    /// Parses the whole token sequence into the statements of a program; its first end-of-file
    /// token must be its last token. It succeeds exactly when the grammar's recognizer accepts the
    /// tokens, and then the statements spell exactly the tokens before that end-of-file token
    /// (each token the tree keeps is the input token itself) and have the shape the precedence
    /// and `else` rules give; otherwise it fails with the first violated expectation.
    pub fn parse(&mut self) -> (r: Result<AST, Error>)
        requires
            well_ended(old(self).tokens()),
        ensures
            match program_from(old(self).tokens(), 0) {
                Ok(()) => r is Ok,
                Err(f) => r matches Err(e) && error_at(e, f, old(self).tokens()),
            },
            r matches Ok(ast) ==> statements_canonical(ast.statements@) && spells(
                statements_spelling(ast.statements@),
                old(self).tokens(),
                0,
                old(self).tokens().len() - 1,
            ),
    {
        let t = self.tokens;
        let mut statements: Vec<Statement> = Vec::new();
        let mut q: usize = 0;
        while !t[q].kind.is(&Kind::EndOfFile)
            invariant
                well_ended(t@),
                t@ == old(self).tokens(),
                q < t@.len(),
                spells(statements_spelling(statements@), t@, 0, q as int),
                statements_canonical(statements@),
                program_from(t@, 0) == program_from(t@, q as int),
            decreases t@.len() - q,
        {
            let (s, q2) = match declaration(t, q) {
                Ok(x) => x,
                Err(e) => return Err(e),
            };
            proof {
                lemma_spells_concat(statements_spelling(statements@), statement_spelling(s), t@, 0, q as int, q2 as int);
            }
            let ghost before = statements@;
            statements.push(s);
            proof {
                assert(statements@.drop_last() =~= before);
            }
            q = q2;
        }
        if q + 1 != t.len() {
            return Err(unexpected(t, q, "Expected no tokens after the end of file."));
        }
        self.current = q;
        Ok(AST::new(statements))
    }
}

/// Whether the token at `p` is `kind` (never at the end of the input).
fn check(t: &Vec<Token>, p: usize, kind: &Kind) -> (r: bool)
    requires
        p < t@.len(),
        kind.is_plain(),
    ensures
        r == (t@[p as int].kind != Kind::EndOfFile && t@[p as int].kind == *kind),
{
    !t[p].kind.is(&Kind::EndOfFile) && t[p].kind.is(kind)
}

fn unexpected(t: &Vec<Token>, p: usize, message: &str) -> (r: Error)
    requires
        p < t@.len(),
    ensures
        r matches Error::UnexpectedToken { line, column, message: m } && line == t@[p as int].line
            && column == t@[p as int].column && m@ == message@,
{
    let r = Error::UnexpectedToken { line: t[p].line, column: t[p].column, message: String::from_str(message) };
    r
}

/// Consumes the token at `p` if it is `kind`; otherwise fails with `message` at its position.
fn consume(t: &Vec<Token>, p: usize, kind: &Kind, message: &str) -> (r: Result<(Token, usize), Error>)
    requires
        well_ended(t@),
        p < t@.len(),
        kind.is_plain(),
    ensures
        r is Ok <==> is_at(t@, p as int, *kind),
        match r {
            Ok((tok, q)) => q == p + 1 && tok == t@[p as int] && t@[p as int].kind == *kind && parsed(
                seq![Piece::Plain(*kind)],
                t@,
                p as int,
                q as int,
            ),
            Err(e) => e matches Error::UnexpectedToken { line, column, message: m } && line
                == t@[p as int].line && column == t@[p as int].column && m@ == message@,
        },
{
    if check(t, p, kind) {
        let tok = t[p].duplicate();
        proof {
            lemma_spells_one(Piece::Plain(*kind), t@, p as int);
        }
        Ok((tok, p + 1))
    } else {
        Err(unexpected(t, p, message))
    }
}

/// Consumes an identifier at `p`, or fails with `message` at its position.
fn identifier(t: &Vec<Token>, p: usize, message: &str) -> (r: Result<(Token, usize), Error>)
    requires
        well_ended(t@),
        p < t@.len(),
    ensures
        r is Ok <==> identifier_at(t@, p as int),
        match r {
            Ok((tok, q)) => q == p + 1 && tok.kind is Identifier && parsed(seq![Piece::Held(tok)], t@, p as int, q as int),
            Err(e) => e matches Error::UnexpectedToken { line, column, message: m } && line
                == t@[p as int].line && column == t@[p as int].column && m@ == message@,
        },
{
    if let Kind::Identifier(_) = &t[p].kind {
        let tok = t[p].duplicate();
        proof {
            lemma_spells_one(Piece::Held(tok), t@, p as int);
        }
        Ok((tok, p + 1))
    } else {
        Err(unexpected(t, p, message))
    }
}

/// A declaration: `let` a variable, `fn` a function, or any other statement.
fn declaration(t: &Vec<Token>, p: usize) -> (r: Result<(Statement, usize), Error>)
    requires
        well_ended(t@),
        p < t@.len(),
    ensures
        r matches Ok((s, q)) ==> (open_ended(s) ==> !is_at(t@, q as int, Kind::Else)),
        agrees(r, declaration_end(t@, p as int), t@),
        r matches Ok((s, q)) ==> parsed(statement_spelling(s), t@, p as int, q as int) && statement_canonical(s),
    decreases t@.len() - p, 14int,
{
    if check(t, p, &Kind::Variable) {
        variable_declaration(t, p)
    } else if check(t, p, &Kind::Function) {
        function_declaration(t, p)
    } else {
        statement(t, p)
    }
}

/// `let name [= expression];`, from the `let` at `p`.
fn variable_declaration(t: &Vec<Token>, p: usize) -> (r: Result<(Statement, usize), Error>)
    requires
        well_ended(t@),
        p < t@.len(),
        t@[p as int].kind == Kind::Variable,
    ensures
        r matches Ok((s, q)) ==> (open_ended(s) ==> !is_at(t@, q as int, Kind::Else)),
        agrees(r, variable_end(t@, p as int), t@),
        r matches Ok((s, q)) ==> s is Variable && parsed(statement_spelling(s), t@, p as int, q as int)
            && statement_canonical(s),
    decreases t@.len() - p, 0int,
{
    proof {
        lemma_spells_one(Piece::Plain(Kind::Variable), t@, p as int);
    }
    let (name, q) = identifier(t, p + 1, "Expected variable name.")?;
    let ghost head = seq![Piece::Plain(Kind::Variable), Piece::Held(name)];
    proof {
        lemma_spells_concat(seq![Piece::Plain(Kind::Variable)], seq![Piece::Held(name)], t@, p as int, p + 1, q as int);
        assert(seq![Piece::Plain(Kind::Variable)] + seq![Piece::Held(name)] =~= head);
    }
    let (initializer, q) = if check(t, q, &Kind::Assign) {
        let (e, q2) = expression(t, q + 1)?;
        proof {
            lemma_spells_one(Piece::Plain(Kind::Assign), t@, q as int);
            lemma_spells_concat(seq![Piece::Plain(Kind::Assign)], expression_spelling(e), t@, q as int, q + 1, q2 as int);
            lemma_spells_concat(head, seq![Piece::Plain(Kind::Assign)] + expression_spelling(e), t@, p as int, q as int, q2 as int);
        }
        (Some(e), q2)
    } else {
        assert(head + seq![] =~= head);
        (None, q)
    };
    let (_, q2) = consume(t, q, &Kind::Semicolon, "Expected ';' after variable declaration.")?;
    let s = Statement::Variable { name, initializer };
    proof {
        let mid = initializer_spelling(initializer);
        if initializer is None {
            assert(head + mid =~= head);
        }
        lemma_spells_concat(head + mid, seq![Piece::Plain(Kind::Semicolon)], t@, p as int, q as int, q2 as int);
        assert(statement_spelling(s) =~= head + mid + seq![Piece::Plain(Kind::Semicolon)]);
    }
    Ok((s, q2))
}

/// A parameter list `name: type, ...` from `start`, up to (not including) the closing `)`.
fn parameter_list(t: &Vec<Token>, start: usize) -> (r: Result<(Vec<(Token, Token)>, usize), Error>)
    requires
        well_ended(t@),
        start < t@.len(),
    ensures
        agrees(r, parameter_list_end(t@, start as int), t@),
        r matches Ok((ps, q)) ==> start <= q < t@.len() && spells(parameters_spelling(ps@), t@, start as int, q as int),
{
    let mut parameters: Vec<(Token, Token)> = Vec::new();
    let mut q = start;
    if !check(t, q, &Kind::RightParenthesis) {
        loop
            invariant_except_break
                spells(if parameters@.len() == 0 { seq![] } else { parameters_spelling(parameters@) + seq![Piece::Plain(Kind::Comma)] }, t@, start as int, q as int),
                parameters_end(t@, start as int) == parameters_end(t@, q as int),
            invariant
                well_ended(t@),
                start <= q < t@.len(),
                !is_at(t@, start as int, Kind::RightParenthesis),
            ensures
                spells(parameters_spelling(parameters@), t@, start as int, q as int),
                parameters_end(t@, start as int) == Ok::<int, ParseFault>(q as int),
            decreases t@.len() - q,
        {
            let ghost prefix = if parameters@.len() == 0 { seq![] } else { parameters_spelling(parameters@) + seq![Piece::Plain(Kind::Comma)] };
            let (param, q1) = identifier(t, q, "Expected parameter name.")?;
            let (_, q2) = consume(t, q1, &Kind::Colon, "Expected ':' after parameter name.")?;
            let (kind, q3) = identifier(t, q2, "Expected parameter type.")?;
            let ghost one = seq![Piece::Held(param), Piece::Plain(Kind::Colon), Piece::Held(kind)];
            proof {
                lemma_spells_concat(seq![Piece::Held(param)], seq![Piece::Plain(Kind::Colon)], t@, q as int, q1 as int, q2 as int);
                lemma_spells_concat(seq![Piece::Held(param)] + seq![Piece::Plain(Kind::Colon)], seq![Piece::Held(kind)], t@, q as int, q2 as int, q3 as int);
                assert(seq![Piece::Held(param)] + seq![Piece::Plain(Kind::Colon)] + seq![Piece::Held(kind)] =~= one);
                lemma_spells_concat(prefix, one, t@, start as int, q as int, q3 as int);
            }
            let ghost old_params = parameters@;
            parameters.push((param, kind));
            proof {
                assert(parameters@.drop_last() =~= old_params);
                if old_params.len() == 0 {
                    assert(parameters_spelling(parameters@) =~= one);
                    assert(prefix + one =~= one);
                } else {
                    assert(parameters_spelling(parameters@) =~= prefix + one);
                }
            }
            if check(t, q3, &Kind::Comma) {
                proof {
                    lemma_spells_one(Piece::Plain(Kind::Comma), t@, q3 as int);
                    lemma_spells_concat(parameters_spelling(parameters@), seq![Piece::Plain(Kind::Comma)], t@, start as int, q3 as int, q3 + 1);
                }
                q = q3 + 1;
            } else {
                q = q3;
                break;
            }
        }
    }
    proof {
        if parameters@.len() == 0 {
            assert(parameters_spelling(parameters@) =~= seq![]);
        }
    }
    assert(spells(parameters_spelling(parameters@), t@, start as int, q as int));
    Ok((parameters, q))
}

/// `fn name(a: type, ...) [-> type] { ... }`, from the `fn` at `p`.
#[verifier::rlimit(100)]
fn function_declaration(t: &Vec<Token>, p: usize) -> (r: Result<(Statement, usize), Error>)
    requires
        well_ended(t@),
        p < t@.len(),
        t@[p as int].kind == Kind::Function,
    ensures
        r matches Ok((s, q)) ==> (open_ended(s) ==> !is_at(t@, q as int, Kind::Else)),
        agrees(r, function_end(t@, p as int), t@),
        r matches Ok((s, q)) ==> parsed(statement_spelling(s), t@, p as int, q as int) && statement_canonical(s),
    decreases t@.len() - p, 0int,
{
    proof {
        lemma_spells_one(Piece::Plain(Kind::Function), t@, p as int);
    }
    let (name, q) = identifier(t, p + 1, "Expected function name.")?;
    let (_, q) = consume(t, q, &Kind::LeftParenthesis, "Expected '(' after function name.")?;
    let ghost head = seq![Piece::Plain(Kind::Function), Piece::Held(name), Piece::Plain(Kind::LeftParenthesis)];
    proof {
        lemma_spells_concat(seq![Piece::Plain(Kind::Function)], seq![Piece::Held(name)], t@, p as int, p + 1, p + 2);
        lemma_spells_concat(seq![Piece::Plain(Kind::Function)] + seq![Piece::Held(name)], seq![Piece::Plain(Kind::LeftParenthesis)], t@, p as int, p + 2, q as int);
        assert(seq![Piece::Plain(Kind::Function)] + seq![Piece::Held(name)] + seq![Piece::Plain(Kind::LeftParenthesis)] =~= head);
    }
    let start = q;
    let (parameters, q) = parameter_list(t, start)?;
    let (_, q4) = consume(t, q, &Kind::RightParenthesis, "Expected ')' after parameters.")?;
    let (return_type, q5) = if check(t, q4, &Kind::Arrow) {
        let (ty, q6) = identifier(t, q4 + 1, "Expected return type.")?;
        proof {
            lemma_spells_one(Piece::Plain(Kind::Arrow), t@, q4 as int);
            lemma_spells_concat(seq![Piece::Plain(Kind::Arrow)], seq![Piece::Held(ty)], t@, q4 as int, q4 + 1, q6 as int);
            assert(seq![Piece::Plain(Kind::Arrow)] + seq![Piece::Held(ty)] =~= seq![Piece::Plain(Kind::Arrow), Piece::Held(ty)]);
        }
        (Some(ty), q6)
    } else {
        (None, q4)
    };
    let ghost ret = return_type_spelling(return_type);
    assert(spells(ret, t@, q4 as int, q5 as int));
    if !check(t, q5, &Kind::LeftCurlyBrace) {
        return Err(unexpected(t, q5, "Expected '{' before function body."));
    }
    let (body, q7) = block(t, q5)?;
    let s = Statement::Function { name, parameters, return_type, body: Box::new(body) };
    proof {
        lemma_spells_concat(head, parameters_spelling(parameters@), t@, p as int, start as int, q as int);
        lemma_spells_concat(head + parameters_spelling(parameters@), seq![Piece::Plain(Kind::RightParenthesis)], t@, p as int, q as int, q4 as int);
        lemma_spells_concat(head + parameters_spelling(parameters@) + seq![Piece::Plain(Kind::RightParenthesis)], ret, t@, p as int, q4 as int, q5 as int);
        lemma_spells_concat(head + parameters_spelling(parameters@) + seq![Piece::Plain(Kind::RightParenthesis)] + ret, statement_spelling(body), t@, p as int, q5 as int, q7 as int);
    }
    Ok((s, q7))
}

/// A statement other than a declaration, chosen by its first token.
fn statement(t: &Vec<Token>, p: usize) -> (r: Result<(Statement, usize), Error>)
    requires
        well_ended(t@),
        p < t@.len(),
    ensures
        r matches Ok((s, q)) ==> (open_ended(s) ==> !is_at(t@, q as int, Kind::Else)),
        agrees(r, statement_end(t@, p as int), t@),
        r matches Ok((s, q)) ==> parsed(statement_spelling(s), t@, p as int, q as int) && statement_canonical(s),
    decreases t@.len() - p, 13int,
{
    if check(t, p, &Kind::LeftCurlyBrace) {
        block(t, p)
    } else if check(t, p, &Kind::If) {
        if_statement(t, p)
    } else if check(t, p, &Kind::While) {
        while_statement(t, p)
    } else if check(t, p, &Kind::For) {
        for_statement(t, p)
    } else if check(t, p, &Kind::Break) {
        let (_, q) = consume(t, p + 1, &Kind::Semicolon, "Expected ';' after 'break'.")?;
        proof {
            lemma_spells_one(Piece::Plain(Kind::Break), t@, p as int);
            lemma_spells_concat(seq![Piece::Plain(Kind::Break)], seq![Piece::Plain(Kind::Semicolon)], t@, p as int, p + 1, q as int);
            assert(seq![Piece::Plain(Kind::Break)] + seq![Piece::Plain(Kind::Semicolon)] =~= statement_spelling(Statement::Break));
        }
        Ok((Statement::Break, q))
    } else if check(t, p, &Kind::Continue) {
        let (_, q) = consume(t, p + 1, &Kind::Semicolon, "Expected ';' after 'continue'.")?;
        proof {
            lemma_spells_one(Piece::Plain(Kind::Continue), t@, p as int);
            lemma_spells_concat(seq![Piece::Plain(Kind::Continue)], seq![Piece::Plain(Kind::Semicolon)], t@, p as int, p + 1, q as int);
            assert(seq![Piece::Plain(Kind::Continue)] + seq![Piece::Plain(Kind::Semicolon)] =~= statement_spelling(Statement::Continue));
        }
        Ok((Statement::Continue, q))
    } else if check(t, p, &Kind::Return) {
        return_statement(t, p)
    } else {
        expression_statement(t, p)
    }
}

/// `{ declarations }`, from the `{` at `p`.
fn block(t: &Vec<Token>, p: usize) -> (r: Result<(Statement, usize), Error>)
    requires
        well_ended(t@),
        p < t@.len(),
        t@[p as int].kind == Kind::LeftCurlyBrace,
    ensures
        r matches Ok((s, q)) ==> (open_ended(s) ==> !is_at(t@, q as int, Kind::Else)),
        agrees(r, block_end(t@, p as int), t@),
        r matches Ok((s, q)) ==> s is Block && parsed(statement_spelling(s), t@, p as int, q as int)
            && statement_canonical(s),
    decreases t@.len() - p, 0int,
{
    proof {
        lemma_spells_one(Piece::Plain(Kind::LeftCurlyBrace), t@, p as int);
    }
    let mut statements: Vec<Statement> = Vec::new();
    let mut q = p + 1;
    while !check(t, q, &Kind::RightCurlyBrace) && !t[q].kind.is(&Kind::EndOfFile)
        invariant
            well_ended(t@),
            p < q < t@.len(),
            spells(statements_spelling(statements@), t@, p + 1, q as int),
            statements_canonical(statements@),
            block_end(t@, p as int) == block_list(t@, q as int),
        decreases t@.len() - q,
    {
        let (s, q2) = declaration(t, q)?;
        proof {
            lemma_spells_concat(statements_spelling(statements@), statement_spelling(s), t@, p + 1, q as int, q2 as int);
        }
        let ghost before = statements@;
        statements.push(s);
        proof {
            assert(statements@.drop_last() =~= before);
        }
        q = q2;
    }
    let (_, q2) = consume(t, q, &Kind::RightCurlyBrace, "Expected '}' after block.")?;
    let s = Statement::Block { statements };
    proof {
        lemma_spells_concat(seq![Piece::Plain(Kind::LeftCurlyBrace)], statements_spelling(statements@), t@, p as int, p + 1, q as int);
        lemma_spells_concat(seq![Piece::Plain(Kind::LeftCurlyBrace)] + statements_spelling(statements@), seq![Piece::Plain(Kind::RightCurlyBrace)], t@, p as int, q as int, q2 as int);
    }
    Ok((s, q2))
}

/// `( condition )` from the `(` at `p`: the condition and the place after the `)`.
fn condition(t: &Vec<Token>, p: usize, open: &str, close: &str) -> (r: Result<(Expression, usize), Error>)
    requires
        well_ended(t@),
        p < t@.len(),
    ensures
        agrees(r, condition_end(t@, p as int, open@, close@), t@),
        r matches Ok((e, q)) ==> parsed(seq![Piece::Plain(Kind::LeftParenthesis)] + expression_spelling(e) + seq![Piece::Plain(Kind::RightParenthesis)], t@, p as int, q as int)
            && canonical(e),
    decreases t@.len() - p, 12int,
{
    let (_, q) = consume(t, p, &Kind::LeftParenthesis, open)?;
    let (e, q2) = expression(t, q)?;
    let (_, q3) = consume(t, q2, &Kind::RightParenthesis, close)?;
    proof {
        lemma_spells_concat(seq![Piece::Plain(Kind::LeftParenthesis)], expression_spelling(e), t@, p as int, q as int, q2 as int);
        lemma_spells_concat(seq![Piece::Plain(Kind::LeftParenthesis)] + expression_spelling(e), seq![Piece::Plain(Kind::RightParenthesis)], t@, p as int, q2 as int, q3 as int);
    }
    Ok((e, q3))
}

/// `if (condition) statement [else statement]`, from the `if` at `p`.
#[verifier::rlimit(100)]
fn if_statement(t: &Vec<Token>, p: usize) -> (r: Result<(Statement, usize), Error>)
    requires
        well_ended(t@),
        p < t@.len(),
        t@[p as int].kind == Kind::If,
    ensures
        r matches Ok((s, q)) ==> (open_ended(s) ==> !is_at(t@, q as int, Kind::Else)),
        agrees(r, if_end(t@, p as int), t@),
        r matches Ok((s, q)) ==> parsed(statement_spelling(s), t@, p as int, q as int) && statement_canonical(s),
    decreases t@.len() - p, 0int,
{
    proof {
        lemma_spells_one(Piece::Plain(Kind::If), t@, p as int);
    }
    let (c, q) = condition(t, p + 1, "Expected '(' after 'if'.", "Expected ')' after if condition.")?;
    let (then_branch, q2) = statement(t, q)?;
    let ghost cond = seq![Piece::Plain(Kind::LeftParenthesis)] + expression_spelling(c) + seq![Piece::Plain(Kind::RightParenthesis)];
    proof {
        lemma_spells_concat(seq![Piece::Plain(Kind::If)], cond, t@, p as int, p + 1, q as int);
        lemma_spells_concat(seq![Piece::Plain(Kind::If)] + cond, statement_spelling(then_branch), t@, p as int, q as int, q2 as int);
    }
    let ghost front = seq![Piece::Plain(Kind::If)] + cond + statement_spelling(then_branch);
    let (else_branch, q3) = if check(t, q2, &Kind::Else) {
        let (e, q3) = statement(t, q2 + 1)?;
        proof {
            lemma_spells_one(Piece::Plain(Kind::Else), t@, q2 as int);
            lemma_spells_concat(seq![Piece::Plain(Kind::Else)], statement_spelling(e), t@, q2 as int, q2 + 1, q3 as int);
            lemma_spells_concat(front, seq![Piece::Plain(Kind::Else)] + statement_spelling(e), t@, p as int, q2 as int, q3 as int);
        }
        (Some(Box::new(e)), q3)
    } else {
        assert(front + seq![] =~= front);
        (None, q2)
    };
    let s = Statement::If { condition: c, then_branch: Box::new(then_branch), else_branch };
    proof {
        assert(seq![Piece::Plain(Kind::If)] + cond =~= seq![Piece::Plain(Kind::If), Piece::Plain(Kind::LeftParenthesis)] + expression_spelling(c) + seq![Piece::Plain(Kind::RightParenthesis)]);
        if let Some(b) = s->If_else_branch {
            assert(statement_spelling(s) =~= front + (seq![Piece::Plain(Kind::Else)] + statement_spelling(*b)));
        } else {
            assert(statement_spelling(s) =~= front + seq![]);
        }
    }
    Ok((s, q3))
}

/// `while (condition) statement`, from the `while` at `p`.
#[verifier::rlimit(100)]
fn while_statement(t: &Vec<Token>, p: usize) -> (r: Result<(Statement, usize), Error>)
    requires
        well_ended(t@),
        p < t@.len(),
        t@[p as int].kind == Kind::While,
    ensures
        r matches Ok((s, q)) ==> (open_ended(s) ==> !is_at(t@, q as int, Kind::Else)),
        agrees(r, while_end(t@, p as int), t@),
        r matches Ok((s, q)) ==> parsed(statement_spelling(s), t@, p as int, q as int) && statement_canonical(s),
    decreases t@.len() - p, 0int,
{
    proof {
        lemma_spells_one(Piece::Plain(Kind::While), t@, p as int);
    }
    let (c, q) = condition(t, p + 1, "Expected '(' after 'while'.", "Expected ')' after while condition.")?;
    let (body, q2) = statement(t, q)?;
    let ghost cond = seq![Piece::Plain(Kind::LeftParenthesis)] + expression_spelling(c) + seq![Piece::Plain(Kind::RightParenthesis)];
    let s = Statement::While { condition: c, body: Box::new(body) };
    proof {
        lemma_spells_concat(seq![Piece::Plain(Kind::While)], cond, t@, p as int, p + 1, q as int);
        lemma_spells_concat(seq![Piece::Plain(Kind::While)] + cond, statement_spelling(body), t@, p as int, q as int, q2 as int);
        assert(statement_spelling(s) =~= seq![Piece::Plain(Kind::While)] + cond + statement_spelling(body));
    }
    Ok((s, q2))
}

/// An optional expression before the token `end` at or after `p`.
fn optional_expression(t: &Vec<Token>, p: usize, end: &Kind) -> (r: Result<(Option<Expression>, usize), Error>)
    requires
        well_ended(t@),
        p < t@.len(),
        end.is_plain(),
    ensures
        agrees(r, optional_end(t@, p as int, *end), t@),
        r matches Ok((e, q)) ==> p <= q < t@.len() && spells(optional_spelling(e), t@, p as int, q as int)
            && optional_canonical(e),
    decreases t@.len() - p, 12int,
{
    if check(t, p, end) {
        Ok((None, p))
    } else {
        let (e, q) = expression(t, p)?;
        Ok((Some(e), q))
    }
}

/// What a `for` loop's first clause spells: the initializer statement, or its lone `;`.
pub open spec fn initializer_clause(i: Option<Box<Statement>>) -> Seq<Piece> {
    match i {
        Some(i) => statement_spelling(*i),
        None => seq![Piece::Plain(Kind::Semicolon)],
    }
}

/// A `for` loop's first clause from `q`: nothing but `;`, a variable declaration, or an
/// expression statement.
fn for_initializer(t: &Vec<Token>, q: usize) -> (r: Result<(Option<Box<Statement>>, usize), Error>)
    requires
        well_ended(t@),
        q < t@.len(),
    ensures
        agrees(r, for_initializer_end(t@, q as int), t@),
        r matches Ok((i, q2)) ==> parsed(initializer_clause(i), t@, q as int, q2 as int) && match i {
            Some(i) => (*i is Variable || *i is Expression) && statement_canonical(*i),
            None => true,
        },
    decreases t@.len() - q, 13int,
{
    if check(t, q, &Kind::Semicolon) {
        proof {
            lemma_spells_one(Piece::Plain(Kind::Semicolon), t@, q as int);
        }
        Ok((None, q + 1))
    } else if check(t, q, &Kind::Variable) {
        let (s, q2) = variable_declaration(t, q)?;
        Ok((Some(Box::new(s)), q2))
    } else {
        let (s, q2) = expression_statement(t, q)?;
        Ok((Some(Box::new(s)), q2))
    }
}

/// What a `for` loop's condition and increment clauses spell, with their `;` and `)`.
pub open spec fn clauses_spelling(c: Option<Expression>, increment: Option<Expression>) -> Seq<Piece> {
    optional_spelling(c) + seq![Piece::Plain(Kind::Semicolon)] + optional_spelling(increment) + seq![
        Piece::Plain(Kind::RightParenthesis),
    ]
}

/// What a `for` statement spells, and what its shape asks, part by part.
proof fn lemma_for_shape(s: Statement)
    requires
        s is For,
    ensures
        statement_spelling(s) == seq![Piece::Plain(Kind::For)] + seq![Piece::Plain(Kind::LeftParenthesis)]
            + initializer_clause(s->For_initializer) + clauses_spelling(s->For_condition, s->For_increment)
            + statement_spelling(*s->For_body),
        statement_canonical(s) == ((match s->For_initializer {
            Some(i) => (*i is Variable || *i is Expression) && statement_canonical(*i),
            None => true,
        }) && optional_canonical(s->For_condition) && optional_canonical(s->For_increment)
            && statement_canonical(*s->For_body)),
        open_ended(s) == open_ended(*s->For_body),
{
    assert(statement_spelling(s) =~= seq![Piece::Plain(Kind::For)] + seq![Piece::Plain(Kind::LeftParenthesis)]
        + initializer_clause(s->For_initializer) + clauses_spelling(s->For_condition, s->For_increment)
        + statement_spelling(*s->For_body));
}

/// A `for` loop's condition and increment clauses from `q`, up to and including the `)`.
fn for_clauses(t: &Vec<Token>, q: usize) -> (r: Result<(Option<Expression>, Option<Expression>, usize), Error>)
    requires
        well_ended(t@),
        q < t@.len(),
    ensures
        match for_clauses_end(t@, q as int) {
            Ok(q6) => r is Ok && r->Ok_0.2 == q6,
            Err(f) => r matches Err(e) && error_at(e, f, t@),
        },
        r matches Ok((c, i, q6)) ==> parsed(clauses_spelling(c, i), t@, q as int, q6 as int)
            && optional_canonical(c) && optional_canonical(i),
    decreases t@.len() - q, 13int,
{
    let (c, q3) = optional_expression(t, q, &Kind::Semicolon)?;
    let (_, q4) = consume(t, q3, &Kind::Semicolon, "Expected ';' after loop condition.")?;
    let (increment, q5) = optional_expression(t, q4, &Kind::RightParenthesis)?;
    let (_, q6) = consume(t, q5, &Kind::RightParenthesis, "Expected ')' after for clauses.")?;
    proof {
        lemma_spells_concat(optional_spelling(c), seq![Piece::Plain(Kind::Semicolon)], t@, q as int, q3 as int, q4 as int);
        lemma_spells_concat(optional_spelling(c) + seq![Piece::Plain(Kind::Semicolon)], optional_spelling(increment), t@, q as int, q4 as int, q5 as int);
        lemma_spells_concat(optional_spelling(c) + seq![Piece::Plain(Kind::Semicolon)] + optional_spelling(increment), seq![Piece::Plain(Kind::RightParenthesis)], t@, q as int, q5 as int, q6 as int);
    }
    Ok((c, increment, q6))
}

/// `for (initializer; condition; increment) statement`, from the `for` at `p`; each clause
/// may be left out.
#[verifier::rlimit(100)]
fn for_statement(t: &Vec<Token>, p: usize) -> (r: Result<(Statement, usize), Error>)
    requires
        well_ended(t@),
        p < t@.len(),
        t@[p as int].kind == Kind::For,
    ensures
        r matches Ok((s, q)) ==> (open_ended(s) ==> !is_at(t@, q as int, Kind::Else)),
        agrees(r, for_end(t@, p as int), t@),
        r matches Ok((s, q)) ==> parsed(statement_spelling(s), t@, p as int, q as int) && statement_canonical(s),
    decreases t@.len() - p, 0int,
{
    proof {
        lemma_spells_one(Piece::Plain(Kind::For), t@, p as int);
    }
    let (_, q) = consume(t, p + 1, &Kind::LeftParenthesis, "Expected '(' after 'for'.")?;
    let (initializer, q2) = for_initializer(t, q)?;
    let ghost init = initializer_clause(initializer);
    let (c, increment, q6) = for_clauses(t, q2)?;
    let (body, q7) = statement(t, q6)?;
    let s = Statement::For { initializer, condition: c, increment, body: Box::new(body) };
    proof {
        let a = seq![Piece::Plain(Kind::For)] + seq![Piece::Plain(Kind::LeftParenthesis)];
        let clauses = clauses_spelling(c, increment);
        lemma_spells_concat(seq![Piece::Plain(Kind::For)], seq![Piece::Plain(Kind::LeftParenthesis)], t@, p as int, p + 1, q as int);
        lemma_spells_concat(a, init, t@, p as int, q as int, q2 as int);
        lemma_spells_concat(a + init, clauses, t@, p as int, q2 as int, q6 as int);
        lemma_spells_concat(a + init + clauses, statement_spelling(body), t@, p as int, q6 as int, q7 as int);
        lemma_for_shape(s);
    }
    Ok((s, q7))
}

/// `return [value];`, from the `return` at `p`.
fn return_statement(t: &Vec<Token>, p: usize) -> (r: Result<(Statement, usize), Error>)
    requires
        well_ended(t@),
        p < t@.len(),
        t@[p as int].kind == Kind::Return,
    ensures
        r matches Ok((s, q)) ==> (open_ended(s) ==> !is_at(t@, q as int, Kind::Else)),
        agrees(r, return_end(t@, p as int), t@),
        r matches Ok((s, q)) ==> parsed(statement_spelling(s), t@, p as int, q as int) && statement_canonical(s),
    decreases t@.len() - p, 0int,
{
    let keyword = t[p].duplicate();
    proof {
        lemma_spells_one(Piece::Held(keyword), t@, p as int);
    }
    let (value, q) = optional_expression(t, p + 1, &Kind::Semicolon)?;
    let (_, q2) = consume(t, q, &Kind::Semicolon, "Expected ';' after return value.")?;
    let s = Statement::Return { keyword, value };
    proof {
        lemma_spells_concat(seq![Piece::Held(keyword)], optional_spelling(value), t@, p as int, p + 1, q as int);
        lemma_spells_concat(seq![Piece::Held(keyword)] + optional_spelling(value), seq![Piece::Plain(Kind::Semicolon)], t@, p as int, q as int, q2 as int);
    }
    Ok((s, q2))
}

/// `expression;`.
fn expression_statement(t: &Vec<Token>, p: usize) -> (r: Result<(Statement, usize), Error>)
    requires
        well_ended(t@),
        p < t@.len(),
    ensures
        r matches Ok((s, q)) ==> (open_ended(s) ==> !is_at(t@, q as int, Kind::Else)),
        agrees(r, expression_statement_end(t@, p as int), t@),
        r matches Ok((s, q)) ==> s is Expression && parsed(statement_spelling(s), t@, p as int, q as int)
            && statement_canonical(s),
    decreases t@.len() - p, 12int,
{
    let (e, q) = expression(t, p)?;
    let (_, q2) = consume(t, q, &Kind::Semicolon, "Expected ';' after expression.")?;
    proof {
        lemma_spells_concat(expression_spelling(e), seq![Piece::Plain(Kind::Semicolon)], t@, p as int, q as int, q2 as int);
    }
    Ok((Statement::Expression { expression: e }, q2))
}

/// An expression, starting at `p`.
fn expression(t: &Vec<Token>, p: usize) -> (r: Result<(Expression, usize), Error>)
    requires
        well_ended(t@),
        p < t@.len(),
    ensures
        agrees(r, expression_end(t@, p as int), t@),
        r matches Ok((e, q)) ==> parsed(expression_spelling(e), t@, p as int, q as int) && canonical(e)
            && binding(e) <= 8,
    decreases t@.len() - p, 11int,
{
    assignment(t, p)
}

/// Every expression is spelled by at least one token.
proof fn lemma_spelled_by_some(e: Expression)
    ensures
        expression_spelling(e).len() >= 1,
{
}

/// An expression spelled by a single token is a literal or a variable.
proof fn lemma_spelled_by_one(e: Expression)
    requires
        expression_spelling(e).len() == 1,
    ensures
        e is Literal || e is Variable,
{
    match e {
        Expression::Unary { operator, right } => lemma_spelled_by_some(*right),
        Expression::Binary { left, operator, right } => {
            lemma_spelled_by_some(*left);
            lemma_spelled_by_some(*right);
        },
        Expression::Call { callee, arguments } => lemma_spelled_by_some(*callee),
        _ => {},
    }
}

/// An assignment `name = value` (right-associative), or an expression of the looser binary
/// level.
fn assignment(t: &Vec<Token>, p: usize) -> (r: Result<(Expression, usize), Error>)
    requires
        well_ended(t@),
        p < t@.len(),
    ensures
        agrees(r, assignment_end(t@, p as int), t@),
        r matches Ok((e, q)) ==> parsed(expression_spelling(e), t@, p as int, q as int) && canonical(e)
            && binding(e) <= 8,
    decreases t@.len() - p, 10int,
{
    let (target, q) = binary(t, p, 6)?;
    if check(t, q, &Kind::Assign) {
        let equals_line = t[q].line;
        let equals_column = t[q].column;
        let (value, q2) = assignment(t, q + 1)?;
        proof {
            lemma_spelled_by_some(target);
            if q == p + 1 {
                lemma_spelled_by_one(target);
                assert(piece_matches(expression_spelling(target)[0], t@[p as int]));
            }
        }
        match target {
            Expression::Variable { name } => {
                proof {
                    lemma_spells_one(Piece::Plain(Kind::Assign), t@, q as int);
                    lemma_spells_concat(seq![Piece::Held(name)], seq![Piece::Plain(Kind::Assign)], t@, p as int, q as int, q + 1);
                    lemma_spells_concat(seq![Piece::Held(name)] + seq![Piece::Plain(Kind::Assign)], expression_spelling(value), t@, p as int, q + 1, q2 as int);
                    assert(seq![Piece::Held(name)] + seq![Piece::Plain(Kind::Assign)] =~= seq![Piece::Held(name), Piece::Plain(Kind::Assign)]);
                }
                Ok((Expression::Assignment { name, value: Box::new(value) }, q2))
            },
            _ => Err(Error::InvalidAssignmentTarget { line: equals_line, column: equals_column }),
        }
    } else {
        Ok((target, q))
    }
}

/// Whether `k` is an operator of binary precedence `level`.
fn is_binary_operator(k: &Kind, level: usize) -> (r: bool)
    ensures
        r == binary_operator(*k, level as int),
{
    if level == 6 {
        k.is(&Kind::LogicalOr)
    } else if level == 5 {
        k.is(&Kind::LogicalAnd)
    } else if level == 4 {
        k.is(&Kind::Equality) || k.is(&Kind::NotEqual)
    } else if level == 3 {
        k.is(&Kind::LessThan) || k.is(&Kind::LessThanOrEqual) || k.is(&Kind::GreaterThan) || k.is(
            &Kind::GreaterThanOrEqual,
        )
    } else if level == 2 {
        k.is(&Kind::Plus) || k.is(&Kind::Minus)
    } else if level == 1 {
        k.is(&Kind::Star) || k.is(&Kind::Slash) || k.is(&Kind::Percent)
    } else {
        false
    }
}

/// A left-associative chain of operands joined by the operators of precedence `level`; each
/// operand is an expression of the next tighter level (unary ones below level 1).
fn binary(t: &Vec<Token>, p: usize, level: usize) -> (r: Result<(Expression, usize), Error>)
    requires
        well_ended(t@),
        p < t@.len(),
        1 <= level <= 6,
    ensures
        agrees(r, binary_end(t@, p as int, level as int), t@),
        r matches Ok((e, q)) ==> parsed(expression_spelling(e), t@, p as int, q as int) && canonical(e)
            && binding(e) <= level + 1,
    decreases t@.len() - p, 3 + level,
{
    assert(operand_end(t@, p as int, level as int) == if level == 1 {
        unary_end(t@, p as int)
    } else {
        binary_end(t@, p as int, level - 1)
    });
    let (mut e, mut q) = if level == 1 { unary(t, p)? } else { binary(t, p, level - 1)? };
    while !t[q].kind.is(&Kind::EndOfFile) && is_binary_operator(&t[q].kind, level)
        invariant
            well_ended(t@),
            1 <= level <= 6,
            parsed(expression_spelling(e), t@, p as int, q as int),
            canonical(e),
            binding(e) <= level + 1,
            binary_end(t@, p as int, level as int) == binary_rest(t@, q as int, level as int),
        decreases t@.len() - q,
    {
        let operator = t[q].duplicate();
        assert(operand_end(t@, q + 1, level as int) == if level == 1 {
            unary_end(t@, q + 1)
        } else {
            binary_end(t@, q + 1, level - 1)
        });
        let (right, q2) = if level == 1 { unary(t, q + 1)? } else { binary(t, q + 1, level - 1)? };
        proof {
            lemma_spells_one(Piece::Held(operator), t@, q as int);
            lemma_spells_concat(expression_spelling(e), seq![Piece::Held(operator)], t@, p as int, q as int, q + 1);
            lemma_spells_concat(expression_spelling(e) + seq![Piece::Held(operator)], expression_spelling(right), t@, p as int, q + 1, q2 as int);
        }
        e = Expression::Binary { left: Box::new(e), operator, right: Box::new(right) };
        q = q2;
    }
    Ok((e, q))
}

/// A prefix `-` or `!` applied to a unary expression (right-associative), or a call.
fn unary(t: &Vec<Token>, p: usize) -> (r: Result<(Expression, usize), Error>)
    requires
        well_ended(t@),
        p < t@.len(),
    ensures
        agrees(r, unary_end(t@, p as int), t@),
        r matches Ok((e, q)) ==> parsed(expression_spelling(e), t@, p as int, q as int) && canonical(e)
            && binding(e) <= 1,
    decreases t@.len() - p, 3int,
{
    if check(t, p, &Kind::Minus) || check(t, p, &Kind::LogicalNot) {
        let operator = t[p].duplicate();
        let (right, q) = unary(t, p + 1)?;
        proof {
            lemma_spells_one(Piece::Held(operator), t@, p as int);
            lemma_spells_concat(seq![Piece::Held(operator)], expression_spelling(right), t@, p as int, p + 1, q as int);
        }
        Ok((Expression::Unary { operator, right: Box::new(right) }, q))
    } else {
        call(t, p)
    }
}

/// A primary expression followed by any number of argument lists.
fn call(t: &Vec<Token>, p: usize) -> (r: Result<(Expression, usize), Error>)
    requires
        well_ended(t@),
        p < t@.len(),
    ensures
        agrees(r, call_end(t@, p as int), t@),
        r matches Ok((e, q)) ==> parsed(expression_spelling(e), t@, p as int, q as int) && canonical(e)
            && binding(e) <= 0,
    decreases t@.len() - p, 2int,
{
    let (mut e, mut q) = primary(t, p)?;
    while check(t, q, &Kind::LeftParenthesis)
        invariant
            well_ended(t@),
            parsed(expression_spelling(e), t@, p as int, q as int),
            canonical(e),
            binding(e) == 0,
            call_end(t@, p as int) == call_rest(t@, q as int),
        decreases t@.len() - q,
    {
        let (arguments, q2) = finish_call(t, q)?;
        proof {
            lemma_spells_concat(expression_spelling(e), seq![Piece::Plain(Kind::LeftParenthesis)] + arguments_spelling(arguments@) + seq![Piece::Plain(Kind::RightParenthesis)], t@, p as int, q as int, q2 as int);
        }
        let ghost callee = e;
        e = Expression::Call { callee: Box::new(e), arguments };
        proof {
            assert(expression_spelling(e) =~= expression_spelling(callee) + (seq![Piece::Plain(Kind::LeftParenthesis)] + arguments_spelling(arguments@) + seq![Piece::Plain(Kind::RightParenthesis)]));
        }
        q = q2;
    }
    Ok((e, q))
}

/// `(arguments)`, from the `(` at `p`: zero or more expressions separated by commas.
fn finish_call(t: &Vec<Token>, p: usize) -> (r: Result<(Vec<Expression>, usize), Error>)
    requires
        well_ended(t@),
        p < t@.len(),
        t@[p as int].kind == Kind::LeftParenthesis,
    ensures
        agrees(r, arguments_end(t@, p as int), t@),
        r matches Ok((args, q)) ==> parsed(seq![Piece::Plain(Kind::LeftParenthesis)] + arguments_spelling(args@) + seq![Piece::Plain(Kind::RightParenthesis)], t@, p as int, q as int)
            && all_canonical(args@),
    decreases t@.len() - p, 0int,
{
    proof {
        lemma_spells_one(Piece::Plain(Kind::LeftParenthesis), t@, p as int);
    }
    let mut arguments: Vec<Expression> = Vec::new();
    let mut q = p + 1;
    if !check(t, q, &Kind::RightParenthesis) {
        loop
            invariant_except_break
                spells(if arguments@.len() == 0 { seq![] } else { arguments_spelling(arguments@) + seq![Piece::Plain(Kind::Comma)] }, t@, p + 1, q as int),
                arguments_end(t@, p as int) == arguments_list(t@, q as int),
            invariant
                well_ended(t@),
                p < q < t@.len(),
                all_canonical(arguments@),
                !is_at(t@, p + 1, Kind::RightParenthesis),
            ensures
                spells(arguments_spelling(arguments@), t@, p + 1, q as int),
                arguments_end(t@, p as int) == expect(
                    t@,
                    Ok(q as int),
                    Kind::RightParenthesis,
                    "Expected ')' after arguments."@,
                ),
            decreases t@.len() - q,
        {
            let ghost prefix = if arguments@.len() == 0 { seq![] } else { arguments_spelling(arguments@) + seq![Piece::Plain(Kind::Comma)] };
            let (arg, q2) = expression(t, q)?;
            proof {
                lemma_spells_concat(prefix, expression_spelling(arg), t@, p + 1, q as int, q2 as int);
            }
            let ghost old_args = arguments@;
            arguments.push(arg);
            proof {
                assert(arguments@.drop_last() =~= old_args);
                assert(prefix + expression_spelling(arg) =~= arguments_spelling(arguments@));
            }
            if check(t, q2, &Kind::Comma) {
                proof {
                    lemma_spells_one(Piece::Plain(Kind::Comma), t@, q2 as int);
                    lemma_spells_concat(arguments_spelling(arguments@), seq![Piece::Plain(Kind::Comma)], t@, p + 1, q2 as int, q2 + 1);
                }
                q = q2 + 1;
            } else {
                q = q2;
                break;
            }
        }
    }
    proof {
        if arguments@.len() == 0 {
            assert(arguments_spelling(arguments@) =~= seq![]);
        }
    }
    assert(spells(arguments_spelling(arguments@), t@, p + 1, q as int));
    let (_, q2) = consume(t, q, &Kind::RightParenthesis, "Expected ')' after arguments.")?;
    proof {
        lemma_spells_concat(seq![Piece::Plain(Kind::LeftParenthesis)], arguments_spelling(arguments@), t@, p as int, p + 1, q as int);
        lemma_spells_concat(seq![Piece::Plain(Kind::LeftParenthesis)] + arguments_spelling(arguments@), seq![Piece::Plain(Kind::RightParenthesis)], t@, p as int, q as int, q2 as int);
    }
    Ok((arguments, q2))
}

/// A literal, a variable, or a parenthesized expression.
fn primary(t: &Vec<Token>, p: usize) -> (r: Result<(Expression, usize), Error>)
    requires
        well_ended(t@),
        p < t@.len(),
    ensures
        agrees(r, primary_end(t@, p as int), t@),
        r matches Ok((e, q)) ==> parsed(expression_spelling(e), t@, p as int, q as int) && canonical(e)
            && binding(e) <= 0,
    decreases t@.len() - p, 1int,
{
    let next = t[p].duplicate();
    match next.kind {
        Kind::False => {
            proof { lemma_spells_one(Piece::Plain(Kind::False), t@, p as int); }
            Ok((Expression::Literal(Literal::Boolean(false)), p + 1))
        },
        Kind::True => {
            proof { lemma_spells_one(Piece::Plain(Kind::True), t@, p as int); }
            Ok((Expression::Literal(Literal::Boolean(true)), p + 1))
        },
        Kind::Float(value) => {
            let ghost k = Kind::Float(value);
            proof { lemma_spells_one(Piece::Plain(k), t@, p as int); }
            Ok((Expression::Literal(Literal::Number(Number::Float(value))), p + 1))
        },
        Kind::Integer(value) => {
            proof { lemma_spells_one(Piece::Plain(Kind::Integer(value)), t@, p as int); }
            Ok((Expression::Literal(Literal::Number(Number::Integer(value))), p + 1))
        },
        Kind::String(value) => {
            let ghost k = Kind::String(value);
            proof { lemma_spells_one(Piece::Plain(k), t@, p as int); }
            Ok((Expression::Literal(Literal::String(value)), p + 1))
        },
        Kind::Identifier(name) => {
            let tok = Token { kind: Kind::Identifier(name), line: next.line, column: next.column };
            proof { lemma_spells_one(Piece::Held(tok), t@, p as int); }
            Ok((Expression::Variable { name: tok }, p + 1))
        },
        Kind::LeftParenthesis => {
            let (e, q) = expression(t, p + 1)?;
            let (_, q2) = consume(t, q, &Kind::RightParenthesis, "Expected ')' after expression.")?;
            proof {
                lemma_spells_one(Piece::Plain(Kind::LeftParenthesis), t@, p as int);
                lemma_spells_concat(seq![Piece::Plain(Kind::LeftParenthesis)], expression_spelling(e), t@, p as int, p + 1, q as int);
                lemma_spells_concat(seq![Piece::Plain(Kind::LeftParenthesis)] + expression_spelling(e), seq![Piece::Plain(Kind::RightParenthesis)], t@, p as int, q as int, q2 as int);
            }
            Ok((Expression::Grouping { expression: Box::new(e) }, q2))
        },
        _ => Err(unexpected(t, p, "Expected expression.")),
    }
}

} // verus!
