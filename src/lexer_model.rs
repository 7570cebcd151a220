use vstd::prelude::*;
use crate::chars::{letter, numeric, space, word_char};
use crate::lexer::Error;
use crate::token::{Kind, Token};

verus! {

/// A place in the input: the index of the next character and the line and column that the
/// lexer has counted so far.
pub struct Cursor {
    pub pos: int,
    pub line: int,
    pub column: int,
}

/// Consuming one character: a newline moves to the next line and resets the column count to
/// 0, any other character counts one more column. At the end of the input nothing changes.
pub open spec fn step(s: Seq<char>, c: Cursor) -> Cursor {
    if 0 <= c.pos < s.len() {
        if s[c.pos] == '\n' {
            Cursor { pos: c.pos + 1, line: c.line + 1, column: 0 }
        } else {
            Cursor { pos: c.pos + 1, line: c.line, column: c.column + 1 }
        }
    } else {
        c
    }
}

/// Consuming `n` characters one after another.
pub open spec fn walk(s: Seq<char>, c: Cursor, n: nat) -> Cursor
    decreases n,
{
    if n == 0 {
        c
    } else {
        step(s, walk(s, c, (n - 1) as nat))
    }
}

/// The end of the run of characters satisfying `p` that starts at `i`.
pub open spec fn span(s: Seq<char>, i: int, p: spec_fn(char) -> bool) -> int
    decreases s.len() - i,
{
    if 0 <= i < s.len() && p(s[i]) {
        span(s, i + 1, p)
    } else {
        i
    }
}

/// What a token of the model holds: an identifier's name, an integer's value, a float's
/// text, a string's decoded contents, or a payload-free kind.
pub enum Lexeme {
    Word(Seq<char>),
    Int(int),
    FloatText(Seq<char>),
    Text(Seq<char>),
    Plain(Kind),
}

/// A token of the model: what it holds and where it was recorded.
pub struct Lexed {
    pub lexeme: Lexeme,
    pub line: int,
    pub column: int,
}

pub open spec fn kind_models(k: Kind, l: Lexeme) -> bool {
    match l {
        Lexeme::Word(w) => k is Identifier && k->Identifier_0@ == w,
        Lexeme::Int(v) => k is Integer && k->Integer_0 == v,
        Lexeme::FloatText(t) => k is Float && k->Float_0@ == t,
        Lexeme::Text(t) => k is String && k->String_0@ == t,
        Lexeme::Plain(p) => p.is_plain() && k == p,
    }
}

pub open spec fn token_models(t: Token, l: Lexed) -> bool {
    kind_models(t.kind, l.lexeme) && t.line == l.line && t.column == l.column
}

pub open spec fn tokens_model(ts: Seq<Token>, ls: Seq<Lexed>) -> bool {
    ts.len() == ls.len() && forall|i: int| 0 <= i < ts.len() ==> token_models(#[trigger] ts[i], ls[i])
}

/// The keyword spelled by `w`, if any.
pub open spec fn keyword(w: Seq<char>) -> Option<Kind> {
    if w == seq!['t', 'r', 'u', 'e'] {
        Some(Kind::True)
    } else if w == seq!['f', 'a', 'l', 's', 'e'] {
        Some(Kind::False)
    } else if w == seq!['i', 'f'] {
        Some(Kind::If)
    } else if w == seq!['e', 'l', 's', 'e'] {
        Some(Kind::Else)
    } else if w == seq!['w', 'h', 'i', 'l', 'e'] {
        Some(Kind::While)
    } else if w == seq!['f', 'o', 'r'] {
        Some(Kind::For)
    } else if w == seq!['i', 'n'] {
        Some(Kind::Range)
    } else if w == seq!['t', 'o'] {
        Some(Kind::To)
    } else if w == seq!['b', 'r', 'e', 'a', 'k'] {
        Some(Kind::Break)
    } else if w == seq!['c', 'o', 'n', 't', 'i', 'n', 'u', 'e'] {
        Some(Kind::Continue)
    } else if w == seq!['r', 'e', 't', 'u', 'r', 'n'] {
        Some(Kind::Return)
    } else if w == seq!['f', 'n'] {
        Some(Kind::Function)
    } else if w == seq!['l', 'e', 't'] {
        Some(Kind::Variable)
    } else {
        None
    }
}

pub open spec fn word_lexeme(w: Seq<char>) -> Lexeme {
    match keyword(w) {
        Some(k) => Lexeme::Plain(k),
        None => Lexeme::Word(w),
    }
}

/// A character that a numeric literal's body may hold.
pub open spec fn number_char(c: char) -> bool {
    numeric(c) || c == '+' || c == '-' || c == 'e' || c == 'E' || c == '.' || c == 'b' || c == 'B'
        || c == 'o' || c == 'O' || c == 'x' || c == 'X'
}

pub open spec fn ascii_digit(c: char) -> bool {
    '0' <= c && c <= '9'
}

/// Whether `t` is the text of a decimal floating-point number: digits, an optional `.` and
/// more digits (at least one digit in all), then an optional exponent `e`/`E`, an optional
/// sign and at least one digit.
pub open spec fn float_text(t: Seq<char>) -> bool {
    let a = span(t, 0, |c: char| ascii_digit(c));
    let b = if a < t.len() && t[a] == '.' { span(t, a + 1, |c: char| ascii_digit(c)) } else { a };
    let digits = if a < t.len() && t[a] == '.' { b - 1 } else { b };
    &&& digits >= 1
    &&& b == t.len() || {
        &&& t[b] == 'e' || t[b] == 'E'
        &&& {
            let k = if b + 1 < t.len() && (t[b + 1] == '+' || t[b + 1] == '-') { b + 2 } else { b + 1 };
            let d = span(t, k, |c: char| ascii_digit(c));
            d > k && d == t.len()
        }
    }
}

/// The value of an ASCII digit or letter as a digit (`a`/`A` is ten), or 99 for any other
/// character.
pub open spec fn digit_value(c: char) -> int {
    if '0' <= c && c <= '9' {
        c as int - '0' as int
    } else if 'a' <= c && c <= 'z' {
        c as int - 'a' as int + 10
    } else if 'A' <= c && c <= 'Z' {
        c as int - 'A' as int + 10
    } else {
        99
    }
}

/// The value of the digits `d` in base `radix`, if every one of them is a digit of that base.
pub open spec fn digits_value(d: Seq<char>, radix: int) -> Option<int>
    decreases d.len(),
{
    if d.len() == 0 {
        Some(0)
    } else {
        match digits_value(d.drop_last(), radix) {
            Some(v) => if digit_value(d.last()) < radix {
                Some(v * radix + digit_value(d.last()))
            } else {
                None
            },
            None => None,
        }
    }
}

pub open spec fn fits_i64(v: int) -> bool {
    i64::MIN <= v <= i64::MAX
}

/// The integer that `t` spells in base `radix`: an optional sign, then at least one digit;
/// none if it spells none or the value does not fit in 64 bits.
pub open spec fn radix_value(t: Seq<char>, radix: int) -> Option<int> {
    let signed = t.len() > 0 && (t[0] == '+' || t[0] == '-');
    let d = if signed { t.skip(1) } else { t };
    if d.len() == 0 {
        None
    } else {
        match digits_value(d, radix) {
            Some(m) => {
                let v = if signed && t[0] == '-' { -m } else { m };
                if fits_i64(v) { Some(v) } else { None }
            },
            None => None,
        }
    }
}

pub open spec fn has(t: Seq<char>, a: char, b: char) -> bool {
    t.contains(a) || t.contains(b)
}

/// What a numeric literal's body decodes to, before its sign is applied: `.`, `e` or `E`
/// make it a float, `b`, `o` or `x` (either case) an integer in base 2, 8 or 16 written after
/// a two-character prefix, and otherwise it is a decimal integer.
pub enum Numeral {
    Float,
    Int(int),
    BadFloat,
    BadInt,
}

pub open spec fn numeral(body: Seq<char>) -> Numeral {
    let rest = body.subrange(if body.len() < 2 { body.len() as int } else { 2 }, body.len() as int);
    if body.contains('.') || has(body, 'e', 'E') {
        if float_text(body) { Numeral::Float } else { Numeral::BadFloat }
    } else {
        let v = if has(body, 'b', 'B') {
            radix_value(rest, 2)
        } else if has(body, 'o', 'O') {
            radix_value(rest, 8)
        } else if has(body, 'x', 'X') {
            radix_value(rest, 16)
        } else {
            radix_value(body, 10)
        };
        match v {
            Some(v) => Numeral::Int(v),
            None => Numeral::BadInt,
        }
    }
}

/// The character that an escape sequence `\e` stands for.
pub open spec fn escape(e: char) -> Option<char> {
    if e == 'n' {
        Some('\n')
    } else if e == 'r' {
        Some('\r')
    } else if e == 't' {
        Some('\t')
    } else if e == '\\' {
        Some('\\')
    } else if e == '"' {
        Some('"')
    } else {
        None
    }
}

/// The payload-free kind of the operator or punctuation mark that starts with `a`, followed by
/// `b` and `c` where they exist, and how many characters it takes.
pub open spec fn operator(a: char, b: Option<char>, c: Option<char>) -> Option<(Kind, int)> {
    if a == '+' {
        if b == Some('=') { Some((Kind::AddAssign, 2)) }
        else if b == Some('+') { Some((Kind::Increment, 2)) }
        else { Some((Kind::Plus, 1)) }
    } else if a == '-' {
        if b == Some('=') { Some((Kind::SubtractAssign, 2)) }
        else if b == Some('-') { Some((Kind::Decrement, 2)) }
        else if b == Some('>') { Some((Kind::Arrow, 2)) }
        else { Some((Kind::Minus, 1)) }
    } else if a == '*' {
        if b == Some('=') { Some((Kind::MultiplyAssign, 2)) }
        else if b == Some('*') { Some((Kind::Power, 2)) }
        else { Some((Kind::Star, 1)) }
    } else if a == '/' {
        if b == Some('=') { Some((Kind::DivisionAssign, 2)) } else { Some((Kind::Slash, 1)) }
    } else if a == '%' {
        if b == Some('=') { Some((Kind::ModuloAssign, 2)) } else { Some((Kind::Percent, 1)) }
    } else if a == '^' {
        if b == Some('=') { Some((Kind::BitwiseXorAssign, 2)) } else { Some((Kind::BitwiseXor, 1)) }
    } else if a == '!' {
        if b == Some('=') { Some((Kind::NotEqual, 2)) } else { Some((Kind::LogicalNot, 1)) }
    } else if a == '=' {
        if b == Some('=') { Some((Kind::Equality, 2)) } else { Some((Kind::Assign, 1)) }
    } else if a == '<' {
        if b == Some('=') { Some((Kind::LessThanOrEqual, 2)) }
        else if b == Some('<') {
            if c == Some('=') { Some((Kind::BitwiseLeftShiftAssign, 3)) }
            else { Some((Kind::BitwiseLeftShift, 2)) }
        } else { Some((Kind::LessThan, 1)) }
    } else if a == '>' {
        if b == Some('=') { Some((Kind::GreaterThanOrEqual, 2)) }
        else if b == Some('>') {
            if c == Some('=') { Some((Kind::BitwiseRightShiftAssign, 3)) }
            else { Some((Kind::BitwiseRightShift, 2)) }
        } else { Some((Kind::GreaterThan, 1)) }
    } else if a == '&' {
        if b == Some('=') { Some((Kind::BitwiseAndAssign, 2)) }
        else if b == Some('&') { Some((Kind::LogicalAnd, 2)) }
        else { Some((Kind::BitwiseAnd, 1)) }
    } else if a == '|' {
        if b == Some('=') { Some((Kind::BitwiseOrAssign, 2)) }
        else if b == Some('|') { Some((Kind::LogicalOr, 2)) }
        else { Some((Kind::BitwiseOr, 1)) }
    } else if a == '(' { Some((Kind::LeftParenthesis, 1)) }
    else if a == ')' { Some((Kind::RightParenthesis, 1)) }
    else if a == '{' { Some((Kind::LeftCurlyBrace, 1)) }
    else if a == '}' { Some((Kind::RightCurlyBrace, 1)) }
    else if a == '[' { Some((Kind::LeftBracket, 1)) }
    else if a == ']' { Some((Kind::RightBracket, 1)) }
    else if a == ',' { Some((Kind::Comma, 1)) }
    else if a == '.' { Some((Kind::Dot, 1)) }
    else if a == ':' { Some((Kind::Colon, 1)) }
    else if a == ';' { Some((Kind::Semicolon, 1)) }
    else { None }
}

pub open spec fn at(s: Seq<char>, i: int) -> Option<char> {
    if 0 <= i < s.len() { Some(s[i]) } else { None }
}

/// The index just past the `*/` that closes a block comment whose text starts at `i`, or the
/// end of the input if none does.
pub open spec fn block_end(s: Seq<char>, i: int) -> int
    decreases s.len() - i,
{
    if i + 1 < s.len() && s[i] == '*' && s[i + 1] == '/' {
        i + 2
    } else if 0 <= i < s.len() {
        block_end(s, i + 1)
    } else {
        s.len() as int
    }
}

} // verus!

verus! {

/// A token recorded at its first character, which stands at `c`: its line and 1-based column.
pub open spec fn lexed(l: Lexeme, c: Cursor) -> Lexed {
    Lexed { lexeme: l, line: c.line, column: c.column + 1 }
}

/// Reading an identifier or keyword that starts at `c`.
pub open spec fn scan_word(s: Seq<char>, c: Cursor) -> (Lexed, Cursor) {
    let e = span(s, c.pos, |ch: char| word_char(ch));
    let c2 = walk(s, c, (e - c.pos) as nat);
    (lexed(word_lexeme(s.subrange(c.pos, e)), c), c2)
}

/// Reading a numeric literal that starts at `c`, with an optional sign; none if the sign is
/// not followed by a digit.
pub open spec fn scan_number(s: Seq<char>, c: Cursor) -> Option<Result<(Lexed, Cursor), Error>> {
    let signed = s[c.pos] == '+' || s[c.pos] == '-';
    if signed && !(c.pos + 1 < s.len() && numeric(s[c.pos + 1])) {
        None
    } else {
        let c1 = if signed { step(s, c) } else { c };
        let e = span(s, c1.pos, |ch: char| number_char(ch));
        let c2 = walk(s, c1, (e - c1.pos) as nat);
        let body = s.subrange(c1.pos, e);
        let negative = s[c.pos] == '-';
        Some(
            if body.len() == 0 {
                Err(Error::UnexpectedCharacter {
                    character: at(s, c2.pos),
                    line: c2.line as usize,
                    column: (c2.column + 1) as usize,
                })
            } else {
                match numeral(body) {
                    Numeral::Float => Ok((
                        lexed(Lexeme::FloatText(if negative { seq!['-'] + body } else { body }), c),
                        c2,
                    )),
                    Numeral::Int(v) => {
                        let w = if negative { -v } else { v };
                        if fits_i64(w) {
                            Ok((lexed(Lexeme::Int(w), c), c2))
                        } else {
                            Err(Error::ParseIntError { line: c.line as usize, column: (c.column + 1) as usize })
                        }
                    },
                    Numeral::BadFloat => Err(
                        Error::ParseFloatError { line: c.line as usize, column: (c.column + 1) as usize },
                    ),
                    Numeral::BadInt => Err(
                        Error::ParseIntError { line: c.line as usize, column: (c.column + 1) as usize },
                    ),
                }
            },
        )
    }
}

/// The rest of a string literal from `c`, after the decoded contents `acc`: the contents and
/// the place just past the closing quote.
pub open spec fn string_from(s: Seq<char>, c: Cursor, acc: Seq<char>, open: Cursor) -> Result<(Seq<char>, Cursor), Error>
    decreases s.len() - c.pos,
{
    if c.pos < 0 || c.pos >= s.len() {
        Err(Error::UnterminatedString { line: open.line as usize, column: (open.column + 1) as usize })
    } else if s[c.pos] == '\\' {
        let c1 = step(s, c);
        if c1.pos >= s.len() {
            Err(Error::UnterminatedString { line: open.line as usize, column: (open.column + 1) as usize })
        } else {
            match escape(s[c1.pos]) {
                Some(d) => string_from(s, step(s, c1), acc.push(d), open),
                None => Err(Error::UnexpectedCharacter {
                    character: Some(s[c1.pos]),
                    line: c1.line as usize,
                    column: (c1.column + 1) as usize,
                }),
            }
        }
    } else if s[c.pos] == '"' {
        Ok((acc, step(s, c)))
    } else {
        string_from(s, step(s, c), acc.push(s[c.pos]), open)
    }
}

/// Reading a string literal whose opening quote is at `c`.
pub open spec fn scan_string(s: Seq<char>, c: Cursor) -> Result<(Lexed, Cursor), Error> {
    match string_from(s, step(s, c), seq![], c) {
        Ok((t, c2)) => Ok((lexed(Lexeme::Text(t), c), c2)),
        Err(e) => Err(e),
    }
}

/// Reading a comment, an operator or a punctuation mark at `c`.
pub open spec fn scan_other(s: Seq<char>, c: Cursor) -> Result<(Lexed, Cursor), Error> {
    let a = s[c.pos];
    let b = at(s, c.pos + 1);
    if a == '/' && b == Some('/') {
        let e = span(s, c.pos, |ch: char| ch != '\n');
        let c2 = walk(s, c, (e - c.pos) as nat);
        Ok((lexed(Lexeme::Plain(Kind::Comment), c), c2))
    } else if a == '/' && b == Some('*') {
        let e = block_end(s, c.pos + 2);
        let c2 = walk(s, c, (e - c.pos) as nat);
        Ok((lexed(Lexeme::Plain(Kind::Comment), c), c2))
    } else {
        match operator(a, b, at(s, c.pos + 2)) {
            Some((k, n)) => Ok((lexed(Lexeme::Plain(k), c), walk(s, c, n as nat))),
            None => Err(Error::UnexpectedCharacter {
                character: Some(a),
                line: c.line as usize,
                column: (c.column + 1) as usize,
            }),
        }
    }
}

/// Skipping whitespace from `c`.
pub open spec fn skip_space(s: Seq<char>, c: Cursor) -> Cursor {
    walk(s, c, (span(s, c.pos, |ch: char| space(ch)) - c.pos) as nat)
}

/// Reading one token after the whitespace at `c`: the end-of-file token where only
/// whitespace is left, otherwise by its first character.
pub open spec fn scan(s: Seq<char>, c: Cursor) -> Result<(Lexed, Cursor), Error> {
    let c0 = skip_space(s, c);
    if c0.pos >= s.len() {
        Ok((lexed(Lexeme::Plain(Kind::EndOfFile), c0), c0))
    } else {
        let ch = s[c0.pos];
        if letter(ch) || ch == '_' {
            Ok(scan_word(s, c0))
        } else if numeric(ch) || ch == '+' || ch == '-' {
            match scan_number(s, c0) {
                Some(r) => r,
                None => scan_other(s, c0),
            }
        } else if ch == '"' {
            scan_string(s, c0)
        } else {
            scan_other(s, c0)
        }
    }
}

/// The tokens of `s` from `c` on, after the tokens `acc`: comments are dropped and exactly
/// one end-of-file token closes the sequence. (Every step short of the end consumes at least
/// one character; the guard on that only makes the measure of the recursion plain.)
pub open spec fn lex_from(s: Seq<char>, c: Cursor, acc: Seq<Lexed>) -> Result<Seq<Lexed>, Error>
    decreases s.len() - c.pos,
{
    if c.pos >= s.len() {
        Ok(acc.push(lexed(Lexeme::Plain(Kind::EndOfFile), c)))
    } else {
        match scan(s, c) {
            Err(e) => Err(e),
            Ok((t, c2)) => if t.lexeme == Lexeme::Plain(Kind::EndOfFile) {
                Ok(acc.push(t))
            } else if !(c.pos < c2.pos <= s.len()) {
                Err(Error::InvalidToken { line: c.line as usize, column: (c.column + 1) as usize })
            } else if t.lexeme == Lexeme::Plain(Kind::Comment) {
                lex_from(s, c2, acc)
            } else {
                lex_from(s, c2, acc.push(t))
            },
        }
    }
}

/// The tokens of the (already trimmed) characters `s`.
pub open spec fn lex(s: Seq<char>) -> Result<Seq<Lexed>, Error> {
    lex_from(s, Cursor { pos: 0, line: 1, column: 0 }, seq![])
}

} // verus!
