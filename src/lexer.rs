use vstd::prelude::*;
use crate::chars::{
    is_letter, is_numeric, is_space, is_word_char, numeric, push_char, space,
    trimmed_chars, word_char, is_trim_of, eq_str,
};
use crate::lexer_model::{
    at, block_end, float_text, kind_models, lex, lex_from, operator, scan, scan_number,
    scan_other, scan_string, scan_word, skip_space, span, step, string_from, token_models,
    tokens_model, walk, word_lexeme, Cursor, Lexed, Lexeme, digits_value, radix_value,
    number_char, lexed, has, ascii_digit, digit_value,
};
use crate::token::{Kind, Token};

verus! {

/// A lexing error.
#[derive(Debug, Clone, PartialEq, Eq)]
pub enum Error {
    /// A token that could not be read.
    InvalidToken { line: usize, column: usize },
    /// A character that cannot stand where it was found (none: the input ended).
    UnexpectedCharacter { character: Option<char>, line: usize, column: usize },
    /// A string literal that the input ends inside.
    UnterminatedString { line: usize, column: usize },
    /// An integer literal that is malformed or does not fit in 64 bits.
    ParseIntError { line: usize, column: usize },
    /// A floating-point literal that is malformed.
    ParseFloatError { line: usize, column: usize },
    /// The source could not be read.
    IoError,
    /// The source file does not have the `.lt` extension.
    InvalidFileExtension,
    /// The source file does not exist.
    InvalidFilePath,
}

/// A lexer over one source text.
#[derive(Debug, Clone)]
pub struct Lexer {
    chars: Vec<char>,
    position: usize,
    line: usize,
    column: usize,
}

/// The span lemma: a run of characters satisfying `p` from `i` to `j`, stopped at `j`,
/// ends at `j`.
proof fn lemma_span(s: Seq<char>, i: int, j: int, p: spec_fn(char) -> bool)
    requires
        0 <= i <= j <= s.len(),
        forall|k: int| i <= k < j ==> p(#[trigger] s[k]),
        j == s.len() || !p(s[j]),
    ensures
        span(s, i, p) == j,
    decreases j - i,
{
    if i < j {
        lemma_span(s, i + 1, j, p);
    }
}

/// Walking `n + 1` characters is walking `n` and then one more.
proof fn lemma_walk_next(s: Seq<char>, c: Cursor, n: nat)
    ensures
        walk(s, c, n + 1) == step(s, walk(s, c, n)),
{
    assert((n + 1) as nat - 1 == n);
}

impl Lexer {
    /// The characters being lexed.
    pub closed spec fn text(&self) -> Seq<char> {
        self.chars@
    }

    /// Where the lexer stands.
    pub closed spec fn cursor(&self) -> Cursor {
        Cursor { pos: self.position as int, line: self.line as int, column: self.column as int }
    }

    /// The lexer's bookkeeping is consistent: it stands inside the text, and has counted no
    /// more lines or columns than characters.
    pub closed spec fn wf(&self) -> bool {
        &&& self.position <= self.chars@.len()
        &&& self.chars@.len() < usize::MAX
        &&& 1 <= self.line <= self.position + 1
        &&& self.column <= self.position
    }

    /// Creates a lexer over `input` with its leading and trailing whitespace removed, at
    /// line 1, column 0.
    pub fn new(input: &str) -> (r: Lexer)
        requires
            input@.len() < usize::MAX,
        ensures
            r.wf(),
            exists|start: int, end: int|
                is_trim_of(input@, start, end) && r.text() == #[trigger] input@.subrange(start, end),
            r.cursor() == (Cursor { pos: 0, line: 1, column: 0 }),
    {
        let chars = trimmed_chars(input);
        Lexer { chars, position: 0, line: 1, column: 0 }
    }

    fn current_char(&self) -> (r: Option<char>)
        ensures
            r == at(self.chars@, self.position as int),
    {
        if self.position < self.chars.len() {
            Some(self.chars[self.position])
        } else {
            None
        }
    }

    fn char_ahead(&self, k: usize) -> (r: Option<char>)
        requires
            self.wf(),
            k <= 2,
        ensures
            r == at(self.chars@, self.position + k),
    {
        if k < self.chars.len() - self.position {
            Some(self.chars[self.position + k])
        } else {
            None
        }
    }

    /// Consumes one character, counting lines and columns.
    fn advance(&mut self)
        requires
            old(self).wf(),
        ensures
            final(self).wf(),
            final(self).chars@ == old(self).chars@,
            final(self).cursor() == step(old(self).chars@, old(self).cursor()),
    {
        if self.position < self.chars.len() {
            if self.chars[self.position] == '\n' {
                self.line = self.line + 1;
                self.column = 0;
            } else {
                self.column = self.column + 1;
            }
            self.position = self.position + 1;
        }
    }

    fn skip_whitespace(&mut self)
        requires
            old(self).wf(),
        ensures
            final(self).wf(),
            final(self).chars@ == old(self).chars@,
            final(self).cursor() == skip_space(old(self).chars@, old(self).cursor()),
            final(self).position >= old(self).position,
    {
        let ghost s = self.chars@;
        let ghost c = self.cursor();
        while self.position < self.chars.len() && is_space(self.chars[self.position])
            invariant
                self.wf(),
                self.chars@ == s,
                c.pos <= self.position,
                self.cursor() == walk(s, c, (self.position - c.pos) as nat),
                forall|k: int| c.pos <= k < self.position ==> space(#[trigger] s[k]),
            decreases s.len() - self.position,
        {
            proof {
                lemma_walk_next(s, c, (self.position - c.pos) as nat);
            }
            self.advance();
        }
        proof {
            lemma_span(s, c.pos, self.position as int, |ch: char| space(ch));
        }
    }

    fn read_identifier(&mut self) -> (r: Token)
        requires
            old(self).wf(),
        ensures
            final(self).wf(),
            final(self).chars@ == old(self).chars@,
            token_models(r, scan_word(old(self).chars@, old(self).cursor()).0),
            old(self).position < old(self).chars@.len() && word_char(old(self).chars@[old(self).position as int])
                ==> final(self).position > old(self).position,
            final(self).cursor() == scan_word(old(self).chars@, old(self).cursor()).1,
    {
        let ghost s = self.chars@;
        let ghost c = self.cursor();
        let start = self.position;
        let line = self.line;
        let column = self.column + 1;
        let mut word = String::new();
        while self.position < self.chars.len() && is_word_char(self.chars[self.position])
            invariant
                self.wf(),
                self.chars@ == s,
                start == c.pos <= self.position,
                self.cursor() == walk(s, c, (self.position - c.pos) as nat),
                forall|k: int| c.pos <= k < self.position ==> word_char(#[trigger] s[k]),
                word@ == s.subrange(c.pos, self.position as int),
            decreases s.len() - self.position,
        {
            let ch = self.chars[self.position];
            proof {
                lemma_walk_next(s, c, (self.position - c.pos) as nat);
            }
            self.advance();
            push_char(&mut word, ch);
            assert(word@ =~= s.subrange(c.pos, self.position as int));
        }
        proof {
            lemma_span(s, c.pos, self.position as int, |ch: char| word_char(ch));
        }
        let kind = keyword_kind(word);
        Token::new(kind, line, column)
    }

    fn read_token(&mut self) -> (r: Result<Token, Error>)
        requires
            old(self).wf(),
        ensures
            final(self).wf(),
            final(self).chars@ == old(self).chars@,
            match scan(old(self).chars@, old(self).cursor()) {
                Ok((l, c2)) => r matches Ok(t) && token_models(t, l) && final(self).cursor() == c2
                    && (l.lexeme == Lexeme::Plain(Kind::EndOfFile)
                        || final(self).position > old(self).position),
                Err(e) => r == Err::<Token, Error>(e),
            },
    {
        self.skip_whitespace();
        if self.position >= self.chars.len() {
            return Ok(Token::new(Kind::EndOfFile, self.line, self.column + 1));
        }
        let c = self.chars[self.position];
        if is_letter(c) || c == '_' {
            Ok(self.read_identifier())
        } else if is_numeric(c) || c == '+' || c == '-' {
            match self.read_number() {
                Ok(Some(token)) => Ok(token),
                Ok(None) => self.read_operator(),
                Err(e) => Err(e),
            }
        } else if c == '"' {
            self.read_string()
        } else {
            self.read_operator()
        }
    }

    /// Reads the whole text into tokens: comments are dropped and exactly one end-of-file
    /// token closes the sequence. Stops at the first error.
    pub fn tokenize(&mut self) -> (r: Result<Vec<Token>, Error>)
        requires
            old(self).wf(),
        ensures
            match lex_from(old(self).text(), old(self).cursor(), seq![]) {
                Ok(ls) => r matches Ok(ts) && tokens_model(ts@, ls),
                Err(e) => r == Err::<Vec<Token>, Error>(e),
            },
    {
        let ghost s = self.chars@;
        let ghost c0 = self.cursor();
        let ghost mut model: Seq<Lexed> = seq![];
        let mut tokens: Vec<Token> = Vec::new();
        while self.position < self.chars.len()
            invariant
                self.wf(),
                self.chars@ == s,
                s == old(self).chars@,
                c0 == old(self).cursor(),
                lex_from(s, c0, seq![]) == lex_from(s, self.cursor(), model),
                tokens_model(tokens@, model),
            decreases s.len() - self.position,
        {
            let ghost c = self.cursor();
            let token = match self.read_token() {
                Ok(token) => token,
                Err(e) => return Err(e),
            };
            if token.kind.is(&Kind::EndOfFile) {
                tokens.push(token);
                proof {
                    model = model.push(lexed(Lexeme::Plain(Kind::EndOfFile), self.cursor()));
                }
                return Ok(tokens);
            }
            if !token.kind.is(&Kind::Comment) {
                proof {
                    let l = scan(s, c)->Ok_0.0;
                    model = model.push(l);
                }
                tokens.push(token);
            }
        }
        tokens.push(Token::new(Kind::EndOfFile, self.line, self.column + 1));
        proof {
            model = model.push(lexed(Lexeme::Plain(Kind::EndOfFile), self.cursor()));
        }
        Ok(tokens)
    }

    fn read_number(&mut self) -> (r: Result<Option<Token>, Error>)
        requires
            old(self).wf(),
            old(self).position < old(self).chars@.len(),
        ensures
            final(self).wf(),
            final(self).chars@ == old(self).chars@,
            match scan_number(old(self).chars@, old(self).cursor()) {
                None => r == Ok::<Option<Token>, Error>(None) && final(self).cursor() == old(self).cursor(),
                Some(Ok((l, c2))) => r matches Ok(Some(t)) && token_models(t, l) && final(self).cursor() == c2
                    && final(self).position > old(self).position,
                Some(Err(e)) => r == Err::<Option<Token>, Error>(e),
            },
    {
        let ghost s = self.chars@;
        let ghost c = self.cursor();
        let first = self.chars[self.position];
        let line = self.line;
        let column = self.column + 1;
        let signed = first == '+' || first == '-';
        if signed {
            if self.position + 1 >= self.chars.len() || !is_numeric(self.chars[self.position + 1]) {
                return Ok(None);
            }
            self.advance();
        }
        let ghost c1 = self.cursor();
        let mut body: Vec<char> = Vec::new();
        while self.position < self.chars.len() && is_number_char(self.chars[self.position])
            invariant
                self.wf(),
                self.chars@ == s,
                0 <= c1.pos <= self.position,
                self.cursor() == walk(s, c1, (self.position - c1.pos) as nat),
                forall|k: int| c1.pos <= k < self.position ==> number_char(#[trigger] s[k]),
                body@ == s.subrange(c1.pos, self.position as int),
            decreases s.len() - self.position,
        {
            let ch = self.chars[self.position];
            let ghost p = self.position as int;
            proof {
                lemma_walk_next(s, c1, (self.position - c1.pos) as nat);
            }
            body.push(ch);
            self.advance();
            assert(self.position == p + 1);
            assert(body@ =~= s.subrange(c1.pos, p).push(s[p]));
            assert(body@ =~= s.subrange(c1.pos, self.position as int));
        }
        proof {
            lemma_span(s, c1.pos, self.position as int, |ch: char| number_char(ch));
        }
        if body.len() == 0 {
            return Err(
                Error::UnexpectedCharacter {
                    character: self.current_char(),
                    line: self.line,
                    column: self.column + 1,
                },
            );
        }
        let negative = first == '-';
        if holds(&body, '.') || holds(&body, 'e') || holds(&body, 'E') {
            if is_float_text(&body) {
                let mut text = String::new();
                if negative {
                    push_char(&mut text, '-');
                }
                append_chars(&mut text, &body);
                proof {
                    if negative {
                        assert(text@ =~= seq!['-'] + body@);
                    } else {
                        assert(text@ =~= body@);
                    }
                }
                return Ok(Some(Token::new(Kind::Float(text), line, column)));
            } else {
                return Err(Error::ParseFloatError { line, column });
            }
        }
        let rest: usize = if body.len() < 2 { body.len() } else { 2 };
        let value = if holds(&body, 'b') || holds(&body, 'B') {
            parse_radix(&body, rest, 2)
        } else if holds(&body, 'o') || holds(&body, 'O') {
            parse_radix(&body, rest, 8)
        } else if holds(&body, 'x') || holds(&body, 'X') {
            parse_radix(&body, rest, 16)
        } else {
            assert(body@.subrange(0, body@.len() as int) =~= body@);
            parse_radix(&body, 0, 10)
        };
        match value {
            Some(v) => {
                if negative {
                    if v == i64::MIN {
                        Err(Error::ParseIntError { line, column })
                    } else {
                        Ok(Some(Token::new(Kind::Integer(-v), line, column)))
                    }
                } else {
                    Ok(Some(Token::new(Kind::Integer(v), line, column)))
                }
            },
            None => Err(Error::ParseIntError { line, column }),
        }
    }

    fn read_string(&mut self) -> (r: Result<Token, Error>)
        requires
            old(self).wf(),
            old(self).position < old(self).chars@.len(),
        ensures
            final(self).wf(),
            final(self).chars@ == old(self).chars@,
            match scan_string(old(self).chars@, old(self).cursor()) {
                Ok((l, c2)) => r matches Ok(t) && token_models(t, l) && final(self).cursor() == c2
                    && final(self).position > old(self).position,
                Err(e) => r == Err::<Token, Error>(e),
            },
    {
        let ghost s = self.chars@;
        let ghost c = self.cursor();
        let line = self.line;
        let column = self.column + 1;
        self.advance();
        let ghost c1 = self.cursor();
        let mut text = String::new();
        loop
            invariant
                self.wf(),
                self.chars@ == s,
                self.position > c.pos,
                s == old(self).chars@,
                c == old(self).cursor(),
                c1 == step(s, c),
                line == c.line,
                column == c.column + 1,
                string_from(s, c1, seq![], c) == string_from(s, self.cursor(), text@, c),
            decreases s.len() - self.position,
        {
            if self.position >= self.chars.len() {
                return Err(Error::UnterminatedString { line, column });
            }
            let ch = self.chars[self.position];
            if ch == '\\' {
                self.advance();
                if self.position >= self.chars.len() {
                    return Err(Error::UnterminatedString { line, column });
                }
                let e = self.chars[self.position];
                let decoded = if e == 'n' {
                    '\n'
                } else if e == 'r' {
                    '\r'
                } else if e == 't' {
                    '\t'
                } else if e == '\\' {
                    '\\'
                } else if e == '"' {
                    '"'
                } else {
                    return Err(
                        Error::UnexpectedCharacter {
                            character: Some(e),
                            line: self.line,
                            column: self.column + 1,
                        },
                    );
                };
                push_char(&mut text, decoded);
                self.advance();
            } else if ch == '"' {
                self.advance();
                return Ok(Token::new(Kind::String(text), line, column));
            } else {
                push_char(&mut text, ch);
                self.advance();
            }
        }
    }

    /// Reads a comment, an operator or a punctuation mark.
    fn read_operator(&mut self) -> (r: Result<Token, Error>)
        requires
            old(self).wf(),
            old(self).position < old(self).chars@.len(),
        ensures
            final(self).wf(),
            final(self).chars@ == old(self).chars@,
            match scan_other(old(self).chars@, old(self).cursor()) {
                Ok((l, c2)) => r matches Ok(t) && token_models(t, l) && final(self).cursor() == c2
                    && final(self).position > old(self).position,
                Err(e) => r == Err::<Token, Error>(e),
            },
    {
        let ghost s = self.chars@;
        let ghost c = self.cursor();
        let a = self.chars[self.position];
        let b = self.char_ahead(1);
        let line = self.line;
        let column = self.column + 1;
        if a == '/' && b == Some('/') {
            while self.position < self.chars.len() && self.chars[self.position] != '\n'
                invariant
                    self.wf(),
                    self.chars@ == s,
                    c.pos <= self.position,
                    self.cursor() == walk(s, c, (self.position - c.pos) as nat),
                    forall|k: int| c.pos <= k < self.position ==> #[trigger] s[k] != '\n',
                decreases s.len() - self.position,
            {
                proof {
                    lemma_walk_next(s, c, (self.position - c.pos) as nat);
                }
                self.advance();
            }
            proof {
                lemma_span(s, c.pos, self.position as int, |ch: char| ch != '\n');
            }
            return Ok(Token::new(Kind::Comment, line, column));
        }
        if a == '/' && b == Some('*') {
            proof {
                lemma_walk_next(s, c, 0);
                lemma_walk_next(s, c, 1);
            }
            self.advance();
            self.advance();
            while self.position < self.chars.len() && !(self.position + 1 < self.chars.len()
                && self.chars[self.position] == '*' && self.chars[self.position + 1] == '/')
                invariant
                    self.wf(),
                    self.chars@ == s,
                    c.pos + 2 <= self.position,
                    self.cursor() == walk(s, c, (self.position - c.pos) as nat),
                    block_end(s, c.pos + 2) == block_end(s, self.position as int),
                decreases s.len() - self.position,
            {
                proof {
                    lemma_walk_next(s, c, (self.position - c.pos) as nat);
                }
                self.advance();
            }
            if self.position < self.chars.len() {
                proof {
                    lemma_walk_next(s, c, (self.position - c.pos) as nat);
                    lemma_walk_next(s, c, (self.position + 1 - c.pos) as nat);
                }
                self.advance();
                self.advance();
            }
            return Ok(Token::new(Kind::Comment, line, column));
        }
        let after = self.char_ahead(2);
        match operator_of(a, b, after) {
            Some((kind, n)) => {
                proof {
                    lemma_walk_next(s, c, 0);
                    lemma_walk_next(s, c, 1);
                    lemma_walk_next(s, c, 2);
                }
                if n >= 2 {
                    self.advance();
                }
                if n >= 3 {
                    self.advance();
                }
                self.advance();
                Ok(Token::new(kind, line, column))
            },
            None => Err(
                Error::UnexpectedCharacter { character: Some(a), line, column },
            ),
        }
    }
}

/// The keyword that `word` spells, or an identifier named `word`.
fn keyword_kind(word: String) -> (r: Kind)
    ensures
        kind_models(r, word_lexeme(word@)),
{
    let ghost w = word@;
    let k = {
        let t = word.as_str();
        if eq_str(t, "true") {
            Some(Kind::True)
        } else if eq_str(t, "false") {
            Some(Kind::False)
        } else if eq_str(t, "if") {
            Some(Kind::If)
        } else if eq_str(t, "else") {
            Some(Kind::Else)
        } else if eq_str(t, "while") {
            Some(Kind::While)
        } else if eq_str(t, "for") {
            Some(Kind::For)
        } else if eq_str(t, "in") {
            Some(Kind::Range)
        } else if eq_str(t, "to") {
            Some(Kind::To)
        } else if eq_str(t, "break") {
            Some(Kind::Break)
        } else if eq_str(t, "continue") {
            Some(Kind::Continue)
        } else if eq_str(t, "return") {
            Some(Kind::Return)
        } else if eq_str(t, "fn") {
            Some(Kind::Function)
        } else if eq_str(t, "let") {
            Some(Kind::Variable)
        } else {
            None
        }
    };
    proof {
        reveal_strlit("true");
        reveal_strlit("false");
        reveal_strlit("if");
        reveal_strlit("else");
        reveal_strlit("while");
        reveal_strlit("for");
        reveal_strlit("in");
        reveal_strlit("to");
        reveal_strlit("break");
        reveal_strlit("continue");
        reveal_strlit("return");
        reveal_strlit("fn");
        reveal_strlit("let");
        assert(seq!['t', 'r', 'u', 'e'] =~= "true"@);
        assert(seq!['f', 'a', 'l', 's', 'e'] =~= "false"@);
        assert(seq!['i', 'f'] =~= "if"@);
        assert(seq!['e', 'l', 's', 'e'] =~= "else"@);
        assert(seq!['w', 'h', 'i', 'l', 'e'] =~= "while"@);
        assert(seq!['f', 'o', 'r'] =~= "for"@);
        assert(seq!['i', 'n'] =~= "in"@);
        assert(seq!['t', 'o'] =~= "to"@);
        assert(seq!['b', 'r', 'e', 'a', 'k'] =~= "break"@);
        assert(seq!['c', 'o', 'n', 't', 'i', 'n', 'u', 'e'] =~= "continue"@);
        assert(seq!['r', 'e', 't', 'u', 'r', 'n'] =~= "return"@);
        assert(seq!['f', 'n'] =~= "fn"@);
        assert(seq!['l', 'e', 't'] =~= "let"@);
    }
    match k {
        Some(k) => k,
        None => Kind::Identifier(word),
    }
}


/// Whether `t` holds `c`.
fn holds(t: &Vec<char>, c: char) -> (r: bool)
    ensures
        r == t@.contains(c),
{
    let mut i: usize = 0;
    while i < t.len()
        invariant
            i <= t@.len(),
            forall|k: int| 0 <= k < i ==> t@[k] != c,
        decreases t.len() - i,
    {
        if t[i] == c {
            return true;
        }
        i = i + 1;
    }
    false
}

/// The end of the run of ASCII digits in `t` that starts at `i`.
fn digits_end(t: &Vec<char>, i: usize) -> (r: usize)
    requires
        i <= t@.len(),
    ensures
        r == span(t@, i as int, |c: char| ascii_digit(c)),
        i <= r <= t@.len(),
{
    let mut j = i;
    while j < t.len() && '0' <= t[j] && t[j] <= '9'
        invariant
            i <= j <= t@.len(),
            forall|k: int| i <= k < j ==> ascii_digit(#[trigger] t@[k]),
        decreases t.len() - j,
    {
        j = j + 1;
    }
    proof {
        lemma_span(t@, i as int, j as int, |c: char| ascii_digit(c));
    }
    j
}

/// Whether `t` is the text of a decimal floating-point number.
fn is_float_text(t: &Vec<char>) -> (r: bool)
    ensures
        r == float_text(t@),
{
    let n = t.len();
    let a = digits_end(t, 0);
    let dot = a < n && t[a] == '.';
    let b = if dot { digits_end(t, a + 1) } else { a };
    let digits = if dot { b - 1 } else { b };
    if digits < 1 {
        return false;
    }
    if b == n {
        return true;
    }
    if t[b] != 'e' && t[b] != 'E' {
        return false;
    }
    let k = if b + 1 < n && (t[b + 1] == '+' || t[b + 1] == '-') { b + 2 } else { b + 1 };
    let d = digits_end(t, k);
    d > k && d == n
}

/// The value of `c` as a digit (`a`/`A` is ten), or 99 for any other character.
fn digit_of(c: char) -> (r: u32)
    ensures
        r as int == digit_value(c),
{
    if '0' <= c && c <= '9' {
        (c as u32) - ('0' as u32)
    } else if 'a' <= c && c <= 'z' {
        (c as u32) - ('a' as u32) + 10
    } else if 'A' <= c && c <= 'Z' {
        (c as u32) - ('A' as u32) + 10
    } else {
        99
    }
}

proof fn lemma_digits_value_nonneg(d: Seq<char>, radix: int)
    requires
        radix >= 2,
    ensures
        digits_value(d, radix) matches Some(v) ==> v >= 0,
    decreases d.len(),
{
    if d.len() > 0 {
        lemma_digits_value_nonneg(d.drop_last(), radix);
        if let Some(v) = digits_value(d.drop_last(), radix) {
            assert(v * radix >= 0) by (nonlinear_arith)
                requires
                    v >= 0,
                    radix >= 2,
            ;
        }
    }
}

/// A prefix of a digit string that fails to be a number, or is a larger number than some
/// bound, makes the whole string fail or exceed that bound too.
proof fn lemma_digits_value_prefix(d: Seq<char>, j: int, radix: int)
    requires
        0 <= j <= d.len(),
        radix >= 2,
    ensures
        digits_value(d.subrange(0, j), radix) is None ==> digits_value(d, radix) is None,
        digits_value(d.subrange(0, j), radix) matches Some(u) ==> (digits_value(d, radix) matches Some(v)
            ==> v >= u),
    decreases d.len() - j,
{
    if j == d.len() {
        assert(d.subrange(0, j) =~= d);
    } else {
        let e = d.drop_last();
        assert(e.subrange(0, j) =~= d.subrange(0, j));
        lemma_digits_value_prefix(e, j, radix);
        lemma_digits_value_nonneg(e, radix);
        if let Some(v) = digits_value(e, radix) {
            assert(v * radix >= v) by (nonlinear_arith)
                requires
                    v >= 0,
                    radix >= 2,
            ;
        }
    }
}

/// The integer that `t[from..]` spells in base `radix`, if it spells one that fits in 64 bits.
fn parse_radix(t: &Vec<char>, from: usize, radix: u32) -> (r: Option<i64>)
    requires
        from <= t@.len(),
        2 <= radix <= 36,
    ensures
        match radix_value(t@.subrange(from as int, t@.len() as int), radix as int) {
            Some(v) => r == Some(v as i64),
            None => r is None,
        },
{
    let ghost whole = t@.subrange(from as int, t@.len() as int);
    let n = t.len();
    if from == n {
        return None;
    }
    let signed = t[from] == '+' || t[from] == '-';
    let negative = t[from] == '-';
    let start = if signed { from + 1 } else { from };
    let ghost d = t@.subrange(start as int, n as int);
    assert(d =~= (if signed { whole.skip(1) } else { whole }));
    if start == n {
        return None;
    }
    let limit: u128 = 0x8000_0000_0000_0000;
    let mut m: u128 = 0;
    let mut i = start;
    assert(d.subrange(0, 0) =~= Seq::<char>::empty());
    while i < n
        invariant
            start <= i <= n == t@.len(),
            d == t@.subrange(start as int, n as int),
            2 <= radix <= 36,
            m <= limit,
            limit == 0x8000_0000_0000_0000u128,
            signed == (whole[0] == '+' || whole[0] == '-'),
            whole.len() > 0,
            whole == t@.subrange(from as int, t@.len() as int),
            d == (if signed { whole.skip(1) } else { whole }),
            digits_value(d.subrange(0, i - start), radix as int) == Some(m as int),
        decreases n - i,
    {
        let dv = digit_of(t[i]);
        assert(d.subrange(0, i + 1 - start).drop_last() =~= d.subrange(0, i - start));
        assert(d.subrange(0, i + 1 - start).last() == t@[i as int]);
        if dv >= radix {
            proof {
                assert(digits_value(d.subrange(0, i + 1 - start), radix as int) is None);
                lemma_digits_value_prefix(d, i + 1 - start, radix as int);
                assert(digits_value(d, radix as int) is None);
                assert(radix_value(whole, radix as int) is None);
            }
            return None;
        }
        assert(m * (radix as u128) + (dv as u128) <= 0x8000_0000_0000_0000u128 * 36 + 36) by (nonlinear_arith)
            requires
                m <= 0x8000_0000_0000_0000u128,
                radix <= 36,
                dv < radix,
        ;
        m = m * (radix as u128) + (dv as u128);
        assert(digits_value(d.subrange(0, i + 1 - start), radix as int) == Some(m as int));
        if m > limit {
            proof {
                lemma_digits_value_prefix(d, i + 1 - start, radix as int);
            }
            return None;
        }
        i = i + 1;
    }
    assert(d.subrange(0, n - start) =~= d);
    if negative {
        Some((0 - (m as i128)) as i64)
    } else if m <= 0x7fff_ffff_ffff_ffff {
        Some(m as i64)
    } else {
        None
    }
}

/// Whether `c` may stand in a numeric literal's body.
fn is_number_char(c: char) -> (r: bool)
    ensures
        r == number_char(c),
{
    is_numeric(c) || c == '+' || c == '-' || c == 'e' || c == 'E' || c == '.' || c == 'b' || c == 'B'
        || c == 'o' || c == 'O' || c == 'x' || c == 'X'
}

/// Appends the characters `v` to `s`.
fn append_chars(s: &mut String, v: &Vec<char>)
    ensures
        final(s)@ == old(s)@ + v@,
{
    let mut i: usize = 0;
    while i < v.len()
        invariant
            i <= v@.len(),
            s@ == old(s)@ + v@.subrange(0, i as int),
        decreases v.len() - i,
    {
        push_char(s, v[i]);
        i = i + 1;
        assert(s@ =~= old(s)@ + v@.subrange(0, i as int));
    }
    assert(v@.subrange(0, v@.len() as int) =~= v@);
}

/// The operator or punctuation mark that starts with `a`, followed by `b` and `c` where they
/// exist, and how many characters it takes.
fn operator_of(a: char, b: Option<char>, c: Option<char>) -> (r: Option<(Kind, usize)>)
    ensures
        match operator(a, b, c) {
            Some((k, n)) => r == Some((k, n as usize)) && 1 <= n <= 3 && k.is_plain(),
            None => r is None,
        },
{
    if a == '+' {
        if b == Some('=') { Some((Kind::AddAssign, 2usize)) }
        else if b == Some('+') { Some((Kind::Increment, 2usize)) }
        else { Some((Kind::Plus, 1usize)) }
    } else if a == '-' {
        if b == Some('=') { Some((Kind::SubtractAssign, 2usize)) }
        else if b == Some('-') { Some((Kind::Decrement, 2usize)) }
        else if b == Some('>') { Some((Kind::Arrow, 2usize)) }
        else { Some((Kind::Minus, 1usize)) }
    } else if a == '*' {
        if b == Some('=') { Some((Kind::MultiplyAssign, 2usize)) }
        else if b == Some('*') { Some((Kind::Power, 2usize)) }
        else { Some((Kind::Star, 1usize)) }
    } else if a == '/' {
        if b == Some('=') { Some((Kind::DivisionAssign, 2usize)) } else { Some((Kind::Slash, 1usize)) }
    } else if a == '%' {
        if b == Some('=') { Some((Kind::ModuloAssign, 2usize)) } else { Some((Kind::Percent, 1usize)) }
    } else if a == '^' {
        if b == Some('=') { Some((Kind::BitwiseXorAssign, 2usize)) } else { Some((Kind::BitwiseXor, 1usize)) }
    } else if a == '!' {
        if b == Some('=') { Some((Kind::NotEqual, 2usize)) } else { Some((Kind::LogicalNot, 1usize)) }
    } else if a == '=' {
        if b == Some('=') { Some((Kind::Equality, 2usize)) } else { Some((Kind::Assign, 1usize)) }
    } else if a == '<' {
        if b == Some('=') { Some((Kind::LessThanOrEqual, 2usize)) }
        else if b == Some('<') {
            if c == Some('=') { Some((Kind::BitwiseLeftShiftAssign, 3usize)) }
            else { Some((Kind::BitwiseLeftShift, 2usize)) }
        } else { Some((Kind::LessThan, 1usize)) }
    } else if a == '>' {
        if b == Some('=') { Some((Kind::GreaterThanOrEqual, 2usize)) }
        else if b == Some('>') {
            if c == Some('=') { Some((Kind::BitwiseRightShiftAssign, 3usize)) }
            else { Some((Kind::BitwiseRightShift, 2usize)) }
        } else { Some((Kind::GreaterThan, 1usize)) }
    } else if a == '&' {
        if b == Some('=') { Some((Kind::BitwiseAndAssign, 2usize)) }
        else if b == Some('&') { Some((Kind::LogicalAnd, 2usize)) }
        else { Some((Kind::BitwiseAnd, 1usize)) }
    } else if a == '|' {
        if b == Some('=') { Some((Kind::BitwiseOrAssign, 2usize)) }
        else if b == Some('|') { Some((Kind::LogicalOr, 2usize)) }
        else { Some((Kind::BitwiseOr, 1usize)) }
    } else if a == '(' { Some((Kind::LeftParenthesis, 1usize)) }
    else if a == ')' { Some((Kind::RightParenthesis, 1usize)) }
    else if a == '{' { Some((Kind::LeftCurlyBrace, 1usize)) }
    else if a == '}' { Some((Kind::RightCurlyBrace, 1usize)) }
    else if a == '[' { Some((Kind::LeftBracket, 1usize)) }
    else if a == ']' { Some((Kind::RightBracket, 1usize)) }
    else if a == ',' { Some((Kind::Comma, 1usize)) }
    else if a == '.' { Some((Kind::Dot, 1usize)) }
    else if a == ':' { Some((Kind::Colon, 1usize)) }
    else if a == ';' { Some((Kind::Semicolon, 1usize)) }
    else { None }
}

/// The lexemes end with exactly one end-of-file token, and hold no comment.
pub open spec fn eof_terminated(ls: Seq<Lexed>) -> bool {
    &&& ls.len() >= 1
    &&& ls.last().lexeme == Lexeme::Plain(Kind::EndOfFile)
    &&& forall|i: int| 0 <= i < ls.len() - 1 ==> (#[trigger] ls[i]).lexeme != Lexeme::Plain(Kind::EndOfFile)
        && ls[i].lexeme != Lexeme::Plain(Kind::Comment)
}

proof fn lemma_lex_from_terminated(s: Seq<char>, c: Cursor, acc: Seq<Lexed>)
    requires
        forall|i: int| 0 <= i < acc.len() ==> (#[trigger] acc[i]).lexeme != Lexeme::Plain(Kind::EndOfFile)
            && acc[i].lexeme != Lexeme::Plain(Kind::Comment),
    ensures
        lex_from(s, c, acc) matches Ok(ls) ==> eof_terminated(ls),
    decreases s.len() - c.pos,
{
    if c.pos < s.len() {
        if let Ok((t, c2)) = scan(s, c) {
            if t.lexeme != Lexeme::Plain(Kind::EndOfFile) && c.pos < c2.pos <= s.len() {
                if t.lexeme == Lexeme::Plain(Kind::Comment) {
                    lemma_lex_from_terminated(s, c2, acc);
                } else {
                    let acc2 = acc.push(t);
                    assert forall|i: int| 0 <= i < acc2.len() implies (#[trigger] acc2[i]).lexeme
                        != Lexeme::Plain(Kind::EndOfFile) && acc2[i].lexeme != Lexeme::Plain(
                        Kind::Comment,
                    ) by {
                        if i < acc.len() {
                            assert(acc2[i] == acc[i]);
                        }
                    }
                    lemma_lex_from_terminated(s, c2, acc2);
                }
            }
        }
    }
}

/// Tokenizing ends in exactly one end-of-file token: whenever the text lexes, the last token
/// has the end-of-file kind and no other one has it; no comment is among them.
pub proof fn law_tokens_end_with_eof(s: Seq<char>, ts: Seq<Token>)
    requires
        lex(s) matches Ok(ls) && tokens_model(ts, ls),
    ensures
        ts.len() >= 1,
        ts.last().kind == Kind::EndOfFile,
        forall|i: int| 0 <= i < ts.len() - 1 ==> (#[trigger] ts[i]).kind != Kind::EndOfFile
            && ts[i].kind != Kind::Comment,
{
    lemma_lex_from_terminated(s, Cursor { pos: 0, line: 1, column: 0 }, seq![]);
    let ls = lex(s)->Ok_0;
    assert(token_models(ts[ts.len() - 1], ls[ls.len() - 1]));
    assert forall|i: int| 0 <= i < ts.len() - 1 implies (#[trigger] ts[i]).kind != Kind::EndOfFile
        && ts[i].kind != Kind::Comment by {
        assert(token_models(ts[i], ls[i]));
        assert(ls[i].lexeme != Lexeme::Plain(Kind::EndOfFile));
        assert(ls[i].lexeme != Lexeme::Plain(Kind::Comment));
    }
}

/// Whitespace around a source text changes nothing the lexer sees: a lexer over
/// `w1 + s + w2` holds the same characters as one over `s`, so the two produce the same
/// tokens, at the same positions.
pub proof fn law_surrounding_whitespace(
    w1: Seq<char>,
    s: Seq<char>,
    w2: Seq<char>,
    a1: int,
    b1: int,
    a2: int,
    b2: int,
)
    requires
        forall|i: int| 0 <= i < w1.len() ==> space(#[trigger] w1[i]),
        forall|i: int| 0 <= i < w2.len() ==> space(#[trigger] w2[i]),
        is_trim_of(w1 + s + w2, a1, b1),
        is_trim_of(s, a2, b2),
    ensures
        (w1 + s + w2).subrange(a1, b1) == s.subrange(a2, b2),
        lex((w1 + s + w2).subrange(a1, b1)) == lex(s.subrange(a2, b2)),
{
    let x = w1 + s + w2;
    let l = w1.len() as int;
    assert forall|i: int| 0 <= i < s.len() implies x[l + i] == s[i] by {}
    assert forall|i: int| 0 <= i < l implies space(#[trigger] x[i]) by {
        assert(x[i] == w1[i]);
    }
    assert forall|i: int| l + s.len() <= i < x.len() implies space(#[trigger] x[i]) by {
        assert(x[i] == w2[i - l - s.len()]);
    }
    if a2 < b2 {
        assert(!space(x[l + a2]));
        assert(!space(x[l + b2 - 1]));
        if a1 < l + a2 {
            if a1 < b1 {
                assert(!space(x[a1]));
                if a1 >= l {
                    assert(x[a1] == s[a1 - l]);
                }
            } else {
                assert(space(x[l + a2]));
            }
        }
        if a1 > l + a2 {
            assert(space(x[l + a2]));
        }
        assert(a1 == l + a2);
        if b1 > l + b2 {
            assert(!space(x[b1 - 1]));
            if b1 - 1 < l + s.len() {
                assert(x[b1 - 1] == s[b1 - 1 - l]);
            }
        }
        if b1 < l + b2 {
            assert(space(x[l + b2 - 1]));
        }
        assert(b1 == l + b2);
        assert(x.subrange(a1, b1) =~= s.subrange(a2, b2));
    } else {
        assert forall|i: int| 0 <= i < s.len() implies space(#[trigger] s[i]) by {
            if i >= a2 {
                assert(i >= b2);
            }
        }
        if a1 < b1 {
            assert(!space(x[a1]));
            if l <= a1 < l + s.len() {
                assert(x[a1] == s[a1 - l]);
            }
        }
        assert(x.subrange(a1, b1) =~= s.subrange(a2, b2));
    }
}

proof fn lemma_walk_position(s: Seq<char>, c: Cursor, n: nat)
    requires
        0 <= c.pos <= s.len(),
    ensures
        walk(s, c, n).pos == if c.pos + n <= s.len() { c.pos + n } else { s.len() as int },
    decreases n,
{
    if n > 0 {
        lemma_walk_position(s, c, (n - 1) as nat);
    }
}

proof fn lemma_span_bounds(s: Seq<char>, i: int, p: spec_fn(char) -> bool)
    requires
        0 <= i <= s.len(),
    ensures
        i <= span(s, i, p) <= s.len(),
    decreases s.len() - i,
{
    if i < s.len() && p(s[i]) {
        lemma_span_bounds(s, i + 1, p);
    }
}

proof fn lemma_block_end_bounds(s: Seq<char>, i: int)
    requires
        0 <= i <= s.len(),
    ensures
        i <= block_end(s, i) <= s.len(),
    decreases s.len() - i,
{
    if !(i + 1 < s.len() && s[i] == '*' && s[i + 1] == '/') && i < s.len() {
        lemma_block_end_bounds(s, i + 1);
    }
}

/// A comment contributes no token: where the text from `c` on (after whitespace) opens a
/// comment, lexing from `c` gives exactly what lexing from just past the comment gives.
pub proof fn law_comment_dropped(s: Seq<char>, c: Cursor, acc: Seq<Lexed>)
    requires
        0 <= c.pos < s.len(),
        scan(s, c) matches Ok((t, _)) && t.lexeme == Lexeme::Plain(Kind::Comment),
    ensures
        lex_from(s, c, acc) == lex_from(s, scan(s, c)->Ok_0.1, acc),
{
    let w = span(s, c.pos, |ch: char| space(ch));
    lemma_span_bounds(s, c.pos, |ch: char| space(ch));
    let c0 = skip_space(s, c);
    lemma_walk_position(s, c, (w - c.pos) as nat);
    assert(c0.pos == w);
    assert(c0.pos < s.len());
    let a = s[c0.pos];
    let b = at(s, c0.pos + 1);
    assert(a == '/');
    if b == Some('/') {
        let e = span(s, c0.pos, |ch: char| ch != '\n');
        lemma_span_bounds(s, c0.pos + 1, |ch: char| ch != '\n');
        assert(e == span(s, c0.pos + 1, |ch: char| ch != '\n'));
        lemma_walk_position(s, c0, (e - c0.pos) as nat);
    } else {
        assert(b == Some('*'));
        let e = block_end(s, c0.pos + 2);
        lemma_block_end_bounds(s, c0.pos + 2);
        lemma_walk_position(s, c0, (e - c0.pos) as nat);
    }
}

/// Trimming is idempotent, so a lexer over a text and a lexer over the text already trimmed
/// hold the same characters and produce the same tokens, at the same positions: if `s`
/// trims to `s[a..b]`, that part trims to itself.
pub proof fn law_trim_twice(s: Seq<char>, a: int, b: int, a2: int, b2: int)
    requires
        is_trim_of(s, a, b),
        is_trim_of(s.subrange(a, b), a2, b2),
    ensures
        s.subrange(a, b).subrange(a2, b2) == s.subrange(a, b),
        lex(s.subrange(a, b).subrange(a2, b2)) == lex(s.subrange(a, b)),
{
    let inner = s.subrange(a, b);
    let empty = Seq::<char>::empty();
    assert(empty + inner + empty =~= inner);
    assert(is_trim_of(inner, 0, inner.len() as int));
    law_surrounding_whitespace(empty, inner, empty, a2, b2, 0, inner.len() as int);
    assert(inner.subrange(0, inner.len() as int) =~= inner);
}

} // verus!
