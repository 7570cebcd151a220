use vstd::prelude::*;
use crate::lexer_model::{
    at, block_end, lex, lex_from, scan, scan_number, scan_other, scan_string, scan_word, skip_space,
    span, step, string_from, walk, Cursor, Lexed, Lexeme,
};
use crate::token::Kind;

verus! {

// What the lexer makes of a text does not depend on what stands before it: lexing `x + s`
// from any place in its `s` part gives the same tokens, up to their positions, as lexing `s`
// from the matching place. A comment in front of a text is one such `x`.

/// `s2` is `s` with `k` characters in front.
pub open spec fn shifted(s2: Seq<char>, s: Seq<char>, k: int) -> bool {
    &&& k >= 0
    &&& s2.len() == s.len() + k
    &&& forall|i: int| 0 <= i < s.len() ==> s2[i + k] == #[trigger] s[i]
}

/// Two lexing results agree up to positions: both fail, or both succeed with tokens of the
/// same kinds and contents, in the same order.
pub open spec fn similar(r1: Result<Seq<Lexed>, crate::lexer::Error>, r2: Result<Seq<Lexed>, crate::lexer::Error>) -> bool {
    match (r1, r2) {
        (Ok(a), Ok(b)) => a.len() == b.len() && forall|i: int| 0 <= i < a.len() ==> (#[trigger] a[i]).lexeme == b[i].lexeme,
        (Err(_), Err(_)) => true,
        _ => false,
    }
}

/// Two scanning results agree up to positions, the one on `s2` standing `k` further on.
pub open spec fn scans_alike(
    r1: Result<(Lexed, Cursor), crate::lexer::Error>,
    r2: Result<(Lexed, Cursor), crate::lexer::Error>,
    k: int,
    len: int,
) -> bool {
    match (r1, r2) {
        (Ok((l1, d1)), Ok((l2, d2))) => l1.lexeme == l2.lexeme && d2.pos == d1.pos + k && 0 <= d1.pos <= len,
        (Err(_), Err(_)) => true,
        _ => false,
    }
}

proof fn lemma_step_shift(s2: Seq<char>, s: Seq<char>, k: int, c2: Cursor, c: Cursor)
    requires
        shifted(s2, s, k),
        0 <= c.pos <= s.len(),
        c2.pos == c.pos + k,
    ensures
        step(s2, c2).pos == step(s, c).pos + k,
        0 <= step(s, c).pos <= s.len(),
{
}

proof fn lemma_walk_shift(s2: Seq<char>, s: Seq<char>, k: int, c2: Cursor, c: Cursor, n: nat)
    requires
        shifted(s2, s, k),
        0 <= c.pos <= s.len(),
        c2.pos == c.pos + k,
    ensures
        walk(s2, c2, n).pos == walk(s, c, n).pos + k,
        0 <= walk(s, c, n).pos <= s.len(),
        walk(s, c, n).pos == if c.pos + n <= s.len() { c.pos + n } else { s.len() as int },
    decreases n,
{
    if n > 0 {
        lemma_walk_shift(s2, s, k, c2, c, (n - 1) as nat);
        lemma_step_shift(s2, s, k, walk(s2, c2, (n - 1) as nat), walk(s, c, (n - 1) as nat));
    }
}

proof fn lemma_span_shift(s2: Seq<char>, s: Seq<char>, k: int, i: int, p: spec_fn(char) -> bool)
    requires
        shifted(s2, s, k),
        0 <= i <= s.len(),
    ensures
        span(s2, i + k, p) == span(s, i, p) + k,
        i <= span(s, i, p) <= s.len(),
    decreases s.len() - i,
{
    if i < s.len() {
        assert(s2[i + k] == s[i]);
        if p(s[i]) {
            lemma_span_shift(s2, s, k, i + 1, p);
        }
    }
}

proof fn lemma_block_end_shift(s2: Seq<char>, s: Seq<char>, k: int, i: int)
    requires
        shifted(s2, s, k),
        0 <= i <= s.len(),
    ensures
        block_end(s2, i + k) == block_end(s, i) + k,
        i <= block_end(s, i) <= s.len(),
    decreases s.len() - i,
{
    if i < s.len() {
        assert(s2[i + k] == s[i]);
        if i + 1 < s.len() {
            assert(s2[i + 1 + k] == s[i + 1]);
        }
        if !(i + 1 < s.len() && s[i] == '*' && s[i + 1] == '/') {
            lemma_block_end_shift(s2, s, k, i + 1);
        }
    }
}

proof fn lemma_string_shift(
    s2: Seq<char>,
    s: Seq<char>,
    k: int,
    c2: Cursor,
    c: Cursor,
    acc: Seq<char>,
    o2: Cursor,
    o: Cursor,
)
    requires
        shifted(s2, s, k),
        0 <= c.pos <= s.len(),
        c2.pos == c.pos + k,
    ensures
        match (string_from(s, c, acc, o), string_from(s2, c2, acc, o2)) {
            (Ok((t1, d1)), Ok((t2, d2))) => t1 == t2 && d2.pos == d1.pos + k && 0 <= d1.pos <= s.len(),
            (Err(_), Err(_)) => true,
            _ => false,
        },
    decreases s.len() - c.pos,
{
    if c.pos < s.len() {
        assert(s2[c.pos + k] == s[c.pos]);
        let c1 = step(s, c);
        let d1 = step(s2, c2);
        lemma_step_shift(s2, s, k, c2, c);
        if s[c.pos] == '\\' {
            if c1.pos < s.len() {
                assert(s2[c1.pos + k] == s[c1.pos]);
                lemma_step_shift(s2, s, k, d1, c1);
                lemma_string_shift(s2, s, k, step(s2, d1), step(s, c1), acc.push(crate::lexer_model::escape(s[c1.pos])->Some_0), o2, o);
            }
        } else if s[c.pos] != '"' {
            lemma_string_shift(s2, s, k, d1, c1, acc.push(s[c.pos]), o2, o);
        }
    }
}

proof fn lemma_scan_shift(s2: Seq<char>, s: Seq<char>, k: int, c2: Cursor, c: Cursor)
    requires
        shifted(s2, s, k),
        0 <= c.pos <= s.len(),
        c2.pos == c.pos + k,
    ensures
        scans_alike(scan(s, c), scan(s2, c2), k, s.len() as int),
{
    let w = span(s, c.pos, |ch: char| crate::chars::space(ch));
    lemma_span_shift(s2, s, k, c.pos, |ch: char| crate::chars::space(ch));
    lemma_walk_shift(s2, s, k, c2, c, (w - c.pos) as nat);
    let e0 = skip_space(s, c);
    let f0 = skip_space(s2, c2);
    assert(f0.pos == e0.pos + k);
    if e0.pos < s.len() {
        let ch = s[e0.pos];
        assert(s2[e0.pos + k] == ch);
        // identifiers
        let we = span(s, e0.pos, |x: char| crate::chars::word_char(x));
        lemma_span_shift(s2, s, k, e0.pos, |x: char| crate::chars::word_char(x));
        lemma_walk_shift(s2, s, k, f0, e0, (we - e0.pos) as nat);
        assert(s2.subrange(e0.pos + k, we + k) =~= s.subrange(e0.pos, we));
        // numbers
        lemma_number_shift(s2, s, k, f0, e0);
        // strings
        lemma_step_shift(s2, s, k, f0, e0);
        lemma_string_shift(s2, s, k, step(s2, f0), step(s, e0), seq![], f0, e0);
        // comments and operators
        lemma_other_shift(s2, s, k, f0, e0);
    }
}

proof fn lemma_number_shift(s2: Seq<char>, s: Seq<char>, k: int, c2: Cursor, c: Cursor)
    requires
        shifted(s2, s, k),
        0 <= c.pos < s.len(),
        c2.pos == c.pos + k,
    ensures
        match (scan_number(s, c), scan_number(s2, c2)) {
            (None, None) => true,
            (Some(r1), Some(r2)) => scans_alike(r1, r2, k, s.len() as int),
            _ => false,
        },
{
    assert(s2[c.pos + k] == s[c.pos]);
    if c.pos + 1 < s.len() {
        assert(s2[c.pos + 1 + k] == s[c.pos + 1]);
    }
    let signed = s[c.pos] == '+' || s[c.pos] == '-';
    let c1 = if signed { step(s, c) } else { c };
    let d1 = if signed { step(s2, c2) } else { c2 };
    lemma_step_shift(s2, s, k, c2, c);
    let e = span(s, c1.pos, |x: char| crate::lexer_model::number_char(x));
    lemma_span_shift(s2, s, k, c1.pos, |x: char| crate::lexer_model::number_char(x));
    lemma_walk_shift(s2, s, k, d1, c1, (e - c1.pos) as nat);
    assert(s2.subrange(c1.pos + k, e + k) =~= s.subrange(c1.pos, e));
}

proof fn lemma_other_shift(s2: Seq<char>, s: Seq<char>, k: int, c2: Cursor, c: Cursor)
    requires
        shifted(s2, s, k),
        0 <= c.pos < s.len(),
        c2.pos == c.pos + k,
    ensures
        scans_alike(scan_other(s, c), scan_other(s2, c2), k, s.len() as int),
{
    assert(s2[c.pos + k] == s[c.pos]);
    assert(at(s2, c.pos + 1 + k) == at(s, c.pos + 1));
    assert(at(s2, c.pos + 2 + k) == at(s, c.pos + 2));
    let e = span(s, c.pos, |ch: char| ch != '\n');
    lemma_span_shift(s2, s, k, c.pos, |ch: char| ch != '\n');
    lemma_walk_shift(s2, s, k, c2, c, (e - c.pos) as nat);
    if c.pos + 2 <= s.len() {
        let b = block_end(s, c.pos + 2);
        lemma_block_end_shift(s2, s, k, c.pos + 2);
        lemma_walk_shift(s2, s, k, c2, c, (b - c.pos) as nat);
    }
    lemma_walk_shift(s2, s, k, c2, c, 1);
    lemma_walk_shift(s2, s, k, c2, c, 2);
    lemma_walk_shift(s2, s, k, c2, c, 3);
}

proof fn lemma_lex_shift(s2: Seq<char>, s: Seq<char>, k: int, c2: Cursor, c: Cursor, a2: Seq<Lexed>, a1: Seq<Lexed>)
    requires
        shifted(s2, s, k),
        0 <= c.pos <= s.len(),
        c2.pos == c.pos + k,
        a1.len() == a2.len(),
        forall|i: int| 0 <= i < a1.len() ==> (#[trigger] a1[i]).lexeme == a2[i].lexeme,
    ensures
        similar(lex_from(s, c, a1), lex_from(s2, c2, a2)),
    decreases s.len() - c.pos,
{
    if c.pos >= s.len() {
        let x1 = a1.push(crate::lexer_model::lexed(Lexeme::Plain(Kind::EndOfFile), c));
        let x2 = a2.push(crate::lexer_model::lexed(Lexeme::Plain(Kind::EndOfFile), c2));
        assert forall|i: int| 0 <= i < x1.len() implies (#[trigger] x1[i]).lexeme == x2[i].lexeme by {
            if i < a1.len() {
                assert(x1[i] == a1[i]);
                assert(x2[i] == a2[i]);
            }
        }
    } else {
        lemma_scan_shift(s2, s, k, c2, c);
        if let (Ok((t1, d1)), Ok((t2, d2))) = (scan(s, c), scan(s2, c2)) {
            let x1 = a1.push(t1);
            let x2 = a2.push(t2);
            assert forall|i: int| 0 <= i < x1.len() implies (#[trigger] x1[i]).lexeme == x2[i].lexeme by {
                if i < a1.len() {
                    assert(x1[i] == a1[i]);
                    assert(x2[i] == a2[i]);
                }
            }
            if t1.lexeme != Lexeme::Plain(Kind::EndOfFile) && c.pos < d1.pos <= s.len() {
                if t1.lexeme == Lexeme::Plain(Kind::Comment) {
                    lemma_lex_shift(s2, s, k, d2, d1, a2, a1);
                } else {
                    lemma_lex_shift(s2, s, k, d2, d1, x2, x1);
                }
            }
        }
    }
}

/// The characters of a block comment with the text `b`, which holds no `*/`.
pub open spec fn block_comment(b: Seq<char>) -> Seq<char> {
    seq!['/', '*'] + b + seq!['*', '/']
}

pub open spec fn closes_nowhere(b: Seq<char>) -> bool {
    forall|i: int| 0 <= i < b.len() - 1 ==> !(#[trigger] b[i] == '*' && b[i + 1] == '/')
}

proof fn lemma_comment_closes(b: Seq<char>, q: Seq<char>, i: int)
    requires
        closes_nowhere(b),
        2 <= i <= b.len() + 2,
    ensures
        block_end(block_comment(b) + q, i) == b.len() + 4,
    decreases b.len() + 2 - i,
{
    let x = block_comment(b) + q;
    if i < b.len() + 2 {
        assert(x[i] == b[i - 2]);
        if i + 1 < b.len() + 2 {
            assert(x[i + 1] == b[i - 1]);
        } else {
            assert(x[i + 1] == '*');
        }
        lemma_comment_closes(b, q, i + 1);
    } else {
        assert(x[i] == '*');
        assert(x[i + 1] == '/');
    }
}

/// A block comment in front of a text changes no token: the text with the comment before it
/// lexes to tokens of the same kinds and contents as the text alone (at other positions), or
/// both fail.
pub proof fn law_leading_comment(b: Seq<char>, q: Seq<char>)
    requires
        closes_nowhere(b),
    ensures
        similar(lex(q), lex(block_comment(b) + q)),
{
    let x = block_comment(b) + q;
    let k = b.len() + 4;
    assert(shifted(x, q, k as int)) by {
        assert forall|i: int| 0 <= i < q.len() implies x[i + k] == #[trigger] q[i] by {}
    }
    let c0 = Cursor { pos: 0, line: 1, column: 0 };
    assert(x[0] == '/');
    assert(x[1] == '*');
    assert(span(x, 0, |ch: char| crate::chars::space(ch)) == 0);
    lemma_comment_closes(b, q, 2);
    lemma_walk_shift(x, x, 0, c0, c0, k as nat);
    let c2 = scan(x, c0)->Ok_0.1;
    assert(c2.pos == k);
    lemma_lex_shift(x, q, k as int, c2, c0, seq![], seq![]);
}

} // verus!
