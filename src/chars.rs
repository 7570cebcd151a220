use vstd::prelude::*;

verus! {

/// Unicode's Alphabetic property of a character.
pub uninterp spec fn alphabetic_of(c: char) -> bool;

/// Unicode's numeric general categories (Nd, Nl, No) of a character.
pub uninterp spec fn numeric_of(c: char) -> bool;

/// Unicode's White_Space property of a character.
pub uninterp spec fn white_space_of(c: char) -> bool;

/// Relies on `char::is_alphabetic`: whether `c` has the Alphabetic property.
#[verifier::external_body]
fn unicode_alphabetic(c: char) -> (r: bool)
    ensures
        r == alphabetic_of(c),
{
    c.is_alphabetic()
}

/// Relies on `char::is_numeric`: whether `c` is in one of the numeric general categories.
#[verifier::external_body]
fn unicode_numeric(c: char) -> (r: bool)
    ensures
        r == numeric_of(c),
{
    c.is_numeric()
}

/// Relies on `char::is_whitespace`: whether `c` has the White_Space property.
#[verifier::external_body]
fn unicode_white_space(c: char) -> (r: bool)
    ensures
        r == white_space_of(c),
{
    c.is_whitespace()
}

pub open spec fn is_ascii(c: char) -> bool {
    (c as u32) < 0x80
}

/// A letter: ASCII `a-z`, `A-Z`, or a non-ASCII alphabetic character.
pub open spec fn letter(c: char) -> bool {
    if is_ascii(c) {
        ('a' <= c && c <= 'z') || ('A' <= c && c <= 'Z')
    } else {
        alphabetic_of(c)
    }
}

/// A digit: ASCII `0-9`, or a non-ASCII numeric character.
pub open spec fn numeric(c: char) -> bool {
    if is_ascii(c) {
        '0' <= c && c <= '9'
    } else {
        numeric_of(c)
    }
}

/// Whitespace: ASCII space, tab, line feed, vertical tab, form feed, carriage return, or a
/// non-ASCII White_Space character.
pub open spec fn space(c: char) -> bool {
    if is_ascii(c) {
        c == ' ' || ('\t' <= c && c <= '\r')
    } else {
        white_space_of(c)
    }
}

/// A character that may continue an identifier.
pub open spec fn word_char(c: char) -> bool {
    letter(c) || numeric(c) || c == '_'
}

pub fn is_letter(c: char) -> (r: bool)
    ensures
        r == letter(c),
{
    if (c as u32) < 0x80 {
        ('a' <= c && c <= 'z') || ('A' <= c && c <= 'Z')
    } else {
        unicode_alphabetic(c)
    }
}

pub fn is_numeric(c: char) -> (r: bool)
    ensures
        r == numeric(c),
{
    if (c as u32) < 0x80 {
        '0' <= c && c <= '9'
    } else {
        unicode_numeric(c)
    }
}

pub fn is_space(c: char) -> (r: bool)
    ensures
        r == space(c),
{
    if (c as u32) < 0x80 {
        c == ' ' || ('\t' <= c && c <= '\r')
    } else {
        unicode_white_space(c)
    }
}

pub fn is_word_char(c: char) -> (r: bool)
    ensures
        r == word_char(c),
{
    is_letter(c) || is_numeric(c) || c == '_'
}

/// Relies on `String::push`: appends `c` to the end of `s`.
#[verifier::external_body]
pub fn push_char(s: &mut String, c: char)
    ensures
        final(s)@ == old(s)@.push(c),
{
    s.push(c)
}

/// `s` with its leading and trailing whitespace removed: the part from `start` to `end`.
pub open spec fn is_trim_of(s: Seq<char>, start: int, end: int) -> bool {
    &&& 0 <= start <= end <= s.len()
    &&& forall|i: int| 0 <= i < start ==> space(#[trigger] s[i])
    &&& forall|i: int| end <= i < s.len() ==> space(#[trigger] s[i])
    &&& start < end ==> !space(s[start]) && !space(s[end - 1])
}

/// The characters of `text` with leading and trailing whitespace removed.
pub fn trimmed_chars(text: &str) -> (r: Vec<char>)
    ensures
        exists|start: int, end: int|
            is_trim_of(text@, start, end) && r@ == #[trigger] text@.subrange(start, end),
{
    let n = text.unicode_len();
    let mut start: usize = 0;
    while start < n && is_space(text.get_char(start))
        invariant
            n == text@.len(),
            start <= n,
            forall|i: int| 0 <= i < start ==> space(#[trigger] text@[i]),
        decreases n - start,
    {
        start = start + 1;
    }
    let mut end: usize = n;
    while end > start && is_space(text.get_char(end - 1))
        invariant
            n == text@.len(),
            start <= end <= n,
            start < n ==> !space(text@[start as int]),
            forall|i: int| end <= i < n ==> space(#[trigger] text@[i]),
        decreases end,
    {
        end = end - 1;
    }
    let mut r: Vec<char> = Vec::new();
    let mut i: usize = start;
    while i < end
        invariant
            n == text@.len(),
            start <= i <= end <= n,
            r@ == text@.subrange(start as int, i as int),
        decreases end - i,
    {
        r.push(text.get_char(i));
        i = i + 1;
        assert(r@ =~= text@.subrange(start as int, i as int));
    }
    assert(is_trim_of(text@, start as int, end as int));
    r
}

/// Whether two strings hold the same characters.
pub fn eq_str(a: &str, b: &str) -> (r: bool)
    ensures
        r == (a@ == b@),
{
    let n = a.unicode_len();
    if n != b.unicode_len() {
        return false;
    }
    let mut i: usize = 0;
    while i < n
        invariant
            n == a@.len() == b@.len(),
            i <= n,
            forall|k: int| 0 <= k < i ==> a@[k] == b@[k],
        decreases n - i,
    {
        if a.get_char(i) != b.get_char(i) {
            return false;
        }
        i = i + 1;
    }
    assert(a@ =~= b@);
    true
}

/// The ASCII digit for `d`, which is below ten.
pub open spec fn digit_char(d: int) -> char {
    ((48 + d) as u8) as char
}

/// The decimal digits of `n`, most significant first, without leading zeros.
pub open spec fn decimal(n: nat) -> Seq<char>
    decreases n,
{
    if n < 10 {
        seq![digit_char(n as int)]
    } else {
        decimal(n / 10).push(digit_char((n % 10) as int))
    }
}

/// The decimal text of `v`, with a leading `-` when it is negative.
pub open spec fn signed_decimal(v: int) -> Seq<char> {
    if v < 0 {
        seq!['-'] + decimal((-v) as nat)
    } else {
        decimal(v as nat)
    }
}

/// Appends the decimal digits of `n` to `s`.
pub fn push_decimal(s: &mut String, n: u128)
    ensures
        final(s)@ == old(s)@ + decimal(n as nat),
    decreases n,
{
    let d = n % 10;
    if n >= 10 {
        push_decimal(s, n / 10);
    }
    push_char(s, (48u8 + (d as u8)) as char);
    assert(s@ =~= old(s)@ + decimal(n as nat));
}

/// Appends the decimal text of `v` to `s`.
pub fn push_signed_decimal(s: &mut String, v: i64)
    ensures
        final(s)@ == old(s)@ + signed_decimal(v as int),
{
    if v < 0 {
        push_char(s, '-');
        push_decimal(s, (0 - (v as i128)) as u128);
        assert(s@ =~= old(s)@ + signed_decimal(v as int));
    } else {
        push_decimal(s, v as u128);
    }
}

} // verus!
