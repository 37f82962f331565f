use vstd::prelude::*;
use crate::token::{Token, SpecToken, tokens_view};
use vstd::std_specs::iter::IteratorSpec;
use crate::grammar::{decimal_string, u32_to_string};

verus! {

broadcast use vstd::string::group_string_axioms;

/// Why a program text could not be split into tokens.
#[derive(Debug, PartialEq, Eq, Structural, Clone, Copy)]
pub enum LexError {
    /// No token starts with the character at this (character) position.
    UnrecognizedToken(usize),
    /// The decimal literal that starts at this position does not fit in 32 bits.
    ValueOutOfRange(usize),
}

// ---------------------------------------------------------------------------------------------
// Character classes
// ---------------------------------------------------------------------------------------------

/// Unicode White_Space: the characters that separate tokens.
pub open spec fn is_ws(c: char) -> bool {
    ||| ('\u{9}' <= c && c <= '\u{d}')
    ||| c == ' '
    ||| c == '\u{85}'
    ||| c == '\u{a0}'
    ||| c == '\u{1680}'
    ||| ('\u{2000}' <= c && c <= '\u{200a}')
    ||| c == '\u{2028}'
    ||| c == '\u{2029}'
    ||| c == '\u{202f}'
    ||| c == '\u{205f}'
    ||| c == '\u{3000}'
}

pub open spec fn is_digit(c: char) -> bool {
    '0' <= c && c <= '9'
}

/// A character that may start an identifier: `[A-Za-z_]`.
pub open spec fn is_word_start(c: char) -> bool {
    ('A' <= c && c <= 'Z') || ('a' <= c && c <= 'z') || c == '_'
}

/// A character that may continue an identifier: `[A-Za-z0-9_]`.
pub open spec fn is_word_char(c: char) -> bool {
    is_word_start(c) || is_digit(c)
}

pub open spec fn digit_value(c: char) -> nat {
    (c as nat - '0' as nat) as nat
}

/// The number that a sequence of decimal digits denotes.
pub open spec fn decimal(d: Seq<char>) -> nat
    decreases d.len(),
{
    if d.len() == 0 {
        0
    } else {
        10 * decimal(d.drop_last()) + digit_value(d.last())
    }
}

/// First position at or after `i` that does not hold a whitespace character.
pub open spec fn skip_ws(s: Seq<char>, i: int) -> int
    decreases s.len() - i,
{
    if 0 <= i < s.len() && is_ws(s[i]) {
        skip_ws(s, i + 1)
    } else {
        i
    }
}

/// End of the run of digits that starts at `i`.
pub open spec fn digits_end(s: Seq<char>, i: int) -> int
    decreases s.len() - i,
{
    if 0 <= i < s.len() && is_digit(s[i]) {
        digits_end(s, i + 1)
    } else {
        i
    }
}

/// End of the run of identifier characters that starts at `i`.
pub open spec fn word_end(s: Seq<char>, i: int) -> int
    decreases s.len() - i,
{
    if 0 <= i < s.len() && is_word_char(s[i]) {
        word_end(s, i + 1)
    } else {
        i
    }
}

// ---------------------------------------------------------------------------------------------
// Token grammar
// ---------------------------------------------------------------------------------------------

/// The keyword token spelled by `w`, if `w` is a keyword.
pub open spec fn keyword(w: Seq<char>) -> Option<SpecToken> {
    if w == seq!['i', 'n', 'p', 'u', 't'] {
        Some(SpecToken::Input)
    } else if w == seq!['o', 'u', 't', 'p', 'u', 't'] {
        Some(SpecToken::Output)
    } else if w == seq!['c', 'o', 'n', 's', 't'] {
        Some(SpecToken::Const)
    } else if w == seq!['p', 'e', 'r', 's', 'i', 's', 't', 'e', 'n', 't'] {
        Some(SpecToken::Persistent)
    } else if w == seq!['t', 'r', 'a', 'n', 's', 'i', 'e', 'n', 't'] {
        Some(SpecToken::Transient)
    } else if w == seq!['s', 'n', 'i', 'p', 'p', 'e', 't'] {
        Some(SpecToken::Snippet)
    } else if w == seq!['a', 'n', 'd'] {
        Some(SpecToken::BooleanAnd)
    } else if w == seq!['o', 'r'] {
        Some(SpecToken::BooleanOr)
    } else if w == seq!['n', 'o', 't'] {
        Some(SpecToken::BooleanNot)
    } else if w == seq!['b', 'i', 't'] {
        Some(SpecToken::Bit)
    } else if w == seq!['p', 'a', 'c', 'k', 'e', 't'] {
        Some(SpecToken::Packet)
    } else if w == seq!['g', 'l', 'o', 'b', 'a', 'l'] {
        Some(SpecToken::Global)
    } else if w == seq!['i', 'f'] {
        Some(SpecToken::If)
    } else if w == seq!['e', 'l', 's', 'e'] {
        Some(SpecToken::Else)
    } else if w == seq!['s', 't', 'a', 't', 'i', 'c'] {
        Some(SpecToken::Static)
    } else {
        None
    }
}

/// The token denoted by a word `[A-Za-z_][A-Za-z0-9_]*`: a keyword or an identifier.
pub open spec fn word_token(w: Seq<char>) -> SpecToken {
    match keyword(w) {
        Some(t) => t,
        None => SpecToken::Identifier(w),
    }
}

/// The punctuation token that starts at `j` and its length, if there is one.
/// Two-character operators are preferred over their one-character prefixes.
pub open spec fn punct(s: Seq<char>, j: int) -> Option<(SpecToken, int)> {
    let c = s[j];
    let has_next = j + 1 < s.len();
    let d = s[j + 1];
    if c == '-' && has_next && d == '>' {
        Some((SpecToken::Arrow, 2))
    } else if c == '=' && has_next && d == '=' {
        Some((SpecToken::Equal, 2))
    } else if c == '!' && has_next && d == '=' {
        Some((SpecToken::NotEqual, 2))
    } else if c == '>' && has_next && d == '=' {
        Some((SpecToken::GTEQOp, 2))
    } else if c == '<' && has_next && d == '=' {
        Some((SpecToken::LTEQOp, 2))
    } else if c == '>' {
        Some((SpecToken::GreaterThan, 1))
    } else if c == '<' {
        Some((SpecToken::LessThan, 1))
    } else if c == '+' {
        Some((SpecToken::Plus, 1))
    } else if c == '-' {
        Some((SpecToken::Minus, 1))
    } else if c == '/' {
        Some((SpecToken::Div, 1))
    } else if c == '*' {
        Some((SpecToken::Mul, 1))
    } else if c == '%' {
        Some((SpecToken::Modulo, 1))
    } else if c == '{' {
        Some((SpecToken::BraceLeft, 1))
    } else if c == '}' {
        Some((SpecToken::BraceRight, 1))
    } else if c == '(' {
        Some((SpecToken::ParenLeft, 1))
    } else if c == ')' {
        Some((SpecToken::ParenRight, 1))
    } else if c == '[' {
        Some((SpecToken::SquareLeft, 1))
    } else if c == ']' {
        Some((SpecToken::SquareRight, 1))
    } else if c == '=' {
        Some((SpecToken::Assign, 1))
    } else if c == ';' {
        Some((SpecToken::SemiColon, 1))
    } else if c == ',' {
        Some((SpecToken::Comma, 1))
    } else if c == '?' {
        Some((SpecToken::Cond, 1))
    } else if c == ':' {
        Some((SpecToken::Colon, 1))
    } else if c == '.' {
        Some((SpecToken::Dot, 1))
    } else if c == '@' {
        Some((SpecToken::Annotation, 1))
    } else {
        None
    }
}

/// The token that starts at the non-blank position `j`, with the position just after it.
pub open spec fn scan(s: Seq<char>, j: int) -> Result<(SpecToken, int), LexError> {
    if is_digit(s[j]) {
        let k = digits_end(s, j);
        let v = decimal(s.subrange(j, k));
        if v <= u32::MAX {
            Ok((SpecToken::Value(v as u32), k))
        } else {
            Err(LexError::ValueOutOfRange(j as usize))
        }
    } else if is_word_start(s[j]) {
        let k = word_end(s, j);
        Ok((word_token(s.subrange(j, k)), k))
    } else {
        match punct(s, j) {
            Some((t, n)) => Ok((t, j + n)),
            None => Err(LexError::UnrecognizedToken(j as usize)),
        }
    }
}

/// The tokens of `s` from position `i` on.
pub open spec fn lex_from(s: Seq<char>, i: int) -> Result<Seq<SpecToken>, LexError>
    decreases s.len() - i,
{
    let j = skip_ws(s, i);
    if j < i || j >= s.len() {
        Ok(Seq::empty())
    } else {
        match scan(s, j) {
            Err(e) => Err(e),
            Ok((t, k)) => if j < k <= s.len() {
                match lex_from(s, k) {
                    Ok(rest) => Ok(seq![t] + rest),
                    Err(e) => Err(e),
                }
            } else {
                Err(LexError::UnrecognizedToken(j as usize))
            },
        }
    }
}

/// The tokens of a whole program text.
pub open spec fn lex(s: Seq<char>) -> Result<Seq<SpecToken>, LexError> {
    lex_from(s, 0)
}

/// `prefix` followed by the tokens in `r`, or the error in `r`.
pub open spec fn prepend_tokens(prefix: Seq<SpecToken>, r: Result<Seq<SpecToken>, LexError>) -> Result<Seq<SpecToken>, LexError> {
    match r {
        Ok(rest) => Ok(prefix + rest),
        Err(e) => Err(e),
    }
}

// ---------------------------------------------------------------------------------------------
// Lemmas
// ---------------------------------------------------------------------------------------------

proof fn lemma_skip_ws_bounds(s: Seq<char>, i: int)
    requires 0 <= i <= s.len(),
    ensures
        i <= skip_ws(s, i) <= s.len(),
        skip_ws(s, i) < s.len() ==> !is_ws(s[skip_ws(s, i)]),
    decreases s.len() - i,
{
    if i < s.len() && is_ws(s[i]) {
        lemma_skip_ws_bounds(s, i + 1);
    }
}

/// The run of digits from `i` ends within the text, and every character in it is a digit.
pub proof fn lemma_digits_end_bounds(s: Seq<char>, i: int)
    requires 0 <= i <= s.len(),
    ensures
        i <= digits_end(s, i) <= s.len(),
        forall|m: int| i <= m < digits_end(s, i) ==> is_digit(#[trigger] s[m]),
    decreases s.len() - i,
{
    if i < s.len() && is_digit(s[i]) {
        lemma_digits_end_bounds(s, i + 1);
    }
}

proof fn lemma_word_end_bounds(s: Seq<char>, i: int)
    requires 0 <= i <= s.len(),
    ensures
        i <= word_end(s, i) <= s.len(),
    decreases s.len() - i,
{
    if i < s.len() && is_word_char(s[i]) {
        lemma_word_end_bounds(s, i + 1);
    }
}

/// A longer run of digits denotes a number at least as large.
proof fn lemma_decimal_monotone(s: Seq<char>, j: int, k: int, m: int)
    requires 0 <= j <= k <= m <= s.len(),
    ensures decimal(s.subrange(j, k)) <= decimal(s.subrange(j, m)),
    decreases m - k,
{
    if k < m {
        lemma_decimal_monotone(s, j, k, m - 1);
        assert(s.subrange(j, m).drop_last() =~= s.subrange(j, m - 1));
    }
}

// ---------------------------------------------------------------------------------------------
// Executable lexer
// ---------------------------------------------------------------------------------------------

/// Appends one character to a string (`String::push`).
#[verifier::external_body]
pub(crate) fn push_char(s: &mut String, c: char)
    ensures final(s)@ == old(s)@.push(c),
{
    s.push(c);
}

/// The characters of `s`, in order.
pub(crate) fn chars_of(s: &str) -> (v: Vec<char>)
    ensures v@ == s@,
{
    let mut it = s.chars();
    let mut v: Vec<char> = Vec::new();
    loop
        invariant
            v@ + it.remaining() == s@,
        decreases s@.len() - v@.len(),
    {
        let ghost before = it.remaining();
        match it.next() {
            Some(c) => {
                assert(before.len() > 0);
                v.push(c);
                assert(v@ + it.remaining() =~= s@) by {
                    assert(before =~= seq![c] + it.remaining());
                }
            },
            None => {
                assert(before.len() == 0);
                assert(v@ =~= s@);
                return v;
            },
        }
    }
}

fn is_ws_char(c: char) -> (b: bool)
    ensures b == is_ws(c),
{
    ('\u{9}' <= c && c <= '\u{d}') || c == ' ' || c == '\u{85}' || c == '\u{a0}' || c == '\u{1680}'
        || ('\u{2000}' <= c && c <= '\u{200a}') || c == '\u{2028}' || c == '\u{2029}'
        || c == '\u{202f}' || c == '\u{205f}' || c == '\u{3000}'
}

pub(crate) fn is_digit_char(c: char) -> (b: bool)
    ensures b == is_digit(c),
{
    '0' <= c && c <= '9'
}

fn is_word_start_char(c: char) -> (b: bool)
    ensures b == is_word_start(c),
{
    ('A' <= c && c <= 'Z') || ('a' <= c && c <= 'z') || c == '_'
}

fn skip_whitespace(s: &Vec<char>, i: usize) -> (r: usize)
    requires i <= s@.len(),
    ensures r == skip_ws(s@, i as int), r <= s@.len(),
{
    let mut j: usize = i;
    while j < s.len() && is_ws_char(s[j])
        invariant
            i <= j <= s@.len(),
            skip_ws(s@, i as int) == skip_ws(s@, j as int),
        decreases s@.len() - j,
    {
        j = j + 1;
    }
    j
}

/// Whether the characters of `s` from `j` to `k` spell `w`.
pub(crate) fn spells(s: &Vec<char>, j: usize, k: usize, w: &Vec<char>) -> (b: bool)
    requires j <= k <= s@.len(),
    ensures b == (s@.subrange(j as int, k as int) == w@),
{
    if k - j != w.len() {
        return false;
    }
    let mut m: usize = 0;
    while m < w.len()
        invariant
            j <= k <= s@.len(),
            k - j == w@.len(),
            m <= w@.len(),
            forall|n: int| 0 <= n < m ==> s@[j + n] == w@[n],
        decreases w@.len() - m,
    {
        if s[j + m] != w[m] {
            assert(s@.subrange(j as int, k as int)[m as int] != w@[m as int]);
            return false;
        }
        m = m + 1;
    }
    assert(s@.subrange(j as int, k as int) =~= w@);
    true
}

/// Classifies the word `s[start..end]` (which matches `[A-Za-z_][A-Za-z0-9_]*`)
/// as a keyword or an identifier.
fn get_single_token(s: &Vec<char>, start: usize, end: usize) -> (t: Token)
    requires start <= end <= s@.len(),
    ensures t@ == word_token(s@.subrange(start as int, end as int)),
{
    if spells(s, start, end, &vec!['i', 'n', 'p', 'u', 't']) {
        return Token::Input;
    }
    if spells(s, start, end, &vec!['o', 'u', 't', 'p', 'u', 't']) {
        return Token::Output;
    }
    if spells(s, start, end, &vec!['c', 'o', 'n', 's', 't']) {
        return Token::Const;
    }
    if spells(s, start, end, &vec!['p', 'e', 'r', 's', 'i', 's', 't', 'e', 'n', 't']) {
        return Token::Persistent;
    }
    if spells(s, start, end, &vec!['t', 'r', 'a', 'n', 's', 'i', 'e', 'n', 't']) {
        return Token::Transient;
    }
    if spells(s, start, end, &vec!['s', 'n', 'i', 'p', 'p', 'e', 't']) {
        return Token::Snippet;
    }
    if spells(s, start, end, &vec!['a', 'n', 'd']) {
        return Token::BooleanAnd;
    }
    if spells(s, start, end, &vec!['o', 'r']) {
        return Token::BooleanOr;
    }
    if spells(s, start, end, &vec!['n', 'o', 't']) {
        return Token::BooleanNot;
    }
    if spells(s, start, end, &vec!['b', 'i', 't']) {
        return Token::Bit;
    }
    if spells(s, start, end, &vec!['p', 'a', 'c', 'k', 'e', 't']) {
        return Token::Packet;
    }
    if spells(s, start, end, &vec!['g', 'l', 'o', 'b', 'a', 'l']) {
        return Token::Global;
    }
    if spells(s, start, end, &vec!['i', 'f']) {
        return Token::If;
    }
    if spells(s, start, end, &vec!['e', 'l', 's', 'e']) {
        return Token::Else;
    }
    if spells(s, start, end, &vec!['s', 't', 'a', 't', 'i', 'c']) {
        return Token::Static;
    }
    let mut name = String::new();
    let mut m: usize = start;
    while m < end
        invariant
            start <= m <= end <= s@.len(),
            name@ == s@.subrange(start as int, m as int),
        decreases end - m,
    {
        push_char(&mut name, s[m]);
        assert(name@ =~= s@.subrange(start as int, m + 1));
        m = m + 1;
    }
    Token::Identifier(name)
}

/// Scans the run of digits that starts at the digit `s[j]`.
fn scan_value(s: &Vec<char>, j: usize) -> (r: Result<(Token, usize), LexError>)
    requires j < s@.len(), is_digit(s@[j as int]),
    ensures
        match r {
            Ok((t, k)) => scan(s@, j as int) == Ok::<(SpecToken, int), LexError>((t@, k as int))
                && j < k <= s@.len(),
            Err(e) => scan(s@, j as int) == Err::<(SpecToken, int), LexError>(e),
        },
{
    let ghost end = digits_end(s@, j as int);
    proof {
        lemma_digits_end_bounds(s@, j as int);
    }
    let mut k: usize = j;
    let mut v: u32 = 0;
    while k < s.len() && is_digit_char(s[k])
        invariant
            j <= k <= end,
            end == digits_end(s@, j as int),
            end <= s@.len(),
            digits_end(s@, k as int) == end,
            v == decimal(s@.subrange(j as int, k as int)),
            forall|m: int| j <= m < end ==> is_digit(#[trigger] s@[m]),
        decreases s@.len() - k,
    {
        proof {
            lemma_digits_end_bounds(s@, k + 1);
        }
        let d: u32 = (s[k] as u32) - ('0' as u32);
        assert(s@.subrange(j as int, k + 1).drop_last() =~= s@.subrange(j as int, k as int));
        if v > (u32::MAX - d) / 10 {
            proof {
                lemma_decimal_monotone(s@, j as int, k + 1, end);
            }
            return Err(LexError::ValueOutOfRange(j));
        }
        v = v * 10 + d;
        k = k + 1;
    }
    Ok((Token::Value(v), k))
}

/// Scans the token that starts at the non-blank position `j`.
fn scan_token(s: &Vec<char>, j: usize) -> (r: Result<(Token, usize), LexError>)
    requires j < s@.len(),
    ensures
        match r {
            Ok((t, k)) => scan(s@, j as int) == Ok::<(SpecToken, int), LexError>((t@, k as int))
                && j < k <= s@.len(),
            Err(e) => scan(s@, j as int) == Err::<(SpecToken, int), LexError>(e),
        },
{
    let c = s[j];
    if is_digit_char(c) {
        return scan_value(s, j);
    }
    if is_word_start_char(c) {
        let mut k: usize = j;
        while k < s.len() && (is_word_start_char(s[k]) || is_digit_char(s[k]))
            invariant
                j <= k <= s@.len(),
                word_end(s@, j as int) == word_end(s@, k as int),
            decreases s@.len() - k,
        {
            k = k + 1;
        }
        let t = get_single_token(s, j, k);
        return Ok((t, k));
    }
    let has_next = s.len() - j > 1;
    let d = if has_next { s[j + 1] } else { ' ' };
    let (t, n): (Token, usize) = if c == '-' && has_next && d == '>' {
        (Token::Arrow, 2)
    } else if c == '=' && has_next && d == '=' {
        (Token::Equal, 2)
    } else if c == '!' && has_next && d == '=' {
        (Token::NotEqual, 2)
    } else if c == '>' && has_next && d == '=' {
        (Token::GTEQOp, 2)
    } else if c == '<' && has_next && d == '=' {
        (Token::LTEQOp, 2)
    } else if c == '>' {
        (Token::GreaterThan, 1)
    } else if c == '<' {
        (Token::LessThan, 1)
    } else if c == '+' {
        (Token::Plus, 1)
    } else if c == '-' {
        (Token::Minus, 1)
    } else if c == '/' {
        (Token::Div, 1)
    } else if c == '*' {
        (Token::Mul, 1)
    } else if c == '%' {
        (Token::Modulo, 1)
    } else if c == '{' {
        (Token::BraceLeft, 1)
    } else if c == '}' {
        (Token::BraceRight, 1)
    } else if c == '(' {
        (Token::ParenLeft, 1)
    } else if c == ')' {
        (Token::ParenRight, 1)
    } else if c == '[' {
        (Token::SquareLeft, 1)
    } else if c == ']' {
        (Token::SquareRight, 1)
    } else if c == '=' {
        (Token::Assign, 1)
    } else if c == ';' {
        (Token::SemiColon, 1)
    } else if c == ',' {
        (Token::Comma, 1)
    } else if c == '?' {
        (Token::Cond, 1)
    } else if c == ':' {
        (Token::Colon, 1)
    } else if c == '.' {
        (Token::Dot, 1)
    } else if c == '@' {
        (Token::Annotation, 1)
    } else {
        return Err(LexError::UnrecognizedToken(j));
    };
    Ok((t, j + n))
}

/// Splits a program text into tokens.  Fails with the position of the first character
/// that starts no token, or of a decimal literal too large for 32 bits.
pub fn get_tokens(input_program: &str) -> (r: Result<Vec<Token>, LexError>)
    ensures
        match r {
            Ok(v) => lex(input_program@) == Ok::<Seq<SpecToken>, LexError>(tokens_view(v@)),
            Err(e) => lex(input_program@) == Err::<Seq<SpecToken>, LexError>(e),
        },
{
    let s = chars_of(input_program);
    let mut tokens: Vec<Token> = Vec::new();
    let mut i: usize = 0;
    assert(tokens_view(tokens@) =~= Seq::<SpecToken>::empty());
    loop
        invariant
            i <= s@.len(),
            s@ == input_program@,
            lex(s@) == prepend_tokens(tokens_view(tokens@), lex_from(s@, i as int)),
        decreases s@.len() - i,
    {
        let j = skip_whitespace(&s, i);
        proof {
            lemma_skip_ws_bounds(s@, i as int);
        }
        if j >= s.len() {
            assert(tokens_view(tokens@) + Seq::<SpecToken>::empty() =~= tokens_view(tokens@));
            return Ok(tokens);
        }
        match scan_token(&s, j) {
            Err(e) => {
                return Err(e);
            },
            Ok((t, k)) => {
                let ghost old_tokens = tokens@;
                tokens.push(t);
                assert(tokens_view(tokens@) =~= tokens_view(old_tokens) + seq![t@]);
                proof {
                    assert(lex_from(s@, i as int) == prepend_tokens(seq![t@], lex_from(s@, k as int)));
                    match lex_from(s@, k as int) {
                        Ok(rest) => {
                            assert(tokens_view(old_tokens) + (seq![t@] + rest) =~= tokens_view(tokens@) + rest);
                        },
                        Err(_) => {},
                    }
                }
                i = k;
            },
        }
    }
}

/// The text that spells token `t`.
pub open spec fn token_text(t: SpecToken) -> Seq<char> {
    match t {
        SpecToken::Identifier(n) => n,
        SpecToken::Value(v) => decimal_string(v as nat),
        SpecToken::Input => seq!['i', 'n', 'p', 'u', 't'],
        SpecToken::Output => seq!['o', 'u', 't', 'p', 'u', 't'],
        SpecToken::Const => seq!['c', 'o', 'n', 's', 't'],
        SpecToken::Persistent => seq!['p', 'e', 'r', 's', 'i', 's', 't', 'e', 'n', 't'],
        SpecToken::Transient => seq!['t', 'r', 'a', 'n', 's', 'i', 'e', 'n', 't'],
        SpecToken::Snippet => seq!['s', 'n', 'i', 'p', 'p', 'e', 't'],
        SpecToken::BooleanAnd => seq!['a', 'n', 'd'],
        SpecToken::BooleanOr => seq!['o', 'r'],
        SpecToken::BooleanNot => seq!['n', 'o', 't'],
        SpecToken::Bit => seq!['b', 'i', 't'],
        SpecToken::Static => seq!['s', 't', 'a', 't', 'i', 'c'],
        SpecToken::Colon => seq![':'],
        SpecToken::SemiColon => seq![';'],
        SpecToken::Comma => seq![','],
        SpecToken::Arrow => seq!['-', '>'],
        SpecToken::ParenLeft => seq!['('],
        SpecToken::ParenRight => seq![')'],
        SpecToken::BraceLeft => seq!['{'],
        SpecToken::BraceRight => seq!['}'],
        SpecToken::SquareLeft => seq!['['],
        SpecToken::SquareRight => seq![']'],
        SpecToken::Plus => seq!['+'],
        SpecToken::Minus => seq!['-'],
        SpecToken::Mul => seq!['*'],
        SpecToken::Div => seq!['/'],
        SpecToken::Modulo => seq!['%'],
        SpecToken::Cond => seq!['?'],
        SpecToken::Equal => seq!['=', '='],
        SpecToken::NotEqual => seq!['!', '='],
        SpecToken::LTEQOp => seq!['<', '='],
        SpecToken::GTEQOp => seq!['>', '='],
        SpecToken::LessThan => seq!['<'],
        SpecToken::GreaterThan => seq!['>'],
        SpecToken::Assign => seq!['='],
        SpecToken::Packet => seq!['p', 'a', 'c', 'k', 'e', 't'],
        SpecToken::Field => seq!['f', 'i', 'e', 'l', 'd'],
        SpecToken::Global => seq!['g', 'l', 'o', 'b', 'a', 'l'],
        SpecToken::If => seq!['i', 'f'],
        SpecToken::Else => seq!['e', 'l', 's', 'e'],
        SpecToken::Dot => seq!['.'],
        SpecToken::Annotation => seq!['@'],
    }
}

/// The text of a token sequence: each token's text followed by one space.
pub open spec fn render(ts: Seq<SpecToken>) -> Seq<char>
    decreases ts.len(),
{
    if ts.len() == 0 {
        Seq::empty()
    } else {
        render(ts.drop_last()) + token_text(ts.last()) + seq![' ']
    }
}

/// Appends the text of `t` and a space.
fn append_token(out: &mut String, t: &Token)
    ensures final(out)@ == old(out)@ + token_text(t@) + seq![' '],
{
    let ghost before = out@;
    match t {
        Token::Identifier(n) => {
            out.append(n.as_str());
        },
        Token::Value(v) => {
            let digits = u32_to_string(*v);
            out.append(digits.as_str());
        },
        Token::Input => {
            out.append("input");
            proof {
                reveal_strlit("input");
            }
        },
        Token::Output => {
            out.append("output");
            proof {
                reveal_strlit("output");
            }
        },
        Token::Const => {
            out.append("const");
            proof {
                reveal_strlit("const");
            }
        },
        Token::Persistent => {
            out.append("persistent");
            proof {
                reveal_strlit("persistent");
            }
        },
        Token::Transient => {
            out.append("transient");
            proof {
                reveal_strlit("transient");
            }
        },
        Token::Snippet => {
            out.append("snippet");
            proof {
                reveal_strlit("snippet");
            }
        },
        Token::BooleanAnd => {
            out.append("and");
            proof {
                reveal_strlit("and");
            }
        },
        Token::BooleanOr => {
            out.append("or");
            proof {
                reveal_strlit("or");
            }
        },
        Token::BooleanNot => {
            out.append("not");
            proof {
                reveal_strlit("not");
            }
        },
        Token::Bit => {
            out.append("bit");
            proof {
                reveal_strlit("bit");
            }
        },
        Token::Static => {
            out.append("static");
            proof {
                reveal_strlit("static");
            }
        },
        Token::Colon => {
            out.append(":");
            proof {
                reveal_strlit(":");
            }
        },
        Token::SemiColon => {
            out.append(";");
            proof {
                reveal_strlit(";");
            }
        },
        Token::Comma => {
            out.append(",");
            proof {
                reveal_strlit(",");
            }
        },
        Token::Arrow => {
            out.append("->");
            proof {
                reveal_strlit("->");
            }
        },
        Token::ParenLeft => {
            out.append("(");
            proof {
                reveal_strlit("(");
            }
        },
        Token::ParenRight => {
            out.append(")");
            proof {
                reveal_strlit(")");
            }
        },
        Token::BraceLeft => {
            out.append("{");
            proof {
                reveal_strlit("{");
            }
        },
        Token::BraceRight => {
            out.append("}");
            proof {
                reveal_strlit("}");
            }
        },
        Token::SquareLeft => {
            out.append("[");
            proof {
                reveal_strlit("[");
            }
        },
        Token::SquareRight => {
            out.append("]");
            proof {
                reveal_strlit("]");
            }
        },
        Token::Plus => {
            out.append("+");
            proof {
                reveal_strlit("+");
            }
        },
        Token::Minus => {
            out.append("-");
            proof {
                reveal_strlit("-");
            }
        },
        Token::Mul => {
            out.append("*");
            proof {
                reveal_strlit("*");
            }
        },
        Token::Div => {
            out.append("/");
            proof {
                reveal_strlit("/");
            }
        },
        Token::Modulo => {
            out.append("%");
            proof {
                reveal_strlit("%");
            }
        },
        Token::Cond => {
            out.append("?");
            proof {
                reveal_strlit("?");
            }
        },
        Token::Equal => {
            out.append("==");
            proof {
                reveal_strlit("==");
            }
        },
        Token::NotEqual => {
            out.append("!=");
            proof {
                reveal_strlit("!=");
            }
        },
        Token::LTEQOp => {
            out.append("<=");
            proof {
                reveal_strlit("<=");
            }
        },
        Token::GTEQOp => {
            out.append(">=");
            proof {
                reveal_strlit(">=");
            }
        },
        Token::LessThan => {
            out.append("<");
            proof {
                reveal_strlit("<");
            }
        },
        Token::GreaterThan => {
            out.append(">");
            proof {
                reveal_strlit(">");
            }
        },
        Token::Assign => {
            out.append("=");
            proof {
                reveal_strlit("=");
            }
        },
        Token::Packet => {
            out.append("packet");
            proof {
                reveal_strlit("packet");
            }
        },
        Token::Field => {
            out.append("field");
            proof {
                reveal_strlit("field");
            }
        },
        Token::Global => {
            out.append("global");
            proof {
                reveal_strlit("global");
            }
        },
        Token::If => {
            out.append("if");
            proof {
                reveal_strlit("if");
            }
        },
        Token::Else => {
            out.append("else");
            proof {
                reveal_strlit("else");
            }
        },
        Token::Dot => {
            out.append(".");
            proof {
                reveal_strlit(".");
            }
        },
        Token::Annotation => {
            out.append("@");
            proof {
                reveal_strlit("@");
            }
        },
    }
    assert(out@ =~= before + token_text(t@));
    out.append(" ");
    proof {
        reveal_strlit(" ");
    }
    assert(out@ =~= before + token_text(t@) + seq![' ']);
}

/// The text of a token sequence: each token's text followed by one space.
pub fn render_tokens(ts: &Vec<Token>) -> (s: String)
    ensures s@ == render(tokens_view(ts@)),
{
    let mut s = String::new();
    let mut i: usize = 0;
    while i < ts.len()
        invariant
            i <= ts@.len(),
            s@ == render(tokens_view(ts@.subrange(0, i as int))),
        decreases ts@.len() - i,
    {
        append_token(&mut s, &ts[i]);
        assert(tokens_view(ts@.subrange(0, i + 1)).drop_last() =~= tokens_view(ts@.subrange(0, i as int)));
        i = i + 1;
    }
    assert(ts@.subrange(0, i as int) =~= ts@);
    s
}

// ---------------------------------------------------------------------------------------------
// Reading rendered tokens back
// ---------------------------------------------------------------------------------------------

/// A token that the lexer reads back from its text: an identifier must be a word that is no
/// keyword; the `field` qualifier has no spelling of its own.
pub open spec fn lexable(t: SpecToken) -> bool {
    match t {
        SpecToken::Identifier(n) => n.len() > 0 && is_word_start(n[0])
            && (forall|i: int| 0 <= i < n.len() ==> #[trigger] is_word_char(n[i])) && keyword(n) is None,
        SpecToken::Field => false,
        _ => true,
    }
}

proof fn lemma_render_append(a: Seq<SpecToken>, b: Seq<SpecToken>)
    ensures render(a + b) == render(a) + render(b),
    decreases b.len(),
{
    if b.len() == 0 {
        assert(a + b =~= a);
        assert(render(a) + render(b) =~= render(a));
    } else {
        lemma_render_append(a, b.drop_last());
        assert((a + b).drop_last() =~= a + b.drop_last());
        assert((a + b).last() == b.last());
        assert(render(a + b) =~= render(a) + render(b));
    }
}

proof fn lemma_digit_value(d: nat)
    requires d < 10,
    ensures
        digit_value(crate::grammar::digit_char(d)) == d,
        is_digit(crate::grammar::digit_char(d)),
{
    let c = crate::grammar::digit_char(d);
    assert(c as nat == '0' as nat + d);
}

proof fn lemma_decimal_string_digits(n: nat)
    ensures
        decimal_string(n).len() > 0,
        forall|i: int| 0 <= i < decimal_string(n).len() ==> is_digit(#[trigger] decimal_string(n)[i]),
        decimal(decimal_string(n)) == n,
    decreases n,
{
    if n < 10 {
        lemma_digit_value(n);
        assert(decimal_string(n) =~= seq![crate::grammar::digit_char(n)]);
        assert(decimal_string(n).drop_last() =~= Seq::<char>::empty());
        assert(decimal(decimal_string(n).drop_last()) == 0);
    } else {
        lemma_decimal_string_digits(n / 10);
        lemma_digit_value(n % 10);
        let d = decimal_string(n);
        assert(d.drop_last() =~= decimal_string(n / 10));
        assert(d.last() == crate::grammar::digit_char(n % 10));
        assert(10 * (n / 10) + n % 10 == n);
        assert forall|i: int| 0 <= i < d.len() implies is_digit(#[trigger] d[i]) by {
            if i < d.len() - 1 {
                assert(d[i] == decimal_string(n / 10)[i]);
            }
        }
    }
}

proof fn lemma_word_end_at(s: Seq<char>, j: int, m: int)
    requires
        0 <= j,
        j + m < s.len(),
        0 <= m,
        forall|i: int| j <= i < j + m ==> is_word_char(#[trigger] s[i]),
        !is_word_char(s[j + m]),
    ensures word_end(s, j) == j + m,
    decreases m,
{
    if m > 0 {
        lemma_word_end_at(s, j + 1, m - 1);
    }
}

proof fn lemma_digits_end_at(s: Seq<char>, j: int, m: int)
    requires
        0 <= j,
        j + m < s.len(),
        0 <= m,
        forall|i: int| j <= i < j + m ==> is_digit(#[trigger] s[i]),
        !is_digit(s[j + m]),
    ensures digits_end(s, j) == j + m,
    decreases m,
{
    if m > 0 {
        lemma_digits_end_at(s, j + 1, m - 1);
    }
}

/// A word of letters followed by a blank is read as `word_token` of the word.
proof fn lemma_scan_word(s: Seq<char>, j: int, w: Seq<char>)
    requires
        0 <= j,
        j + w.len() < s.len(),
        w.len() > 0,
        s.subrange(j, j + w.len()) == w,
        s[j + w.len()] == ' ',
        is_word_start(w[0]),
        forall|i: int| 0 <= i < w.len() ==> #[trigger] is_word_char(w[i]),
    ensures
        scan(s, j) == Ok::<(SpecToken, int), LexError>((word_token(w), j + w.len())),
{
    assert(s[j] == w[0]);
    assert forall|i: int| j <= i < j + w.len() implies is_word_char(#[trigger] s[i]) by {
        assert(s[i] == w[i - j]);
    }
    lemma_word_end_at(s, j, w.len() as int);
}

/// The text of a lexable token, followed by a blank, is read as the token.
proof fn lemma_scan_token(s: Seq<char>, j: int, t: SpecToken)
    requires
        0 <= j,
        lexable(t),
        j + token_text(t).len() < s.len(),
        s.subrange(j, j + token_text(t).len()) == token_text(t),
        s[j + token_text(t).len()] == ' ',
    ensures
        token_text(t).len() > 0,
        !is_ws(s[j]),
        scan(s, j) == Ok::<(SpecToken, int), LexError>((t, j + token_text(t).len())),
{
    let w = token_text(t);
    match t {
        SpecToken::Identifier(n) => {
            assert(s[j] == w[0]);
            lemma_scan_word(s, j, w);
        },
        SpecToken::Value(v) => {
            lemma_decimal_string_digits(v as nat);
            assert(s[j] == w[0]);
            assert forall|i: int| j <= i < j + w.len() implies is_digit(#[trigger] s[i]) by {
                assert(s[i] == w[i - j]);
            }
            lemma_digits_end_at(s, j, w.len() as int);
            assert(s.subrange(j, digits_end(s, j)) == w);
        },
        SpecToken::Input | SpecToken::Output | SpecToken::Const | SpecToken::Persistent | SpecToken::Transient
        | SpecToken::Snippet | SpecToken::BooleanAnd | SpecToken::BooleanOr | SpecToken::BooleanNot | SpecToken::Bit
        | SpecToken::Static | SpecToken::Packet | SpecToken::Global | SpecToken::If | SpecToken::Else => {
            assert(s[j] == w[0]);
            assert(keyword(w) == Some(t));
            lemma_scan_word(s, j, w);
        },
        SpecToken::Field => {},
        _ => {
            assert(s[j] == w[0]);
            if w.len() == 2 {
                assert(s[j + 1] == w[1]);
            } else {
                assert(s[j + 1] == ' ');
            }
        },
    }
}

proof fn lemma_skip_one_blank(s: Seq<char>, i: int)
    requires
        0 <= i < s.len(),
        s[i] == ' ',
        i + 1 < s.len() ==> !is_ws(s[i + 1]),
    ensures skip_ws(s, i) == i + 1,
{
    if i + 1 < s.len() {
        assert(skip_ws(s, i + 1) == i + 1);
    } else {
        assert(skip_ws(s, i + 1) == i + 1);
    }
}

proof fn lemma_render_single(t: SpecToken)
    ensures render(seq![t]) == token_text(t) + seq![' '],
{
    let one = seq![t];
    assert(one.drop_last() =~= Seq::<SpecToken>::empty());
    assert(one.last() == t);
    assert(render(one.drop_last()) =~= Seq::<char>::empty());
    assert(render(one) =~= token_text(t) + seq![' ']);
}

/// Where the text of token `k` lies in the text of `ts`: just after the text of the tokens
/// before it, and followed by a blank.
proof fn lemma_render_layout(ts: Seq<SpecToken>, k: int)
    requires 0 <= k < ts.len(),
    ensures
        ({
            let s = render(ts);
            let pk = render(ts.subrange(0, k)).len() as int;
            let w = token_text(ts[k]);
            &&& pk + w.len() < s.len()
            &&& s.subrange(pk, pk + w.len()) == w
            &&& s[pk + w.len()] == ' '
            &&& render(ts.subrange(0, k + 1)).len() == pk + w.len() + 1
        }),
{
    let n = ts.len() as int;
    let t = ts[k];
    let w = token_text(t);
    let rest = ts.subrange(k + 1, n);
    lemma_render_append(ts.subrange(0, k + 1), rest);
    assert(ts.subrange(0, k + 1) + rest =~= ts);
    lemma_render_append(ts.subrange(0, k), seq![t]);
    assert(ts.subrange(0, k) + seq![t] =~= ts.subrange(0, k + 1));
    lemma_render_single(t);
    let pre = render(ts.subrange(0, k));
    let s = render(ts);
    assert(s =~= pre + w + seq![' '] + render(rest));
    assert(s.subrange(pre.len() as int, (pre.len() + w.len()) as int) =~= w);
}

/// The tokens read from the text of `ts` at the position where the text of token `k` starts
/// are the tokens from `k` on.
proof fn lemma_lex_render_from(ts: Seq<SpecToken>, k: int)
    requires
        0 <= k <= ts.len(),
        forall|i: int| 0 <= i < ts.len() ==> lexable(#[trigger] ts[i]),
    ensures
        lex_from(render(ts), render(ts.subrange(0, k)).len() as int) == Ok::<Seq<SpecToken>, LexError>(ts.subrange(k, ts.len() as int)),
    decreases ts.len() - k,
{
    let s = render(ts);
    let n = ts.len() as int;
    let pk = render(ts.subrange(0, k)).len() as int;
    if k == n {
        assert(ts.subrange(0, k) =~= ts);
        lemma_skip_ws_bounds(s, pk);
        assert(ts.subrange(k, n) =~= Seq::<SpecToken>::empty());
    } else {
        let t = ts[k];
        let w = token_text(t);
        lemma_render_layout(ts, k);
        lemma_scan_token(s, pk, t);
        lemma_skip_ws_bounds(s, pk);
        let pk1 = render(ts.subrange(0, k + 1)).len() as int;
        lemma_lex_render_from(ts, k + 1);
        if k + 1 < n {
            lemma_render_layout(ts, k + 1);
            lemma_scan_token(s, pk1, ts[k + 1]);
        } else {
            assert(ts.subrange(0, k + 1) =~= ts);
        }
        lemma_skip_one_blank(s, pk + w.len());
        lemma_skip_ws_bounds(s, pk1);
        assert(lex_from(s, pk + w.len()) == lex_from(s, pk1));
        assert(ts.subrange(k, n) =~= seq![t] + ts.subrange(k + 1, n));
    }
}

/// Reading back the text of lexable tokens gives the tokens: `lex(render(ts)) == Ok(ts)`.
pub proof fn lemma_lex_render(ts: Seq<SpecToken>)
    requires
        forall|i: int| 0 <= i < ts.len() ==> lexable(#[trigger] ts[i]),
    ensures
        lex(render(ts)) == Ok::<Seq<SpecToken>, LexError>(ts),
{
    lemma_lex_render_from(ts, 0);
    assert(ts.subrange(0, 0) =~= Seq::<SpecToken>::empty());
    assert(ts.subrange(0, ts.len() as int) =~= ts);
}

} // verus!
