//! The query-language lexer: a character-driven tokeniser producing
//! keywords, punctuation and comparators, bare words, digit runs, and
//! double-quoted strings with `\"` escapes.
//!
//! `next_token` is the specification: given the input characters and a
//! position, it names the next token, its source span, and the position
//! after it. The executable `TokenIterator` follows it exactly and stops
//! at the first error.

use vstd::prelude::*;
use crate::numtext::is_dec_digit;
use crate::text::{chars_to_string, str_to_chars};

verus! {

/// Lexer errors, surfaced verbatim through the parser.
#[derive(Debug, Clone, Copy, PartialEq, Eq, Structural)]
pub enum LexingError {
    InvalidSyntax,
    UnexpectedEndOfInput,
    UnexpectedCharacter(char),
    InvalidEscapeCharacter(char),
}

#[derive(Debug, Clone, Copy, PartialEq, Eq, Structural)]
pub enum KeywordToken {
    Select,
    From,
    Where,
    As,
}

#[derive(Debug, Clone, Copy, PartialEq, Eq, Structural)]
pub enum CharacterToken {
    LeftParen,
    RightParen,
    LeftBracket,
    RightBracket,
    Dot,
    Comma,
    GreaterThan,
    GreaterEqual,
    LessThan,
    LessEqual,
    EqualEqual,
    NotEqual,
}

/// A lexed token. `String` holds a bare word or a quoted-string body (the
/// quotes are not included); `Number` holds a digit run.
#[derive(Debug)]
pub enum QueryToken {
    Character(CharacterToken),
    Keyword(KeywordToken),
    String(String),
    Number(String),
}

/// The mathematical form of a token.
pub enum SpecToken {
    Character(CharacterToken),
    Keyword(KeywordToken),
    Str(Seq<char>),
    Num(Seq<char>),
}

impl View for QueryToken {
    type V = SpecToken;

    open spec fn view(&self) -> SpecToken {
        match self {
            QueryToken::Character(c) => SpecToken::Character(*c),
            QueryToken::Keyword(k) => SpecToken::Keyword(*k),
            QueryToken::String(s) => SpecToken::Str(s@),
            QueryToken::Number(s) => SpecToken::Num(s@),
        }
    }
}

impl QueryToken {
    /// A structural copy.
    pub fn duplicate(&self) -> (r: QueryToken)
        ensures
            r@ == self@,
    {
        match self {
            QueryToken::Character(c) => QueryToken::Character(*c),
            QueryToken::Keyword(k) => QueryToken::Keyword(*k),
            QueryToken::String(s) => QueryToken::String(s.clone()),
            QueryToken::Number(s) => QueryToken::Number(s.clone()),
        }
    }
}

// ---------------------------------------------------------------------------
// character classes (ASCII)
pub open spec fn is_space_char(c: char) -> bool {
    c == ' ' || c == '\t' || c == '\n' || c == '\r'
}

pub open spec fn is_alpha_char(c: char) -> bool {
    ('a' <= c && c <= 'z') || ('A' <= c && c <= 'Z')
}

/// Characters allowed after the first in a bare word.
pub open spec fn is_word_char(c: char) -> bool {
    is_alpha_char(c) || is_dec_digit(c) || c == '_'
}

pub fn space_char(c: char) -> (r: bool)
    ensures
        r == is_space_char(c),
{
    c == ' ' || c == '\t' || c == '\n' || c == '\r'
}

pub fn alpha_char(c: char) -> (r: bool)
    ensures
        r == is_alpha_char(c),
{
    ('a' <= c && c <= 'z') || ('A' <= c && c <= 'Z')
}

pub fn word_char(c: char) -> (r: bool)
    ensures
        r == is_word_char(c),
{
    alpha_char(c) || ('0' <= c && c <= '9') || c == '_'
}

pub fn dec_digit_char(c: char) -> (r: bool)
    ensures
        r == is_dec_digit(c),
{
    '0' <= c && c <= '9'
}

// ---------------------------------------------------------------------------
// the specification lexer
/// First position at or after `i` holding a non-space character.
pub open spec fn skip_ws(s: Seq<char>, i: int) -> int
    decreases s.len() - i,
{
    if 0 <= i < s.len() && is_space_char(s[i]) {
        skip_ws(s, i + 1)
    } else {
        i
    }
}

/// End of the maximal word-character run starting at `i`.
pub open spec fn word_end(s: Seq<char>, i: int) -> int
    decreases s.len() - i,
{
    if 0 <= i < s.len() && is_word_char(s[i]) {
        word_end(s, i + 1)
    } else {
        i
    }
}

/// End of the maximal digit run starting at `i`.
pub open spec fn digits_end(s: Seq<char>, i: int) -> int
    decreases s.len() - i,
{
    if 0 <= i < s.len() && is_dec_digit(s[i]) {
        digits_end(s, i + 1)
    } else {
        i
    }
}

pub open spec fn kw_chars(k: KeywordToken) -> Seq<char> {
    match k {
        KeywordToken::Select => seq!['s', 'e', 'l', 'e', 'c', 't'],
        KeywordToken::From => seq!['f', 'r', 'o', 'm'],
        KeywordToken::Where => seq!['w', 'h', 'e', 'r', 'e'],
        KeywordToken::As => seq!['a', 's'],
    }
}

/// Keyword matching is exact, case-sensitive and lowercase.
pub open spec fn keyword_of(w: Seq<char>) -> Option<KeywordToken> {
    if w == kw_chars(KeywordToken::Select) {
        Some(KeywordToken::Select)
    } else if w == kw_chars(KeywordToken::From) {
        Some(KeywordToken::From)
    } else if w == kw_chars(KeywordToken::Where) {
        Some(KeywordToken::Where)
    } else if w == kw_chars(KeywordToken::As) {
        Some(KeywordToken::As)
    } else {
        None
    }
}

/// Scan a double-quoted string body from just after the opening quote:
/// yields the body (escapes resolved) and the position after the closing
/// quote. Only `\"` is a recognised escape.
pub open spec fn scan_string(s: Seq<char>, i: int) -> Result<(Seq<char>, int), LexingError>
    decreases s.len() - i,
{
    if i < 0 {
        Err(LexingError::InvalidSyntax)
    } else if i >= s.len() {
        Err(LexingError::UnexpectedEndOfInput)
    } else if s[i] == '"' {
        Ok((Seq::empty(), i + 1))
    } else if s[i] == '\\' {
        if i + 1 >= s.len() {
            Err(LexingError::UnexpectedEndOfInput)
        } else if s[i + 1] == '"' {
            match scan_string(s, i + 2) {
                Ok((c, e)) => Ok((seq!['"'] + c, e)),
                Err(x) => Err(x),
            }
        } else {
            Err(LexingError::InvalidEscapeCharacter(s[i + 1]))
        }
    } else {
        match scan_string(s, i + 1) {
            Ok((c, e)) => Ok((seq![s[i]] + c, e)),
            Err(x) => Err(x),
        }
    }
}

/// The token starting exactly at the non-space position `i`, and the
/// position after it.
pub open spec fn token_at(s: Seq<char>, i: int) -> Result<(SpecToken, int), LexingError>
    recommends
        0 <= i < s.len(),
{
    let c = s[i];
    if is_alpha_char(c) {
        let e = word_end(s, i);
        let w = s.subrange(i, e);
        match keyword_of(w) {
            Some(k) => Ok((SpecToken::Keyword(k), e)),
            None => Ok((SpecToken::Str(w), e)),
        }
    } else if is_dec_digit(c) {
        let e = digits_end(s, i);
        Ok((SpecToken::Num(s.subrange(i, e)), e))
    } else if c == '"' {
        match scan_string(s, i + 1) {
            Ok((content, e)) => Ok((SpecToken::Str(content), e)),
            Err(x) => Err(x),
        }
    } else if c == '(' {
        Ok((SpecToken::Character(CharacterToken::LeftParen), i + 1))
    } else if c == ')' {
        Ok((SpecToken::Character(CharacterToken::RightParen), i + 1))
    } else if c == '[' {
        Ok((SpecToken::Character(CharacterToken::LeftBracket), i + 1))
    } else if c == ']' {
        Ok((SpecToken::Character(CharacterToken::RightBracket), i + 1))
    } else if c == '.' {
        Ok((SpecToken::Character(CharacterToken::Dot), i + 1))
    } else if c == ',' {
        Ok((SpecToken::Character(CharacterToken::Comma), i + 1))
    } else if c == '=' || c == '!' || c == '<' || c == '>' {
        if i + 1 < s.len() && s[i + 1] == '=' {
            let t = if c == '=' {
                CharacterToken::EqualEqual
            } else if c == '!' {
                CharacterToken::NotEqual
            } else if c == '<' {
                CharacterToken::LessEqual
            } else {
                CharacterToken::GreaterEqual
            };
            Ok((SpecToken::Character(t), i + 2))
        } else if c == '<' {
            Ok((SpecToken::Character(CharacterToken::LessThan), i + 1))
        } else if c == '>' {
            Ok((SpecToken::Character(CharacterToken::GreaterThan), i + 1))
        } else {
            Err(LexingError::UnexpectedCharacter(c))
        }
    } else {
        Err(LexingError::UnexpectedCharacter(c))
    }
}

/// The next token at or after position `i`: `None` at end of input, or the
/// token, its source span `[start, end)`, and `end` as the next position.
pub open spec fn next_token(s: Seq<char>, i: int) -> Option<
    Result<(SpecToken, int, int), LexingError>,
> {
    let j = skip_ws(s, i);
    if j >= s.len() {
        None
    } else {
        match token_at(s, j) {
            Ok((t, e)) => Some(Ok((t, j, e))),
            Err(x) => Some(Err(x)),
        }
    }
}

// ---------------------------------------------------------------------------
// characterizations of the scanning functions
pub proof fn lemma_skip_ws_bounds(s: Seq<char>, i: int)
    requires
        0 <= i <= s.len(),
    ensures
        i <= skip_ws(s, i) <= s.len(),
        forall|j: int| i <= j < skip_ws(s, i) ==> is_space_char(s[j]),
        skip_ws(s, i) < s.len() ==> !is_space_char(s[skip_ws(s, i)]),
    decreases s.len() - i,
{
    if 0 <= i < s.len() && is_space_char(s[i]) {
        lemma_skip_ws_bounds(s, i + 1);
    }
}

/// `skip_ws` is the only position reachable by skipping spaces.
pub proof fn lemma_skip_ws_char(s: Seq<char>, i: int, k: int)
    requires
        0 <= i <= k <= s.len(),
        forall|j: int| i <= j < k ==> is_space_char(s[j]),
        k < s.len() ==> !is_space_char(s[k]),
    ensures
        skip_ws(s, i) == k,
    decreases k - i,
{
    if i < k {
        lemma_skip_ws_char(s, i + 1, k);
    }
}

pub proof fn lemma_word_end_bounds(s: Seq<char>, i: int)
    requires
        0 <= i <= s.len(),
    ensures
        i <= word_end(s, i) <= s.len(),
        forall|j: int| i <= j < word_end(s, i) ==> is_word_char(s[j]),
        word_end(s, i) < s.len() ==> !is_word_char(s[word_end(s, i)]),
    decreases s.len() - i,
{
    if 0 <= i < s.len() && is_word_char(s[i]) {
        lemma_word_end_bounds(s, i + 1);
    }
}

pub proof fn lemma_word_end_char(s: Seq<char>, i: int, k: int)
    requires
        0 <= i <= k <= s.len(),
        forall|j: int| i <= j < k ==> is_word_char(s[j]),
        k < s.len() ==> !is_word_char(s[k]),
    ensures
        word_end(s, i) == k,
    decreases k - i,
{
    if i < k {
        lemma_word_end_char(s, i + 1, k);
    }
}

pub proof fn lemma_digits_end_bounds(s: Seq<char>, i: int)
    requires
        0 <= i <= s.len(),
    ensures
        i <= digits_end(s, i) <= s.len(),
        forall|j: int| i <= j < digits_end(s, i) ==> is_dec_digit(s[j]),
        digits_end(s, i) < s.len() ==> !is_dec_digit(s[digits_end(s, i)]),
    decreases s.len() - i,
{
    if 0 <= i < s.len() && is_dec_digit(s[i]) {
        lemma_digits_end_bounds(s, i + 1);
    }
}

pub proof fn lemma_digits_end_char(s: Seq<char>, i: int, k: int)
    requires
        0 <= i <= k <= s.len(),
        forall|j: int| i <= j < k ==> is_dec_digit(s[j]),
        k < s.len() ==> !is_dec_digit(s[k]),
    ensures
        digits_end(s, i) == k,
    decreases k - i,
{
    if i < k {
        lemma_digits_end_char(s, i + 1, k);
    }
}

pub proof fn lemma_scan_string_bounds(s: Seq<char>, i: int)
    requires
        0 <= i <= s.len(),
    ensures
        scan_string(s, i) matches Ok(p) ==> i < p.1 <= s.len(),
    decreases s.len() - i,
{
    if i < s.len() && s[i] != '"' {
        if s[i] == '\\' {
            if i + 1 < s.len() && s[i + 1] == '"' {
                lemma_scan_string_bounds(s, i + 2);
            }
        } else {
            lemma_scan_string_bounds(s, i + 1);
        }
    }
}

/// Every token consumes at least one character and stays inside the input.
pub proof fn lemma_token_at_bounds(s: Seq<char>, i: int)
    requires
        0 <= i < s.len(),
    ensures
        token_at(s, i) matches Ok(p) ==> i < p.1 <= s.len(),
{
    let c = s[i];
    if is_alpha_char(c) {
        lemma_word_end_bounds(s, i);
        assert(word_end(s, i) > i) by {
            if word_end(s, i) == i {
                assert(!is_word_char(s[i]));
            }
        }
    } else if is_dec_digit(c) {
        lemma_digits_end_bounds(s, i);
        assert(digits_end(s, i) > i) by {
            if digits_end(s, i) == i {
                assert(!is_dec_digit(s[i]));
            }
        }
    } else if c == '"' {
        lemma_scan_string_bounds(s, i + 1);
    }
}

// ---------------------------------------------------------------------------
// lexing a whole input, and the lexer's laws
/// All tokens from position `i` on, each with its source span `[start, end)`;
/// an error anywhere makes the whole result that error.
pub open spec fn lex_from(s: Seq<char>, i: int) -> Result<
    Seq<(SpecToken, int, int)>,
    LexingError,
>
    recommends
        0 <= i <= s.len(),
    decreases s.len() - i,
{
    if !(0 <= i <= s.len()) {
        Err(LexingError::InvalidSyntax)
    } else {
        let j = skip_ws(s, i);
        if j >= s.len() {
            Ok(Seq::empty())
        } else {
            match token_at(s, j) {
                Ok((t, e)) => {
                    proof {
                        lemma_skip_ws_bounds(s, i);
                        lemma_token_at_bounds(s, j);
                    }
                    match lex_from(s, e) {
                        Ok(rest) => Ok(seq![(t, j, e)] + rest),
                        Err(x) => Err(x),
                    }
                },
                Err(x) => Err(x),
            }
        }
    }
}

/// Token spans law: on a lex-successful input every token's span lies
/// inside the input, each span is non-empty, and the spans are disjoint and
/// in order.
pub proof fn lemma_lex_spans(s: Seq<char>, i: int)
    requires
        0 <= i <= s.len(),
    ensures
        lex_from(s, i) matches Ok(toks) ==> forall|k: int|
            0 <= k < toks.len() ==> (i <= (#[trigger] toks[k]).1 && toks[k].1 < toks[k].2
                && toks[k].2 <= s.len() && (k + 1 < toks.len() ==> toks[k].2 <= toks[k + 1].1)),
    decreases s.len() - i,
{
    let j = skip_ws(s, i);
    lemma_skip_ws_bounds(s, i);
    if j < s.len() {
        match token_at(s, j) {
            Ok((t, e)) => {
                lemma_token_at_bounds(s, j);
                lemma_lex_spans(s, e);
                match lex_from(s, e) {
                    Ok(rest) => {
                        let toks = seq![(t, j, e)] + rest;
                        assert(lex_from(s, i) == Ok::<Seq<(SpecToken, int, int)>, LexingError>(
                            toks,
                        ));
                        assert forall|k: int|
                            0 <= k < toks.len() implies (i <= (#[trigger] toks[k]).1 && toks[k].1
                            < toks[k].2 && toks[k].2 <= s.len() && (k + 1 < toks.len()
                            ==> toks[k].2 <= toks[k + 1].1)) by {
                            if k == 0 {
                                if 1 < toks.len() {
                                    assert(toks[1] == rest[0]);
                                }
                            } else {
                                assert(toks[k] == rest[k - 1]);
                                if k + 1 < toks.len() {
                                    assert(toks[k + 1] == rest[k]);
                                }
                            }
                        }
                    },
                    Err(_) => {
                    },
                }
            },
            Err(_) => {
            },
        }
    }
}

/// Shifting a successful quoted-string scan into the window that holds it.
proof fn lemma_scan_shift(s: Seq<char>, a: int, b: int, i: int)
    requires
        0 <= a <= i <= s.len(),
        a <= b <= s.len(),
        scan_string(s, i) matches Ok(p) && p.1 <= b,
    ensures
        scan_string(s.subrange(a, b), i - a) == Ok::<(Seq<char>, int), LexingError>(
            (scan_string(s, i)->Ok_0.0, scan_string(s, i)->Ok_0.1 - a),
        ),
    decreases s.len() - i,
{
    let sub = s.subrange(a, b);
    lemma_scan_string_bounds(s, i);
    assert(i < scan_string(s, i)->Ok_0.1);
    assert(sub[i - a] == s[i]);
    if s[i] == '"' {
    } else if s[i] == '\\' {
        assert(i + 1 < s.len());
        lemma_scan_string_bounds(s, i + 2);
        assert(sub[i - a + 1] == s[i + 1]);
        lemma_scan_shift(s, a, b, i + 2);
    } else {
        lemma_scan_string_bounds(s, i + 1);
        lemma_scan_shift(s, a, b, i + 1);
    }
}

/// Re-lexing a token's own source yields exactly that token once: the
/// lexer is idempotent on token sources.
pub proof fn lemma_relex_token(s: Seq<char>, i: int)
    requires
        0 <= i <= s.len(),
        next_token(s, i) matches Some(r) && r is Ok,
    ensures
        ({
            let (t, st, e) = next_token(s, i)->Some_0->Ok_0;
            lex_from(s.subrange(st, e), 0) == Ok::<Seq<(SpecToken, int, int)>, LexingError>(
                seq![(t, 0, e - st)],
            )
        }),
{
    let j = skip_ws(s, i);
    lemma_skip_ws_bounds(s, i);
    let (t, e) = token_at(s, j)->Ok_0;
    lemma_token_at_bounds(s, j);
    let sub = s.subrange(j, e);
    let c = s[j];
    assert(sub[0] == c);
    assert(forall|x: int| 0 <= x < sub.len() ==> #[trigger] sub[x] == s[j + x]);
    // the first character of a token is never whitespace
    assert(!is_space_char(c));
    lemma_skip_ws_char(sub, 0, 0);
    // the token reads the same at the start of its own source
    if is_alpha_char(c) {
        lemma_word_end_bounds(s, j);
        assert(e == word_end(s, j));
        lemma_word_end_char(sub, 0, e - j);
        assert(sub.subrange(0, e - j) =~= s.subrange(j, e));
    } else if is_dec_digit(c) {
        lemma_digits_end_bounds(s, j);
        lemma_digits_end_char(sub, 0, e - j);
        assert(sub.subrange(0, e - j) =~= s.subrange(j, e));
    } else if c == '"' {
        lemma_scan_shift(s, j, e, j + 1);
    } else if c == '=' || c == '!' || c == '<' || c == '>' {
        if j + 1 < s.len() && s[j + 1] == '=' {
            assert(sub.len() == 2 && sub[1] == '=');
        } else {
            assert(sub.len() == 1);
        }
    } else {
        assert(sub.len() == 1);
    }
    assert(token_at(sub, 0) == Ok::<(SpecToken, int), LexingError>((t, e - j)));
    // nothing follows the token inside its own span
    assert(skip_ws(sub, e - j) == e - j);
    assert(lex_from(sub, e - j) == Ok::<Seq<(SpecToken, int, int)>, LexingError>(Seq::empty()));
    assert(seq![(t, 0, e - j)] + Seq::<(SpecToken, int, int)>::empty() =~= seq![(t, 0, e - j)]);
}

// ---------------------------------------------------------------------------
// the executable lexer
/// A lazy tokeniser over the input characters; after the first error it
/// yields nothing more.
#[derive(Debug)]
pub struct TokenIterator {
    pub token_string: Vec<char>,
    pub index: usize,
    pub err: Option<LexingError>,
}

impl TokenIterator {
    /// The lexer's well-formedness: the position stays inside the input.
    pub open spec fn inv(&self) -> bool {
        self.index <= self.token_string@.len()
    }

    pub fn new(token_string: &str) -> (r: TokenIterator)
        ensures
            r.token_string@ == token_string@,
            r.index == 0,
            r.err is None,
            r.inv(),
    {
        TokenIterator { token_string: str_to_chars(token_string), index: 0, err: None }
    }

    /// The character at the current position, if any.
    pub fn current_char(&self) -> (r: Option<char>)
        requires
            self.inv(),
        ensures
            self.index < self.token_string@.len() ==> r == Some(self.token_string@[self.index as int]),
            self.index >= self.token_string@.len() ==> r is None,
    {
        if self.index < self.token_string.len() {
            Some(self.token_string[self.index])
        } else {
            None
        }
    }

    /// How many characters are left.
    pub fn chars_left(&self) -> (r: usize)
        requires
            self.inv(),
        ensures
            r == self.token_string@.len() - self.index,
    {
        self.token_string.len() - self.index
    }

    /// Move past the current run of whitespace.
    #[verifier::loop_isolation(false)]
    fn advance_while_space(&mut self)
        requires
            old(self).inv(),
        ensures
            final(self).inv(),
            final(self).token_string@ == old(self).token_string@,
            final(self).err == old(self).err,
            final(self).index == skip_ws(old(self).token_string@, old(self).index as int),
    {
        let ghost s = self.token_string@;
        let ghost i0 = self.index as int;
        let ghost err0 = self.err;
        let n = self.token_string.len();
        while self.index < n && space_char(self.token_string[self.index])
            invariant
                self.inv(),
                n == s.len(),
                self.token_string@ == s,
                self.err == err0,
                skip_ws(s, i0) == skip_ws(s, self.index as int),
                i0 <= self.index as int,
            decreases n - self.index,
        {
            self.index = self.index + 1;
        }
    }

    /// End of the maximal word run from the current position.
    #[verifier::loop_isolation(false)]
    fn find_word_end(&self) -> (e: usize)
        requires
            self.inv(),
        ensures
            e == word_end(self.token_string@, self.index as int),
            self.index <= e <= self.token_string@.len(),
    {
        let ghost s = self.token_string@;
        let n = self.token_string.len();
        let mut e: usize = self.index;
        while e < n && word_char(self.token_string[e])
            invariant
                self.index <= e <= n,
                n == s.len(),
                s == self.token_string@,
                word_end(s, self.index as int) == word_end(s, e as int),
            decreases n - e,
        {
            e = e + 1;
        }
        e
    }

    /// End of the maximal digit run from the current position.
    #[verifier::loop_isolation(false)]
    fn find_digits_end(&self) -> (e: usize)
        requires
            self.inv(),
        ensures
            e == digits_end(self.token_string@, self.index as int),
            self.index <= e <= self.token_string@.len(),
    {
        let ghost s = self.token_string@;
        let n = self.token_string.len();
        let mut e: usize = self.index;
        while e < n && dec_digit_char(self.token_string[e])
            invariant
                self.index <= e <= n,
                n == s.len(),
                s == self.token_string@,
                digits_end(s, self.index as int) == digits_end(s, e as int),
            decreases n - e,
        {
            e = e + 1;
        }
        e
    }

    /// Consume a quoted-string body from just after the opening quote.
    #[verifier::loop_isolation(false)]
    fn consume_in_string(&mut self) -> (r: Result<QueryToken, LexingError>)
        requires
            old(self).inv(),
        ensures
            final(self).inv(),
            final(self).token_string@ == old(self).token_string@,
            final(self).err == old(self).err,
            match scan_string(old(self).token_string@, old(self).index as int) {
                Ok((content, e)) => r matches Ok(t) && (t@ matches SpecToken::Str(w) && w
                    == content) && final(self).index == e,
                Err(x) => r == Err::<QueryToken, LexingError>(x),
            },
    {
        let ghost s = self.token_string@;
        let ghost start = self.index as int;
        let n = self.token_string.len();
        let mut acc: Vec<char> = Vec::new();
        proof {
            let full = scan_string(s, start);
            match full {
                Ok(p) => {
                    assert(Seq::<char>::empty() + p.0 =~= p.0);
                },
                Err(_) => {
                },
            }
        }
        let ghost err0 = self.err;
        loop
            invariant
                self.inv(),
                n == s.len(),
                s == self.token_string@,
                self.err == err0,
                start <= self.index as int,
                ({
                    let full = scan_string(s, start);
                    let cur = scan_string(s, self.index as int);
                    match cur {
                        Ok((c, e)) => full == Ok::<(Seq<char>, int), LexingError>((acc@ + c, e)),
                        Err(x) => full == Err::<(Seq<char>, int), LexingError>(x),
                    }
                }),
            decreases n - self.index,
        {
            if self.index >= n {
                proof {
                    assert(scan_string(s, self.index as int) == Err::<
                        (Seq<char>, int),
                        LexingError,
                    >(LexingError::UnexpectedEndOfInput));
                }
                return Err(LexingError::UnexpectedEndOfInput);
            }
            let c = self.token_string[self.index];
            if c == '"' {
                let ghost here = self.index as int;
                self.index = self.index + 1;
                proof {
                    assert(scan_string(s, here) == Ok::<(Seq<char>, int), LexingError>((
                        Seq::empty(),
                        here + 1,
                    )));
                    assert(acc@ + Seq::<char>::empty() =~= acc@);
                }
                return Ok(QueryToken::String(chars_to_string(acc.as_slice())));
            } else if c == '\\' {
                if self.index + 1 >= n {
                    proof {
                        assert(scan_string(s, self.index as int) == Err::<
                            (Seq<char>, int),
                            LexingError,
                        >(LexingError::UnexpectedEndOfInput));
                    }
                    return Err(LexingError::UnexpectedEndOfInput);
                }
                let c2 = self.token_string[self.index + 1];
                if c2 == '"' {
                    let ghost before = self.index as int;
                    let ghost acc_pre = acc@;
                    acc.push('"');
                    self.index = self.index + 2;
                    proof {
                        assert(acc@.drop_last() =~= acc_pre);
                        lemma_scan_step(s, start, before, acc@, self.index as int);
                    }
                } else {
                    proof {
                        assert(scan_string(s, self.index as int) == Err::<
                            (Seq<char>, int),
                            LexingError,
                        >(LexingError::InvalidEscapeCharacter(s[self.index as int + 1])));
                    }
                    return Err(LexingError::InvalidEscapeCharacter(c2));
                }
            } else {
                let ghost before = self.index as int;
                let ghost acc_pre = acc@;
                acc.push(c);
                self.index = self.index + 1;
                proof {
                    assert(acc@.drop_last() =~= acc_pre);
                    lemma_scan_step(s, start, before, acc@, self.index as int);
                }
            }
        }
    }

    /// Record an error; the iterator yields nothing after it.
    fn set_err(&mut self, err: LexingError) -> (r: LexingError)
        ensures
            final(self).token_string@ == old(self).token_string@,
            final(self).index == old(self).index,
            final(self).err == Some(err),
            r == err,
    {
        self.err = Some(err);
        err
    }

    /// The next token, if any: follows `next_token` on the input, and stops
    /// for good once a token has been malformed.
    pub fn next(&mut self) -> (r: Option<Result<QueryToken, LexingError>>)
        requires
            old(self).inv(),
        ensures
            final(self).inv(),
            final(self).token_string@ == old(self).token_string@,
            match old(self).err {
                Some(_) => r is None && final(self).err == old(self).err,
                None => match next_token(old(self).token_string@, old(self).index as int) {
                    None => r is None && final(self).err is None,
                    Some(Ok((t, st, e))) => (r matches Some(tr) && tr matches Ok(tok) && tok@ == t)
                        && final(self).index == e && final(self).err is None,
                    Some(Err(x)) => r == Some(Err::<QueryToken, LexingError>(x))
                        && final(self).err == Some(x),
                },
            },
    {
        let ghost s = self.token_string@;
        if self.err.is_some() {
            return None;
        }
        self.advance_while_space();
        proof {
            lemma_skip_ws_bounds(s, old(self).index as int);
        }
        let n = self.token_string.len();
        if self.index >= n {
            return None;
        }
        let ghost j = self.index as int;
        let c = self.token_string[self.index];
        if alpha_char(c) {
            let e = self.find_word_end();
            let ws: &[char] = &self.token_string.as_slice()[self.index..e];
            proof {
                assert(ws@ =~= s.subrange(j, e as int));
            }
            let kw = keyword_of_chars(ws);
            let w = chars_to_string(ws);
            self.index = e;
            match kw {
                Some(k) => Some(Ok(QueryToken::Keyword(k))),
                None => Some(Ok(QueryToken::String(w))),
            }
        } else if '0' <= c && c <= '9' {
            let e = self.find_digits_end();
            let w = chars_to_string(&self.token_string.as_slice()[self.index..e]);
            proof {
                assert(w@ =~= s.subrange(j, e as int));
            }
            self.index = e;
            Some(Ok(QueryToken::Number(w)))
        } else if c == '"' {
            self.index = self.index + 1;
            match self.consume_in_string() {
                Ok(t) => Some(Ok(t)),
                Err(x) => {
                    self.set_err(x);
                    Some(Err(x))
                },
            }
        } else if c == '(' {
            self.index = self.index + 1;
            Some(Ok(QueryToken::Character(CharacterToken::LeftParen)))
        } else if c == ')' {
            self.index = self.index + 1;
            Some(Ok(QueryToken::Character(CharacterToken::RightParen)))
        } else if c == '[' {
            self.index = self.index + 1;
            Some(Ok(QueryToken::Character(CharacterToken::LeftBracket)))
        } else if c == ']' {
            self.index = self.index + 1;
            Some(Ok(QueryToken::Character(CharacterToken::RightBracket)))
        } else if c == '.' {
            self.index = self.index + 1;
            Some(Ok(QueryToken::Character(CharacterToken::Dot)))
        } else if c == ',' {
            self.index = self.index + 1;
            Some(Ok(QueryToken::Character(CharacterToken::Comma)))
        } else if c == '=' || c == '!' || c == '<' || c == '>' {
            let two = self.index + 1 < n && self.token_string[self.index + 1] == '=';
            if two {
                let t = if c == '=' {
                    CharacterToken::EqualEqual
                } else if c == '!' {
                    CharacterToken::NotEqual
                } else if c == '<' {
                    CharacterToken::LessEqual
                } else {
                    CharacterToken::GreaterEqual
                };
                self.index = self.index + 2;
                Some(Ok(QueryToken::Character(t)))
            } else if c == '<' {
                self.index = self.index + 1;
                Some(Ok(QueryToken::Character(CharacterToken::LessThan)))
            } else if c == '>' {
                self.index = self.index + 1;
                Some(Ok(QueryToken::Character(CharacterToken::GreaterThan)))
            } else {
                let x = self.set_err(LexingError::UnexpectedCharacter(c));
                Some(Err(x))
            }
        } else {
            let x = self.set_err(LexingError::UnexpectedCharacter(c));
            Some(Err(x))
        }
    }
}

/// Unfolding step for the quoted-string scan: consuming one source unit
/// prepends one character to the remaining body.
proof fn lemma_scan_step(s: Seq<char>, start: int, before: int, acc: Seq<char>, after: int)
    requires
        0 <= start <= before < s.len(),
        after == before + 1 || after == before + 2,
        before < s.len(),
        after == before + 1 ==> s[before] != '"' && s[before] != '\\' && acc.len() >= 1
            && acc.last() == s[before],
        after == before + 2 ==> s[before] == '\\' && before + 1 < s.len() && s[before + 1] == '"'
            && acc.len() >= 1 && acc.last() == '"',
        ({
            let full = scan_string(s, start);
            match scan_string(s, before) {
                Ok((c, e)) => full == Ok::<(Seq<char>, int), LexingError>((acc.drop_last() + c, e)),
                Err(x) => full == Err::<(Seq<char>, int), LexingError>(x),
            }
        }),
    ensures
        ({
            let full = scan_string(s, start);
            match scan_string(s, after) {
                Ok((c, e)) => full == Ok::<(Seq<char>, int), LexingError>((acc + c, e)),
                Err(x) => full == Err::<(Seq<char>, int), LexingError>(x),
            }
        }),
{
    match scan_string(s, after) {
        Ok((c, e)) => {
            if after == before + 1 {
                assert(scan_string(s, before) == Ok::<(Seq<char>, int), LexingError>((
                    seq![s[before]] + c,
                    e,
                )));
                assert(acc.drop_last() + (seq![s[before]] + c) =~= acc + c);
            } else {
                assert(scan_string(s, before) == Ok::<(Seq<char>, int), LexingError>((
                    seq!['"'] + c,
                    e,
                )));
                assert(acc.drop_last() + (seq!['"'] + c) =~= acc + c);
            }
        },
        Err(_) => {
        },
    }
}

/// Which keyword a word is, if any.
fn keyword_of_chars(w: &[char]) -> (r: Option<KeywordToken>)
    ensures
        r == keyword_of(w@),
{
    if w.len() == 6 && w[0] == 's' && w[1] == 'e' && w[2] == 'l' && w[3] == 'e' && w[4] == 'c'
        && w[5] == 't' {
        proof {
            assert(w@ =~= kw_chars(KeywordToken::Select));
        }
        Some(KeywordToken::Select)
    } else if w.len() == 4 && w[0] == 'f' && w[1] == 'r' && w[2] == 'o' && w[3] == 'm' {
        proof {
            assert(w@ =~= kw_chars(KeywordToken::From));
        }
        Some(KeywordToken::From)
    } else if w.len() == 5 && w[0] == 'w' && w[1] == 'h' && w[2] == 'e' && w[3] == 'r' && w[4]
        == 'e' {
        proof {
            assert(w@ =~= kw_chars(KeywordToken::Where));
        }
        Some(KeywordToken::Where)
    } else if w.len() == 2 && w[0] == 'a' && w[1] == 's' {
        proof {
            assert(w@ =~= kw_chars(KeywordToken::As));
        }
        Some(KeywordToken::As)
    } else {
        proof {
            if w@ == kw_chars(KeywordToken::Select) {
                assert(w@.len() == 6 && w@[0] == 's' && w@[1] == 'e' && w@[2] == 'l' && w@[3] == 'e'
                    && w@[4] == 'c' && w@[5] == 't');
            }
            if w@ == kw_chars(KeywordToken::From) {
                assert(w@.len() == 4 && w@[0] == 'f' && w@[1] == 'r' && w@[2] == 'o' && w@[3]
                    == 'm');
            }
            if w@ == kw_chars(KeywordToken::Where) {
                assert(w@.len() == 5 && w@[0] == 'w' && w@[1] == 'h' && w@[2] == 'e' && w@[3] == 'r'
                    && w@[4] == 'e');
            }
            if w@ == kw_chars(KeywordToken::As) {
                assert(w@.len() == 2 && w@[0] == 'a' && w@[1] == 's');
            }
        }
        None
    }
}

} // verus!
