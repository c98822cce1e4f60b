//! The token parser: consumes the lexer's tokens through a one-token
//! lookahead and produces a raw (unbound) SELECT syntax tree.
//!
//! Grammar:
//! ```text
//! query       := "select" column_list "from" String [ String ] [ "where" comparison ]
//! column_list := column ( "," column )*
//! column      := column_ref [ "as" String ]
//! column_ref  := String [ "." String ]
//! comparison  := column_ref CmpOp (String | Number)
//! ```
//! The spec functions `sp_*` define the parse over the input characters;
//! the executable parser follows them exactly.

use vstd::prelude::*;
use crate::lex::{
    next_token, CharacterToken, KeywordToken, LexingError, QueryToken, SpecToken, TokenIterator,
};

verus! {

/// Parser errors; lexer errors are lifted verbatim.
#[derive(Debug)]
pub enum ParsingError {
    Lexing(LexingError),
    /// `UnexpectedToken(expected, actual)`.
    UnexpectedToken(QueryToken, QueryToken),
    UnexpectedEndOfInput,
    InvalidSyntax,
}

/// The mathematical form of a parser error.
pub enum ParsingErrorV {
    Lexing(LexingError),
    UnexpectedToken(SpecToken, SpecToken),
    UnexpectedEndOfInput,
    InvalidSyntax,
}

impl View for ParsingError {
    type V = ParsingErrorV;

    open spec fn view(&self) -> ParsingErrorV {
        match self {
            ParsingError::Lexing(x) => ParsingErrorV::Lexing(*x),
            ParsingError::UnexpectedToken(a, b) => ParsingErrorV::UnexpectedToken(a@, b@),
            ParsingError::UnexpectedEndOfInput => ParsingErrorV::UnexpectedEndOfInput,
            ParsingError::InvalidSyntax => ParsingErrorV::InvalidSyntax,
        }
    }
}

/// The comparison operators a WHERE clause can use.
#[derive(Debug, Clone, Copy, PartialEq, Eq, Structural)]
pub enum RawSelectQueryWhereExpressionOperator {
    GreaterThan,
    GreaterEqual,
    LessThan,
    LessEqual,
    EqualEqual,
    NotEqual,
}

impl RawSelectQueryWhereExpressionOperator {
    /// The operator written by a comparator token, if it is one.
    pub open spec fn of_character_spec(c: CharacterToken) -> Option<
        RawSelectQueryWhereExpressionOperator,
    > {
        match c {
            CharacterToken::GreaterThan => Some(RawSelectQueryWhereExpressionOperator::GreaterThan),
            CharacterToken::GreaterEqual => Some(
                RawSelectQueryWhereExpressionOperator::GreaterEqual,
            ),
            CharacterToken::LessThan => Some(RawSelectQueryWhereExpressionOperator::LessThan),
            CharacterToken::LessEqual => Some(RawSelectQueryWhereExpressionOperator::LessEqual),
            CharacterToken::EqualEqual => Some(RawSelectQueryWhereExpressionOperator::EqualEqual),
            CharacterToken::NotEqual => Some(RawSelectQueryWhereExpressionOperator::NotEqual),
            _ => None,
        }
    }

    pub fn of_character(c: CharacterToken) -> (r: Option<RawSelectQueryWhereExpressionOperator>)
        ensures
            r == Self::of_character_spec(c),
    {
        match c {
            CharacterToken::GreaterThan => Some(RawSelectQueryWhereExpressionOperator::GreaterThan),
            CharacterToken::GreaterEqual => Some(
                RawSelectQueryWhereExpressionOperator::GreaterEqual,
            ),
            CharacterToken::LessThan => Some(RawSelectQueryWhereExpressionOperator::LessThan),
            CharacterToken::LessEqual => Some(RawSelectQueryWhereExpressionOperator::LessEqual),
            CharacterToken::EqualEqual => Some(RawSelectQueryWhereExpressionOperator::EqualEqual),
            CharacterToken::NotEqual => Some(RawSelectQueryWhereExpressionOperator::NotEqual),
            _ => None,
        }
    }
}

/// A possibly table-qualified column name.
#[derive(Debug)]
pub struct RawSelectColumnReference {
    pub column_name: String,
    pub table_identifier: Option<String>,
}

pub struct RawColumnRefV {
    pub column_name: Seq<char>,
    pub table_identifier: Option<Seq<char>>,
}

impl View for RawSelectColumnReference {
    type V = RawColumnRefV;

    open spec fn view(&self) -> RawColumnRefV {
        RawColumnRefV {
            column_name: self.column_name@,
            table_identifier: match self.table_identifier {
                Some(ref t) => Some(t@),
                None => None,
            },
        }
    }
}

/// A projected column with an optional alias.
#[derive(Debug)]
pub struct RawSelectQueryColumn {
    pub column: RawSelectColumnReference,
    pub as_name: Option<String>,
}

pub struct RawColumnV {
    pub column: RawColumnRefV,
    pub as_name: Option<Seq<char>>,
}

impl View for RawSelectQueryColumn {
    type V = RawColumnV;

    open spec fn view(&self) -> RawColumnV {
        RawColumnV {
            column: self.column@,
            as_name: match self.as_name {
                Some(ref t) => Some(t@),
                None => None,
            },
        }
    }
}

/// One comparison of a column against a textual value.
#[derive(Debug)]
pub struct RawSelectQueryWhereComparison {
    pub column: RawSelectColumnReference,
    pub op: RawSelectQueryWhereExpressionOperator,
    pub value: String,
}

pub struct RawComparisonV {
    pub column: RawColumnRefV,
    pub op: RawSelectQueryWhereExpressionOperator,
    pub value: Seq<char>,
}

impl View for RawSelectQueryWhereComparison {
    type V = RawComparisonV;

    open spec fn view(&self) -> RawComparisonV {
        RawComparisonV { column: self.column@, op: self.op, value: self.value@ }
    }
}

/// The WHERE tree. The grammar today only produces `Single`; the boolean
/// connectives are the declared extension point.
#[derive(Debug)]
pub enum RawSelectQueryWhereExpression {
    Single(RawSelectQueryWhereComparison),
    And(Box<RawSelectQueryWhereExpression>, Box<RawSelectQueryWhereExpression>),
    Or(Box<RawSelectQueryWhereExpression>, Box<RawSelectQueryWhereExpression>),
    Not(Box<RawSelectQueryWhereExpression>),
}

pub enum RawWhereV {
    Single(RawComparisonV),
    And(Box<RawWhereV>, Box<RawWhereV>),
    Or(Box<RawWhereV>, Box<RawWhereV>),
    Not(Box<RawWhereV>),
}

pub open spec fn raw_where_view(w: RawSelectQueryWhereExpression) -> RawWhereV
    decreases w,
{
    match w {
        RawSelectQueryWhereExpression::Single(c) => RawWhereV::Single(c@),
        RawSelectQueryWhereExpression::And(a, b) => RawWhereV::And(
            Box::new(raw_where_view(*a)),
            Box::new(raw_where_view(*b)),
        ),
        RawSelectQueryWhereExpression::Or(a, b) => RawWhereV::Or(
            Box::new(raw_where_view(*a)),
            Box::new(raw_where_view(*b)),
        ),
        RawSelectQueryWhereExpression::Not(a) => RawWhereV::Not(Box::new(raw_where_view(*a))),
    }
}

impl View for RawSelectQueryWhereExpression {
    type V = RawWhereV;

    open spec fn view(&self) -> RawWhereV {
        raw_where_view(*self)
    }
}

/// A parsed, unresolved SELECT query.
#[derive(Debug)]
pub struct RawSelectQuery {
    pub table_name: String,
    pub table_identifier: Option<String>,
    pub columns: Vec<RawSelectQueryColumn>,
    pub where_expression: Option<RawSelectQueryWhereExpression>,
}

pub struct RawQueryV {
    pub table_name: Seq<char>,
    pub table_identifier: Option<Seq<char>>,
    pub columns: Seq<RawColumnV>,
    pub where_expression: Option<RawWhereV>,
}

impl View for RawSelectQuery {
    type V = RawQueryV;

    open spec fn view(&self) -> RawQueryV {
        RawQueryV {
            table_name: self.table_name@,
            table_identifier: match self.table_identifier {
                Some(ref t) => Some(t@),
                None => None,
            },
            columns: self.columns@.map_values(|c: RawSelectQueryColumn| c@),
            where_expression: match self.where_expression {
                Some(ref w) => Some(w@),
                None => None,
            },
        }
    }
}

/// An insert statement in raw textual form.
pub struct RawInsertStatement {
    pub table_name: String,
    pub values: Vec<(String, String)>,
}

/// A raw command: an insertion or a query.
pub enum RawDbCommand {
    Insert(RawInsertStatement),
    Select(RawSelectQuery),
}

// ---------------------------------------------------------------------------
// the specification parser
/// The token under the cursor: end of input and lexer errors become parser
/// errors.
pub open spec fn sp_current(s: Seq<char>, i: int) -> Result<SpecToken, ParsingErrorV> {
    match next_token(s, i) {
        None => Err(ParsingErrorV::UnexpectedEndOfInput),
        Some(r) => match r {
            Err(x) => Err(ParsingErrorV::Lexing(x)),
            Ok((t, st, e)) => Ok(t),
        },
    }
}

/// The position after the token under the cursor.
pub open spec fn tok_end(s: Seq<char>, i: int) -> int {
    next_token(s, i)->Some_0->Ok_0.2
}

/// Consume a bare word; anything else is an unexpected token.
pub open spec fn sp_consume_string(s: Seq<char>, i: int) -> Result<(Seq<char>, int), ParsingErrorV> {
    match sp_current(s, i) {
        Err(e) => Err(e),
        Ok(t) => match t {
            SpecToken::Str(w) => Ok((w, tok_end(s, i))),
            _ => Err(ParsingErrorV::UnexpectedToken(SpecToken::Str(Seq::empty()), t)),
        },
    }
}

/// Consume a comparison value: a word, a quoted string, or a number.
pub open spec fn sp_consume_value(s: Seq<char>, i: int) -> Result<(Seq<char>, int), ParsingErrorV> {
    match sp_current(s, i) {
        Err(e) => Err(e),
        Ok(t) => match t {
            SpecToken::Str(w) => Ok((w, tok_end(s, i))),
            SpecToken::Num(w) => Ok((w, tok_end(s, i))),
            _ => Err(ParsingErrorV::UnexpectedToken(SpecToken::Str(Seq::empty()), t)),
        },
    }
}

/// Consume exactly the keyword `k`.
pub open spec fn sp_consume_a_keyword(s: Seq<char>, i: int, k: KeywordToken) -> Result<
    int,
    ParsingErrorV,
> {
    match sp_current(s, i) {
        Err(e) => Err(e),
        Ok(t) => match t {
            SpecToken::Keyword(k2) => if k2 == k {
                Ok(tok_end(s, i))
            } else {
                Err(ParsingErrorV::UnexpectedToken(SpecToken::Keyword(k), t))
            },
            _ => Err(ParsingErrorV::UnexpectedToken(SpecToken::Keyword(k), t)),
        },
    }
}

/// Consume the keyword `k` if it is next: `(seen, next position)`.
pub open spec fn sp_maybe_keyword(s: Seq<char>, i: int, k: KeywordToken) -> Result<
    (bool, int),
    ParsingErrorV,
> {
    match sp_current(s, i) {
        Err(e) => Err(e),
        Ok(t) => match t {
            SpecToken::Keyword(k2) => if k2 == k {
                Ok((true, tok_end(s, i)))
            } else {
                Ok((false, i))
            },
            _ => Ok((false, i)),
        },
    }
}

/// Consume the punctuation `c` if it is next: `(seen, next position)`.
pub open spec fn sp_maybe_character(s: Seq<char>, i: int, c: CharacterToken) -> Result<
    (bool, int),
    ParsingErrorV,
> {
    match sp_current(s, i) {
        Err(e) => Err(e),
        Ok(t) => match t {
            SpecToken::Character(c2) => if c2 == c {
                Ok((true, tok_end(s, i)))
            } else {
                Ok((false, i))
            },
            _ => Ok((false, i)),
        },
    }
}

/// Consume any punctuation or comparator token.
pub open spec fn sp_consume_character(s: Seq<char>, i: int) -> Result<
    (CharacterToken, int),
    ParsingErrorV,
> {
    match sp_current(s, i) {
        Err(e) => Err(e),
        Ok(t) => match t {
            SpecToken::Character(c) => Ok((c, tok_end(s, i))),
            _ => Err(
                ParsingErrorV::UnexpectedToken(SpecToken::Character(CharacterToken::Comma), t),
            ),
        },
    }
}

/// `column_ref := String [ "." String ]`.
pub open spec fn sp_parse_column_reference(s: Seq<char>, i: int) -> Result<
    (RawColumnRefV, int),
    ParsingErrorV,
> {
    match sp_consume_string(s, i) {
        Err(e) => Err(e),
        Ok((s1, i1)) => match sp_maybe_character(s, i1, CharacterToken::Dot) {
            Err(e) => Err(e),
            Ok((seen, i2)) => if seen {
                match sp_consume_string(s, i2) {
                    Err(e) => Err(e),
                    Ok((s2, i3)) => Ok(
                        (RawColumnRefV { column_name: s2, table_identifier: Some(s1) }, i3),
                    ),
                }
            } else {
                Ok((RawColumnRefV { column_name: s1, table_identifier: None }, i1))
            },
        },
    }
}

/// `column := column_ref [ "as" String ]`.
pub open spec fn sp_parse_query_column(s: Seq<char>, i: int) -> Result<
    (RawColumnV, int),
    ParsingErrorV,
> {
    match sp_parse_column_reference(s, i) {
        Err(e) => Err(e),
        Ok((cref, i1)) => match sp_maybe_keyword(s, i1, KeywordToken::As) {
            Err(e) => Err(e),
            Ok((seen, i2)) => if seen {
                match sp_consume_string(s, i2) {
                    Err(e) => Err(e),
                    Ok((nm, i3)) => Ok((RawColumnV { column: cref, as_name: Some(nm) }, i3)),
                }
            } else {
                Ok((RawColumnV { column: cref, as_name: None }, i1))
            },
        },
    }
}

/// Positions only move forward through a token.
pub proof fn lemma_tok_end_bounds(s: Seq<char>, i: int)
    requires
        0 <= i <= s.len(),
    ensures
        next_token(s, i) matches Some(r) ==> (r matches Ok(p) ==> i < tok_end(s, i) <= s.len()),
{
    crate::lex::lemma_skip_ws_bounds(s, i);
    let j = crate::lex::skip_ws(s, i);
    if j < s.len() {
        crate::lex::lemma_token_at_bounds(s, j);
    }
}

pub proof fn lemma_sp_column_bounds(s: Seq<char>, i: int)
    requires
        0 <= i <= s.len(),
    ensures
        sp_parse_column_reference(s, i) matches Ok(p) ==> i < p.1 <= s.len(),
        sp_parse_query_column(s, i) matches Ok(p) ==> i < p.1 <= s.len(),
{
    lemma_tok_end_bounds(s, i);
    match sp_consume_string(s, i) {
        Ok(p1) => {
            lemma_tok_end_bounds(s, p1.1);
            match sp_maybe_character(s, p1.1, CharacterToken::Dot) {
                Ok(p2) => {
                    if p2.0 {
                        lemma_tok_end_bounds(s, p2.1);
                    }
                },
                Err(_) => {
                },
            }
        },
        Err(_) => {
        },
    }
    match sp_parse_column_reference(s, i) {
        Ok(p1) => {
            lemma_tok_end_bounds(s, p1.1);
            match sp_maybe_keyword(s, p1.1, KeywordToken::As) {
                Ok(p2) => {
                    if p2.0 {
                        lemma_tok_end_bounds(s, p2.1);
                    }
                },
                Err(_) => {
                },
            }
        },
        Err(_) => {
        },
    }
}

/// `( "," column )*`: the columns after the first, and the position after
/// the list.
pub open spec fn sp_parse_more_columns(s: Seq<char>, i: int) -> Result<
    (Seq<RawColumnV>, int),
    ParsingErrorV,
>
    recommends
        0 <= i <= s.len(),
    decreases s.len() - i,
{
    if !(0 <= i <= s.len()) {
        Err(ParsingErrorV::InvalidSyntax)
    } else {
        match sp_maybe_character(s, i, CharacterToken::Comma) {
            Err(e) => Err(e),
            Ok((seen, i1)) => if !seen {
                Ok((Seq::empty(), i))
            } else {
                match sp_parse_query_column(s, i1) {
                    Err(e) => Err(e),
                    Ok((col, i2)) => {
                        proof {
                            lemma_tok_end_bounds(s, i);
                            lemma_sp_column_bounds(s, i1);
                        }
                        match sp_parse_more_columns(s, i2) {
                            Err(e) => Err(e),
                            Ok((cols, i3)) => Ok((seq![col] + cols, i3)),
                        }
                    },
                }
            },
        }
    }
}

/// The whole grammar: tokens after a complete query are ignored.
pub open spec fn sp_parse_string(s: Seq<char>) -> Result<RawQueryV, ParsingErrorV> {
    match sp_consume_a_keyword(s, 0, KeywordToken::Select) {
        Err(e) => Err(e),
        Ok(i1) => match sp_parse_query_column(s, i1) {
            Err(e) => Err(e),
            Ok((col1, i2)) => match sp_parse_more_columns(s, i2) {
                Err(e) => Err(e),
                Ok((cols, i3)) => match sp_consume_a_keyword(s, i3, KeywordToken::From) {
                    Err(e) => Err(e),
                    Ok(i4) => match sp_consume_string(s, i4) {
                        Err(e) => Err(e),
                        Ok((tname, i5)) => {
                            let columns = seq![col1] + cols;
                            if next_token(s, i5) is None {
                                Ok(
                                    RawQueryV {
                                        table_name: tname,
                                        table_identifier: None,
                                        columns,
                                        where_expression: None,
                                    },
                                )
                            } else {
                                match sp_current(s, i5) {
                                    Err(e) => Err(e),
                                    Ok(t5) => {
                                        let has_ident = t5 is Str;
                                        let ident = if has_ident {
                                            Some(t5->Str_0)
                                        } else {
                                            None
                                        };
                                        let i6 = if has_ident {
                                            tok_end(s, i5)
                                        } else {
                                            i5
                                        };
                                        if next_token(s, i6) is None {
                                            Ok(
                                                RawQueryV {
                                                    table_name: tname,
                                                    table_identifier: ident,
                                                    columns,
                                                    where_expression: None,
                                                },
                                            )
                                        } else {
                                            match sp_maybe_keyword(s, i6, KeywordToken::Where) {
                                                Err(e) => Err(e),
                                                Ok((seen, i7)) => if !seen {
                                                    Ok(
                                                        RawQueryV {
                                                            table_name: tname,
                                                            table_identifier: ident,
                                                            columns,
                                                            where_expression: None,
                                                        },
                                                    )
                                                } else {
                                                    match sp_parse_comparison(s, i7) {
                                                        Err(e) => Err(e),
                                                        Ok((cmp, i8)) => Ok(
                                                            RawQueryV {
                                                                table_name: tname,
                                                                table_identifier: ident,
                                                                columns,
                                                                where_expression: Some(
                                                                    RawWhereV::Single(cmp),
                                                                ),
                                                            },
                                                        ),
                                                    }
                                                },
                                            }
                                        }
                                    },
                                }
                            }
                        },
                    },
                },
            },
        },
    }
}

/// `comparison := column_ref CmpOp (String | Number)`.
pub open spec fn sp_parse_comparison(s: Seq<char>, i: int) -> Result<
    (RawComparisonV, int),
    ParsingErrorV,
> {
    match sp_parse_column_reference(s, i) {
        Err(e) => Err(e),
        Ok((cref, i1)) => match sp_consume_character(s, i1) {
            Err(e) => Err(e),
            Ok((c, i2)) => match RawSelectQueryWhereExpressionOperator::of_character_spec(c) {
                None => Err(
                    ParsingErrorV::UnexpectedToken(
                        SpecToken::Character(CharacterToken::Comma),
                        SpecToken::Character(c),
                    ),
                ),
                Some(op) => match sp_consume_value(s, i2) {
                    Err(e) => Err(e),
                    Ok((v, i3)) => Ok(
                        (RawComparisonV { column: cref, op: op, value: v }, i3),
                    ),
                },
            },
        },
    }
}

// ---------------------------------------------------------------------------
// the executable parser
/// A peekable cursor over the token stream of a query text.
pub struct TokenParser {
    pub it: TokenIterator,
    pub lookahead: Option<Result<QueryToken, LexingError>>,
    pub pos: Ghost<int>,
}

impl TokenParser {
    /// The input characters.
    pub open spec fn src(&self) -> Seq<char> {
        self.it.token_string@
    }

    /// The position the lookahead token was lexed from.
    pub open spec fn pos(&self) -> int {
        self.pos@
    }

    /// The cursor state matches lexing the input from `pos`.
    pub open spec fn wf(&self) -> bool {
        &&& self.it.inv()
        &&& 0 <= self.pos@ <= self.src().len()
        &&& match next_token(self.src(), self.pos@) {
            None => self.lookahead is None,
            Some(r) => match r {
                Ok((t, st, e)) => (self.lookahead matches Some(lr) && lr matches Ok(tok) && tok@
                    == t) && self.it.index == e && self.it.err is None,
                Err(x) => self.lookahead == Some(Err::<QueryToken, LexingError>(x)),
            },
        }
    }

    pub fn new(query: &str) -> (p: TokenParser)
        ensures
            p.wf(),
            p.src() == query@,
            p.pos() == 0,
    {
        let mut it = TokenIterator::new(query);
        let lookahead = it.next();
        TokenParser { it, lookahead, pos: Ghost(0) }
    }

    /// Whether the token stream is exhausted.
    pub fn is_finished(&self) -> (r: bool)
        requires
            self.wf(),
        ensures
            r == (next_token(self.src(), self.pos()) is None),
    {
        self.lookahead.is_none()
    }

    /// The token under the cursor, or the error that stands there.
    pub fn expect_current_token(&self) -> (r: Result<QueryToken, ParsingError>)
        requires
            self.wf(),
        ensures
            match sp_current(self.src(), self.pos()) {
                Ok(t) => r matches Ok(tok) && tok@ == t,
                Err(pe) => r matches Err(e) && e@ == pe,
            },
    {
        match &self.lookahead {
            None => Err(ParsingError::UnexpectedEndOfInput),
            Some(Err(x)) => Err(ParsingError::Lexing(*x)),
            Some(Ok(t)) => Ok(t.duplicate()),
        }
    }

    /// Move past the token under the cursor.
    fn advance(&mut self)
        requires
            old(self).wf(),
            next_token(old(self).src(), old(self).pos()) matches Some(r) && r is Ok,
        ensures
            final(self).wf(),
            final(self).src() == old(self).src(),
            final(self).pos() == tok_end(old(self).src(), old(self).pos()),
    {
        proof {
            lemma_tok_end_bounds(self.src(), self.pos@);
        }
        let ghost newpos = self.it.index as int;
        self.lookahead = self.it.next();
        self.pos = Ghost(newpos);
    }

    /// Consume and return the token under the cursor.
    pub fn consume_token(&mut self) -> (r: Result<QueryToken, ParsingError>)
        requires
            old(self).wf(),
            next_token(old(self).src(), old(self).pos()) matches Some(r) && r is Ok,
        ensures
            final(self).wf(),
            final(self).src() == old(self).src(),
            final(self).pos() == tok_end(old(self).src(), old(self).pos()),
            r matches Ok(tok) && tok@ == sp_current(old(self).src(), old(self).pos())->Ok_0,
    {
        let t = self.expect_current_token();
        self.advance();
        t
    }

    /// Whether the token under the cursor is the keyword `keyword`.
    pub fn is_a_keyword(&self, keyword: KeywordToken) -> (r: Result<bool, ParsingError>)
        requires
            self.wf(),
        ensures
            match sp_current(self.src(), self.pos()) {
                Ok(t) => r matches Ok(b) && b == (t matches SpecToken::Keyword(k2) && k2
                    == keyword),
                Err(pe) => r matches Err(e) && e@ == pe,
            },
    {
        match &self.lookahead {
            None => Err(ParsingError::UnexpectedEndOfInput),
            Some(Err(x)) => Err(ParsingError::Lexing(*x)),
            Some(Ok(QueryToken::Keyword(k2))) => Ok(*k2 == keyword),
            Some(Ok(_)) => Ok(false),
        }
    }

    /// Consume the keyword `k`, or fail with the actual token.
    pub fn consume_a_keyword(&mut self, keyword: KeywordToken) -> (r: Result<(), ParsingError>)
        requires
            old(self).wf(),
        ensures
            final(self).wf(),
            final(self).src() == old(self).src(),
            match sp_consume_a_keyword(old(self).src(), old(self).pos(), keyword) {
                Ok(i2) => r is Ok && final(self).pos() == i2,
                Err(pe) => (r matches Err(e) && e@ == pe) && final(self).pos() == old(self).pos(),
            },
    {
        match self.expect_current_token() {
            Err(e) => Err(e),
            Ok(QueryToken::Keyword(k2)) => {
                if k2 == keyword {
                    self.advance();
                    Ok(())
                } else {
                    Err(
                        ParsingError::UnexpectedToken(
                            QueryToken::Keyword(keyword),
                            QueryToken::Keyword(k2),
                        ),
                    )
                }
            },
            Ok(t) => Err(ParsingError::UnexpectedToken(QueryToken::Keyword(keyword), t)),
        }
    }

    /// Consume the keyword `k` when it is next.
    pub fn maybe_consume_a_keyword(&mut self, keyword: KeywordToken) -> (r: Result<
        bool,
        ParsingError,
    >)
        requires
            old(self).wf(),
        ensures
            final(self).wf(),
            final(self).src() == old(self).src(),
            match sp_maybe_keyword(old(self).src(), old(self).pos(), keyword) {
                Ok((seen, i2)) => (r matches Ok(b) && b == seen) && final(self).pos() == i2,
                Err(pe) => (r matches Err(e) && e@ == pe) && final(self).pos() == old(self).pos(),
            },
    {
        match self.expect_current_token() {
            Err(e) => Err(e),
            Ok(QueryToken::Keyword(k2)) => {
                if k2 == keyword {
                    self.advance();
                    Ok(true)
                } else {
                    Ok(false)
                }
            },
            Ok(_) => Ok(false),
        }
    }

    /// Whether the token under the cursor is any keyword.
    pub fn is_keyword(&self) -> (r: Result<bool, ParsingError>)
        requires
            self.wf(),
        ensures
            match sp_current(self.src(), self.pos()) {
                Ok(t) => r matches Ok(b) && b == (t is Keyword),
                Err(pe) => r matches Err(e) && e@ == pe,
            },
    {
        match &self.lookahead {
            None => Err(ParsingError::UnexpectedEndOfInput),
            Some(Err(x)) => Err(ParsingError::Lexing(*x)),
            Some(Ok(QueryToken::Keyword(_))) => Ok(true),
            Some(Ok(_)) => Ok(false),
        }
    }

    /// The keyword under the cursor, or an unexpected-token error.
    pub fn expect_is_keyword(&self) -> (r: Result<KeywordToken, ParsingError>)
        requires
            self.wf(),
        ensures
            match sp_current(self.src(), self.pos()) {
                Ok(t) => match t {
                    SpecToken::Keyword(k) => r matches Ok(k2) && k2 == k,
                    _ => r matches Err(e) && e@ == ParsingErrorV::UnexpectedToken(
                        SpecToken::Keyword(KeywordToken::Select),
                        t,
                    ),
                },
                Err(pe) => r matches Err(e) && e@ == pe,
            },
    {
        match self.expect_current_token() {
            Err(e) => Err(e),
            Ok(QueryToken::Keyword(k)) => Ok(k),
            Ok(t) => Err(
                ParsingError::UnexpectedToken(QueryToken::Keyword(KeywordToken::Select), t),
            ),
        }
    }

    /// Check that the keyword `k` is next, without consuming it.
    pub fn expect_is_a_keyword(&self, keyword: KeywordToken) -> (r: Result<(), ParsingError>)
        requires
            self.wf(),
        ensures
            match sp_current(self.src(), self.pos()) {
                Ok(t) => match t {
                    SpecToken::Keyword(k2) => if k2 == keyword {
                        r is Ok
                    } else {
                        r matches Err(e) && e@ == ParsingErrorV::UnexpectedToken(
                            SpecToken::Keyword(keyword),
                            t,
                        )
                    },
                    _ => r matches Err(e) && e@ == ParsingErrorV::UnexpectedToken(
                        SpecToken::Keyword(keyword),
                        t,
                    ),
                },
                Err(pe) => r matches Err(e) && e@ == pe,
            },
    {
        match self.expect_current_token() {
            Err(e) => Err(e),
            Ok(QueryToken::Keyword(k2)) => {
                if k2 == keyword {
                    Ok(())
                } else {
                    Err(
                        ParsingError::UnexpectedToken(
                            QueryToken::Keyword(keyword),
                            QueryToken::Keyword(k2),
                        ),
                    )
                }
            },
            Ok(t) => Err(ParsingError::UnexpectedToken(QueryToken::Keyword(keyword), t)),
        }
    }

    /// Whether the token under the cursor is any punctuation or comparator.
    pub fn is_character(&self) -> (r: Result<bool, ParsingError>)
        requires
            self.wf(),
        ensures
            match sp_current(self.src(), self.pos()) {
                Ok(t) => r matches Ok(b) && b == (t is Character),
                Err(pe) => r matches Err(e) && e@ == pe,
            },
    {
        match &self.lookahead {
            None => Err(ParsingError::UnexpectedEndOfInput),
            Some(Err(x)) => Err(ParsingError::Lexing(*x)),
            Some(Ok(QueryToken::Character(_))) => Ok(true),
            Some(Ok(_)) => Ok(false),
        }
    }

    /// The punctuation under the cursor, or an unexpected-token error.
    pub fn expect_is_character(&self) -> (r: Result<CharacterToken, ParsingError>)
        requires
            self.wf(),
        ensures
            match sp_current(self.src(), self.pos()) {
                Ok(t) => match t {
                    SpecToken::Character(c) => r matches Ok(c2) && c2 == c,
                    _ => r matches Err(e) && e@ == ParsingErrorV::UnexpectedToken(
                        SpecToken::Character(CharacterToken::Comma),
                        t,
                    ),
                },
                Err(pe) => r matches Err(e) && e@ == pe,
            },
    {
        match self.expect_current_token() {
            Err(e) => Err(e),
            Ok(QueryToken::Character(c)) => Ok(c),
            Ok(t) => Err(
                ParsingError::UnexpectedToken(
                    QueryToken::Character(CharacterToken::Comma),
                    t,
                ),
            ),
        }
    }

    /// Check that the punctuation `c` is next, without consuming it.
    pub fn expect_is_a_character(&self, character: CharacterToken) -> (r: Result<
        (),
        ParsingError,
    >)
        requires
            self.wf(),
        ensures
            match sp_current(self.src(), self.pos()) {
                Ok(t) => match t {
                    SpecToken::Character(c2) => if c2 == character {
                        r is Ok
                    } else {
                        r matches Err(e) && e@ == ParsingErrorV::UnexpectedToken(
                            SpecToken::Character(character),
                            t,
                        )
                    },
                    _ => r matches Err(e) && e@ == ParsingErrorV::UnexpectedToken(
                        SpecToken::Character(character),
                        t,
                    ),
                },
                Err(pe) => r matches Err(e) && e@ == pe,
            },
    {
        match self.expect_current_token() {
            Err(e) => Err(e),
            Ok(QueryToken::Character(c2)) => {
                if c2 == character {
                    Ok(())
                } else {
                    Err(
                        ParsingError::UnexpectedToken(
                            QueryToken::Character(character),
                            QueryToken::Character(c2),
                        ),
                    )
                }
            },
            Ok(t) => Err(ParsingError::UnexpectedToken(QueryToken::Character(character), t)),
        }
    }

    /// Consume exactly the punctuation `c`.
    pub fn consume_a_character(&mut self, character: CharacterToken) -> (r: Result<
        (),
        ParsingError,
    >)
        requires
            old(self).wf(),
        ensures
            final(self).wf(),
            final(self).src() == old(self).src(),
            match sp_maybe_character(old(self).src(), old(self).pos(), character) {
                Ok((seen, i2)) => if seen {
                    r is Ok && final(self).pos() == i2
                } else {
                    r is Err && final(self).pos() == old(self).pos()
                },
                Err(pe) => (r matches Err(e) && e@ == pe) && final(self).pos() == old(self).pos(),
            },
    {
        match self.expect_current_token() {
            Err(e) => Err(e),
            Ok(QueryToken::Character(c2)) => {
                if c2 == character {
                    self.advance();
                    Ok(())
                } else {
                    Err(
                        ParsingError::UnexpectedToken(
                            QueryToken::Character(character),
                            QueryToken::Character(c2),
                        ),
                    )
                }
            },
            Ok(t) => Err(ParsingError::UnexpectedToken(QueryToken::Character(character), t)),
        }
    }

    /// Whether the token under the cursor is the punctuation `c`.
    pub fn is_a_character(&self, character: CharacterToken) -> (r: Result<bool, ParsingError>)
        requires
            self.wf(),
        ensures
            match sp_current(self.src(), self.pos()) {
                Ok(t) => r matches Ok(b) && b == (t matches SpecToken::Character(c2) && c2
                    == character),
                Err(pe) => r matches Err(e) && e@ == pe,
            },
    {
        match &self.lookahead {
            None => Err(ParsingError::UnexpectedEndOfInput),
            Some(Err(x)) => Err(ParsingError::Lexing(*x)),
            Some(Ok(QueryToken::Character(c2))) => Ok(*c2 == character),
            Some(Ok(_)) => Ok(false),
        }
    }

    /// Consume the punctuation `c` when it is next.
    pub fn maybe_consume_a_character(&mut self, character: CharacterToken) -> (r: Result<
        bool,
        ParsingError,
    >)
        requires
            old(self).wf(),
        ensures
            final(self).wf(),
            final(self).src() == old(self).src(),
            match sp_maybe_character(old(self).src(), old(self).pos(), character) {
                Ok((seen, i2)) => (r matches Ok(b) && b == seen) && final(self).pos() == i2,
                Err(pe) => (r matches Err(e) && e@ == pe) && final(self).pos() == old(self).pos(),
            },
    {
        match self.expect_current_token() {
            Err(e) => Err(e),
            Ok(QueryToken::Character(c2)) => {
                if c2 == character {
                    self.advance();
                    Ok(true)
                } else {
                    Ok(false)
                }
            },
            Ok(_) => Ok(false),
        }
    }

    /// Consume any punctuation or comparator token.
    pub fn consume_character(&mut self) -> (r: Result<CharacterToken, ParsingError>)
        requires
            old(self).wf(),
        ensures
            final(self).wf(),
            final(self).src() == old(self).src(),
            match sp_consume_character(old(self).src(), old(self).pos()) {
                Ok((c, i2)) => (r matches Ok(c2) && c2 == c) && final(self).pos() == i2,
                Err(pe) => (r matches Err(e) && e@ == pe) && final(self).pos() == old(self).pos(),
            },
    {
        match self.expect_current_token() {
            Err(e) => Err(e),
            Ok(QueryToken::Character(c)) => {
                self.advance();
                Ok(c)
            },
            Ok(t) => Err(
                ParsingError::UnexpectedToken(
                    QueryToken::Character(CharacterToken::Comma),
                    t,
                ),
            ),
        }
    }

    /// Whether the token under the cursor is a bare word.
    pub fn is_string(&self) -> (r: Result<bool, ParsingError>)
        requires
            self.wf(),
        ensures
            match sp_current(self.src(), self.pos()) {
                Ok(t) => r matches Ok(b) && b == (t is Str),
                Err(pe) => r matches Err(e) && e@ == pe,
            },
    {
        match &self.lookahead {
            None => Err(ParsingError::UnexpectedEndOfInput),
            Some(Err(x)) => Err(ParsingError::Lexing(*x)),
            Some(Ok(QueryToken::String(_))) => Ok(true),
            Some(Ok(_)) => Ok(false),
        }
    }

    /// The word under the cursor without consuming it.
    pub fn expect_string(&self) -> (r: Result<String, ParsingError>)
        requires
            self.wf(),
        ensures
            match sp_current(self.src(), self.pos()) {
                Ok(t) => match t {
                    SpecToken::Str(w) => r matches Ok(out) && out@ == w,
                    _ => r matches Err(e) && e@ == ParsingErrorV::UnexpectedToken(
                        SpecToken::Str(Seq::empty()),
                        t,
                    ),
                },
                Err(pe) => r matches Err(e) && e@ == pe,
            },
    {
        match self.expect_current_token() {
            Err(e) => Err(e),
            Ok(QueryToken::String(s)) => Ok(s),
            Ok(t) => Err(ParsingError::UnexpectedToken(QueryToken::String(String::new()), t)),
        }
    }

    /// Consume a bare word.
    pub fn consume_string(&mut self) -> (r: Result<String, ParsingError>)
        requires
            old(self).wf(),
        ensures
            final(self).wf(),
            final(self).src() == old(self).src(),
            match sp_consume_string(old(self).src(), old(self).pos()) {
                Ok((w, i2)) => (r matches Ok(out) && out@ == w) && final(self).pos() == i2,
                Err(pe) => (r matches Err(e) && e@ == pe) && final(self).pos() == old(self).pos(),
            },
    {
        match self.expect_string() {
            Err(e) => Err(e),
            Ok(s) => {
                self.advance();
                Ok(s)
            },
        }
    }

    /// Consume a comparison value: a word, a quoted string, or a number.
    pub fn consume_value(&mut self) -> (r: Result<String, ParsingError>)
        requires
            old(self).wf(),
        ensures
            final(self).wf(),
            final(self).src() == old(self).src(),
            match sp_consume_value(old(self).src(), old(self).pos()) {
                Ok((w, i2)) => (r matches Ok(out) && out@ == w) && final(self).pos() == i2,
                Err(pe) => (r matches Err(e) && e@ == pe) && final(self).pos() == old(self).pos(),
            },
    {
        match self.expect_current_token() {
            Err(e) => Err(e),
            Ok(QueryToken::String(s)) => {
                self.advance();
                Ok(s)
            },
            Ok(QueryToken::Number(s)) => {
                self.advance();
                Ok(s)
            },
            Ok(t) => Err(ParsingError::UnexpectedToken(QueryToken::String(String::new()), t)),
        }
    }
}

/// The parser entry points.
pub struct RawParse {}

impl RawParse {
    /// Parse a query text into a raw SELECT syntax tree.
    pub fn parse_string(query: &str) -> (r: Result<RawSelectQuery, ParsingError>)
        ensures
            match sp_parse_string(query@) {
                Ok(q) => r matches Ok(rq) && rq@ == q,
                Err(pe) => r matches Err(e) && e@ == pe,
            },
    {
        let mut parser = TokenParser::new(query);
        let ghost s = query@;
        match parser.consume_a_keyword(KeywordToken::Select) {
            Err(e) => {
                return Err(e);
            },
            Ok(()) => {},
        }
        let col1 = match Self::parse_query_column(&mut parser) {
            Err(e) => {
                return Err(e);
            },
            Ok(c) => c,
        };
        let mut columns: Vec<RawSelectQueryColumn> = Vec::new();
        columns.push(col1);
        proof {
            assert(columns@.map_values(|c: RawSelectQueryColumn| c@) =~= seq![
                sp_parse_query_column(s, sp_consume_a_keyword(s, 0, KeywordToken::Select)->Ok_0)->Ok_0.0,
            ]);
        }
        match Self::parse_more_columns(&mut parser, &mut columns) {
            Err(e) => {
                return Err(e);
            },
            Ok(()) => {},
        }
        match parser.consume_a_keyword(KeywordToken::From) {
            Err(e) => {
                return Err(e);
            },
            Ok(()) => {},
        }
        let table_name = match parser.consume_string() {
            Err(e) => {
                return Err(e);
            },
            Ok(t) => t,
        };
        if parser.is_finished() {
            return Ok(
                RawSelectQuery {
                    table_name,
                    table_identifier: None,
                    columns,
                    where_expression: None,
                },
            );
        }
        let has_ident = match parser.is_string() {
            Err(e) => {
                return Err(e);
            },
            Ok(b) => b,
        };
        let table_identifier = if has_ident {
            match parser.consume_string() {
                Err(e) => {
                    return Err(e);
                },
                Ok(t) => Some(t),
            }
        } else {
            None
        };
        if parser.is_finished() {
            return Ok(
                RawSelectQuery {
                    table_name,
                    table_identifier,
                    columns,
                    where_expression: None,
                },
            );
        }
        let has_where = match parser.maybe_consume_a_keyword(KeywordToken::Where) {
            Err(e) => {
                return Err(e);
            },
            Ok(b) => b,
        };
        if !has_where {
            return Ok(
                RawSelectQuery {
                    table_name,
                    table_identifier,
                    columns,
                    where_expression: None,
                },
            );
        }
        let cmp = match Self::parse_comparison(&mut parser) {
            Err(e) => {
                return Err(e);
            },
            Ok(c) => c,
        };
        Ok(
            RawSelectQuery {
                table_name,
                table_identifier,
                columns,
                where_expression: Some(RawSelectQueryWhereExpression::Single(cmp)),
            },
        )
    }

    /// `column_ref := String [ "." String ]`.
    fn parse_column_reference(parser: &mut TokenParser) -> (r: Result<
        RawSelectColumnReference,
        ParsingError,
    >)
        requires
            old(parser).wf(),
        ensures
            final(parser).wf(),
            final(parser).src() == old(parser).src(),
            match sp_parse_column_reference(old(parser).src(), old(parser).pos()) {
                Ok((cref, i2)) => (r matches Ok(out) && out@ == cref) && final(parser).pos() == i2,
                Err(pe) => r matches Err(e) && e@ == pe,
            },
    {
        let s1 = match parser.consume_string() {
            Err(e) => {
                return Err(e);
            },
            Ok(t) => t,
        };
        let has_dot = match parser.is_a_character(CharacterToken::Dot) {
            Err(e) => {
                return Err(e);
            },
            Ok(b) => b,
        };
        if has_dot {
            match parser.maybe_consume_a_character(CharacterToken::Dot) {
                Err(e) => {
                    return Err(e);
                },
                Ok(_) => {},
            }
            let s2 = match parser.consume_string() {
                Err(e) => {
                    return Err(e);
                },
                Ok(t) => t,
            };
            Ok(RawSelectColumnReference { column_name: s2, table_identifier: Some(s1) })
        } else {
            Ok(RawSelectColumnReference { column_name: s1, table_identifier: None })
        }
    }

    /// `column := column_ref [ "as" String ]`.
    fn parse_query_column(parser: &mut TokenParser) -> (r: Result<
        RawSelectQueryColumn,
        ParsingError,
    >)
        requires
            old(parser).wf(),
        ensures
            final(parser).wf(),
            final(parser).src() == old(parser).src(),
            match sp_parse_query_column(old(parser).src(), old(parser).pos()) {
                Ok((col, i2)) => (r matches Ok(out) && out@ == col) && final(parser).pos() == i2,
                Err(pe) => r matches Err(e) && e@ == pe,
            },
    {
        let column = match Self::parse_column_reference(parser) {
            Err(e) => {
                return Err(e);
            },
            Ok(c) => c,
        };
        let has_as = match parser.maybe_consume_a_keyword(KeywordToken::As) {
            Err(e) => {
                return Err(e);
            },
            Ok(b) => b,
        };
        if has_as {
            let nm = match parser.consume_string() {
                Err(e) => {
                    return Err(e);
                },
                Ok(t) => t,
            };
            Ok(RawSelectQueryColumn { column, as_name: Some(nm) })
        } else {
            Ok(RawSelectQueryColumn { column, as_name: None })
        }
    }

    /// `( "," column )*`, appended to `columns`.
    fn parse_more_columns(parser: &mut TokenParser, columns: &mut Vec<RawSelectQueryColumn>) -> (r:
        Result<(), ParsingError>)
        requires
            old(parser).wf(),
        ensures
            final(parser).wf(),
            final(parser).src() == old(parser).src(),
            match sp_parse_more_columns(old(parser).src(), old(parser).pos()) {
                Ok((cols, i2)) => r is Ok && final(parser).pos() == i2
                    && final(columns)@.map_values(|c: RawSelectQueryColumn| c@) == old(
                    columns,
                )@.map_values(|c: RawSelectQueryColumn| c@) + cols,
                Err(pe) => r matches Err(e) && e@ == pe,
            },
        decreases old(parser).src().len() - old(parser).pos(),
    {
        let ghost s = parser.src();
        let ghost i0 = parser.pos();
        let seen = match parser.maybe_consume_a_character(CharacterToken::Comma) {
            Err(e) => {
                return Err(e);
            },
            Ok(b) => b,
        };
        if !seen {
            proof {
                assert(final(columns)@.map_values(|c: RawSelectQueryColumn| c@) =~= old(
                    columns,
                )@.map_values(|c: RawSelectQueryColumn| c@) + Seq::<RawColumnV>::empty());
            }
            return Ok(());
        }
        let col = match Self::parse_query_column(parser) {
            Err(e) => {
                return Err(e);
            },
            Ok(c) => c,
        };
        proof {
            lemma_tok_end_bounds(s, i0);
            lemma_sp_column_bounds(s, tok_end(s, i0));
        }
        let ghost mid = columns@;
        columns.push(col);
        let res = Self::parse_more_columns(parser, columns);
        proof {
            if sp_parse_more_columns(s, i0) matches Ok((cols, i2)) {
                let f = |c: RawSelectQueryColumn| c@;
                assert(mid.push(col).map_values(f) =~= mid.map_values(f) + seq![col@]);
                if sp_parse_more_columns(s, parser.pos()) matches Ok(_) {
                }
                assert(old(columns)@ == mid);
            }
        }
        res
    }

    /// `comparison := column_ref CmpOp (String | Number)`.
    fn parse_comparison(parser: &mut TokenParser) -> (r: Result<
        RawSelectQueryWhereComparison,
        ParsingError,
    >)
        requires
            old(parser).wf(),
        ensures
            final(parser).wf(),
            final(parser).src() == old(parser).src(),
            match sp_parse_comparison(old(parser).src(), old(parser).pos()) {
                Ok((cmp, i2)) => (r matches Ok(out) && out@ == cmp) && final(parser).pos() == i2,
                Err(pe) => r matches Err(e) && e@ == pe,
            },
    {
        let column = match Self::parse_column_reference(parser) {
            Err(e) => {
                return Err(e);
            },
            Ok(c) => c,
        };
        let c = match parser.consume_character() {
            Err(e) => {
                return Err(e);
            },
            Ok(c) => c,
        };
        let op = match RawSelectQueryWhereExpressionOperator::of_character(c) {
            None => {
                return Err(
                    ParsingError::UnexpectedToken(
                        QueryToken::Character(CharacterToken::Comma),
                        QueryToken::Character(c),
                    ),
                );
            },
            Some(op) => op,
        };
        let value = match parser.consume_value() {
            Err(e) => {
                return Err(e);
            },
            Ok(v) => v,
        };
        Ok(RawSelectQueryWhereComparison { column, op, value })
    }
}

} // verus!
