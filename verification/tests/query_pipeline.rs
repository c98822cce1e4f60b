//! The query pipeline end to end: lexer, parser, resolver, executor.

use kronkstore::db::Database;
use kronkstore::lex::{CharacterToken, KeywordToken, LexingError, QueryToken, TokenIterator};
use kronkstore::parse::{ParsingError, RawParse, RawSelectQueryWhereExpression};
use kronkstore::query::{QueryError, ResolveError, SelectQuery};
use kronkstore::schema::{ColumnDataType, TableDescriptor};

fn books_db() -> Database {
    let mut db = Database::new("my_db");
    let t = TableDescriptor::new(
        "books",
        vec![
            ("id", ColumnDataType::SerialId),
            ("author", ColumnDataType::Byte(64)),
            ("title", ColumnDataType::Byte(64)),
            ("year_published", ColumnDataType::Int32),
            ("us_based_publisher", ColumnDataType::Boolean),
        ],
    )
    .unwrap();
    db.add_table(t).unwrap();
    db
}

fn insert_book(db: &mut Database, author: &str, title: &str, year: &str) {
    db.insert_columns(
        "books",
        &[("author", author), ("title", title), ("year_published", year)],
    )
    .unwrap();
}

fn seven_books(db: &mut Database) {
    insert_book(db, "Billy Bob", "How to Sting Like a Bee", "1932");
    insert_book(db, "Stink Williams", "Singing for Frogs", "1921");
    insert_book(db, "Stink Williams", "Singing for Woodland Creatures", "1923");
    insert_book(db, "Stink Williams", "Dancing for the Everyday Man", "1937");
    insert_book(db, "Stink Williams", "O My Friend, How Art Thee", "1924");
    insert_book(db, "Stink Williams", "Singing for Woodland Creatures", "1923");
    insert_book(db, "joseph", "My Lumps My Bumps", "1917");
}

#[test]
fn lexer_splits_a_query_into_tokens() {
    let mut it = TokenIterator::new("select id, a.b from books where year_published >= 1930");
    let mut toks: Vec<QueryToken> = Vec::new();
    while let Some(t) = it.next() {
        toks.push(t.unwrap());
    }
    assert!(matches!(toks[0], QueryToken::Keyword(KeywordToken::Select)));
    assert!(matches!(&toks[1], QueryToken::String(s) if s == "id"));
    assert!(matches!(toks[2], QueryToken::Character(CharacterToken::Comma)));
    assert!(matches!(&toks[3], QueryToken::String(s) if s == "a"));
    assert!(matches!(toks[4], QueryToken::Character(CharacterToken::Dot)));
    assert!(matches!(&toks[5], QueryToken::String(s) if s == "b"));
    assert!(matches!(toks[6], QueryToken::Keyword(KeywordToken::From)));
    assert!(matches!(&toks[7], QueryToken::String(s) if s == "books"));
    assert!(matches!(toks[8], QueryToken::Keyword(KeywordToken::Where)));
    assert!(matches!(&toks[9], QueryToken::String(s) if s == "year_published"));
    assert!(matches!(toks[10], QueryToken::Character(CharacterToken::GreaterEqual)));
    assert!(matches!(&toks[11], QueryToken::Number(s) if s == "1930"));
    assert_eq!(toks.len(), 12);
}

#[test]
fn lexer_reads_quoted_strings_with_escapes() {
    let mut it = TokenIterator::new("  \"Stink \\\"W\\\"\"  ");
    let t = it.next().unwrap().unwrap();
    assert!(matches!(&t, QueryToken::String(s) if s == "Stink \"W\""));
    assert!(it.next().is_none());
}

#[test]
fn lexer_is_idempotent_on_a_token_source() {
    // the source of a lexed token re-lexes to the same single token
    let mut it = TokenIterator::new("select");
    let t = it.next().unwrap().unwrap();
    assert!(matches!(t, QueryToken::Keyword(KeywordToken::Select)));
    assert!(it.next().is_none());
    let mut it2 = TokenIterator::new("1930");
    let t2 = it2.next().unwrap().unwrap();
    assert!(matches!(&t2, QueryToken::Number(s) if s == "1930"));
    assert!(it2.next().is_none());
}

#[test]
fn token_spans_are_disjoint_and_inside_the_input() {
    let text = "select id from books where author == \"a b\"";
    let mut it = TokenIterator::new(text);
    let mut last_end = 0usize;
    while let Some(t) = it.next() {
        t.unwrap();
        // the cursor after a token never runs past the input and never
        // moves backwards: consecutive token spans are disjoint
        assert!(it.index > last_end);
        assert!(it.index <= it.token_string.len());
        last_end = it.index;
    }
}

#[test]
fn resolution_only_binds_columns_of_the_named_table() {
    let db = books_db();
    let q = SelectQuery::parse_query_string(
        "select title, id from books where year_published >= 1930",
        &db,
    )
    .unwrap();
    assert_eq!(q.table.table_name, "books");
    for c in &q.columns {
        let owner = q
            .table
            .columns
            .iter()
            .find(|tc| tc.name == c.name)
            .expect("projected column must come from the table");
        assert_eq!(owner.offset, c.offset);
        assert_eq!(owner.datatype, c.datatype);
    }
    let pred = q.where_predicate.as_ref().unwrap();
    for cond in &pred.conditions {
        assert!(q.table.columns.iter().any(|tc| tc.name == cond.column.name
            && tc.offset == cond.column.offset));
    }
}

#[test]
fn lexer_stops_at_the_first_error() {
    let mut it = TokenIterator::new("id ^ more");
    assert!(matches!(it.next(), Some(Ok(QueryToken::String(_)))));
    assert!(matches!(
        it.next(),
        Some(Err(LexingError::UnexpectedCharacter('^')))
    ));
    assert!(it.next().is_none());
}

#[test]
fn lexer_handles_lone_comparators() {
    let mut it = TokenIterator::new("a < b");
    assert!(matches!(it.next(), Some(Ok(QueryToken::String(_)))));
    assert!(matches!(
        it.next(),
        Some(Ok(QueryToken::Character(CharacterToken::LessThan)))
    ));
    assert!(matches!(it.next(), Some(Ok(QueryToken::String(s))) if s == "b"));
    let mut it = TokenIterator::new("=");
    assert!(matches!(
        it.next(),
        Some(Err(LexingError::UnexpectedCharacter('=')))
    ));
}

#[test]
fn parser_builds_the_raw_tree() {
    let q = RawParse::parse_string("select t.id as key, title from books t where id != 3")
        .unwrap();
    assert_eq!(q.table_name, "books");
    assert_eq!(q.table_identifier.as_deref(), Some("t"));
    assert_eq!(q.columns.len(), 2);
    assert_eq!(q.columns[0].column.column_name, "id");
    assert_eq!(q.columns[0].column.table_identifier.as_deref(), Some("t"));
    assert_eq!(q.columns[0].as_name.as_deref(), Some("key"));
    assert_eq!(q.columns[1].column.column_name, "title");
    assert!(q.columns[1].as_name.is_none());
    match q.where_expression.unwrap() {
        RawSelectQueryWhereExpression::Single(cmp) => {
            assert_eq!(cmp.column.column_name, "id");
            assert_eq!(cmp.value, "3");
        },
        _ => panic!("grammar only produces single comparisons"),
    }
}

#[test]
fn scan_all_returns_the_inserted_row() {
    let mut db = books_db();
    insert_book(&mut db, "Billy Bob", "How to Sting Like a Bee", "1932");
    let q = SelectQuery::parse_query_string("select id, author, year_published from books", &db)
        .unwrap();
    let res = db.query(&q).unwrap();
    assert_eq!(res.len(), 1);
    assert_eq!(res[0].0, 0);
    assert_eq!(
        res[0].1,
        vec![
            ("id".to_string(), "0".to_string()),
            ("author".to_string(), "Billy Bob".to_string()),
            ("year_published".to_string(), "1932".to_string()),
        ]
    );
}

#[test]
fn scan_assigns_sequential_ids() {
    let mut db = books_db();
    seven_books(&mut db);
    let q = SelectQuery::parse_query_string("select id from books", &db).unwrap();
    let res = db.query(&q).unwrap();
    assert_eq!(res.len(), 7);
    for (k, row) in res.iter().enumerate() {
        assert_eq!(row.0, k as u64);
    }
}

#[test]
fn numeric_ordering_where() {
    let mut db = books_db();
    seven_books(&mut db);
    let q = SelectQuery::parse_query_string(
        "select id, title, year_published from books where year_published >= 1930",
        &db,
    )
    .unwrap();
    let res = db.query(&q).unwrap();
    assert_eq!(res.len(), 2);
    assert_eq!(res[0].0, 0);
    assert_eq!(res[1].0, 3);
}

#[test]
fn equality_on_byte_column() {
    let mut db = books_db();
    seven_books(&mut db);
    let q = SelectQuery::parse_query_string(
        "select id, title from books where author == \"Stink Williams\"",
        &db,
    )
    .unwrap();
    let res = db.query(&q).unwrap();
    assert_eq!(res.len(), 5);
    let ids: Vec<u64> = res.iter().map(|r| r.0).collect();
    assert_eq!(ids, vec![1, 2, 3, 4, 5]);
}

#[test]
fn boolean_equality_where() {
    let mut db = books_db();
    insert_book(&mut db, "a", "b", "1900");
    db.insert_columns(
        "books",
        &[("author", "c"), ("title", "d"), ("year_published", "1901"), (
            "us_based_publisher",
            "true",
        )],
    )
    .unwrap();
    let q = SelectQuery::parse_query_string(
        "select id from books where us_based_publisher == true",
        &db,
    )
    .unwrap();
    let res = db.query(&q).unwrap();
    assert_eq!(res.len(), 1);
    assert_eq!(res[0].0, 1);
}

#[test]
fn empty_projection_still_yields_rows() {
    let mut db = books_db();
    seven_books(&mut db);
    let q = SelectQuery::parse_query_string("select id from books", &db).unwrap();
    let res = db.query(&q).unwrap();
    assert_eq!(res.len(), 7);
}

#[test]
fn lex_and_parse_errors_are_surfaced() {
    let db = books_db();
    let err =
        SelectQuery::parse_query_string("select id from books where year_published >", &db)
            .unwrap_err();
    assert!(matches!(
        err,
        QueryError::Parse(ParsingError::UnexpectedEndOfInput)
    ));

    let err = SelectQuery::parse_query_string("select id from books where ^", &db).unwrap_err();
    assert!(matches!(
        err,
        QueryError::Parse(ParsingError::Lexing(LexingError::UnexpectedCharacter('^')))
    ));

    let err = SelectQuery::parse_query_string("select from books", &db).unwrap_err();
    match err {
        QueryError::Parse(ParsingError::UnexpectedToken(expected, actual)) => {
            assert!(matches!(expected, QueryToken::String(_)));
            assert!(matches!(actual, QueryToken::Keyword(KeywordToken::From)));
        },
        other => panic!("expected an unexpected-token error, got {:?}", other),
    }
}

#[test]
fn unknown_projection_column_is_a_missing_column() {
    let db = books_db();
    let err = SelectQuery::parse_query_string("select nonesuch from books", &db).unwrap_err();
    match err {
        QueryError::Resolve(ResolveError::MissingColumn(name)) => assert_eq!(name, "nonesuch"),
        other => panic!("expected a missing-column error, got {:?}", other),
    }
}

#[test]
fn unknown_table_is_an_invalid_table() {
    let db = books_db();
    let err = SelectQuery::parse_query_string("select id from nowhere", &db).unwrap_err();
    assert!(matches!(
        err,
        QueryError::Resolve(ResolveError::InvalidTable(name)) if name == "nowhere"
    ));
}

#[test]
fn ordering_on_equality_only_columns_is_rejected() {
    let db = books_db();
    let err = SelectQuery::parse_query_string(
        "select id from books where author > \"m\"",
        &db,
    )
    .unwrap_err();
    assert!(matches!(
        err,
        QueryError::Resolve(ResolveError::InvalidComparison(ColumnDataType::Byte(64), _))
    ));
}

#[test]
fn unparseable_where_value_is_rejected() {
    let db = books_db();
    let err = SelectQuery::parse_query_string(
        "select id from books where year_published == soon",
        &db,
    )
    .unwrap_err();
    assert!(matches!(
        err,
        QueryError::Resolve(ResolveError::UnparseableValue(v)) if v == "soon"
    ));
}

#[test]
fn unterminated_strings_and_bad_escapes_are_lexer_errors() {
    let mut it = TokenIterator::new("\"abc");
    assert!(matches!(
        it.next(),
        Some(Err(LexingError::UnexpectedEndOfInput))
    ));
    let mut it = TokenIterator::new("\"a\\x\"");
    assert!(matches!(
        it.next(),
        Some(Err(LexingError::InvalidEscapeCharacter('x')))
    ));
}

#[test]
fn a_rejected_insert_value_names_its_column() {
    let mut db = books_db();
    let err = db
        .insert_columns("books", &[("year_published", "soon")])
        .unwrap_err();
    match err {
        kronkstore::store::StorageError::EncodingError(column, reason) => {
            assert_eq!(column, "year_published");
            assert_eq!(
                reason,
                kronkstore::schema::SchemaError::UnparseableValue("soon".to_string())
            );
        },
        other => panic!("expected an encoding error, got {:?}", other),
    }
}

#[test]
fn inserting_into_a_missing_table_fails() {
    let mut db = books_db();
    let err = db.insert_columns("tapes", &[]).unwrap_err();
    assert!(matches!(
        err,
        kronkstore::store::StorageError::NoSuchTable(name) if name == "tapes"
    ));
}
