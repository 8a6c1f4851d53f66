use sqlfront::lex::{lex_statement, Token};
use sqlfront::parse::{
    parse_statement, ColumnValue, CommandKind, JoinKey, JoinKind, ParseError, ParseState,
    Statement, TableEntry,
};

fn parse_text(text: &str) -> Result<Statement, ParseError> {
    let tokens = lex_statement(text).unwrap();
    parse_statement(&tokens)
}

fn select_of(r: Result<Statement, ParseError>) -> sqlfront::parse::SelectStatement {
    match r.unwrap() {
        Statement::Select(sel) => sel,
        other => panic!("expected a SELECT statement, got {:?}", other),
    }
}

#[test]
fn test_select_two_columns_one_table() {
    let sel = select_of(parse_text("select a, b from t;"));
    assert_eq!(
        sel.columns,
        vec![
            ColumnValue::PlainName("a".to_string()),
            ColumnValue::PlainName("b".to_string())
        ]
    );
    assert_eq!(sel.tables, vec![TableEntry::TableName("t".to_string())]);
    assert_eq!(sel.join_keys, Vec::new());
}

#[test]
fn test_select_left_join_using() {
    let sel = select_of(parse_text("select a from t1 left join t2 using(x);"));
    assert_eq!(
        sel.tables,
        vec![
            TableEntry::TableName("t1".to_string()),
            TableEntry::JoinMarker(JoinKind::Left),
            TableEntry::TableName("t2".to_string())
        ]
    );
    assert_eq!(sel.join_keys, vec![JoinKey::SingleColumn("x".to_string())]);
}

#[test]
fn test_select_function_call() {
    let sel = select_of(parse_text("select count(a) from t;"));
    assert_eq!(
        sel.columns,
        vec![ColumnValue::FunctionCall(
            "count".to_string(),
            vec![ColumnValue::PlainName("a".to_string())]
        )]
    );
}

#[test]
fn test_truncated_statement_fails() {
    let r = parse_text("select a from");
    assert_eq!(r, Err(ParseError::UnexpectedEnd(ParseState::TablesValue)));
}

#[test]
fn test_update_not_implemented() {
    let r = parse_text("update t set x=1;");
    assert_eq!(r, Err(ParseError::NotImplemented(CommandKind::Update)));
}

#[test]
fn test_insert_and_delete_not_implemented() {
    assert_eq!(
        parse_text("insert into t values(1);"),
        Err(ParseError::NotImplemented(CommandKind::Insert))
    );
    assert_eq!(
        parse_text("delete from t;"),
        Err(ParseError::NotImplemented(CommandKind::Delete))
    );
}

#[test]
fn test_unknown_command() {
    assert_eq!(parse_text("explain t;"), Err(ParseError::UnknownCommand));
}

#[test]
fn test_empty_token_sequence() {
    assert_eq!(
        parse_statement(&Vec::new()),
        Err(ParseError::UnexpectedEnd(ParseState::Command))
    );
}

#[test]
fn test_unexpected_token_names_token_and_state() {
    let r = parse_text("select ;");
    assert_eq!(
        r,
        Err(ParseError::UnexpectedToken(
            Token::Semicolon,
            ParseState::ColumnsValue
        ))
    );
    let r = parse_text("select a b from t;");
    assert_eq!(
        r,
        Err(ParseError::UnexpectedToken(
            Token::from_str("b"),
            ParseState::ColumnsNext
        ))
    );
}

#[test]
fn test_function_on_non_plain_column() {
    let r = parse_text("select \"q\"(a) from t;");
    assert_eq!(r, Err(ParseError::FunctionOnNonPlainColumn));
}

#[test]
fn test_third_using_name_is_rejected() {
    let r = parse_text("select a from t1 left join t2 using(x y z);");
    assert_eq!(r, Err(ParseError::IncompleteUsingPair));
}

#[test]
fn test_using_pair() {
    let sel = select_of(parse_text("select a from t1 inner join t2 using(x, y);"));
    assert_eq!(
        sel.join_keys,
        vec![JoinKey::ColumnPair("x".to_string(), "y".to_string())]
    );
    assert_eq!(
        sel.tables,
        vec![
            TableEntry::TableName("t1".to_string()),
            TableEntry::JoinMarker(JoinKind::Inner),
            TableEntry::TableName("t2".to_string())
        ]
    );
}

#[test]
fn test_comma_is_cross_join() {
    let sel = select_of(parse_text("select a from t1, t2;"));
    assert_eq!(
        sel.tables,
        vec![
            TableEntry::TableName("t1".to_string()),
            TableEntry::JoinMarker(JoinKind::Cross),
            TableEntry::TableName("t2".to_string())
        ]
    );
}

#[test]
fn test_right_and_natural_joins() {
    let sel = select_of(parse_text("select a from t1 right join t2 natural join t3;"));
    assert_eq!(
        sel.tables,
        vec![
            TableEntry::TableName("t1".to_string()),
            TableEntry::JoinMarker(JoinKind::Right),
            TableEntry::TableName("t2".to_string()),
            TableEntry::JoinMarker(JoinKind::Natural),
            TableEntry::TableName("t3".to_string())
        ]
    );
}

#[test]
fn test_quoted_column_keeps_delimiter() {
    let sel = select_of(parse_text("select 'col name', \"other\" from t;"));
    assert_eq!(
        sel.columns,
        vec![
            ColumnValue::QuotedName("col name".to_string(), '\''),
            ColumnValue::QuotedName("other".to_string(), '"')
        ]
    );
}

#[test]
fn test_function_with_quoted_and_several_args() {
    let sel = select_of(parse_text("select f(a, 'b c', d) from t;"));
    assert_eq!(
        sel.columns,
        vec![ColumnValue::FunctionCall(
            "f".to_string(),
            vec![
                ColumnValue::PlainName("a".to_string()),
                ColumnValue::QuotedName("b c".to_string(), '\''),
                ColumnValue::PlainName("d".to_string())
            ]
        )]
    );
}

#[test]
fn test_select_without_from_terminates() {
    let sel = select_of(parse_text("select a;"));
    assert_eq!(sel.columns, vec![ColumnValue::PlainName("a".to_string())]);
    assert_eq!(sel.tables, Vec::new());
}

#[test]
fn test_trailing_tokens_after_semicolon_fail() {
    let r = parse_text("select a; b");
    assert_eq!(
        r,
        Err(ParseError::UnexpectedToken(
            Token::from_str("b"),
            ParseState::End
        ))
    );
}

#[test]
fn test_parsing_twice_gives_identical_results() {
    let tokens = lex_statement("select count(a), b from t1 left join t2 using(x);").unwrap();
    let first = parse_statement(&tokens);
    let second = parse_statement(&tokens);
    assert_eq!(first, second);
    let bad = lex_statement("select a from").unwrap();
    assert_eq!(parse_statement(&bad), parse_statement(&bad));
}
