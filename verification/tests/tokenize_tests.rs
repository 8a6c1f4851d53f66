use sqlfront::tokenize::{lex_statement, Token};

#[test]
fn parser_test_one_token() {
    assert!(lex_statement("token") == Some(Token::from_str_vec(vec!["token"])));
}

#[test]
fn parser_test_two_tokens() {
    assert!(lex_statement("token1 token2") == Some(Token::from_str_vec(vec!["token1", "token2"])));
}

#[test]
fn parser_test_newline() {
    assert!(lex_statement("token1\ntoken2") == Some(Token::from_str_vec(vec!["token1", "token2"])));
}

#[test]
fn parser_test_quoted_tokens_one() {
    assert!(
        lex_statement("token1\"token2 \"") == Some(Token::from_str_vec(vec!["token1", "token2 "]))
    );
}

#[test]
fn parser_test_quoted_tokens_two() {
    assert!(
        lex_statement("token1\"token2 tok\"en3")
            == Some(Token::from_str_vec(vec!["token1", "token2 tok", "en3"]))
    );
}

#[test]
fn parser_test_escaping_one() {
    assert!(
        lex_statement("token1\\\\ token2") == Some(Token::from_str_vec(vec!["token1\\", "token2"]))
    );
}

#[test]
fn parser_test_quote_escape() {
    assert!(
        lex_statement("\"token1 \\\" token2\"")
            == Some(Token::from_str_vec(vec!["token1 \" token2"]))
    );
}

#[test]
fn test_punctuation_is_not_split() {
    assert!(lex_statement("a,b (c);") == Some(Token::from_str_vec(vec!["a,b", "(c);"])));
}

#[test]
fn test_open_escape_or_quote_is_none() {
    assert!(lex_statement("token1\\") == None);
    assert!(lex_statement("token1 \"token2") == None);
}

#[test]
fn test_push_and_len() {
    let mut t = Token::new();
    assert_eq!(t.len(), 0);
    t.push('a');
    t.push('b');
    assert_eq!(t.len(), 2);
    assert!(t == Token::from_str("ab"));
}

#[test]
fn test_quote_delimiter_is_recorded() {
    let tokens = lex_statement("plain 'quoted'").unwrap();
    assert_eq!(tokens.len(), 2);
    assert_eq!(tokens[0].quoted, None);
    assert_eq!(tokens[1].quoted, Some('\''));
    assert_eq!(tokens[0].token, "plain");
    assert_eq!(tokens[1].token, "quoted");
}
