use sqlfront::lex::{lex_statement, render_tokens, LexError, Token};

#[test]
fn lex_test_one_token() {
    assert!(lex_statement("token") == Ok(Token::from_str_vec(vec!["token"])));
}

#[test]
fn lex_test_two_tokens() {
    assert!(lex_statement("token1 token2") == Ok(Token::from_str_vec(vec!["token1", "token2"])));
}

#[test]
fn lex_test_newline() {
    assert!(lex_statement("token1\ntoken2") == Ok(Token::from_str_vec(vec!["token1", "token2"])));
}

#[test]
fn lex_test_quoted_tokens_one() {
    assert!(
        lex_statement("token1\"token2 \"") == Ok(Token::from_str_vec(vec!["token1", "token2 "]))
    );
}

#[test]
fn lex_test_quoted_tokens_two() {
    assert!(
        lex_statement("token1\"token2 tok\"en3")
            == Ok(Token::from_str_vec(vec!["token1", "token2 tok", "en3"]))
    );
}

#[test]
fn lex_test_escaping_one() {
    assert!(
        lex_statement("token1\\\\ token2") == Ok(Token::from_str_vec(vec!["token1\\", "token2"]))
    );
}

#[test]
fn lex_test_quote_escape() {
    assert!(
        lex_statement("\"token1 \\\" token2\"")
            == Ok(Token::from_str_vec(vec!["token1 \" token2"]))
    );
}

#[test]
fn test_comma() {
    assert!(
        lex_statement("token1,token2, token3 ,token4")
            == Ok(Token::from_str_vec(vec![
                "token1", ",", "token2", ",", "token3", ",", "token4"
            ]))
    );
}

#[test]
fn test_parens() {
    assert!(
        lex_statement("token1( token2 )token3")
            == Ok(Token::from_str_vec(vec!["token1", "(", "token2", ")", "token3"]))
    );
}

#[test]
fn test_parens_with_commas_quotes_escapes() {
    assert!(
        lex_statement("\\(token1 (token2, token3, to\"ken4, \"token5\\, token6\\))")
            == Ok(Token::from_str_vec(vec![
                "(token1", "(", "token2", ",", "token3", ",", "to", "ken4, ", "token5,",
                "token6)", ")"
            ]))
    );
}

#[test]
fn test_unbalanced_quotes_one() {
    let str = "token1 \"token2";
    assert!(lex_statement(str) == Err(LexError::UnmatchedQuote));
}

#[test]
fn test_unbalanced_quotes_two() {
    let str = "token1\"token2\\\"";
    assert!(lex_statement(str) == Err(LexError::UnmatchedQuote));
}

#[test]
fn test_unbalanced_escape() {
    let str = "token1\\";
    assert!(lex_statement(str) == Err(LexError::UnmatchedEscape));
}

#[test]
fn test_empty_input() {
    assert!(lex_statement("") == Ok(Vec::new()));
}

#[test]
fn test_whitespace_only_separation() {
    assert!(
        lex_statement("  foo \t bar\nbaz  ") == Ok(Token::from_str_vec(vec!["foo", "bar", "baz"]))
    );
}

#[test]
fn test_escaped_backslash_is_one_literal_backslash() {
    assert!(lex_statement("a\\\\b") == Ok(Token::from_str_vec(vec!["a\\b"])));
}

#[test]
fn test_escape_beats_punctuation_and_quotes() {
    assert!(lex_statement("a\\(b") == Ok(Token::from_str_vec(vec!["a(b"])));
    assert!(lex_statement("a\\)b") == Ok(Token::from_str_vec(vec!["a)b"])));
    assert!(lex_statement("a\\,b") == Ok(Token::from_str_vec(vec!["a,b"])));
    assert!(lex_statement("a\\;b") == Ok(Token::from_str_vec(vec!["a;b"])));
    assert!(lex_statement("a\\'b") == Ok(Token::from_str_vec(vec!["a'b"])));
    assert!(lex_statement("a\\\"b") == Ok(Token::from_str_vec(vec!["a\"b"])));
    assert!(lex_statement("a\\ b") == Ok(Token::from_str_vec(vec!["a b"])));
}

#[test]
fn test_unmatched_quote_any_position() {
    assert!(lex_statement("\"abc") == Err(LexError::UnmatchedQuote));
    assert!(lex_statement("abc\"def") == Err(LexError::UnmatchedQuote));
    assert!(lex_statement("a b c 'x") == Err(LexError::UnmatchedQuote));
}

#[test]
fn test_empty_quoted_text_is_dropped() {
    assert!(lex_statement("''") == Ok(Vec::new()));
    assert!(lex_statement("\"\"abc") == Ok(Token::from_str_vec(vec!["abc"])));
    assert!(lex_statement("a '' b") == Ok(Token::from_str_vec(vec!["a", "b"])));
}

#[test]
fn test_relex_of_rendering_is_stable() {
    let first = lex_statement("select 'a b' , count ( x ) from t ;").unwrap();
    let rendering = render_tokens(&first);
    assert_eq!(rendering, "select 'a b' , count ( x ) from t ;");
    let second = lex_statement(rendering.as_str()).unwrap();
    assert!(first == second);
    assert_eq!(render_tokens(&second), rendering);
}

#[test]
fn test_get_str_and_len() {
    let tokens = lex_statement("abc 'q t',").unwrap();
    assert_eq!(tokens.len(), 3);
    assert_eq!(tokens[0].get_str(), "abc");
    assert_eq!(tokens[1].get_str(), "q t");
    assert_eq!(tokens[2].get_str(), ",");
    assert_eq!(tokens[0].len(), 3);
    assert_eq!(tokens[1].len(), 3);
    assert_eq!(tokens[2].len(), 1);
}

#[test]
fn test_equality_ignores_category() {
    let tokens = lex_statement("',' \",\"").unwrap();
    assert_eq!(tokens.len(), 2);
    assert!(tokens[0] == Token::Comma);
    assert!(tokens[1] == Token::Comma);
    assert!(Token::from_str(";") == Token::Semicolon);
    assert!(Token::from_str("(") == Token::LeftParen);
    assert!(Token::from_str(")") == Token::RightParen);
    assert!(Token::from_str("a") != Token::from_str("b"));
}

#[test]
fn test_render() {
    let tokens = lex_statement("'a b' c,(").unwrap();
    assert_eq!(tokens[0].render(), "'a b'");
    assert_eq!(tokens[1].render(), "c");
    assert_eq!(tokens[2].render(), ",");
    assert_eq!(tokens[3].render(), "(");
}
