use http::matcher::lexer::{valid_path_char, Lexer, Token};

#[test]
fn creates_tokens_from_path_string() {
    let path = "/:user/:id/preferences";
    let mut lexer = Lexer::new(path);

    assert_eq!(lexer.next_token(), Token::Slash);
    assert_eq!(lexer.next_token(), Token::Param("user".to_string()));
    assert_eq!(lexer.next_token(), Token::Slash);
    assert_eq!(lexer.next_token(), Token::Param("id".to_string()));
    assert_eq!(lexer.next_token(), Token::Slash);
    assert_eq!(lexer.next_token(), Token::Path("preferences".to_string()));
    assert_eq!(lexer.next_token(), Token::End);
}

#[test]
fn default_index_path() {
    let path = "/";
    let mut lexer = Lexer::new(path);
    assert_eq!(lexer.next_token(), Token::Slash);

    let path = "";
    let mut lexer = Lexer::new(path);
    assert_eq!(lexer.next_token(), Token::Slash);
}

fn take(lexer: &mut Lexer, n: usize) -> Vec<Token> {
    let mut tokens = Vec::new();
    for _ in 0..n {
        tokens.push(lexer.next_token());
    }
    tokens
}

#[test]
fn end_is_returned_forever() {
    let mut lexer = Lexer::new("/:user/:id/preferences");
    let tokens = take(&mut lexer, 7);
    assert_eq!(tokens[6], Token::End);
    for _ in 0..100 {
        assert_eq!(lexer.next_token(), Token::End);
    }
}

#[test]
fn root_paths_are_slash_then_end() {
    let mut lexer = Lexer::new("");
    assert_eq!(take(&mut lexer, 3), vec![Token::Slash, Token::End, Token::End]);
    let mut lexer = Lexer::new("/");
    assert_eq!(take(&mut lexer, 3), vec![Token::Slash, Token::End, Token::End]);
}

#[test]
fn query_punctuation_has_tokens_of_its_own() {
    let mut lexer = Lexer::new("/a?x=1&y=2");
    assert_eq!(
        take(&mut lexer, 11),
        vec![
            Token::Slash,
            Token::Path("a".to_string()),
            Token::QuestionMark,
            Token::Path("x".to_string()),
            Token::EqualSign,
            Token::Path("1".to_string()),
            Token::Ampersand,
            Token::Path("y".to_string()),
            Token::EqualSign,
            Token::Path("2".to_string()),
            Token::End,
        ]
    );
}

#[test]
fn bare_colon_is_a_parameter_without_name() {
    let mut lexer = Lexer::new(":");
    assert_eq!(take(&mut lexer, 2), vec![Token::Param(String::new()), Token::End]);
    let mut lexer = Lexer::new("/:/x");
    assert_eq!(
        take(&mut lexer, 5),
        vec![
            Token::Slash,
            Token::Param(String::new()),
            Token::Slash,
            Token::Path("x".to_string()),
            Token::End,
        ]
    );
}

#[test]
fn literal_runs_are_greedy() {
    let mut lexer = Lexer::new("abc def-ghi_1.2/x");
    assert_eq!(
        take(&mut lexer, 4),
        vec![
            Token::Path("abc def-ghi_1.2".to_string()),
            Token::Slash,
            Token::Path("x".to_string()),
            Token::End,
        ]
    );
}

#[test]
fn parameter_name_stops_at_structural_character() {
    let mut lexer = Lexer::new(":a:b?c");
    assert_eq!(
        take(&mut lexer, 5),
        vec![
            Token::Param("a".to_string()),
            Token::Param("b".to_string()),
            Token::QuestionMark,
            Token::Path("c".to_string()),
            Token::End,
        ]
    );
}

#[test]
fn terminator_inside_the_input_ends_it() {
    let mut lexer = Lexer::new("a\0b");
    assert_eq!(
        take(&mut lexer, 4),
        vec![Token::Path("a".to_string()), Token::End, Token::End, Token::End]
    );
}

#[test]
fn non_ascii_characters_are_literal() {
    let mut lexer = Lexer::new("/caf\u{e9}/:na\u{ef}ve");
    assert_eq!(
        take(&mut lexer, 5),
        vec![
            Token::Slash,
            Token::Path("caf\u{e9}".to_string()),
            Token::Slash,
            Token::Param("na\u{ef}ve".to_string()),
            Token::End,
        ]
    );
}

#[test]
fn structural_characters_are_no_path_characters() {
    for c in [':', '/', '\0', '?', '=', '&'] {
        assert!(!valid_path_char(c));
    }
    for c in ['a', 'Z', '0', '-', '_', '.', ' ', '%', '\u{e9}'] {
        assert!(valid_path_char(c));
    }
}
