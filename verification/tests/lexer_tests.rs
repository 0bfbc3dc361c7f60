use sv_explorer_args::lexer::{ArgumentError, Lexer, Token};

#[test]
fn lexer_parse_define() {
    let mut lex = Lexer::new("+define+MY_NAME=true");
    assert_eq!(lex.next_token(), Some(Ok((0, Token::Define, 8))));
    assert_eq!(
        lex.next_token(),
        Some(Ok((8, Token::PathContent("MY_NAME".to_string()), 15)))
    );
    assert_eq!(lex.next_token(), Some(Ok((15, Token::Equals, 16))));
    assert_eq!(
        lex.next_token(),
        Some(Ok((16, Token::PathContent("true".to_string()), 20)))
    );
    assert_eq!(lex.next_token(), None)
}

#[test]
fn lexer_parse_incdir() {
    let mut lex = Lexer::new("+incdir+../path/to/include_dir/");
    assert_eq!(lex.next_token(), Some(Ok((0, Token::IncludeDir, 8))));
    assert_eq!(
        lex.next_token(),
        Some(Ok((
            8,
            Token::PathContent("../path/to/include_dir/".to_string()),
            31
        )))
    );
    assert_eq!(lex.next_token(), None)
}

#[test]
fn parse_empty_define() {
    let mut lex = Lexer::new("+define+RUN_GATE_SIMS");
    assert_eq!(lex.next_token(), Some(Ok((0, Token::Define, 8))));
    assert_eq!(
        lex.next_token(),
        Some(Ok((8, Token::PathContent("RUN_GATE_SIMS".to_string()), 21)))
    );
    assert_eq!(lex.next_token(), None)
}

#[test]
fn lexer_parse_v() {
    let mut lex = Lexer::new("-v ./path/to/file.v");
    assert_eq!(lex.next_token(), Some(Ok((0, Token::V, 2))));
    assert_eq!(
        lex.next_token(),
        Some(Ok((3, Token::PathContent("./path/to/file.v".to_string()), 19)))
    );
    assert_eq!(lex.next_token(), None)
}

#[test]
fn lexer_parse_y() {
    let mut lex = Lexer::new("-y /path/to/dir");
    assert_eq!(lex.next_token(), Some(Ok((0, Token::Y, 2))));
    assert_eq!(
        lex.next_token(),
        Some(Ok((3, Token::PathContent("/path/to/dir".to_string()), 15)))
    );
    assert_eq!(lex.next_token(), None)
}

#[test]
fn parse_full_path_to_file() {
    let mut lex = Lexer::new("/path/to/file.v");
    assert_eq!(
        lex.next_token(),
        Some(Ok((0, Token::PathContent("/path/to/file.v".to_string()), 15)))
    );
    assert_eq!(lex.next_token(), None)
}

#[test]
fn lexer_reports_invalid_character() {
    let mut lex = Lexer::new("+foo");
    assert_eq!(lex.next_token(), Some(Err(ArgumentError::InvalidToken)));
    assert_eq!(lex.current_position(), 1);
    assert_eq!(
        lex.next_token(),
        Some(Ok((1, Token::PathContent("foo".to_string()), 4)))
    );
    assert_eq!(lex.next_token(), None);
}

#[test]
fn lexer_iteration_terminates_after_error() {
    let mut lex = Lexer::new("!");
    assert_eq!(lex.next_token(), Some(Err(ArgumentError::InvalidToken)));
    assert_eq!(lex.next_token(), None);
    assert_eq!(lex.next_token(), None);
}

#[test]
fn lexer_skips_comment_to_end_of_line() {
    let mut lex = Lexer::new("a # trailing words = \"1\"");
    assert_eq!(
        lex.next_token(),
        Some(Ok((0, Token::PathContent("a".to_string()), 1)))
    );
    assert_eq!(lex.next_token(), None);
}

#[test]
fn lexer_token_text_round_trips() {
    let mut lex = Lexer::new("+incdir+abc");
    let (_, flag, _) = lex.next_token().unwrap().unwrap();
    assert_eq!(flag.text(), "+incdir+");
    let (_, path, _) = lex.next_token().unwrap().unwrap();
    assert_eq!(path.text(), "abc");
    assert_eq!(Token::V.text(), "-v");
    assert_eq!(Token::Y.text(), "-y");
    assert_eq!(Token::Equals.text(), "=");
    assert_eq!(Token::Quotes.text(), "\"");
    assert_eq!(Token::Define.text(), "+define+");
}
