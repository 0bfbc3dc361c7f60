use sv_explorer_args::ast::{
    parse, parse_line, Command, CommandParseError, DefineArgs, FileArgs, IncludeArgs, LibraryArgs,
};
use sv_explorer_args::lexer::Token;

#[test]
fn define_without_value_has_none() {
    let result = parse_line("+define+GATE_SIM").unwrap();
    assert_eq!(
        result,
        Command::Define {
            define: "GATE_SIM".to_string(),
            arg: None
        }
    );
}

#[test]
fn quoted_and_unquoted_define_values_agree() {
    let unquoted = parse_line("+define+TEST_NAME=check_performance");
    let quoted = parse_line("+define+TEST_NAME=\"check_performance\"");
    assert_eq!(unquoted, quoted);
    assert_eq!(
        unquoted.unwrap(),
        Command::Define {
            define: "TEST_NAME".to_string(),
            arg: Some("check_performance".to_string())
        }
    );
}

#[test]
fn path_text_is_preserved_byte_for_byte() {
    assert_eq!(
        parse_line("+incdir+..//__a..b//").unwrap(),
        Command::Include {
            directory: "..//__a..b//".to_string()
        }
    );
    assert_eq!(
        parse_line("-v ../lib/old.v").unwrap(),
        Command::V {
            library_file: "../lib/old.v".to_string()
        }
    );
    assert_eq!(
        parse_line("-y ../module_directory/").unwrap(),
        Command::Y {
            library_dir: "../module_directory/".to_string()
        }
    );
    assert_eq!(
        parse_line("._x0/Y.z").unwrap(),
        Command::File {
            file: "._x0/Y.z".to_string()
        }
    );
}

#[test]
fn reparsing_a_line_yields_equal_commands() {
    let first = parse_line("+define+DEFINE1=true");
    let second = parse_line("+define+DEFINE1=true");
    assert_eq!(first, second);
    let first_err = parse_line("+define+");
    let second_err = parse_line("+define+");
    assert_eq!(first_err, second_err);
}

#[test]
fn defines_keep_their_order_across_other_kinds() {
    let lines: Vec<String> = vec![
        "+define+D1".to_string(),
        "+incdir+i1/".to_string(),
        "+define+D2".to_string(),
        "f1.sv".to_string(),
        "+define+D3".to_string(),
    ];
    let result = parse(&lines).unwrap();
    assert_eq!(
        result.defines,
        vec![
            DefineArgs {
                define: "D1".to_string(),
                arg: None
            },
            DefineArgs {
                define: "D2".to_string(),
                arg: None
            },
            DefineArgs {
                define: "D3".to_string(),
                arg: None
            },
        ]
    );
    assert_eq!(
        result.includes,
        vec![IncludeArgs {
            include_dir: "i1/".to_string()
        }]
    );
    assert_eq!(
        result.files,
        vec![FileArgs {
            file: "f1.sv".to_string()
        }]
    );
}

#[test]
fn comments_and_blanks_do_not_shift_line_numbers() {
    let lines: Vec<String> = vec![
        "+define+A".to_string(),
        "# comment".to_string(),
        "".to_string(),
        "   ".to_string(),
        "-v".to_string(),
    ];
    let err = parse(&lines).unwrap_err();
    assert_eq!(err.line_number, 4);
    assert_eq!(err.line, "-v");
    assert_eq!(err.error, CommandParseError::UnexpectedEndOfInput);
    assert_eq!(
        err.parsed.defines,
        vec![DefineArgs {
            define: "A".to_string(),
            arg: None
        }]
    );
    assert!(err.parsed.includes.is_empty());
    assert!(err.parsed.files.is_empty());
    assert!(err.parsed.libraries.is_empty());
}

#[test]
fn define_without_name_is_end_of_input() {
    assert_eq!(
        parse_line("+define+"),
        Err(CommandParseError::UnexpectedEndOfInput)
    );
}

#[test]
fn library_flag_without_path_is_end_of_input() {
    assert_eq!(parse_line("-v"), Err(CommandParseError::UnexpectedEndOfInput));
    assert_eq!(parse_line("-y"), Err(CommandParseError::UnexpectedEndOfInput));
}

#[test]
fn define_with_trailing_equals_is_an_error() {
    assert_eq!(
        parse_line("+define+NAME="),
        Err(CommandParseError::UnexpectedEndOfInput)
    );
}

#[test]
fn empty_line_is_end_of_input_for_a_single_line() {
    assert_eq!(parse_line(""), Err(CommandParseError::UnexpectedEndOfInput));
}

#[test]
fn invalid_characters_are_lexical_errors() {
    assert_eq!(
        parse_line("+foo"),
        Err(CommandParseError::InvalidToken { position: 0 })
    );
    assert_eq!(
        parse_line("-x"),
        Err(CommandParseError::InvalidToken { position: 0 })
    );
    assert_eq!(
        parse_line("abc !"),
        Err(CommandParseError::InvalidToken { position: 4 })
    );
}

#[test]
fn token_out_of_place_is_unexpected() {
    assert_eq!(
        parse_line("=x"),
        Err(CommandParseError::UnexpectedToken {
            token: Token::Equals,
            position: 0
        })
    );
    assert_eq!(
        parse_line("+define+N=\"\""),
        Err(CommandParseError::UnexpectedToken {
            token: Token::Quotes,
            position: 11
        })
    );
}

#[test]
fn unclosed_quote_is_end_of_input() {
    assert_eq!(
        parse_line("+define+N=\"v"),
        Err(CommandParseError::UnexpectedEndOfInput)
    );
}

#[test]
fn extra_tokens_after_a_directive_are_trailing() {
    assert_eq!(
        parse_line("a b"),
        Err(CommandParseError::TrailingInput {
            token: Token::PathContent("b".to_string()),
            position: 2
        })
    );
    assert_eq!(
        parse_line("+incdir+a/ b/"),
        Err(CommandParseError::TrailingInput {
            token: Token::PathContent("b/".to_string()),
            position: 11
        })
    );
}

#[test]
fn define_token_combines_name_and_value() {
    let with_value = DefineArgs {
        define: "DEFINE1".to_string(),
        arg: Some("true".to_string()),
    };
    assert_eq!(with_value.token(), "DEFINE1=true");
    let bare = DefineArgs {
        define: "DEFINE3".to_string(),
        arg: None,
    };
    assert_eq!(bare.token(), "DEFINE3");
}

#[test]
fn end_to_end_filelist_scenario() {
    let lines: Vec<String> = vec![
        "+define+DEFINE1=true".to_string(),
        "+incdir+../sv/".to_string(),
        "../sv/adder.sv".to_string(),
        "# comment".to_string(),
        "+define+DEFINE3".to_string(),
        "-v ../lib/old.v".to_string(),
    ];
    let result = parse(&lines).unwrap();
    assert_eq!(
        result.define_tokens(),
        vec!["DEFINE1=true".to_string(), "DEFINE3".to_string()]
    );
    assert_eq!(
        result.includes,
        vec![IncludeArgs {
            include_dir: "../sv/".to_string()
        }]
    );
    assert_eq!(
        result.files,
        vec![FileArgs {
            file: "../sv/adder.sv".to_string()
        }]
    );
    assert_eq!(
        result.libraries,
        vec![LibraryArgs::File {
            library_file: "../lib/old.v".to_string()
        }]
    );
}
