use sv_explorer_args::ast::{parse, parse_line, Command, DefineArgs, FileArgs, IncludeArgs};

#[test]
fn ast_parse_define() {
    let result = parse_line("+define+MY_NAME=true").unwrap();
    assert_eq!(
        result,
        Command::Define {
            define: "MY_NAME".to_string(),
            arg: Some("true".to_string())
        }
    );
}

#[test]
fn parse_define_string_arg() {
    let result = parse_line("+define+MY_NAME=\"true\"").unwrap();
    assert_eq!(
        result,
        Command::Define {
            define: "MY_NAME".to_string(),
            arg: Some("true".to_string())
        }
    );
}

#[test]
fn parse_define_no_arg() {
    let result = parse_line("+define+I_AM_DEFINED").unwrap();
    assert_eq!(
        result,
        Command::Define {
            define: "I_AM_DEFINED".to_string(),
            arg: None,
        }
    );
}

#[test]
fn ast_parse_incdir() {
    let result = parse_line("+incdir+../../path/to/dir/").unwrap();
    assert_eq!(
        result,
        Command::Include {
            directory: "../../path/to/dir/".to_string(),
        }
    );
}

#[test]
fn ast_parse_v() {
    let result = parse_line("-v ../../path/to/file.sv").unwrap();
    assert_eq!(
        result,
        Command::V {
            library_file: "../../path/to/file.sv".to_string(),
        }
    );
}

#[test]
fn ast_parse_y() {
    let result = parse_line("-y ../../path/to/dir/").unwrap();
    assert_eq!(
        result,
        Command::Y {
            library_dir: "../../path/to/dir/".to_string(),
        }
    );
}

#[test]
fn parse_sv_file() {
    let result = parse_line("../../path/to/file.sv").unwrap();
    assert_eq!(
        result,
        Command::File {
            file: "../../path/to/file.sv".to_string(),
        }
    );
}

fn filelist_lines() -> Vec<String> {
    vec![
        "+define+DEFINE1=true".to_string(),
        "+incdir+../sv/".to_string(),
        "../sv/adder.sv".to_string(),
        "# a comment".to_string(),
        "+define+DEFINE3".to_string(),
        "../sv/mult.sv".to_string(),
        "+define+DEFINE2=\"true\"".to_string(),
        "/generated_src/chipyard.to.SomeConfig/gen_collateral/FixedClockBroadcast_4.sv"
            .to_string(),
    ]
}

#[test]
fn sv_explorer_args_tests_parse_filelist() {
    let result = parse(&filelist_lines()).unwrap();
    let (defines, includes, files) = (result.defines, result.includes, result.files);
    assert_eq!(
        defines,
        vec![
            DefineArgs {
                define: "DEFINE1".to_string(),
                arg: Some("true".to_string())
            },
            DefineArgs {
                define: "DEFINE3".to_string(),
                arg: None
            },
            DefineArgs {
                define: "DEFINE2".to_string(),
                arg: Some("true".to_string())
            }
        ]
    );
    assert_eq!(
        includes,
        vec![IncludeArgs {
            include_dir: "../sv/".to_string()
        },]
    );
    assert_eq!(
        files,
        vec![
            FileArgs {
                file: "../sv/adder.sv".to_string(),
            },
            FileArgs {
                file: "../sv/mult.sv".to_string(),
            },
            FileArgs {
                file: "/generated_src/chipyard.to.SomeConfig/gen_collateral/FixedClockBroadcast_4.sv"
                    .to_string()
            }
        ],
    );
}

#[test]
fn sv_explorer_tests_parse_filelist() {
    let result = parse(&filelist_lines());
    assert!(result.is_ok());
}
