//! Grammar and aggregation for filelist directives.

use vstd::prelude::*;
use vstd::string::*;
use crate::lexer::{Token, TokenModel, TokenSpan};
use crate::lexer::{spec_tokens, tokenize, tokens_model};

verus! {

/// Implemented commands that can be parsed from the arguments in a file list.
#[derive(Clone, Debug, PartialEq, Eq, Hash)]
pub enum Command {
    Define { define: String, arg: Option<String> },
    Include { directory: String },
    V { library_file: String },
    Y { library_dir: String },
    File { file: String },
}

/// Mathematical counterpart of [`Command`].
pub enum CommandModel {
    Define { define: Seq<char>, arg: Option<Seq<char>> },
    Include { directory: Seq<char> },
    V { library_file: Seq<char> },
    Y { library_dir: Seq<char> },
    File { file: Seq<char> },
}

impl DeepView for Command {
    type V = CommandModel;

    open spec fn deep_view(&self) -> CommandModel {
        match self {
            Command::Define { define, arg } => CommandModel::Define {
                define: define@,
                arg: arg.deep_view(),
            },
            Command::Include { directory } => CommandModel::Include { directory: directory@ },
            Command::V { library_file } => CommandModel::V { library_file: library_file@ },
            Command::Y { library_dir } => CommandModel::Y { library_dir: library_dir@ },
            Command::File { file } => CommandModel::File { file: file@ },
        }
    }
}

/// Why a line failed to parse: a character that begins no token, a token
/// where the grammar does not allow it, a directive cut short, or tokens left
/// over after a complete directive. Positions are character offsets into the
/// line.
#[derive(Clone, Debug, PartialEq)]
pub enum CommandParseError {
    InvalidToken { position: usize },
    UnexpectedToken { token: Token, position: usize },
    UnexpectedEndOfInput,
    TrailingInput { token: Token, position: usize },
}

/// Mathematical counterpart of [`CommandParseError`].
pub enum ParseErrorModel {
    InvalidToken { position: int },
    UnexpectedToken { token: TokenModel, position: int },
    UnexpectedEndOfInput,
    TrailingInput { token: TokenModel, position: int },
}

impl DeepView for CommandParseError {
    type V = ParseErrorModel;

    open spec fn deep_view(&self) -> ParseErrorModel {
        match self {
            CommandParseError::InvalidToken { position } => ParseErrorModel::InvalidToken {
                position: *position as int,
            },
            CommandParseError::UnexpectedToken { token, position } => {
                ParseErrorModel::UnexpectedToken {
                    token: token.deep_view(),
                    position: *position as int,
                }
            },
            CommandParseError::UnexpectedEndOfInput => ParseErrorModel::UnexpectedEndOfInput,
            CommandParseError::TrailingInput { token, position } => {
                ParseErrorModel::TrailingInput {
                    token: token.deep_view(),
                    position: *position as int,
                }
            },
        }
    }
}

/// Result of parsing one line: exactly one command, or a parse error.
pub type CommandResult = Result<Command, CommandParseError>;

/// A token sequence that must consist of exactly one run of path text: the
/// argument of `+incdir+`, `-v` and `-y`, and of a bare file line.
pub open spec fn spec_path_argument(ts: Seq<TokenSpan>) -> Result<Seq<char>, ParseErrorModel> {
    if ts.len() == 0 {
        Err(ParseErrorModel::UnexpectedEndOfInput)
    } else {
        match ts[0].token {
            TokenModel::PathContent(p) => {
                if ts.len() == 1 {
                    Ok(p)
                } else {
                    Err(ParseErrorModel::TrailingInput { token: ts[1].token, position: ts[1].start })
                }
            },
            _ => Err(ParseErrorModel::UnexpectedToken { token: ts[0].token, position: ts[0].start }),
        }
    }
}

/// The value of a define after its `=`: either a run of path text, or one
/// wrapped in a pair of quotes. The quotes are stripped, not stored.
pub open spec fn spec_define_value(ts: Seq<TokenSpan>) -> Result<Seq<char>, ParseErrorModel> {
    if ts.len() == 0 {
        Err(ParseErrorModel::UnexpectedEndOfInput)
    } else {
        match ts[0].token {
            TokenModel::PathContent(v) => {
                if ts.len() == 1 {
                    Ok(v)
                } else {
                    Err(ParseErrorModel::TrailingInput { token: ts[1].token, position: ts[1].start })
                }
            },
            TokenModel::Quotes => {
                if ts.len() == 1 {
                    Err(ParseErrorModel::UnexpectedEndOfInput)
                } else {
                    match ts[1].token {
                        TokenModel::PathContent(v) => {
                            if ts.len() == 2 {
                                Err(ParseErrorModel::UnexpectedEndOfInput)
                            } else {
                                match ts[2].token {
                                    TokenModel::Quotes => {
                                        if ts.len() == 3 {
                                            Ok(v)
                                        } else {
                                            Err(ParseErrorModel::TrailingInput {
                                                token: ts[3].token,
                                                position: ts[3].start,
                                            })
                                        }
                                    },
                                    _ => Err(ParseErrorModel::UnexpectedToken {
                                        token: ts[2].token,
                                        position: ts[2].start,
                                    }),
                                }
                            }
                        },
                        _ => Err(ParseErrorModel::UnexpectedToken {
                            token: ts[1].token,
                            position: ts[1].start,
                        }),
                    }
                }
            },
            _ => Err(ParseErrorModel::UnexpectedToken { token: ts[0].token, position: ts[0].start }),
        }
    }
}

/// A define directive after its `+define+` flag: a name, optionally followed
/// by `=` and a value.
pub open spec fn spec_parse_define(ts: Seq<TokenSpan>) -> Result<CommandModel, ParseErrorModel> {
    if ts.len() == 0 {
        Err(ParseErrorModel::UnexpectedEndOfInput)
    } else {
        match ts[0].token {
            TokenModel::PathContent(name) => {
                if ts.len() == 1 {
                    Ok(CommandModel::Define { define: name, arg: None })
                } else {
                    match ts[1].token {
                        TokenModel::Equals => {
                            match spec_define_value(ts.skip(2)) {
                                Ok(v) => Ok(CommandModel::Define { define: name, arg: Some(v) }),
                                Err(e) => Err(e),
                            }
                        },
                        _ => Err(ParseErrorModel::UnexpectedToken {
                            token: ts[1].token,
                            position: ts[1].start,
                        }),
                    }
                }
            },
            _ => Err(ParseErrorModel::UnexpectedToken { token: ts[0].token, position: ts[0].start }),
        }
    }
}

/// The full token sequence of one line parsed to exactly one command.
/// The leading token selects the production; a lone run of path text is a
/// bare file; an empty sequence is an error.
pub open spec fn spec_parse_tokens(ts: Seq<TokenSpan>) -> Result<CommandModel, ParseErrorModel> {
    if ts.len() == 0 {
        Err(ParseErrorModel::UnexpectedEndOfInput)
    } else {
        match ts[0].token {
            TokenModel::IncludeDir => match spec_path_argument(ts.skip(1)) {
                Ok(p) => Ok(CommandModel::Include { directory: p }),
                Err(e) => Err(e),
            },
            TokenModel::Define => spec_parse_define(ts.skip(1)),
            TokenModel::V => match spec_path_argument(ts.skip(1)) {
                Ok(p) => Ok(CommandModel::V { library_file: p }),
                Err(e) => Err(e),
            },
            TokenModel::Y => match spec_path_argument(ts.skip(1)) {
                Ok(p) => Ok(CommandModel::Y { library_dir: p }),
                Err(e) => Err(e),
            },
            TokenModel::PathContent(p) => {
                if ts.len() == 1 {
                    Ok(CommandModel::File { file: p })
                } else {
                    Err(ParseErrorModel::TrailingInput { token: ts[1].token, position: ts[1].start })
                }
            },
            _ => Err(ParseErrorModel::UnexpectedToken { token: ts[0].token, position: ts[0].start }),
        }
    }
}

/// What parsing one whole line yields: its tokens parsed to one command, or
/// the lexical or syntactic error.
pub open spec fn spec_parse_line(s: Seq<char>) -> Result<CommandModel, ParseErrorModel> {
    match spec_tokens(s) {
        Err(p) => Err(ParseErrorModel::InvalidToken { position: p }),
        Ok(ts) => spec_parse_tokens(ts),
    }
}

/// Model of an executable parse result.
pub open spec fn command_result_model(r: CommandResult) -> Result<CommandModel, ParseErrorModel> {
    match r {
        Ok(c) => Ok(c.deep_view()),
        Err(e) => Err(e.deep_view()),
    }
}

/// Takes the front token off the vector, returning it with its span.
fn take_front(tokens: &mut Vec<(usize, Token, usize)>) -> (r: (usize, Token, usize))
    requires
        old(tokens)@.len() > 0,
    ensures
        r == old(tokens)@[0],
        tokens_model(final(tokens)@) == tokens_model(old(tokens)@).skip(1),
        final(tokens)@.len() == old(tokens)@.len() - 1,
        r.1.deep_view() == tokens_model(old(tokens)@)[0].token,
        r.0 as int == tokens_model(old(tokens)@)[0].start,
{
    let r = tokens.remove(0);
    proof {
        assert(tokens@ =~= old(tokens)@.skip(1));
        assert(tokens_model(tokens@) =~= tokens_model(old(tokens)@).skip(1));
    }
    r
}

fn parse_path_argument(tokens: Vec<(usize, Token, usize)>) -> (r: Result<
    String,
    CommandParseError,
>)
    ensures
        (match spec_path_argument(tokens_model(tokens@)) {
            Ok(p) => (match r {
                Ok(text) => text@ == p,
                Err(_) => false,
            }),
            Err(e) => (match r {
                Ok(_) => false,
                Err(actual) => actual.deep_view() == e,
            }),
        }),
{
    let ghost ts = tokens_model(tokens@);
    let mut tokens = tokens;
    if tokens.len() == 0 {
        return Err(CommandParseError::UnexpectedEndOfInput);
    }
    let (st0, tok0, _en0) = take_front(&mut tokens);
    match tok0 {
        Token::PathContent(p) => {
            if tokens.len() == 0 {
                Ok(p)
            } else {
                let (st1, tok1, _en1) = take_front(&mut tokens);
                proof {
                    assert(ts.skip(1)[0] == ts[1]);
                }
                Err(CommandParseError::TrailingInput { token: tok1, position: st1 })
            }
        },
        _ => Err(CommandParseError::UnexpectedToken { token: tok0, position: st0 }),
    }
}

fn parse_define_value(tokens: Vec<(usize, Token, usize)>) -> (r: Result<String, CommandParseError>)
    ensures
        (match spec_define_value(tokens_model(tokens@)) {
            Ok(v) => (match r {
                Ok(text) => text@ == v,
                Err(_) => false,
            }),
            Err(e) => (match r {
                Ok(_) => false,
                Err(actual) => actual.deep_view() == e,
            }),
        }),
{
    let ghost ts = tokens_model(tokens@);
    let mut tokens = tokens;
    if tokens.len() == 0 {
        return Err(CommandParseError::UnexpectedEndOfInput);
    }
    let (st0, tok0, _en0) = take_front(&mut tokens);
    match tok0 {
        Token::PathContent(v) => {
            if tokens.len() == 0 {
                Ok(v)
            } else {
                let (st1, tok1, _en1) = take_front(&mut tokens);
                proof {
                    assert(ts.skip(1)[0] == ts[1]);
                }
                Err(CommandParseError::TrailingInput { token: tok1, position: st1 })
            }
        },
        Token::Quotes => {
            if tokens.len() == 0 {
                return Err(CommandParseError::UnexpectedEndOfInput);
            }
            let (st1, tok1, _en1) = take_front(&mut tokens);
            proof {
                assert(ts.skip(1)[0] == ts[1]);
            }
            match tok1 {
                Token::PathContent(v) => {
                    if tokens.len() == 0 {
                        return Err(CommandParseError::UnexpectedEndOfInput);
                    }
                    let (st2, tok2, _en2) = take_front(&mut tokens);
                    proof {
                        assert(ts.skip(1).skip(1) =~= ts.skip(2));
                        assert(ts.skip(2)[0] == ts[2]);
                    }
                    match tok2 {
                        Token::Quotes => {
                            if tokens.len() == 0 {
                                Ok(v)
                            } else {
                                let (st3, tok3, _en3) = take_front(&mut tokens);
                                proof {
                                    assert(ts.skip(2).skip(1) =~= ts.skip(3));
                                    assert(ts.skip(3)[0] == ts[3]);
                                }
                                Err(CommandParseError::TrailingInput {
                                    token: tok3,
                                    position: st3,
                                })
                            }
                        },
                        _ => Err(CommandParseError::UnexpectedToken {
                            token: tok2,
                            position: st2,
                        }),
                    }
                },
                _ => Err(CommandParseError::UnexpectedToken { token: tok1, position: st1 }),
            }
        },
        _ => Err(CommandParseError::UnexpectedToken { token: tok0, position: st0 }),
    }
}

fn parse_define(tokens: Vec<(usize, Token, usize)>) -> (r: Result<Command, CommandParseError>)
    ensures
        command_result_model(r) == spec_parse_define(tokens_model(tokens@)),
{
    let ghost ts = tokens_model(tokens@);
    let mut tokens = tokens;
    if tokens.len() == 0 {
        return Err(CommandParseError::UnexpectedEndOfInput);
    }
    let (st0, tok0, _en0) = take_front(&mut tokens);
    match tok0 {
        Token::PathContent(name) => {
            if tokens.len() == 0 {
                return Ok(Command::Define { define: name, arg: None });
            }
            let (st1, tok1, _en1) = take_front(&mut tokens);
            proof {
                assert(ts.skip(1)[0] == ts[1]);
            }
            match tok1 {
                Token::Equals => {
                    proof {
                        assert(tokens_model(tokens@) =~= ts.skip(2));
                    }
                    match parse_define_value(tokens) {
                        Ok(v) => Ok(Command::Define { define: name, arg: Some(v) }),
                        Err(e) => Err(e),
                    }
                },
                _ => Err(CommandParseError::UnexpectedToken { token: tok1, position: st1 }),
            }
        },
        _ => Err(CommandParseError::UnexpectedToken { token: tok0, position: st0 }),
    }
}

/// Parses the full token sequence of one line into exactly one [`Command`].
pub fn parse_tokens(tokens: Vec<(usize, Token, usize)>) -> (r: Result<Command, CommandParseError>)
    ensures
        command_result_model(r) == spec_parse_tokens(tokens_model(tokens@)),
{
    let ghost ts = tokens_model(tokens@);
    let mut tokens = tokens;
    if tokens.len() == 0 {
        return Err(CommandParseError::UnexpectedEndOfInput);
    }
    let (st0, tok0, _en0) = take_front(&mut tokens);
    match tok0 {
        Token::IncludeDir => match parse_path_argument(tokens) {
            Ok(p) => Ok(Command::Include { directory: p }),
            Err(e) => Err(e),
        },
        Token::Define => parse_define(tokens),
        Token::V => match parse_path_argument(tokens) {
            Ok(p) => Ok(Command::V { library_file: p }),
            Err(e) => Err(e),
        },
        Token::Y => match parse_path_argument(tokens) {
            Ok(p) => Ok(Command::Y { library_dir: p }),
            Err(e) => Err(e),
        },
        Token::PathContent(p) => {
            if tokens.len() == 0 {
                Ok(Command::File { file: p })
            } else {
                let (st1, tok1, _en1) = take_front(&mut tokens);
                proof {
                    assert(ts.skip(1)[0] == ts[1]);
                }
                Err(CommandParseError::TrailingInput { token: tok1, position: st1 })
            }
        },
        _ => Err(CommandParseError::UnexpectedToken { token: tok0, position: st0 }),
    }
}

/// Parse a single line of the file list containing arguments.
pub fn parse_line(code: &str) -> (r: CommandResult)
    ensures
        command_result_model(r) == spec_parse_line(code@),
{
    match tokenize(code) {
        Err(p) => Err(CommandParseError::InvalidToken { position: p }),
        Ok(tokens) => parse_tokens(tokens),
    }
}

/// Container of parsed defines.
#[derive(Debug, PartialEq)]
pub struct DefineArgs {
    pub define: String,
    pub arg: Option<String>,
}

/// Mathematical counterpart of [`DefineArgs`].
pub struct DefineArgsModel {
    pub define: Seq<char>,
    pub arg: Option<Seq<char>>,
}

impl DeepView for DefineArgs {
    type V = DefineArgsModel;

    open spec fn deep_view(&self) -> DefineArgsModel {
        DefineArgsModel { define: self.define@, arg: self.arg.deep_view() }
    }
}

/// The combined token a define is recorded as: the bare name when it has no
/// value, `NAME=VALUE` when it has one.
pub open spec fn spec_define_token(d: DefineArgsModel) -> Seq<char> {
    match d.arg {
        None => d.define,
        Some(v) => d.define + seq!['='] + v,
    }
}

impl DefineArgs {
    fn new(define: String, arg: Option<String>) -> (r: Self)
        ensures
            r.define == define,
            r.arg == arg,
    {
        Self { define, arg }
    }

    /// The define as one combined token: `NAME`, or `NAME=VALUE`.
    pub fn token(&self) -> (r: String)
        ensures
            r@ == spec_define_token(self.deep_view()),
    {
        match &self.arg {
            None => self.define.clone(),
            Some(v) => {
                let mut r = self.define.clone();
                r.append("=");
                r.append(v.as_str());
                proof {
                    reveal_strlit("=");
                    assert("="@ =~= seq!['=']);
                    assert(r@ =~= spec_define_token(self.deep_view()));
                }
                r
            },
        }
    }
}

/// Container of parsed include directories.
#[derive(Debug, PartialEq)]
pub struct IncludeArgs {
    pub include_dir: String,
}

/// Mathematical counterpart of [`IncludeArgs`].
pub struct IncludeArgsModel {
    pub include_dir: Seq<char>,
}

impl DeepView for IncludeArgs {
    type V = IncludeArgsModel;

    open spec fn deep_view(&self) -> IncludeArgsModel {
        IncludeArgsModel { include_dir: self.include_dir@ }
    }
}

impl IncludeArgs {
    fn new(directory: String) -> (r: Self)
        ensures
            r.include_dir == directory,
    {
        Self { include_dir: directory }
    }
}

/// Container of parsed SV files.
#[derive(Debug, PartialEq)]
pub struct FileArgs {
    pub file: String,
}

/// Mathematical counterpart of [`FileArgs`].
pub struct FileArgsModel {
    pub file: Seq<char>,
}

impl DeepView for FileArgs {
    type V = FileArgsModel;

    open spec fn deep_view(&self) -> FileArgsModel {
        FileArgsModel { file: self.file@ }
    }
}

impl FileArgs {
    fn new(file: String) -> (r: Self)
        ensures
            r.file == file,
    {
        Self { file }
    }
}

/// A `-v` or `-y` directive, recorded but not expanded: a single library file,
/// or a directory to be searched for module definitions.
#[derive(Debug, PartialEq)]
pub enum LibraryArgs {
    File { library_file: String },
    Dir { library_dir: String },
}

/// Mathematical counterpart of [`LibraryArgs`].
pub enum LibraryArgsModel {
    File { library_file: Seq<char> },
    Dir { library_dir: Seq<char> },
}

impl DeepView for LibraryArgs {
    type V = LibraryArgsModel;

    open spec fn deep_view(&self) -> LibraryArgsModel {
        match self {
            LibraryArgs::File { library_file } => LibraryArgsModel::File {
                library_file: library_file@,
            },
            LibraryArgs::Dir { library_dir } => LibraryArgsModel::Dir {
                library_dir: library_dir@,
            },
        }
    }
}

/// Container for all parsed types, one ordered sequence per directive kind.
#[derive(Debug)]
pub struct SvParsedArgs {
    pub defines: Vec<DefineArgs>,
    pub includes: Vec<IncludeArgs>,
    pub files: Vec<FileArgs>,
    pub libraries: Vec<LibraryArgs>,
}

/// Mathematical counterpart of [`SvParsedArgs`].
#[verifier::ext_equal]
pub struct SvParsedArgsModel {
    pub defines: Seq<DefineArgsModel>,
    pub includes: Seq<IncludeArgsModel>,
    pub files: Seq<FileArgsModel>,
    pub libraries: Seq<LibraryArgsModel>,
}

impl DeepView for SvParsedArgs {
    type V = SvParsedArgsModel;

    open spec fn deep_view(&self) -> SvParsedArgsModel {
        SvParsedArgsModel {
            defines: self.defines.deep_view(),
            includes: self.includes.deep_view(),
            files: self.files.deep_view(),
            libraries: self.libraries.deep_view(),
        }
    }
}

impl SvParsedArgs {
    fn new() -> (r: Self)
        ensures
            r.deep_view() == spec_empty_args(),
    {
        let r = Self { defines: Vec::new(), includes: Vec::new(), files: Vec::new(), libraries: Vec::new() };
        proof {
            assert(r.deep_view() =~= spec_empty_args());
        }
        r
    }

    /// The defines sequence as combined tokens, in order: each define as
    /// `NAME` or `NAME=VALUE`.
    #[verifier::loop_isolation(false)]
    pub fn define_tokens(&self) -> (r: Vec<String>)
        ensures
            r@.len() == self.deep_view().defines.len(),
            forall|k: int|
                0 <= k < r@.len() ==> r@[k]@ == spec_define_token(self.deep_view().defines[k]),
    {
        let mut r: Vec<String> = Vec::new();
        let mut i: usize = 0;
        while i < self.defines.len()
            invariant
                i <= self.defines@.len(),
                r@.len() == i,
                forall|k: int|
                    0 <= k < i ==> r@[k]@ == spec_define_token(self.deep_view().defines[k]),
            decreases self.defines@.len() - i,
        {
            proof {
                assert(self.deep_view().defines[i as int] == self.defines@[i as int].deep_view());
            }
            r.push(self.defines[i].token());
            i = i + 1;
        }
        r
    }
}

/// The aggregate of no lines at all: four empty sequences.
pub open spec fn spec_empty_args() -> SvParsedArgsModel {
    SvParsedArgsModel {
        defines: Seq::empty(),
        includes: Seq::empty(),
        files: Seq::empty(),
        libraries: Seq::empty(),
    }
}

/// Routes one parsed command to the sequence of its kind, appending at the
/// back; every command goes to exactly one sequence.
pub open spec fn spec_route(acc: SvParsedArgsModel, c: CommandModel) -> SvParsedArgsModel {
    match c {
        CommandModel::Define { define, arg } => SvParsedArgsModel {
            defines: acc.defines.push(DefineArgsModel { define, arg }),
            ..acc
        },
        CommandModel::Include { directory } => SvParsedArgsModel {
            includes: acc.includes.push(IncludeArgsModel { include_dir: directory }),
            ..acc
        },
        CommandModel::V { library_file } => SvParsedArgsModel {
            libraries: acc.libraries.push(LibraryArgsModel::File { library_file }),
            ..acc
        },
        CommandModel::Y { library_dir } => SvParsedArgsModel {
            libraries: acc.libraries.push(LibraryArgsModel::Dir { library_dir }),
            ..acc
        },
        CommandModel::File { file } => SvParsedArgsModel {
            files: acc.files.push(FileArgsModel { file }),
            ..acc
        },
    }
}

/// What one line contributes to the aggregate: nothing when it holds only
/// whitespace and comments, one command when it parses, or the line's error.
pub open spec fn spec_line_outcome(s: Seq<char>) -> Result<Option<CommandModel>, ParseErrorModel> {
    match spec_tokens(s) {
        Err(p) => Err(ParseErrorModel::InvalidToken { position: p }),
        Ok(ts) => if ts.len() == 0 {
            Ok(None)
        } else {
            match spec_parse_tokens(ts) {
                Ok(c) => Ok(Some(c)),
                Err(e) => Err(e),
            }
        },
    }
}

/// Outcome of aggregating a filelist: every line taken in, or a stop at the
/// first failing line with everything aggregated before it.
pub enum AggOutcome {
    Done { args: SvParsedArgsModel },
    Failed { args: SvParsedArgsModel, line: int, error: ParseErrorModel },
}

/// Folds the lines from index `i` on into the accumulator, stopping at the
/// first line that fails to parse.
pub open spec fn spec_aggregate_from(
    lines: Seq<Seq<char>>,
    i: int,
    acc: SvParsedArgsModel,
) -> AggOutcome
    decreases lines.len() - i,
{
    if i < 0 || i >= lines.len() {
        AggOutcome::Done { args: acc }
    } else {
        match spec_line_outcome(lines[i]) {
            Err(e) => AggOutcome::Failed { args: acc, line: i, error: e },
            Ok(None) => spec_aggregate_from(lines, i + 1, acc),
            Ok(Some(c)) => spec_aggregate_from(lines, i + 1, spec_route(acc, c)),
        }
    }
}

/// The aggregate of a whole filelist, line by line in order.
pub open spec fn spec_aggregate(lines: Seq<Seq<char>>) -> AggOutcome {
    spec_aggregate_from(lines, 0, spec_empty_args())
}

/// A filelist rejected at one line: which line, its text, why it failed, and
/// everything successfully aggregated before it.
#[derive(Debug)]
pub struct FilelistError {
    pub line_number: usize,
    pub line: String,
    pub error: CommandParseError,
    pub parsed: SvParsedArgs,
}

/// Parses a filelist, given as its ordered sequence of lines, and returns a
/// database of files, defines, includes and library entries; or, at the first
/// line that fails, that line's number, text and error together with all
/// results aggregated so far.
#[verifier::loop_isolation(false)]
pub fn parse(lines: &Vec<String>) -> (r: Result<SvParsedArgs, FilelistError>)
    ensures
        (match r {
            Ok(args) => spec_aggregate(lines.deep_view()) == (AggOutcome::Done {
                args: args.deep_view(),
            }),
            Err(e) => {
                &&& e.line_number < lines@.len()
                &&& e.line@ == lines.deep_view()[e.line_number as int]
                &&& spec_aggregate(lines.deep_view()) == (AggOutcome::Failed {
                    args: e.parsed.deep_view(),
                    line: e.line_number as int,
                    error: e.error.deep_view(),
                })
            },
        }),
{
    let ghost lv = lines.deep_view();
    let mut args = SvParsedArgs::new();
    let mut i: usize = 0;
    while i < lines.len()
        invariant
            i <= lines@.len(),
            spec_aggregate(lv) == spec_aggregate_from(lv, i as int, args.deep_view()),
        decreases lines@.len() - i,
    {
        let ghost before = args.deep_view();
        proof {
            assert(lv[i as int] == lines@[i as int]@);
        }
        let line = &lines[i];
        match tokenize(line.as_str()) {
            Err(p) => {
                return Err(FilelistError {
                    line_number: i,
                    line: line.clone(),
                    error: CommandParseError::InvalidToken { position: p },
                    parsed: args,
                });
            },
            Ok(tokens) => {
                if tokens.len() == 0 {
                    proof {
                        assert(tokens_model(tokens@) =~= Seq::<TokenSpan>::empty());
                    }
                    i = i + 1;
                } else {
                    match parse_tokens(tokens) {
                        Ok(cmd) => {
                            let ghost cm = cmd.deep_view();
                            match cmd {
                                Command::Define { define, arg } => {
                                    args.defines.push(DefineArgs::new(define, arg));
                                },
                                Command::Include { directory } => {
                                    args.includes.push(IncludeArgs::new(directory));
                                },
                                Command::V { library_file } => {
                                    args.libraries.push(LibraryArgs::File { library_file });
                                },
                                Command::Y { library_dir } => {
                                    args.libraries.push(LibraryArgs::Dir { library_dir });
                                },
                                Command::File { file } => {
                                    args.files.push(FileArgs::new(file));
                                },
                            }
                            proof {
                                assert(args.deep_view() =~= spec_route(before, cm));
                            }
                            i = i + 1;
                        },
                        Err(e) => {
                            return Err(FilelistError {
                                line_number: i,
                                line: line.clone(),
                                error: e,
                                parsed: args,
                            });
                        },
                    }
                }
            },
        }
    }
    Ok(args)
}

} // verus!
