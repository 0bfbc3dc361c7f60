//! Line- and filelist-level laws of the parser and the aggregator, each
//! proved from the specification functions that the executable contracts use.

use vstd::prelude::*;
use crate::lexer::{
    define_lit, incdir_lit, is_path_char, is_path_start_char, is_space_char, is_path_token,
    lemma_all_space_end, lemma_lex_step_define, lemma_lex_step_equals, lemma_lex_step_incdir,
    lemma_lex_step_path, lemma_lex_step_quotes, lemma_lex_step_v, lemma_lex_step_y,
    lemma_space_then_comment_end, lex_step, spec_tokens, spec_tokens_from, LexStep, TokenModel,
    TokenSpan,
};
use crate::ast::{
    spec_aggregate, spec_aggregate_from, spec_define_value, spec_empty_args, spec_line_outcome,
    spec_parse_define, spec_parse_line, spec_parse_tokens, spec_path_argument, spec_route,
    AggOutcome, CommandModel, DefineArgsModel, FileArgsModel, IncludeArgsModel, LibraryArgsModel,
    ParseErrorModel, SvParsedArgsModel,
};

verus! {

/// An include-directory line `+incdir+PATH` parses to `Include` and keeps the
/// path text exactly as written.
pub proof fn lemma_incdir_line(p: Seq<char>)
    requires
        is_path_token(p),
    ensures
        spec_parse_line(incdir_lit() + p) == Ok::<CommandModel, ParseErrorModel>(
            CommandModel::Include { directory: p },
        ),
{
    let s = incdir_lit() + p;
    let n = s.len() as int;
    assert(incdir_lit().len() == 8);
    assert(s.subrange(0, 8) =~= incdir_lit());
    lemma_lex_step_incdir(s, 0);
    assert(s[8] == p[0]);
    assert(forall|k: int| 8 <= k < n ==> s[k] == p[k - 8]);
    lemma_lex_step_path(s, 8, n);
    assert(s.subrange(8, n) =~= p);
    let tsp1 = TokenSpan { token: TokenModel::IncludeDir, start: 0, end: 8 };
    let tsp2 = TokenSpan { token: TokenModel::PathContent(p), start: 8, end: n };
    assert(lex_step(s, n) == LexStep::End);
    assert(spec_tokens_from(s, n) == Ok::<Seq<TokenSpan>, int>(Seq::empty()));
    assert(spec_tokens_from(s, 8) == Ok::<Seq<TokenSpan>, int>(
        seq![tsp2] + Seq::<TokenSpan>::empty(),
    ));
    let ts = seq![tsp1, tsp2];
    assert(seq![tsp1] + (seq![tsp2] + Seq::<TokenSpan>::empty()) =~= ts);
    assert(spec_tokens(s) == Ok::<Seq<TokenSpan>, int>(ts));
    assert(ts.skip(1) =~= seq![tsp2]);
    assert(spec_path_argument(ts.skip(1)) == Ok::<Seq<char>, ParseErrorModel>(p));
}

/// A library-file line `-v PATH` parses to `V` and keeps the path text
/// exactly as written.
pub proof fn lemma_v_line(p: Seq<char>)
    requires
        is_path_token(p),
    ensures
        spec_parse_line(seq!['-', 'v', ' '] + p) == Ok::<CommandModel, ParseErrorModel>(
            CommandModel::V { library_file: p },
        ),
{
    let s = seq!['-', 'v', ' '] + p;
    let n = s.len() as int;
    assert(s[0] == '-');
    assert(s[1] == 'v');
    assert(s[2] == ' ');
    lemma_lex_step_v(s, 0);
    assert(s[3] == p[0]);
    assert(forall|k: int| 3 <= k < n ==> s[k] == p[k - 3]);
    lemma_lex_step_path(s, 3, n);
    assert(s.subrange(3, n) =~= p);
    assert(lex_step(s, 2) == lex_step(s, 3));
    let tsp1 = TokenSpan { token: TokenModel::V, start: 0, end: 2 };
    let tsp2 = TokenSpan { token: TokenModel::PathContent(p), start: 3, end: n };
    assert(lex_step(s, n) == LexStep::End);
    assert(spec_tokens_from(s, n) == Ok::<Seq<TokenSpan>, int>(Seq::empty()));
    assert(spec_tokens_from(s, 2) == Ok::<Seq<TokenSpan>, int>(
        seq![tsp2] + Seq::<TokenSpan>::empty(),
    ));
    let ts = seq![tsp1, tsp2];
    assert(seq![tsp1] + (seq![tsp2] + Seq::<TokenSpan>::empty()) =~= ts);
    assert(spec_tokens(s) == Ok::<Seq<TokenSpan>, int>(ts));
    assert(ts.skip(1) =~= seq![tsp2]);
    assert(spec_path_argument(ts.skip(1)) == Ok::<Seq<char>, ParseErrorModel>(p));
}

/// A library-directory line `-y PATH` parses to `Y` and keeps the path text
/// exactly as written.
pub proof fn lemma_y_line(p: Seq<char>)
    requires
        is_path_token(p),
    ensures
        spec_parse_line(seq!['-', 'y', ' '] + p) == Ok::<CommandModel, ParseErrorModel>(
            CommandModel::Y { library_dir: p },
        ),
{
    let s = seq!['-', 'y', ' '] + p;
    let n = s.len() as int;
    assert(s[0] == '-');
    assert(s[1] == 'y');
    assert(s[2] == ' ');
    lemma_lex_step_y(s, 0);
    assert(s[3] == p[0]);
    assert(forall|k: int| 3 <= k < n ==> s[k] == p[k - 3]);
    lemma_lex_step_path(s, 3, n);
    assert(s.subrange(3, n) =~= p);
    assert(lex_step(s, 2) == lex_step(s, 3));
    let tsp1 = TokenSpan { token: TokenModel::Y, start: 0, end: 2 };
    let tsp2 = TokenSpan { token: TokenModel::PathContent(p), start: 3, end: n };
    assert(lex_step(s, n) == LexStep::End);
    assert(spec_tokens_from(s, n) == Ok::<Seq<TokenSpan>, int>(Seq::empty()));
    assert(spec_tokens_from(s, 2) == Ok::<Seq<TokenSpan>, int>(
        seq![tsp2] + Seq::<TokenSpan>::empty(),
    ));
    let ts = seq![tsp1, tsp2];
    assert(seq![tsp1] + (seq![tsp2] + Seq::<TokenSpan>::empty()) =~= ts);
    assert(spec_tokens(s) == Ok::<Seq<TokenSpan>, int>(ts));
    assert(ts.skip(1) =~= seq![tsp2]);
    assert(spec_path_argument(ts.skip(1)) == Ok::<Seq<char>, ParseErrorModel>(p));
}

/// A bare path line parses to `File` and keeps the path text exactly as
/// written.
pub proof fn lemma_file_line(p: Seq<char>)
    requires
        is_path_token(p),
    ensures
        spec_parse_line(p) == Ok::<CommandModel, ParseErrorModel>(CommandModel::File { file: p }),
{
    let n = p.len() as int;
    lemma_lex_step_path(p, 0, n);
    assert(p.subrange(0, n) =~= p);
    let tsp = TokenSpan { token: TokenModel::PathContent(p), start: 0, end: n };
    assert(lex_step(p, n) == LexStep::End);
    assert(spec_tokens_from(p, n) == Ok::<Seq<TokenSpan>, int>(Seq::empty()));
    let ts = seq![tsp];
    assert(seq![tsp] + Seq::<TokenSpan>::empty() =~= ts);
    assert(spec_tokens(p) == Ok::<Seq<TokenSpan>, int>(ts));
}

/// A define line without a value, `+define+NAME`, parses to `Define` with no
/// value recorded.
pub proof fn lemma_define_plain_line(name: Seq<char>)
    requires
        is_path_token(name),
    ensures
        spec_parse_line(define_lit() + name) == Ok::<CommandModel, ParseErrorModel>(
            CommandModel::Define { define: name, arg: None },
        ),
{
    let s = define_lit() + name;
    let n = s.len() as int;
    assert(define_lit().len() == 8);
    assert(s.subrange(0, 8) =~= define_lit());
    lemma_lex_step_define(s, 0);
    assert(s[8] == name[0]);
    assert(forall|k: int| 8 <= k < n ==> s[k] == name[k - 8]);
    lemma_lex_step_path(s, 8, n);
    assert(s.subrange(8, n) =~= name);
    let tsp1 = TokenSpan { token: TokenModel::Define, start: 0, end: 8 };
    let tsp2 = TokenSpan { token: TokenModel::PathContent(name), start: 8, end: n };
    assert(lex_step(s, n) == LexStep::End);
    assert(spec_tokens_from(s, n) == Ok::<Seq<TokenSpan>, int>(Seq::empty()));
    assert(spec_tokens_from(s, 8) == Ok::<Seq<TokenSpan>, int>(
        seq![tsp2] + Seq::<TokenSpan>::empty(),
    ));
    let ts = seq![tsp1, tsp2];
    assert(seq![tsp1] + (seq![tsp2] + Seq::<TokenSpan>::empty()) =~= ts);
    assert(spec_tokens(s) == Ok::<Seq<TokenSpan>, int>(ts));
    assert(ts.skip(1) =~= seq![tsp2]);
    assert(spec_parse_define(ts.skip(1)) == Ok::<CommandModel, ParseErrorModel>(
        CommandModel::Define { define: name, arg: None },
    ));
}

/// A define line with an unquoted value, `+define+NAME=VALUE`, parses to
/// `Define` with the value recorded.
pub proof fn lemma_define_value_line(name: Seq<char>, v: Seq<char>)
    requires
        is_path_token(name),
        is_path_token(v),
    ensures
        spec_parse_line(define_lit() + name + seq!['='] + v) == Ok::<
            CommandModel,
            ParseErrorModel,
        >(CommandModel::Define { define: name, arg: Some(v) }),
{
    let s = define_lit() + name + seq!['='] + v;
    let m = name.len() as int;
    let n = s.len() as int;
    assert(define_lit().len() == 8);
    assert(forall|k: int| 0 <= k < 8 ==> s[k] == define_lit()[k]);
    assert(s.subrange(0, 8) =~= define_lit());
    lemma_lex_step_define(s, 0);
    assert(forall|k: int| 8 <= k < 8 + m ==> s[k] == name[k - 8]);
    assert(s[8 + m] == '=');
    assert(!is_path_char('='));
    lemma_lex_step_path(s, 8, 8 + m);
    assert(s.subrange(8, 8 + m) =~= name);
    lemma_lex_step_equals(s, 8 + m);
    assert(forall|k: int| 8 + m + 1 <= k < n ==> s[k] == v[k - (8 + m + 1)]);
    lemma_lex_step_path(s, 8 + m + 1, n);
    assert(s.subrange(8 + m + 1, n) =~= v);
    let tsp1 = TokenSpan { token: TokenModel::Define, start: 0, end: 8 };
    let tsp2 = TokenSpan { token: TokenModel::PathContent(name), start: 8, end: 8 + m };
    let tsp3 = TokenSpan { token: TokenModel::Equals, start: 8 + m, end: 8 + m + 1 };
    let tsp4 = TokenSpan { token: TokenModel::PathContent(v), start: 8 + m + 1, end: n };
    assert(lex_step(s, n) == LexStep::End);
    assert(spec_tokens_from(s, n) == Ok::<Seq<TokenSpan>, int>(Seq::empty()));
    assert(spec_tokens_from(s, 8 + m + 1) == Ok::<Seq<TokenSpan>, int>(
        seq![tsp4] + Seq::<TokenSpan>::empty(),
    ));
    assert(spec_tokens_from(s, 8 + m) == Ok::<Seq<TokenSpan>, int>(
        seq![tsp3] + (seq![tsp4] + Seq::<TokenSpan>::empty()),
    ));
    assert(spec_tokens_from(s, 8) == Ok::<Seq<TokenSpan>, int>(
        seq![tsp2] + (seq![tsp3] + (seq![tsp4] + Seq::<TokenSpan>::empty())),
    ));
    let ts = seq![tsp1, tsp2, tsp3, tsp4];
    assert(seq![tsp1] + (seq![tsp2] + (seq![tsp3] + (seq![tsp4] + Seq::<TokenSpan>::empty())))
        =~= ts);
    assert(spec_tokens(s) == Ok::<Seq<TokenSpan>, int>(ts));
    let ts1 = ts.skip(1);
    assert(ts1 =~= seq![tsp2, tsp3, tsp4]);
    assert(ts1.skip(2) =~= seq![tsp4]);
    assert(spec_define_value(ts1.skip(2)) == Ok::<Seq<char>, ParseErrorModel>(v));
    assert(spec_parse_define(ts1) == Ok::<CommandModel, ParseErrorModel>(
        CommandModel::Define { define: name, arg: Some(v) },
    ));
}

/// A define line with a quoted value, `+define+NAME="VALUE"`, parses to
/// `Define` with the quotes stripped.
pub proof fn lemma_define_quoted_line(name: Seq<char>, v: Seq<char>)
    requires
        is_path_token(name),
        is_path_token(v),
    ensures
        spec_parse_line(define_lit() + name + seq!['=', '"'] + v + seq!['"']) == Ok::<
            CommandModel,
            ParseErrorModel,
        >(CommandModel::Define { define: name, arg: Some(v) }),
{
    let s = define_lit() + name + seq!['=', '"'] + v + seq!['"'];
    let m = name.len() as int;
    let w = v.len() as int;
    let n = s.len() as int;
    assert(n == 8 + m + 2 + w + 1);
    assert(define_lit().len() == 8);
    assert(forall|k: int| 0 <= k < 8 ==> s[k] == define_lit()[k]);
    assert(s.subrange(0, 8) =~= define_lit());
    lemma_lex_step_define(s, 0);
    assert(forall|k: int| 8 <= k < 8 + m ==> s[k] == name[k - 8]);
    assert(s[8 + m] == '=');
    assert(s[8 + m + 1] == '"');
    assert(!is_path_char('='));
    lemma_lex_step_path(s, 8, 8 + m);
    assert(s.subrange(8, 8 + m) =~= name);
    lemma_lex_step_equals(s, 8 + m);
    lemma_lex_step_quotes(s, 8 + m + 1);
    assert(forall|k: int| 8 + m + 2 <= k < 8 + m + 2 + w ==> s[k] == v[k - (8 + m + 2)]);
    assert(s[8 + m + 2 + w] == '"');
    assert(!is_path_char('"'));
    lemma_lex_step_path(s, 8 + m + 2, 8 + m + 2 + w);
    assert(s.subrange(8 + m + 2, 8 + m + 2 + w) =~= v);
    lemma_lex_step_quotes(s, 8 + m + 2 + w);
    let tsp1 = TokenSpan { token: TokenModel::Define, start: 0, end: 8 };
    let tsp2 = TokenSpan { token: TokenModel::PathContent(name), start: 8, end: 8 + m };
    let tsp3 = TokenSpan { token: TokenModel::Equals, start: 8 + m, end: 8 + m + 1 };
    let tsp4 = TokenSpan { token: TokenModel::Quotes, start: 8 + m + 1, end: 8 + m + 2 };
    let tsp5 = TokenSpan { token: TokenModel::PathContent(v), start: 8 + m + 2, end: 8 + m + 2 + w };
    let tsp6 = TokenSpan { token: TokenModel::Quotes, start: 8 + m + 2 + w, end: n };
    assert(lex_step(s, n) == LexStep::End);
    assert(spec_tokens_from(s, n) == Ok::<Seq<TokenSpan>, int>(Seq::empty()));
    assert(spec_tokens_from(s, 8 + m + 2 + w) == Ok::<Seq<TokenSpan>, int>(
        seq![tsp6] + Seq::<TokenSpan>::empty(),
    ));
    assert(spec_tokens_from(s, 8 + m + 2) == Ok::<Seq<TokenSpan>, int>(
        seq![tsp5] + (seq![tsp6] + Seq::<TokenSpan>::empty()),
    ));
    assert(spec_tokens_from(s, 8 + m + 1) == Ok::<Seq<TokenSpan>, int>(
        seq![tsp4] + (seq![tsp5] + (seq![tsp6] + Seq::<TokenSpan>::empty())),
    ));
    assert(spec_tokens_from(s, 8 + m) == Ok::<Seq<TokenSpan>, int>(
        seq![tsp3] + (seq![tsp4] + (seq![tsp5] + (seq![tsp6] + Seq::<TokenSpan>::empty()))),
    ));
    assert(spec_tokens_from(s, 8) == Ok::<Seq<TokenSpan>, int>(
        seq![tsp2] + (seq![tsp3] + (seq![tsp4] + (seq![tsp5] + (seq![tsp6]
            + Seq::<TokenSpan>::empty())))),
    ));
    let ts = seq![tsp1, tsp2, tsp3, tsp4, tsp5, tsp6];
    assert(seq![tsp1] + (seq![tsp2] + (seq![tsp3] + (seq![tsp4] + (seq![tsp5] + (seq![tsp6]
        + Seq::<TokenSpan>::empty()))))) =~= ts);
    assert(spec_tokens(s) == Ok::<Seq<TokenSpan>, int>(ts));
    let ts1 = ts.skip(1);
    assert(ts1 =~= seq![tsp2, tsp3, tsp4, tsp5, tsp6]);
    assert(ts1.skip(2) =~= seq![tsp4, tsp5, tsp6]);
    assert(spec_define_value(ts1.skip(2)) == Ok::<Seq<char>, ParseErrorModel>(v));
    assert(spec_parse_define(ts1) == Ok::<CommandModel, ParseErrorModel>(
        CommandModel::Define { define: name, arg: Some(v) },
    ));
}

/// Quotes around a define value are purely syntactic: the quoted and the
/// unquoted form of the same define line parse to the same command.
pub proof fn lemma_define_quote_roundtrip(name: Seq<char>, v: Seq<char>)
    requires
        is_path_token(name),
        is_path_token(v),
    ensures
        spec_parse_line(define_lit() + name + seq!['=', '"'] + v + seq!['"']) == spec_parse_line(
            define_lit() + name + seq!['='] + v,
        ),
{
    lemma_define_value_line(name, v);
    lemma_define_quoted_line(name, v);
}

/// Parsing a line is a function of its characters alone: two parses of the
/// same line yield the same structural result.
pub proof fn lemma_parse_line_deterministic(
    s: Seq<char>,
    r1: Result<CommandModel, ParseErrorModel>,
    r2: Result<CommandModel, ParseErrorModel>,
)
    requires
        r1 == spec_parse_line(s),
        r2 == spec_parse_line(s),
    ensures
        r1 == r2,
{
}

/// A line of whitespace alone contributes no command.
pub proof fn lemma_blank_line(s: Seq<char>)
    requires
        forall|k: int| 0 <= k < s.len() ==> is_space_char(#[trigger] s[k]),
    ensures
        spec_line_outcome(s) == Ok::<Option<CommandModel>, ParseErrorModel>(None),
{
    lemma_all_space_end(s, 0);
    assert(spec_tokens_from(s, 0) == Ok::<Seq<TokenSpan>, int>(Seq::empty()));
}

/// A line holding only whitespace and then a comment contributes no command.
pub proof fn lemma_comment_line(s: Seq<char>, h: int)
    requires
        0 <= h < s.len(),
        forall|k: int| 0 <= k < h ==> is_space_char(#[trigger] s[k]),
        s[h] == '#',
        forall|k: int| h < k < s.len() ==> s[k] != '\n',
    ensures
        spec_line_outcome(s) == Ok::<Option<CommandModel>, ParseErrorModel>(None),
{
    lemma_space_then_comment_end(s, 0, h);
    assert(spec_tokens_from(s, 0) == Ok::<Seq<TokenSpan>, int>(Seq::empty()));
}

/// A line that contributes no command leaves the aggregate untouched, and
/// aggregation moves to the next index: later lines keep their own numbers.
pub proof fn lemma_skip_line_keeps_numbering(
    lines: Seq<Seq<char>>,
    i: int,
    acc: SvParsedArgsModel,
)
    requires
        0 <= i < lines.len(),
        spec_line_outcome(lines[i]) == Ok::<Option<CommandModel>, ParseErrorModel>(None),
    ensures
        spec_aggregate_from(lines, i, acc) == spec_aggregate_from(lines, i + 1, acc),
{
}

/// The commands the lines from index `i` on contribute, one per line that
/// parses, in line order; lines that fail contribute nothing here.
pub open spec fn spec_line_commands(lines: Seq<Seq<char>>, i: int) -> Seq<CommandModel>
    decreases lines.len() - i,
{
    if i < 0 || i >= lines.len() {
        Seq::empty()
    } else {
        match spec_line_outcome(lines[i]) {
            Ok(Some(c)) => seq![c] + spec_line_commands(lines, i + 1),
            _ => spec_line_commands(lines, i + 1),
        }
    }
}

/// The define entries of a command sequence, in order.
pub open spec fn spec_defines_of(cs: Seq<CommandModel>) -> Seq<DefineArgsModel>
    decreases cs.len(),
{
    if cs.len() == 0 {
        Seq::empty()
    } else {
        (match cs[0] {
            CommandModel::Define { define, arg } => seq![DefineArgsModel { define, arg }],
            _ => Seq::empty(),
        }) + spec_defines_of(cs.skip(1))
    }
}

/// The include entries of a command sequence, in order.
pub open spec fn spec_includes_of(cs: Seq<CommandModel>) -> Seq<IncludeArgsModel>
    decreases cs.len(),
{
    if cs.len() == 0 {
        Seq::empty()
    } else {
        (match cs[0] {
            CommandModel::Include { directory } => seq![
                IncludeArgsModel { include_dir: directory },
            ],
            _ => Seq::empty(),
        }) + spec_includes_of(cs.skip(1))
    }
}

/// The file entries of a command sequence, in order.
pub open spec fn spec_files_of(cs: Seq<CommandModel>) -> Seq<FileArgsModel>
    decreases cs.len(),
{
    if cs.len() == 0 {
        Seq::empty()
    } else {
        (match cs[0] {
            CommandModel::File { file } => seq![FileArgsModel { file }],
            _ => Seq::empty(),
        }) + spec_files_of(cs.skip(1))
    }
}

/// The library entries of a command sequence, in order.
pub open spec fn spec_libraries_of(cs: Seq<CommandModel>) -> Seq<LibraryArgsModel>
    decreases cs.len(),
{
    if cs.len() == 0 {
        Seq::empty()
    } else {
        (match cs[0] {
            CommandModel::V { library_file } => seq![LibraryArgsModel::File { library_file }],
            CommandModel::Y { library_dir } => seq![LibraryArgsModel::Dir { library_dir }],
            _ => Seq::empty(),
        }) + spec_libraries_of(cs.skip(1))
    }
}

proof fn lemma_aggregate_fields(lines: Seq<Seq<char>>, i: int, acc: SvParsedArgsModel)
    requires
        0 <= i <= lines.len(),
    ensures
        (match spec_aggregate_from(lines, i, acc) {
            AggOutcome::Done { args } => {
                &&& args.defines == acc.defines + spec_defines_of(spec_line_commands(lines, i))
                &&& args.includes == acc.includes + spec_includes_of(
                    spec_line_commands(lines, i),
                )
                &&& args.files == acc.files + spec_files_of(spec_line_commands(lines, i))
                &&& args.libraries == acc.libraries + spec_libraries_of(
                    spec_line_commands(lines, i),
                )
            },
            AggOutcome::Failed { .. } => true,
        }),
    decreases lines.len() - i,
{
    let cs = spec_line_commands(lines, i);
    if i >= lines.len() {
        assert(acc.defines + spec_defines_of(cs) =~= acc.defines);
        assert(acc.includes + spec_includes_of(cs) =~= acc.includes);
        assert(acc.files + spec_files_of(cs) =~= acc.files);
        assert(acc.libraries + spec_libraries_of(cs) =~= acc.libraries);
    } else {
        match spec_line_outcome(lines[i]) {
            Err(_) => {},
            Ok(None) => {
                lemma_aggregate_fields(lines, i + 1, acc);
            },
            Ok(Some(c)) => {
                let acc1 = spec_route(acc, c);
                lemma_aggregate_fields(lines, i + 1, acc1);
                let cs1 = spec_line_commands(lines, i + 1);
                assert(cs == seq![c] + cs1);
                assert(cs[0] == c);
                assert(cs.skip(1) =~= cs1);
                match c {
                    CommandModel::Define { define, arg } => {
                        let d = DefineArgsModel { define, arg };
                        assert(acc.defines + (seq![d] + spec_defines_of(cs1)) =~= acc.defines.push(
                            d,
                        ) + spec_defines_of(cs1));
                        assert(acc.includes + (Seq::<IncludeArgsModel>::empty()
                            + spec_includes_of(cs1)) =~= acc.includes + spec_includes_of(cs1));
                        assert(acc.files + (Seq::<FileArgsModel>::empty() + spec_files_of(cs1))
                            =~= acc.files + spec_files_of(cs1));
                        assert(acc.libraries + (Seq::<LibraryArgsModel>::empty()
                            + spec_libraries_of(cs1)) =~= acc.libraries + spec_libraries_of(cs1));
                    },
                    CommandModel::Include { directory } => {
                        let d = IncludeArgsModel { include_dir: directory };
                        assert(acc.includes + (seq![d] + spec_includes_of(cs1))
                            =~= acc.includes.push(d) + spec_includes_of(cs1));
                        assert(acc.defines + (Seq::<DefineArgsModel>::empty() + spec_defines_of(
                            cs1,
                        )) =~= acc.defines + spec_defines_of(cs1));
                        assert(acc.files + (Seq::<FileArgsModel>::empty() + spec_files_of(cs1))
                            =~= acc.files + spec_files_of(cs1));
                        assert(acc.libraries + (Seq::<LibraryArgsModel>::empty()
                            + spec_libraries_of(cs1)) =~= acc.libraries + spec_libraries_of(cs1));
                    },
                    CommandModel::V { library_file } => {
                        let d = LibraryArgsModel::File { library_file };
                        assert(acc.libraries + (seq![d] + spec_libraries_of(cs1))
                            =~= acc.libraries.push(d) + spec_libraries_of(cs1));
                        assert(acc.defines + (Seq::<DefineArgsModel>::empty() + spec_defines_of(
                            cs1,
                        )) =~= acc.defines + spec_defines_of(cs1));
                        assert(acc.includes + (Seq::<IncludeArgsModel>::empty()
                            + spec_includes_of(cs1)) =~= acc.includes + spec_includes_of(cs1));
                        assert(acc.files + (Seq::<FileArgsModel>::empty() + spec_files_of(cs1))
                            =~= acc.files + spec_files_of(cs1));
                    },
                    CommandModel::Y { library_dir } => {
                        let d = LibraryArgsModel::Dir { library_dir };
                        assert(acc.libraries + (seq![d] + spec_libraries_of(cs1))
                            =~= acc.libraries.push(d) + spec_libraries_of(cs1));
                        assert(acc.defines + (Seq::<DefineArgsModel>::empty() + spec_defines_of(
                            cs1,
                        )) =~= acc.defines + spec_defines_of(cs1));
                        assert(acc.includes + (Seq::<IncludeArgsModel>::empty()
                            + spec_includes_of(cs1)) =~= acc.includes + spec_includes_of(cs1));
                        assert(acc.files + (Seq::<FileArgsModel>::empty() + spec_files_of(cs1))
                            =~= acc.files + spec_files_of(cs1));
                    },
                    CommandModel::File { file } => {
                        let d = FileArgsModel { file };
                        assert(acc.files + (seq![d] + spec_files_of(cs1)) =~= acc.files.push(d)
                            + spec_files_of(cs1));
                        assert(acc.defines + (Seq::<DefineArgsModel>::empty() + spec_defines_of(
                            cs1,
                        )) =~= acc.defines + spec_defines_of(cs1));
                        assert(acc.includes + (Seq::<IncludeArgsModel>::empty()
                            + spec_includes_of(cs1)) =~= acc.includes + spec_includes_of(cs1));
                        assert(acc.libraries + (Seq::<LibraryArgsModel>::empty()
                            + spec_libraries_of(cs1)) =~= acc.libraries + spec_libraries_of(cs1));
                    },
                }
            },
        }
    }
}

/// Order preservation: when a filelist aggregates without error, each of the
/// four sequences lists exactly the commands of its kind in line order,
/// independent of how the kinds interleave across lines.
pub proof fn lemma_order_preserved(lines: Seq<Seq<char>>, args: SvParsedArgsModel)
    requires
        spec_aggregate(lines) == (AggOutcome::Done { args }),
    ensures
        args.defines == spec_defines_of(spec_line_commands(lines, 0)),
        args.includes == spec_includes_of(spec_line_commands(lines, 0)),
        args.files == spec_files_of(spec_line_commands(lines, 0)),
        args.libraries == spec_libraries_of(spec_line_commands(lines, 0)),
{
    lemma_aggregate_fields(lines, 0, spec_empty_args());
    let cs = spec_line_commands(lines, 0);
    assert(Seq::<DefineArgsModel>::empty() + spec_defines_of(cs) =~= spec_defines_of(cs));
    assert(Seq::<IncludeArgsModel>::empty() + spec_includes_of(cs) =~= spec_includes_of(cs));
    assert(Seq::<FileArgsModel>::empty() + spec_files_of(cs) =~= spec_files_of(cs));
    assert(Seq::<LibraryArgsModel>::empty() + spec_libraries_of(cs) =~= spec_libraries_of(cs));
}

} // verus!
