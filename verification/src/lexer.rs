//! Tokenizer for one line of a filelist.
//!
//! A line is a sequence of tokens drawn from a small alphabet: the literal
//! flags `+incdir+`, `+define+`, `-v` and `-y`, the punctuation `=` and `"`,
//! and maximal runs of path text. Whitespace and `#`-to-end-of-line comments
//! are skipped between tokens. Any other character is a lexical error.
//!
//! The spec-level account is [`lex_step`] (one token from a position) and
//! [`spec_tokens_from`] (the whole token sequence); [`Lexer`] and [`tokenize`]
//! are the executable side, proved to agree with them.
//!
//! All spans and positions are character offsets into the line. They equal
//! byte offsets whenever the text scanned so far is ASCII, which holds of
//! every token the alphabet admits; only comment text or the invalid
//! remainder of a failing line can make the two differ.

use vstd::prelude::*;
use vstd::string::*;

verus! {

/// Lexical error: some character begins no token of the directive alphabet.
#[derive(Default, Debug, Clone, PartialEq)]
pub enum ArgumentError {
    #[default]
    InvalidToken,
}

/// One lexical token of a directive line.
#[derive(Clone, Debug, PartialEq)]
pub enum Token {
    /// The literal `+incdir+`.
    IncludeDir,
    /// The literal `+define+`.
    Define,
    /// The literal `-v`.
    V,
    /// The literal `-y`.
    Y,
    /// The literal `=`.
    Equals,
    /// The literal `"`.
    Quotes,
    /// A maximal run of path text: a character in `[./_a-zA-Z]` followed by
    /// characters in `[./_0-9a-zA-Z]`.
    PathContent(String),
}

/// Mathematical counterpart of [`Token`], with the path text as a `Seq<char>`.
pub enum TokenModel {
    IncludeDir,
    Define,
    V,
    Y,
    Equals,
    Quotes,
    PathContent(Seq<char>),
}

impl DeepView for Token {
    type V = TokenModel;

    open spec fn deep_view(&self) -> TokenModel {
        match self {
            Token::IncludeDir => TokenModel::IncludeDir,
            Token::Define => TokenModel::Define,
            Token::V => TokenModel::V,
            Token::Y => TokenModel::Y,
            Token::Equals => TokenModel::Equals,
            Token::Quotes => TokenModel::Quotes,
            Token::PathContent(s) => TokenModel::PathContent(s@),
        }
    }
}

/// The characters a token stands for in the input line.
pub open spec fn spec_token_text(t: TokenModel) -> Seq<char> {
    match t {
        TokenModel::IncludeDir => incdir_lit(),
        TokenModel::Define => define_lit(),
        TokenModel::V => seq!['-', 'v'],
        TokenModel::Y => seq!['-', 'y'],
        TokenModel::Equals => seq!['='],
        TokenModel::Quotes => seq!['"'],
        TokenModel::PathContent(p) => p,
    }
}

impl Token {
    /// The token's text as it appears in the input line, for error reports.
    pub fn text(&self) -> (r: String)
        ensures
            r@ == spec_token_text(self.deep_view()),
    {
        match self {
            Token::IncludeDir => {
                let r = String::from_str("+incdir+");
                proof {
                    reveal_strlit("+incdir+");
                    assert(r@ =~= incdir_lit());
                }
                r
            },
            Token::Define => {
                let r = String::from_str("+define+");
                proof {
                    reveal_strlit("+define+");
                    assert(r@ =~= define_lit());
                }
                r
            },
            Token::V => {
                let r = String::from_str("-v");
                proof {
                    reveal_strlit("-v");
                    assert(r@ =~= seq!['-', 'v']);
                }
                r
            },
            Token::Y => {
                let r = String::from_str("-y");
                proof {
                    reveal_strlit("-y");
                    assert(r@ =~= seq!['-', 'y']);
                }
                r
            },
            Token::Equals => {
                let r = String::from_str("=");
                proof {
                    reveal_strlit("=");
                    assert(r@ =~= seq!['=']);
                }
                r
            },
            Token::Quotes => {
                let r = String::from_str("\"");
                proof {
                    reveal_strlit("\"");
                    assert(r@ =~= seq!['"']);
                }
                r
            },
            Token::PathContent(p) => p.clone(),
        }
    }
}

/// Whitespace skipped between tokens: space, tab, newline, form feed.
pub open spec fn is_space_char(c: char) -> bool {
    c == ' ' || c == '\t' || c == '\n' || c == '\u{000c}'
}

/// Characters that may begin a run of path text.
pub open spec fn is_path_start_char(c: char) -> bool {
    c == '.' || c == '/' || c == '_' || ('a' <= c && c <= 'z') || ('A' <= c && c <= 'Z')
}

/// Characters that may continue a run of path text.
pub open spec fn is_path_char(c: char) -> bool {
    is_path_start_char(c) || ('0' <= c && c <= '9')
}

/// The characters of the literal `+incdir+`.
pub open spec fn incdir_lit() -> Seq<char> {
    seq!['+', 'i', 'n', 'c', 'd', 'i', 'r', '+']
}

/// The characters of the literal `+define+`.
pub open spec fn define_lit() -> Seq<char> {
    seq!['+', 'd', 'e', 'f', 'i', 'n', 'e', '+']
}

/// The literal `lit` occurs in `s` starting at position `i`.
pub open spec fn lit_at(s: Seq<char>, i: int, lit: Seq<char>) -> bool {
    i + lit.len() <= s.len() && s.subrange(i, i + lit.len()) == lit
}

/// End of the run of path characters that starts at position `i`.
pub open spec fn path_end(s: Seq<char>, i: int) -> int
    decreases s.len() - i,
{
    if i < s.len() && is_path_char(s[i]) {
        path_end(s, i + 1)
    } else {
        i
    }
}

/// End of a comment scanned from position `i`: one past the next newline, or
/// the end of the text.
pub open spec fn comment_end(s: Seq<char>, i: int) -> int
    decreases s.len() - i,
{
    if i >= s.len() {
        i
    } else if s[i] == '\n' {
        i + 1
    } else {
        comment_end(s, i + 1)
    }
}

pub proof fn lemma_path_end_bounds(s: Seq<char>, i: int)
    requires
        i <= s.len(),
    ensures
        i <= path_end(s, i) <= s.len(),
        forall|k: int| i <= k < path_end(s, i) ==> is_path_char(#[trigger] s[k]),
        path_end(s, i) < s.len() ==> !is_path_char(s[path_end(s, i)]),
    decreases s.len() - i,
{
    if i < s.len() && is_path_char(s[i]) {
        lemma_path_end_bounds(s, i + 1);
    }
}

pub proof fn lemma_comment_end_bounds(s: Seq<char>, i: int)
    requires
        i <= s.len(),
    ensures
        i <= comment_end(s, i) <= s.len(),
    decreases s.len() - i,
{
    if i < s.len() && s[i] != '\n' {
        lemma_comment_end_bounds(s, i + 1);
    }
}

/// Outcome of scanning for the next token from some position: end of input,
/// one token with its character span, or a lexical failure at a position.
pub enum LexStep {
    End,
    Tok { token: TokenModel, start: int, end: int },
    Fail { pos: int },
}

/// The next token of `s` scanned from position `i`, skipping whitespace and
/// comments. At each position the literal flag and punctuation tokens are
/// checked before the generic path-text pattern; the two cannot overlap, since
/// path text never begins with `+`, `-`, `=` or `"`.
pub open spec fn lex_step(s: Seq<char>, i: int) -> LexStep
    decreases s.len() - i,
{
    if i >= s.len() {
        LexStep::End
    } else if is_space_char(s[i]) {
        lex_step(s, i + 1)
    } else if s[i] == '#' {
        proof {
            lemma_comment_end_bounds(s, i + 1);
        }
        lex_step(s, comment_end(s, i + 1))
    } else if lit_at(s, i, incdir_lit()) {
        LexStep::Tok { token: TokenModel::IncludeDir, start: i, end: i + 8 }
    } else if lit_at(s, i, define_lit()) {
        LexStep::Tok { token: TokenModel::Define, start: i, end: i + 8 }
    } else if s[i] == '-' && i + 2 <= s.len() && s[i + 1] == 'v' {
        LexStep::Tok { token: TokenModel::V, start: i, end: i + 2 }
    } else if s[i] == '-' && i + 2 <= s.len() && s[i + 1] == 'y' {
        LexStep::Tok { token: TokenModel::Y, start: i, end: i + 2 }
    } else if s[i] == '=' {
        LexStep::Tok { token: TokenModel::Equals, start: i, end: i + 1 }
    } else if s[i] == '"' {
        LexStep::Tok { token: TokenModel::Quotes, start: i, end: i + 1 }
    } else if is_path_start_char(s[i]) {
        LexStep::Tok {
            token: TokenModel::PathContent(s.subrange(i, path_end(s, i + 1))),
            start: i,
            end: path_end(s, i + 1),
        }
    } else {
        LexStep::Fail { pos: i }
    }
}

pub proof fn lemma_lex_step_bounds(s: Seq<char>, i: int)
    requires
        i <= s.len(),
    ensures
        match lex_step(s, i) {
            LexStep::End => true,
            LexStep::Tok { token, start, end } => i <= start < end <= s.len(),
            LexStep::Fail { pos } => i <= pos < s.len(),
        },
    decreases s.len() - i,
{
    if i < s.len() {
        if is_space_char(s[i]) {
            lemma_lex_step_bounds(s, i + 1);
        } else if s[i] == '#' {
            lemma_comment_end_bounds(s, i + 1);
            lemma_lex_step_bounds(s, comment_end(s, i + 1));
        } else {
            lemma_path_end_bounds(s, i + 1);
        }
    }
}

/// One token of a line together with its character span.
pub struct TokenSpan {
    pub token: TokenModel,
    pub start: int,
    pub end: int,
}

/// All tokens of `s` from position `i` on, or the position of the first
/// character that begins no token.
pub open spec fn spec_tokens_from(s: Seq<char>, i: int) -> Result<Seq<TokenSpan>, int>
    decreases s.len() - i,
{
    match lex_step(s, i) {
        LexStep::End => Ok(Seq::empty()),
        LexStep::Fail { pos } => Err(pos),
        LexStep::Tok { token, start, end } => {
            proof {
                if i <= s.len() {
                    lemma_lex_step_bounds(s, i);
                }
            }
            match spec_tokens_from(s, end) {
                Ok(rest) => Ok(seq![TokenSpan { token, start, end }] + rest),
                Err(p) => Err(p),
            }
        },
    }
}

/// All tokens of the line `s`, or the position of the first invalid character.
pub open spec fn spec_tokens(s: Seq<char>) -> Result<Seq<TokenSpan>, int> {
    spec_tokens_from(s, 0)
}

/// Character sequences that the lexer reads as exactly one run of path text.
pub open spec fn is_path_token(p: Seq<char>) -> bool {
    p.len() > 0 && is_path_start_char(p[0]) && forall|k: int|
        0 <= k < p.len() ==> is_path_char(#[trigger] p[k])
}

/// A run of path characters over `[i, j)` that cannot be extended past `j`
/// ends exactly at `j`.
pub proof fn lemma_path_end_run(s: Seq<char>, i: int, j: int)
    requires
        0 <= i <= j <= s.len(),
        forall|k: int| i <= k < j ==> is_path_char(#[trigger] s[k]),
        j == s.len() || !is_path_char(s[j]),
    ensures
        path_end(s, i) == j,
    decreases j - i,
{
    if i < j {
        lemma_path_end_run(s, i + 1, j);
    }
}

/// At the start of a maximal path run the lexer produces one path token
/// spanning the whole run.
pub proof fn lemma_lex_step_path(s: Seq<char>, i: int, j: int)
    requires
        0 <= i < j <= s.len(),
        is_path_start_char(s[i]),
        forall|k: int| i <= k < j ==> is_path_char(#[trigger] s[k]),
        j == s.len() || !is_path_char(s[j]),
    ensures
        lex_step(s, i) == (LexStep::Tok {
            token: TokenModel::PathContent(s.subrange(i, j)),
            start: i,
            end: j,
        }),
{
    assert(!is_space_char(s[i]));
    assert(s[i] != '#');
    assert(s[i] != '+');
    lemma_not_lit_plus(s, i);
    assert(s[i] != '-');
    assert(s[i] != '=');
    assert(s[i] != '"');
    lemma_path_end_run(s, i + 1, j);
}

/// At an occurrence of `+incdir+` the lexer produces its flag token.
pub proof fn lemma_lex_step_incdir(s: Seq<char>, i: int)
    requires
        0 <= i,
        i + 8 <= s.len(),
        s.subrange(i, i + 8) == incdir_lit(),
    ensures
        lex_step(s, i) == (LexStep::Tok { token: TokenModel::IncludeDir, start: i, end: i + 8 }),
{
    assert(s.subrange(i, i + 8)[0] == s[i]);
    assert(incdir_lit()[0] == '+');
    assert(s[i] == '+');
}

/// At an occurrence of `+define+` the lexer produces its flag token.
pub proof fn lemma_lex_step_define(s: Seq<char>, i: int)
    requires
        0 <= i,
        i + 8 <= s.len(),
        s.subrange(i, i + 8) == define_lit(),
    ensures
        lex_step(s, i) == (LexStep::Tok { token: TokenModel::Define, start: i, end: i + 8 }),
{
    assert(s.subrange(i, i + 8)[0] == s[i]);
    assert(define_lit()[0] == '+');
    assert(s[i] == '+');
    if lit_at(s, i, incdir_lit()) {
        assert(s.subrange(i, i + 8)[1] == s[i + 1]);
        assert(incdir_lit()[1] == 'i');
        assert(define_lit()[1] == 'd');
    }
}

/// At `-v` the lexer produces the library-file flag token.
pub proof fn lemma_lex_step_v(s: Seq<char>, i: int)
    requires
        0 <= i,
        i + 2 <= s.len(),
        s[i] == '-',
        s[i + 1] == 'v',
    ensures
        lex_step(s, i) == (LexStep::Tok { token: TokenModel::V, start: i, end: i + 2 }),
{
    lemma_not_lit_plus(s, i);
}

/// At `-y` the lexer produces the library-directory flag token.
pub proof fn lemma_lex_step_y(s: Seq<char>, i: int)
    requires
        0 <= i,
        i + 2 <= s.len(),
        s[i] == '-',
        s[i + 1] == 'y',
    ensures
        lex_step(s, i) == (LexStep::Tok { token: TokenModel::Y, start: i, end: i + 2 }),
{
    lemma_not_lit_plus(s, i);
}

/// At `=` the lexer produces the equals token.
pub proof fn lemma_lex_step_equals(s: Seq<char>, i: int)
    requires
        0 <= i < s.len(),
        s[i] == '=',
    ensures
        lex_step(s, i) == (LexStep::Tok { token: TokenModel::Equals, start: i, end: i + 1 }),
{
    lemma_not_lit_plus(s, i);
}

/// At `"` the lexer produces the quote token.
pub proof fn lemma_lex_step_quotes(s: Seq<char>, i: int)
    requires
        0 <= i < s.len(),
        s[i] == '"',
    ensures
        lex_step(s, i) == (LexStep::Tok { token: TokenModel::Quotes, start: i, end: i + 1 }),
{
    lemma_not_lit_plus(s, i);
}

/// Text that is whitespace through to its end lexes to no token at all.
pub proof fn lemma_all_space_end(s: Seq<char>, i: int)
    requires
        0 <= i <= s.len(),
        forall|k: int| i <= k < s.len() ==> is_space_char(#[trigger] s[k]),
    ensures
        lex_step(s, i) == LexStep::End,
    decreases s.len() - i,
{
    if i < s.len() {
        lemma_all_space_end(s, i + 1);
    }
}

/// A comment with no newline inside runs to the end of the text.
pub proof fn lemma_comment_end_no_newline(s: Seq<char>, i: int)
    requires
        0 <= i <= s.len(),
        forall|k: int| i <= k < s.len() ==> s[k] != '\n',
    ensures
        comment_end(s, i) == s.len(),
    decreases s.len() - i,
{
    if i < s.len() {
        lemma_comment_end_no_newline(s, i + 1);
    }
}

/// Whitespace, then a `#` comment that no newline cuts short: no token at all.
pub proof fn lemma_space_then_comment_end(s: Seq<char>, i: int, h: int)
    requires
        0 <= i <= h < s.len(),
        forall|k: int| i <= k < h ==> is_space_char(#[trigger] s[k]),
        s[h] == '#',
        forall|k: int| h < k < s.len() ==> s[k] != '\n',
    ensures
        lex_step(s, i) == LexStep::End,
    decreases h - i,
{
    if i < h {
        lemma_space_then_comment_end(s, i + 1, h);
    } else {
        assert(!is_space_char('#'));
        lemma_comment_end_no_newline(s, h + 1);
        assert(lex_step(s, h) == lex_step(s, comment_end(s, h + 1)));
    }
}

fn space_char(c: char) -> (r: bool)
    ensures
        r == is_space_char(c),
{
    c == ' ' || c == '\t' || c == '\n' || c == '\u{000c}'
}

fn path_start_char(c: char) -> (r: bool)
    ensures
        r == is_path_start_char(c),
{
    c == '.' || c == '/' || c == '_' || ('a' <= c && c <= 'z') || ('A' <= c && c <= 'Z')
}

fn path_char(c: char) -> (r: bool)
    ensures
        r == is_path_char(c),
{
    path_start_char(c) || ('0' <= c && c <= '9')
}

/// Neither eight-character literal can start at a position that does not hold `+`.
proof fn lemma_not_lit_plus(s: Seq<char>, i: int)
    requires
        0 <= i < s.len(),
        s[i] != '+',
    ensures
        !lit_at(s, i, incdir_lit()),
        !lit_at(s, i, define_lit()),
{
    assert(incdir_lit().len() == 8);
    assert(define_lit().len() == 8);
    if i + 8 <= s.len() {
        assert(incdir_lit()[0] == '+');
        assert(define_lit()[0] == '+');
        assert(s.subrange(i, i + 8)[0] == s[i]);
    }
}

fn lit_incdir_at(s: &str, i: usize, length: usize) -> (r: bool)
    requires
        length == s@.len(),
        i < length,
    ensures
        r == lit_at(s@, i as int, incdir_lit()),
{
    proof {
        assert(incdir_lit().len() == 8);
    }
    if length - i < 8 {
        false
    } else {
        let r = s.get_char(i) == '+' && s.get_char(i + 1) == 'i' && s.get_char(i + 2) == 'n'
            && s.get_char(i + 3) == 'c' && s.get_char(i + 4) == 'd' && s.get_char(i + 5) == 'i'
            && s.get_char(i + 6) == 'r' && s.get_char(i + 7) == '+';
        proof {
            assert(incdir_lit()[0] == '+');
            assert(incdir_lit()[1] == 'i');
            assert(incdir_lit()[2] == 'n');
            assert(incdir_lit()[3] == 'c');
            assert(incdir_lit()[4] == 'd');
            assert(incdir_lit()[5] == 'i');
            assert(incdir_lit()[6] == 'r');
            assert(incdir_lit()[7] == '+');
            if r {
                assert(s@.subrange(i as int, i as int + 8) =~= incdir_lit());
            } else {
                if lit_at(s@, i as int, incdir_lit()) {
                    assert(forall|k: int|
                        0 <= k < 8 ==> s@.subrange(i as int, i as int + 8)[k] == incdir_lit()[k]);
                    assert(s@[i as int] == '+');
                    assert(s@[i as int + 1] == 'i');
                    assert(s@[i as int + 2] == 'n');
                    assert(s@[i as int + 3] == 'c');
                    assert(s@[i as int + 4] == 'd');
                    assert(s@[i as int + 5] == 'i');
                    assert(s@[i as int + 6] == 'r');
                    assert(s@[i as int + 7] == '+');
                }
            }
        }
        r
    }
}

fn lit_define_at(s: &str, i: usize, length: usize) -> (r: bool)
    requires
        length == s@.len(),
        i < length,
    ensures
        r == lit_at(s@, i as int, define_lit()),
{
    proof {
        assert(define_lit().len() == 8);
    }
    if length - i < 8 {
        false
    } else {
        let r = s.get_char(i) == '+' && s.get_char(i + 1) == 'd' && s.get_char(i + 2) == 'e'
            && s.get_char(i + 3) == 'f' && s.get_char(i + 4) == 'i' && s.get_char(i + 5) == 'n'
            && s.get_char(i + 6) == 'e' && s.get_char(i + 7) == '+';
        proof {
            assert(define_lit()[0] == '+');
            assert(define_lit()[1] == 'd');
            assert(define_lit()[2] == 'e');
            assert(define_lit()[3] == 'f');
            assert(define_lit()[4] == 'i');
            assert(define_lit()[5] == 'n');
            assert(define_lit()[6] == 'e');
            assert(define_lit()[7] == '+');
            if r {
                assert(s@.subrange(i as int, i as int + 8) =~= define_lit());
            } else {
                if lit_at(s@, i as int, define_lit()) {
                    assert(forall|k: int|
                        0 <= k < 8 ==> s@.subrange(i as int, i as int + 8)[k] == define_lit()[k]);
                    assert(s@[i as int] == '+');
                    assert(s@[i as int + 1] == 'd');
                    assert(s@[i as int + 2] == 'e');
                    assert(s@[i as int + 3] == 'f');
                    assert(s@[i as int + 4] == 'i');
                    assert(s@[i as int + 5] == 'n');
                    assert(s@[i as int + 6] == 'e');
                    assert(s@[i as int + 7] == '+');
                }
            }
        }
        r
    }
}

/// Scans one line of text and hands out its tokens one at a time, each with
/// its character span, skipping whitespace and comments.
pub struct Lexer<'input> {
    input: &'input str,
    length: usize,
    pos: usize,
}

impl<'input> Lexer<'input> {
    /// The characters of the line being scanned.
    pub closed spec fn text(&self) -> Seq<char> {
        self.input@
    }

    /// The current scan position, as a character offset.
    pub closed spec fn position(&self) -> int {
        self.pos as int
    }

    pub closed spec fn wf(&self) -> bool {
        self.length == self.input@.len() && self.pos <= self.length
    }

    pub fn new(input: &'input str) -> (r: Self)
        ensures
            r.wf(),
            r.text() == input@,
            r.position() == 0,
    {
        let length = input.unicode_len();
        Lexer { input, length, pos: 0 }
    }

    pub fn current_position(&self) -> (p: usize)
        ensures
            p as int == self.position(),
    {
        self.pos
    }

    /// The next token of the line, with its character span; `None` when only
    /// whitespace and comments remain, an error at the first character that
    /// begins no token. On failure the offending character is consumed, so
    /// that repeated calls always make progress: every `Some` answer advances
    /// the scan position, and after at most one `Some` per character of input
    /// the lexer answers `None`.
    #[verifier::loop_isolation(false)]
    pub fn next_token(&mut self) -> (r: Option<Result<(usize, Token, usize), ArgumentError>>)
        requires
            old(self).wf(),
        ensures
            final(self).wf(),
            final(self).text() == old(self).text(),
            r is Some ==> final(self).position() > old(self).position(),
            (match lex_step(old(self).text(), old(self).position()) {
                LexStep::End => r is None && final(self).position() == old(self).text().len(),
                LexStep::Tok { token, start, end } => (match r {
                    Some(Ok(t)) => t.1.deep_view() == token && t.0 == start && t.2 == end
                        && final(self).position() == end,
                    _ => false,
                }),
                LexStep::Fail { pos } => (match r {
                    Some(Err(e)) => e == ArgumentError::InvalidToken && final(self).position()
                        == pos + 1,
                    _ => false,
                }),
            }),
    {
        let ghost s = self.input@;
        let ghost p0 = self.pos as int;
        proof {
            lemma_lex_step_bounds(s, p0);
        }
        loop
            invariant
                self.length == s.len(),
                self.input@ == s,
                self.pos <= self.length,
                lex_step(s, self.pos as int) == lex_step(s, p0),
            decreases s.len() - self.pos,
        {
            if self.pos >= self.length {
                return None;
            }
            let c = self.input.get_char(self.pos);
            if space_char(c) {
                proof {
                    assert(lex_step(s, self.pos as int) == lex_step(s, self.pos as int + 1));
                }
                self.pos = self.pos + 1;
            } else if c == '#' {
                let start = self.pos;
                let mut j = start + 1;
                while j < self.length && self.input.get_char(j) != '\n'
                    invariant
                        start as int + 1 <= j as int <= s.len(),
                        comment_end(s, start as int + 1) == comment_end(s, j as int),
                    decreases s.len() - j,
                {
                    proof {
                        assert(comment_end(s, j as int) == comment_end(s, j as int + 1));
                    }
                    j = j + 1;
                }
                if j < self.length {
                    proof {
                        assert(comment_end(s, j as int) == j as int + 1);
                    }
                    j = j + 1;
                } else {
                    proof {
                        assert(comment_end(s, j as int) == j as int);
                    }
                }
                proof {
                    assert(j as int == comment_end(s, start as int + 1));
                    assert(lex_step(s, start as int) == lex_step(
                        s,
                        comment_end(s, start as int + 1),
                    ));
                }
                self.pos = j;
            } else if c == '+' {
                if lit_incdir_at(self.input, self.pos, self.length) {
                    let start = self.pos;
                    self.pos = self.pos + 8;
                    return Some(Ok((start, Token::IncludeDir, start + 8)));
                } else if lit_define_at(self.input, self.pos, self.length) {
                    let start = self.pos;
                    self.pos = self.pos + 8;
                    return Some(Ok((start, Token::Define, start + 8)));
                } else {
                    proof {
                        assert(!is_path_start_char('+'));
                    }
                    self.pos = self.pos + 1;
                    return Some(Err(ArgumentError::InvalidToken));
                }
            } else if c == '-' {
                proof {
                    lemma_not_lit_plus(s, self.pos as int);
                    assert(!is_path_start_char('-'));
                }
                if self.length - self.pos >= 2 {
                    let c2 = self.input.get_char(self.pos + 1);
                    if c2 == 'v' {
                        let start = self.pos;
                        self.pos = self.pos + 2;
                        return Some(Ok((start, Token::V, start + 2)));
                    } else if c2 == 'y' {
                        let start = self.pos;
                        self.pos = self.pos + 2;
                        return Some(Ok((start, Token::Y, start + 2)));
                    } else {
                        self.pos = self.pos + 1;
                        return Some(Err(ArgumentError::InvalidToken));
                    }
                } else {
                    self.pos = self.pos + 1;
                    return Some(Err(ArgumentError::InvalidToken));
                }
            } else if c == '=' {
                proof {
                    lemma_not_lit_plus(s, self.pos as int);
                }
                let start = self.pos;
                self.pos = self.pos + 1;
                return Some(Ok((start, Token::Equals, start + 1)));
            } else if c == '"' {
                proof {
                    lemma_not_lit_plus(s, self.pos as int);
                }
                let start = self.pos;
                self.pos = self.pos + 1;
                return Some(Ok((start, Token::Quotes, start + 1)));
            } else if path_start_char(c) {
                proof {
                    lemma_not_lit_plus(s, self.pos as int);
                }
                let start = self.pos;
                let mut j = start + 1;
                while j < self.length && path_char(self.input.get_char(j))
                    invariant
                        start as int + 1 <= j as int <= s.len(),
                        path_end(s, start as int + 1) == path_end(s, j as int),
                    decreases s.len() - j,
                {
                    proof {
                        assert(path_end(s, j as int) == path_end(s, j as int + 1));
                    }
                    j = j + 1;
                }
                proof {
                    assert(path_end(s, j as int) == j as int);
                    assert(j as int == path_end(s, start as int + 1));
                }
                let text = self.input.substring_char(start, j).to_owned();
                self.pos = j;
                return Some(Ok((start, Token::PathContent(text), j)));
            } else {
                proof {
                    lemma_not_lit_plus(s, self.pos as int);
                }
                self.pos = self.pos + 1;
                return Some(Err(ArgumentError::InvalidToken));
            }
        }
    }
}

/// Model of a token vector as produced by [`tokenize`].
pub open spec fn tokens_model(v: Seq<(usize, Token, usize)>) -> Seq<TokenSpan> {
    v.map(
        |k: int, t: (usize, Token, usize)|
            TokenSpan { token: t.1.deep_view(), start: t.0 as int, end: t.2 as int },
    )
}

spec fn spec_append_result(pre: Seq<TokenSpan>, r: Result<Seq<TokenSpan>, int>) -> Result<
    Seq<TokenSpan>,
    int,
> {
    match r {
        Ok(ts) => Ok(pre + ts),
        Err(p) => Err(p),
    }
}

/// All tokens of the line, each with its character span, or the position of
/// the first character that begins no token.
#[verifier::loop_isolation(false)]
pub fn tokenize(input: &str) -> (r: Result<Vec<(usize, Token, usize)>, usize>)
    ensures
        (match spec_tokens(input@) {
            Ok(ts) => (match r {
                Ok(v) => tokens_model(v@) == ts,
                Err(_) => false,
            }),
            Err(p) => (match r {
                Ok(_) => false,
                Err(q) => q as int == p,
            }),
        }),
{
    let ghost s = input@;
    let mut lexer = Lexer::new(input);
    let mut out: Vec<(usize, Token, usize)> = Vec::new();
    proof {
        assert(tokens_model(out@) =~= Seq::<TokenSpan>::empty());
        match spec_tokens_from(s, 0) {
            Ok(ts) => {
                assert(Seq::<TokenSpan>::empty() + ts =~= ts);
            },
            Err(_) => {},
        }
    }
    loop
        invariant
            lexer.wf(),
            lexer.text() == s,
            0 <= lexer.position() <= s.len(),
            spec_append_result(tokens_model(out@), spec_tokens_from(s, lexer.position()))
                == spec_tokens_from(s, 0),
        decreases s.len() - lexer.position(),
    {
        let ghost p = lexer.position();
        let ghost pre = tokens_model(out@);
        proof {
            lemma_lex_step_bounds(s, p);
        }
        match lexer.next_token() {
            None => {
                proof {
                    assert(spec_tokens_from(s, p) == Ok::<Seq<TokenSpan>, int>(Seq::empty()));
                    assert(pre + Seq::<TokenSpan>::empty() =~= pre);
                }
                return Ok(out);
            },
            Some(Err(_)) => {
                let q = lexer.current_position() - 1;
                return Err(q);
            },
            Some(Ok(t)) => {
                let ghost tsp = TokenSpan {
                    token: t.1.deep_view(),
                    start: t.0 as int,
                    end: t.2 as int,
                };
                out.push(t);
                proof {
                    assert(tokens_model(out@) =~= pre.push(tsp));
                    match spec_tokens_from(s, lexer.position()) {
                        Ok(rest) => {
                            assert(pre.push(tsp) + rest =~= pre + (seq![tsp] + rest));
                        },
                        Err(_) => {},
                    }
                }
            },
        }
    }
}

} // verus!
