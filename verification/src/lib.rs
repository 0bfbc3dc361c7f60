//! Lexer, parser and aggregator for EDA-style filelist manifests.
//!
//! A filelist is a newline-delimited text file in which each line is one
//! directive: an include-directory flag (`+incdir+PATH`), a preprocessor
//! define (`+define+NAME` or `+define+NAME=VALUE`), a library file (`-v PATH`),
//! a library search directory (`-y PATH`), or a bare source-file path.
//! Whitespace and `#`-to-end-of-line comments are skipped.
//!
//! [`lexer`] turns one line of text into tokens; [`ast`] parses the token
//! sequence of a line into a [`ast::Command`] and folds a sequence of lines
//! into the per-kind collections of [`ast::SvParsedArgs`].
//!
//! Every span and error position this library reports is a character offset
//! into the line, counted from 0. Directive text is ASCII, so on any line a
//! filelist may hold these offsets equal the byte offsets up to and including
//! the first offending character; they differ only where a comment or an
//! invalid remainder holds multi-byte characters.

pub mod ast;
pub mod laws;
pub mod lexer;
