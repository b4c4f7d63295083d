//! Tokens, the input of the parser.

use vstd::prelude::*;

verus! {

/// The kind of a lexed token. The parser receives each token together with
/// the span of source text that it covers.
#[derive(Clone, Copy, Debug, PartialEq, Eq, Structural)]
pub enum Token {
    /// A run of blank space that contains at least one blank line.
    Blank,
    /// A comment that runs until the end of the line.
    LineComment,
    /// An identifier.
    Ident,
    /// A string literal in double quotes.
    DoubleQuoted,
    /// `for`
    KwFor,
    /// `if`
    KwIf,
    /// `in`
    KwIn,
    /// `let`
    KwLet,
    /// `not`
    KwNot,
    /// `:`
    Colon,
    /// `,`
    Comma,
    /// `.`
    Dot,
    /// `=`
    Eq,
    /// `;`
    Semicolon,
    /// `|`
    Pipe,
    /// `+`
    Plus,
    /// `(`
    LParen,
    /// `)`
    RParen,
    /// `[`
    LBracket,
    /// `]`
    RBracket,
    /// `{`
    LBrace,
    /// `}`
    RBrace,
}

} // verus!
