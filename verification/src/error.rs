use vstd::prelude::*;

verus! {

/// Why parsing was refused. Parsing is all-or-nothing: the first offending
/// place in the input stops the parse and is reported as one of these kinds.
#[derive(Debug, Clone, Copy, PartialEq, Eq, Structural)]
pub enum ParseError {
    /// A character that no token may start with or contain.
    UnexpectedChar,
    /// A string literal whose closing quote is missing.
    UnterminatedString,
    /// A block comment whose closing delimiter is missing.
    UnterminatedComment,
    /// A lone `!` that is not followed by `=`.
    LoneBang,
    /// The input ended where more tokens were needed.
    UnexpectedEnd,
    /// A token that does not fit the grammar at its position.
    UnexpectedToken,
    /// A column type keyword other than `INT`, `TEXT` or `BOOLEAN`.
    UnknownType,
    /// A constraint keyword other than `NOT NULL`, `PRIMARY KEY` or `UNIQUE`.
    UnknownConstraint,
    /// An integer literal outside the signed 64-bit range.
    NumberOverflow,
    /// A filter expression with more nested parentheses than the parser
    /// admits.
    NestingTooDeep,
}

} // verus!
