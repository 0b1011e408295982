use vstd::prelude::*;

verus! {

/// A source comment kept as a statement of its own. The body is the
/// comment's actual text: everything after `--` up to the end of the line,
/// or everything between `/*` and `*/`.
#[derive(Debug, Clone, PartialEq, Eq)]
pub enum Comment {
    Line(String),
    Block(String),
}

} // verus!
