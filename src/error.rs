use vstd::prelude::*;

verus! {

/// Why a command was not carried out.
#[derive(Debug, Clone, Copy, PartialEq, Eq, Structural)]
pub enum TodoError {
    /// No command was given at all.
    NoCommand,
    /// An entry's text was asked for, and no word was given.
    MissingWords,
    /// A word holds a newline, and an entry must stay on one line.
    NewlineInText,
    /// A command that needs a position was given none.
    MissingPosition,
    /// The position is not a number written in decimal digits.
    InvalidPosition,
    /// No entry stands at the position given.
    NoSuchEntry,
}

} // verus!
