//! The error type shared by the parsers, the walk engine and the builders.

use vstd::prelude::*;

verus! {

/// Everything that can go wrong while parsing an input string, walking a
/// structure, or building an output from it.  Each variant carries no data;
/// `message` renders the human-readable description.
#[derive(Clone, Copy, Debug, PartialEq, Eq, Structural)]
pub enum LibError {
    /// A chunk held two or more leading open brackets, as in `((A`.
    ConsecutiveOpenBrackets,
    /// A chunk held neither an open nor a close bracket.
    NoMatchingParenthesis,
    /// A leaf chunk reduced to an empty label, as in `()`.
    NullNode,
    /// The counts of `(` and `)` differ over the whole input.
    UnbalancedBrackets,
    /// A chunk asked to close more levels than there are open ancestors.
    InconsistentClosers,
    /// A structure accessor ran before `build` produced a structure.
    EmptyStructure,
    /// A dependency row did not split into exactly ten tab-separated fields.
    WrongFieldCount,
    /// The id or head field of a dependency row is not a decimal number.
    BadNumber,
    /// Two or more tokens of one sentence have `head == id`.
    MultipleRoots,
    /// No token of the sentence has `head == id`.
    NoRoot,
    /// A token's id or head does not name a position of the sequence.
    TokenIdOutOfRange,
    /// A walk hook was handed an accumulator variant it does not work on.
    AccumulatorMismatch,
    /// A walk hook was handed an element kind it does not work on.
    ElementMismatch,
    /// The structure nests deeper than the walk's depth budget.
    TooDeep,
    /// A layout computation would exceed the machine integer range.
    ArithmeticOverflow,
    /// The command line did not hold exactly the expected argument count.
    WrongArgCount,
    /// The input-type selector was neither `c` nor `d`.
    BadSelector,
}

impl LibError {
    /// The description of the error, phrased as the condition it reports.
    pub fn message(&self) -> (r: &'static str)
        ensures
            r@.len() > 0,
    {
        proof {
            reveal_strlit("invalid input structure, consecutive open brackets");
            reveal_strlit("found a node without matching parenthesis");
            reveal_strlit("found a null node in input string");
            reveal_strlit("number of closers and openers don't match");
            reveal_strlit("inconsistent number of closers and ancestors for node id");
            reveal_strlit("structure is empty, build must run first");
            reveal_strlit("input line does not split into exactly ten fields");
            reveal_strlit("id or head field is not a decimal number");
            reveal_strlit("not supporting more than one root");
            reveal_strlit("no root token found");
            reveal_strlit("token id or head is out of range");
            reveal_strlit("accumulator variant does not fit this walk");
            reveal_strlit("element kind does not fit this walk");
            reveal_strlit("input is nested too deeply");
            reveal_strlit("layout value exceeds the integer range");
            reveal_strlit("wrong number of command line arguments");
            reveal_strlit("input selector is invalid");
        }
        match self {
            LibError::ConsecutiveOpenBrackets => "invalid input structure, consecutive open brackets",
            LibError::NoMatchingParenthesis => "found a node without matching parenthesis",
            LibError::NullNode => "found a null node in input string",
            LibError::UnbalancedBrackets => "number of closers and openers don't match",
            LibError::InconsistentClosers => "inconsistent number of closers and ancestors for node id",
            LibError::EmptyStructure => "structure is empty, build must run first",
            LibError::WrongFieldCount => "input line does not split into exactly ten fields",
            LibError::BadNumber => "id or head field is not a decimal number",
            LibError::MultipleRoots => "not supporting more than one root",
            LibError::NoRoot => "no root token found",
            LibError::TokenIdOutOfRange => "token id or head is out of range",
            LibError::AccumulatorMismatch => "accumulator variant does not fit this walk",
            LibError::ElementMismatch => "element kind does not fit this walk",
            LibError::TooDeep => "input is nested too deeply",
            LibError::ArithmeticOverflow => "layout value exceeds the integer range",
            LibError::WrongArgCount => "wrong number of command line arguments",
            LibError::BadSelector => "input selector is invalid",
        }
    }
}

} // verus!
