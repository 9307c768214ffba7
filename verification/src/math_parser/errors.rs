use vstd::prelude::*;
use vstd::string::StringExecFns;

verus! {

/// Why an expression was rejected. Every failure ends the call it occurs in.
#[derive(Debug, Clone, Copy, PartialEq, Eq, Structural)]
pub enum math_parser_errors {
    /// An opening parenthesis is never closed, or a closing one has no opening partner.
    mismatched_parenthesis,
    /// Operators stand where operands should, an operand is missing, or an operand is no number.
    invalid_notation,
    /// A function is unknown or is given too few arguments.
    invalid_function,
}

impl math_parser_errors {
    /// The fixed message of each kind.
    pub open spec fn text(self) -> Seq<char> {
        match self {
            math_parser_errors::mismatched_parenthesis => "Mismatched parenthesis"@,
            math_parser_errors::invalid_notation => "Invalid notation"@,
            math_parser_errors::invalid_function => "Invalid function"@,
        }
    }

    /// Renders the error for display.
    pub fn message(&self) -> (r: String)
        ensures
            r@ == self.text(),
    {
        match self {
            math_parser_errors::mismatched_parenthesis => String::from_str("Mismatched parenthesis"),
            math_parser_errors::invalid_notation => String::from_str("Invalid notation"),
            math_parser_errors::invalid_function => String::from_str("Invalid function"),
        }
    }
}

} // verus!
