use vstd::prelude::*;
use crate::math_parser::text::{is_letter, letter};

verus! {

/// How operators of equal precedence group.
#[derive(Debug, Clone, Copy, PartialEq, Eq, Structural)]
pub enum assoc {
    right,
    left,
}

/// An operator as the converter keeps it on its stack.
#[derive(Debug, Clone, Copy, PartialEq, Eq, Structural)]
pub struct math_operator {
    pub operator: char,
    pub precedence: i32,
    pub associativity: assoc,
}

/// The five binary operators.
pub open spec fn is_real_symbol(c: char) -> bool {
    c == '+' || c == '-' || c == '*' || c == '/' || c == '^'
}

/// The two unary operators: `p` is the unary plus, `m` the unary minus.
pub open spec fn is_unary_symbol(c: char) -> bool {
    c == 'p' || c == 'm'
}

/// A character of a function call: a letter other than the unary symbols, or the `!`
/// that parts a function's name from its arguments.
pub open spec fn is_marker_symbol(c: char) -> bool {
    !is_unary_symbol(c) && (is_letter(c) || c == '!')
}

impl math_operator {
    /// The operator table. The opening parenthesis is in it with the lowest precedence,
    /// so that no operator ever pops it.
    pub open spec fn lookup(c: char) -> Option<math_operator> {
        if c == '+' || c == '-' {
            Some(math_operator { operator: c, precedence: 2, associativity: assoc::left })
        } else if c == '*' || c == '/' {
            Some(math_operator { operator: c, precedence: 3, associativity: assoc::left })
        } else if c == '^' {
            Some(math_operator { operator: c, precedence: 4, associativity: assoc::right })
        } else if c == 'p' || c == 'm' {
            Some(math_operator { operator: c, precedence: 5, associativity: assoc::left })
        } else if c == '(' {
            Some(math_operator { operator: c, precedence: -1i32, associativity: assoc::left })
        } else {
            None
        }
    }

    /// The stack entry that stands for one character of a function call.
    pub open spec fn marker(c: char) -> math_operator {
        math_operator { operator: c, precedence: 4, associativity: assoc::right }
    }

    /// Looks an operator up by its symbol.
    pub fn new(opchar: char) -> (r: Option<Self>)
        ensures
            r == Self::lookup(opchar),
    {
        if opchar == '+' || opchar == '-' {
            Some(math_operator { operator: opchar, precedence: 2, associativity: assoc::left })
        } else if opchar == '*' || opchar == '/' {
            Some(math_operator { operator: opchar, precedence: 3, associativity: assoc::left })
        } else if opchar == '^' {
            Some(math_operator { operator: opchar, precedence: 4, associativity: assoc::right })
        } else if opchar == 'p' || opchar == 'm' {
            Some(math_operator { operator: opchar, precedence: 5, associativity: assoc::left })
        } else if opchar == '(' {
            Some(math_operator { operator: opchar, precedence: -1, associativity: assoc::left })
        } else {
            None
        }
    }

    /// Whether this is one of the binary operators.
    pub fn is_real_op(&self) -> (r: bool)
        ensures
            r == is_real_symbol(self.operator),
    {
        let c = self.operator;
        c == '+' || c == '-' || c == '*' || c == '/' || c == '^'
    }

    /// Whether this entry is a character of a function call.
    pub fn is_function(&self) -> (r: bool)
        ensures
            r == is_marker_symbol(self.operator),
    {
        let c = self.operator;
        if c == 'p' || c == 'm' {
            false
        } else {
            letter(c) || c == '!'
        }
    }
}

} // verus!
