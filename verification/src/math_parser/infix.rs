use vstd::prelude::*;
use crate::math_parser::balance::{is_balanced, lemma_mismatch_is_imbalance};
use crate::math_parser::errors::math_parser_errors;
use crate::math_parser::operator::{assoc, is_marker_symbol, is_real_symbol, math_operator};
use crate::math_parser::text::{
    digit, double_space, has_double_space, is_digit, is_letter, letter, string_of, strip,
    without_whitespace,
};

verus! {

/// The converter's two stores: the operators held back and the postfix text written so far.
pub struct yard {
    pub stack: Seq<math_operator>,
    pub output: Seq<char>,
}

/// A character that belongs to a number.
pub open spec fn is_number_symbol(c: char) -> bool {
    is_digit(c) || c == ',' || c == '.'
}

/// Whether the operator at `i` stands where only a sign can: a digit follows it, and it
/// opens the text or follows neither a digit nor a closing parenthesis.
pub open spec fn is_unary_position(s: Seq<char>, i: int) -> bool {
    &&& 0 <= i < s.len()
    &&& is_real_symbol(s[i])
    &&& i + 1 < s.len() && is_digit(s[i + 1])
    &&& i == 0 || (s[i - 1] != ')' && !is_digit(s[i - 1]))
}

/// An operator other than `+` and `-` in a sign's position: no reading makes sense of it.
pub open spec fn unary_conflict_at(s: Seq<char>, i: int) -> bool {
    is_unary_position(s, i) && s[i] != '+' && s[i] != '-'
}

/// Some operator of the text stands in a sign's position and is none.
pub open spec fn unary_conflict(s: Seq<char>) -> bool {
    exists|i: int| unary_conflict_at(s, i)
}

/// The character at `i` once signs are told apart from binary operators.
pub open spec fn unary_mark(s: Seq<char>, i: int) -> char {
    if is_unary_position(s, i) && s[i] == '-' {
        'm'
    } else if is_unary_position(s, i) && s[i] == '+' {
        'p'
    } else {
        s[i]
    }
}

/// The text with every sign rewritten to its unary symbol.
pub open spec fn unary_resolved(s: Seq<char>) -> Seq<char> {
    Seq::new(s.len(), |i: int| unary_mark(s, i))
}

/// Whether the operator on top of the stack leaves it before `incoming` is pushed.
pub open spec fn gives_way(top: math_operator, incoming: math_operator) -> bool {
    &&& is_real_symbol(incoming.operator)
    &&& (top.precedence == incoming.precedence && incoming.associativity == assoc::left)
        || top.precedence > incoming.precedence
}

/// The output after an operator has left the stack: a separator goes before it unless
/// it is a character of a function call.
pub open spec fn emitted(output: Seq<char>, popped: math_operator) -> Seq<char> {
    if is_marker_symbol(popped.operator) {
        output.push(popped.operator)
    } else {
        output.push(' ').push(popped.operator)
    }
}

/// Pops every operator that gives way to `incoming`.
pub open spec fn drained(y: yard, incoming: math_operator) -> yard
    decreases y.stack.len(),
{
    if y.stack.len() > 0 && gives_way(y.stack.last(), incoming) {
        drained(
            yard { stack: y.stack.drop_last(), output: emitted(y.output, y.stack.last()) },
            incoming,
        )
    } else {
        y
    }
}

/// How many opening parentheses wait on the stack.
pub open spec fn open_count(stack: Seq<math_operator>) -> nat
    decreases stack.len(),
{
    if stack.len() == 0 {
        0
    } else if stack.last().operator == '(' {
        1 + open_count(stack.drop_last())
    } else {
        open_count(stack.drop_last())
    }
}

/// Pops operators to the output down to the nearest opening parenthesis, which is
/// dropped; with none on the stack, the stack is emptied.
pub open spec fn unwound(y: yard) -> yard
    decreases y.stack.len(),
{
    if y.stack.len() == 0 {
        y
    } else if y.stack.last().operator == '(' {
        yard { stack: y.stack.drop_last(), output: y.output }
    } else {
        unwound(yard { stack: y.stack.drop_last(), output: emitted(y.output, y.stack.last()) })
    }
}

/// A closing parenthesis with no opening one waiting for it.
pub open spec fn is_stray_close(y: yard, token: char) -> bool {
    &&& !is_number_symbol(token)
    &&& math_operator::lookup(token) is None
    &&& token == ')'
    &&& open_count(y.stack) == 0
}

/// The two stores after one character.
pub open spec fn after_token(y: yard, token: char) -> yard {
    if is_number_symbol(token) {
        yard { stack: y.stack, output: y.output.push(token) }
    } else if let Some(operator) = math_operator::lookup(token) {
        let d = drained(y, operator);
        yard {
            stack: d.stack.push(operator),
            output: if is_real_symbol(token) {
                d.output.push(' ')
            } else {
                d.output
            },
        }
    } else if token == ')' {
        unwound(y)
    } else if is_letter(token) || token == '!' {
        yard { stack: y.stack.push(math_operator::marker(token)), output: y.output }
    } else {
        y
    }
}

/// The two stores after a run of characters, or the failure of the first stray closing
/// parenthesis.
pub open spec fn after_tokens(y: yard, tokens: Seq<char>) -> Result<yard, math_parser_errors>
    decreases tokens.len(),
{
    if tokens.len() == 0 {
        Ok(y)
    } else if is_stray_close(y, tokens[0]) {
        Err(math_parser_errors::mismatched_parenthesis)
    } else {
        after_tokens(after_token(y, tokens[0]), tokens.drop_first())
    }
}

/// The postfix text of an infix expression that is already free of whitespace and whose
/// signs are resolved.
pub open spec fn converted(tokens: Seq<char>) -> Result<Seq<char>, math_parser_errors> {
    match after_tokens(yard { stack: Seq::empty(), output: Seq::empty() }, tokens) {
        Err(e) => Err(e),
        Ok(y) => if open_count(y.stack) > 0 {
            Err(math_parser_errors::mismatched_parenthesis)
        } else if has_double_space(unwound(y).output) {
            Err(math_parser_errors::invalid_notation)
        } else {
            Ok(unwound(y).output)
        },
    }
}

/// The postfix text of an infix expression, or the reason why it has none.
pub open spec fn postfix_of(input: Seq<char>) -> Result<Seq<char>, math_parser_errors> {
    let bare = without_whitespace(input);
    if unary_conflict(bare) {
        Err(math_parser_errors::invalid_notation)
    } else {
        converted(unary_resolved(bare))
    }
}

/// Converts infix notation to postfix by operator precedence.
pub struct infix_to_postfix;

impl infix_to_postfix {
    /// Takes one character: a number's character goes to the output, an operator onto
    /// the stack once the operators that give way to it have left, a closing
    /// parenthesis unwinds the stack to its opening partner, and a character of a
    /// function call waits on the stack. Anything else is passed over.
    fn handle_token(
        &self,
        opstack: &mut Vec<math_operator>,
        outqueue: &mut Vec<char>,
        token: char,
    ) -> (r: Result<(), math_parser_errors>)
        ensures
            ({
                let before = yard { stack: old(opstack)@, output: old(outqueue)@ };
                let after = yard { stack: final(opstack)@, output: final(outqueue)@ };
                &&& after == after_token(before, token)
                &&& r == if is_stray_close(before, token) {
                    Err::<(), math_parser_errors>(math_parser_errors::mismatched_parenthesis)
                } else {
                    Ok::<(), math_parser_errors>(())
                }
            }),
    {
        let ghost before = yard { stack: opstack@, output: outqueue@ };
        if digit(token) || token == ',' || token == '.' {
            outqueue.push(token);
            Ok(())
        } else if let Some(operator) = math_operator::new(token) {
            while opstack.len() > 0 && operator.is_real_op() && ((opstack[opstack.len() - 1].precedence
                == operator.precedence && operator.associativity == assoc::left)
                || opstack[opstack.len() - 1].precedence > operator.precedence)
                invariant
                    drained(yard { stack: opstack@, output: outqueue@ }, operator) == drained(
                        before,
                        operator,
                    ),
                    operator.operator == token,
                decreases opstack.len(),
            {
                let ghost here = yard { stack: opstack@, output: outqueue@ };
                let popd = opstack.pop().unwrap();
                if !popd.is_function() {
                    outqueue.push(' ');
                }
                outqueue.push(popd.operator);
                assert(opstack@ == here.stack.drop_last());
            }
            if operator.is_real_op() {
                outqueue.push(' ');
            }
            opstack.push(operator);
            Ok(())
        } else if token == ')' {
            while opstack.len() > 0 && opstack[opstack.len() - 1].operator != '('
                invariant
                    unwound(yard { stack: opstack@, output: outqueue@ }) == unwound(before),
                    open_count(opstack@) == open_count(before.stack),
                decreases opstack.len(),
            {
                let ghost here = yard { stack: opstack@, output: outqueue@ };
                let popd = opstack.pop().unwrap();
                if !popd.is_function() {
                    outqueue.push(' ');
                }
                outqueue.push(popd.operator);
                assert(opstack@ == here.stack.drop_last());
            }
            if opstack.len() == 0 {
                Err(math_parser_errors::mismatched_parenthesis)
            } else {
                let ghost here = opstack@;
                opstack.pop();
                assert(opstack@ == here.drop_last());
                Ok(())
            }
        } else if letter(token) || token == '!' {
            opstack.push(
                math_operator { operator: token, precedence: 4, associativity: assoc::right },
            );
            Ok(())
        } else {
            Ok(())
        }
    }

    /// Moves what is left on the stack to the output. An opening parenthesis among it
    /// was never closed.
    fn clean_stack(&self, opstack: &mut Vec<math_operator>, outqueue: &mut Vec<char>) -> (r: Result<
        (),
        math_parser_errors,
    >)
        ensures
            ({
                let before = yard { stack: old(opstack)@, output: old(outqueue)@ };
                let after = yard { stack: final(opstack)@, output: final(outqueue)@ };
                &&& after == unwound(before)
                &&& r == if open_count(before.stack) > 0 {
                    Err::<(), math_parser_errors>(math_parser_errors::mismatched_parenthesis)
                } else {
                    Ok::<(), math_parser_errors>(())
                }
            }),
    {
        let ghost before = yard { stack: opstack@, output: outqueue@ };
        while opstack.len() > 0
            invariant
                before == (yard { stack: old(opstack)@, output: old(outqueue)@ }),
                unwound(yard { stack: opstack@, output: outqueue@ }) == unwound(before),
                open_count(opstack@) == open_count(before.stack),
            decreases opstack.len(),
        {
            let ghost here = yard { stack: opstack@, output: outqueue@ };
            let popd = opstack.pop().unwrap();
            assert(opstack@ == here.stack.drop_last());
            if popd.operator == '(' {
                assert(unwound(here) == yard { stack: opstack@, output: outqueue@ });
                assert(open_count(here.stack) > 0);
                return Err(math_parser_errors::mismatched_parenthesis);
            }
            if !popd.is_function() {
                outqueue.push(' ');
            }
            outqueue.push(popd.operator);
        }
        Ok(())
    }

    /// Turns an infix expression into postfix text: operands in their order, each
    /// operator after its operands, one space between neighbours. What comes out has
    /// no two separators side by side, and comes only of matching parentheses.
    pub fn parse(&self, input_str: &str) -> (r: Result<String, math_parser_errors>)
        ensures
            match postfix_of(input_str@) {
                Ok(text) => r matches Ok(s) && s@ == text,
                Err(e) => r matches Err(x) && x == e,
            },
            r matches Ok(s) ==> !has_double_space(s@) && is_balanced(
                without_whitespace(input_str@),
            ),
    {
        proof {
            lemma_mismatch_is_imbalance(input_str@);
        }
        let mut operator_stack: Vec<math_operator> = Vec::new();
        let mut output_queue: Vec<char> = Vec::new();
        let mut char_stack = strip(input_str);
        let ghost bare = char_stack@;
        match self.unary_handle(&mut char_stack) {
            Err(e) => {
                return Err(e);
            },
            Ok(()) => {},
        }
        let ghost start = yard { stack: Seq::empty(), output: Seq::empty() };
        let mut i: usize = 0;
        assert(char_stack@.skip(0) == char_stack@);
        while i < char_stack.len()
            invariant
                i <= char_stack.len(),
                bare == without_whitespace(input_str@),
                !unary_conflict(bare),
                char_stack@ == unary_resolved(bare),
                start == (yard { stack: Seq::empty(), output: Seq::empty() }),
                after_tokens(
                    yard { stack: operator_stack@, output: output_queue@ },
                    char_stack@.skip(i as int),
                ) == after_tokens(start, char_stack@),
            decreases char_stack.len() - i,
        {
            assert(char_stack@.skip(i as int).drop_first() == char_stack@.skip(i + 1));
            assert(char_stack@.skip(i as int)[0] == char_stack@[i as int]);
            match self.handle_token(&mut operator_stack, &mut output_queue, char_stack[i]) {
                Err(e) => {
                    return Err(e);
                },
                Ok(()) => {},
            }
            i += 1;
        }
        match self.clean_stack(&mut operator_stack, &mut output_queue) {
            Err(e) => {
                return Err(e);
            },
            Ok(()) => {},
        }
        self.to_string(&output_queue)
    }

    /// Hands the output over as a string, unless two separators stand side by side in
    /// it: then operators met without an operand between them.
    fn to_string(&self, outqueue: &Vec<char>) -> (r: Result<String, math_parser_errors>)
        ensures
            match r {
                Ok(s) => !has_double_space(outqueue@) && s@ == outqueue@,
                Err(e) => has_double_space(outqueue@) && e == math_parser_errors::invalid_notation,
            },
    {
        if double_space(outqueue) {
            return Err(math_parser_errors::invalid_notation);
        }
        Ok(string_of(outqueue))
    }

    /// Rewrites each `+` and `-` that is a sign to `p` and `m`. On failure the
    /// characters before the offending operator are rewritten and the rest is
    /// untouched.
    fn unary_handle(&self, chrs: &mut Vec<char>) -> (r: Result<(), math_parser_errors>)
        ensures
            match r {
                Ok(()) => !unary_conflict(old(chrs)@) && final(chrs)@ == unary_resolved(old(chrs)@),
                Err(e) => {
                    &&& e == math_parser_errors::invalid_notation
                    &&& exists|k: int|
                        {
                            &&& #[trigger] unary_conflict_at(old(chrs)@, k)
                            &&& forall|j: int| 0 <= j < k ==> !unary_conflict_at(old(chrs)@, j)
                            &&& final(chrs)@ == unary_resolved(old(chrs)@).take(k) + old(chrs)@.skip(k)
                        }
                },
            },
    {
        let ghost origin = chrs@;
        let mut i: usize = 0;
        while i < chrs.len()
            invariant
                i <= chrs.len(),
                origin == old(chrs)@,
                chrs@.len() == origin.len(),
                forall|j: int| 0 <= j < i ==> chrs@[j] == unary_mark(origin, j),
                forall|j: int| i <= j < origin.len() ==> chrs@[j] == origin[j],
                forall|j: int| 0 <= j < i ==> !unary_conflict_at(origin, j),
            decreases chrs.len() - i,
        {
            let token = chrs[i];
            let binary = match math_operator::new(token) {
                Some(operator) => operator.is_real_op(),
                None => false,
            };
            assert(i > 0 ==> chrs@[i - 1] == unary_mark(origin, i - 1));
            assert(chrs@[i as int] == origin[i as int]);
            assert(i + 1 < chrs.len() ==> chrs@[i + 1] == origin[i + 1]);
            if binary && i + 1 < chrs.len() && digit(chrs[i + 1]) && (i == 0 || (chrs[i - 1] != ')'
                && !digit(chrs[i - 1]))) {
                assert(is_unary_position(origin, i as int));
                if token == '-' {
                    chrs.set(i, 'm');
                } else if token == '+' {
                    chrs.set(i, 'p');
                } else {
                    assert(unary_conflict_at(origin, i as int));
                    assert(chrs@ =~= unary_resolved(origin).take(i as int) + origin.skip(i as int));
                    return Err(math_parser_errors::invalid_notation);
                }
            } else {
                assert(!is_unary_position(origin, i as int));
            }
            i += 1;
        }
        assert(chrs@ =~= unary_resolved(origin));
        Ok(())
    }
}

} // verus!
