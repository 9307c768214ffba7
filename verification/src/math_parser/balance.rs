use vstd::prelude::*;
use crate::math_parser::errors::math_parser_errors;
use crate::math_parser::infix::{
    after_token, after_tokens, drained, emitted, gives_way, is_number_symbol,
    is_stray_close, open_count, postfix_of, unary_conflict, unary_mark,
    unary_resolved, unwound, yard,
};
use crate::math_parser::operator::{is_real_symbol, math_operator};
use crate::math_parser::text::without_whitespace;

verus! {

/// How many parentheses are open after the text, when `depth` were open before it.
/// `None` if the text closes one that is not open.
pub open spec fn depth_after(s: Seq<char>, depth: nat) -> Option<nat>
    decreases s.len(),
{
    if s.len() == 0 {
        Some(depth)
    } else if s[0] == '(' {
        depth_after(s.drop_first(), depth + 1)
    } else if s[0] == ')' {
        if depth == 0 {
            None
        } else {
            depth_after(s.drop_first(), (depth - 1) as nat)
        }
    } else {
        depth_after(s.drop_first(), depth)
    }
}

/// Every closing parenthesis has its opening partner before it, and none stays open.
pub open spec fn is_balanced(s: Seq<char>) -> bool {
    depth_after(s, 0) == Some(0nat)
}

/// On the stack the opening parenthesis keeps the precedence that lets no operator pop
/// it.
pub open spec fn parentheses_rest(stack: Seq<math_operator>) -> bool {
    forall|i: int|
        0 <= i < stack.len() ==> ((#[trigger] stack[i]).operator == '(' ==> stack[i].precedence < 0)
}

/// What holds of a stack holds of the stack below its top.
pub proof fn lemma_rest_below(stack: Seq<math_operator>)
    requires
        parentheses_rest(stack),
        stack.len() > 0,
    ensures
        parentheses_rest(stack.drop_last()),
{
    let below = stack.drop_last();
    assert forall|i: int| 0 <= i < below.len() && (#[trigger] below[i]).operator == '(' implies below[i].precedence
        < 0 by {
        assert(below[i] == stack[i]);
    }
}

/// An operator of the table, or a character of a function call, may go onto the stack.
pub proof fn lemma_rest_pushed(stack: Seq<math_operator>, operator: math_operator)
    requires
        parentheses_rest(stack),
        operator.operator == '(' ==> operator.precedence < 0,
    ensures
        parentheses_rest(stack.push(operator)),
{
    let above = stack.push(operator);
    assert forall|i: int| 0 <= i < above.len() && (#[trigger] above[i]).operator == '(' implies above[i].precedence
        < 0 by {
        if i < stack.len() {
            assert(above[i] == stack[i]);
        }
    }
}

/// Operators that give way to another take no opening parenthesis with them, and what
/// was written stays written.
pub proof fn lemma_drained(y: yard, incoming: math_operator)
    requires
        parentheses_rest(y.stack),
        is_real_symbol(incoming.operator) ==> incoming.precedence >= 0,
    ensures
        parentheses_rest(drained(y, incoming).stack),
        open_count(drained(y, incoming).stack) == open_count(y.stack),
        y.output.is_prefix_of(drained(y, incoming).output),
    decreases y.stack.len(),
{
    if y.stack.len() > 0 && gives_way(y.stack.last(), incoming) {
        let next = yard { stack: y.stack.drop_last(), output: emitted(y.output, y.stack.last()) };
        assert(y.stack.last() == y.stack[y.stack.len() - 1]);
        lemma_rest_below(y.stack);
        lemma_drained(next, incoming);
    }
}

/// Unwinding takes exactly one opening parenthesis off the stack, if there is one.
pub proof fn lemma_unwound(y: yard)
    requires
        parentheses_rest(y.stack),
    ensures
        parentheses_rest(unwound(y).stack),
        open_count(unwound(y).stack) == if open_count(y.stack) > 0 {
            open_count(y.stack) - 1
        } else {
            0
        },
        open_count(y.stack) == 0 ==> unwound(y).stack.len() == 0,
        y.output.is_prefix_of(unwound(y).output),
    decreases y.stack.len(),
{
    if y.stack.len() > 0 {
        let below = y.stack.drop_last();
        lemma_rest_below(y.stack);
        if y.stack.last().operator != '(' {
            lemma_unwound(yard { stack: below, output: emitted(y.output, y.stack.last()) });
        }
    }
}

/// One character moves the count of waiting parentheses as it moves the depth of the
/// text.
pub proof fn lemma_after_token(y: yard, token: char)
    requires
        parentheses_rest(y.stack),
        !is_stray_close(y, token),
    ensures
        parentheses_rest(after_token(y, token).stack),
        open_count(after_token(y, token).stack) as int == if token == '(' {
            open_count(y.stack) as int + 1
        } else if token == ')' {
            open_count(y.stack) as int - 1
        } else {
            open_count(y.stack) as int
        },
        y.output.is_prefix_of(after_token(y, token).output),
{
    let after = after_token(y, token);
    if is_number_symbol(token) {
    } else if let Some(operator) = math_operator::lookup(token) {
        lemma_drained(y, operator);
        let d = drained(y, operator);
        assert(after.stack.drop_last() == d.stack);
        lemma_rest_pushed(d.stack, operator);
    } else if token == ')' {
        lemma_unwound(y);
    } else if after.stack.len() > y.stack.len() {
        assert(after.stack.drop_last() == y.stack);
        lemma_rest_pushed(y.stack, math_operator::marker(token));
    }
}

/// The converter tells a stray closing parenthesis exactly where the depth of the text
/// would fall below zero, and keeps as many opening parentheses as are open.
pub proof fn lemma_after_tokens(y: yard, tokens: Seq<char>)
    requires
        parentheses_rest(y.stack),
    ensures
        match after_tokens(y, tokens) {
            Err(e) => e == math_parser_errors::mismatched_parenthesis && depth_after(
                tokens,
                open_count(y.stack),
            ) is None,
            Ok(z) => {
                &&& parentheses_rest(z.stack)
                &&& depth_after(tokens, open_count(y.stack)) == Some(open_count(z.stack))
                &&& y.output.is_prefix_of(z.output)
            },
        },
    decreases tokens.len(),
{
    if tokens.len() > 0 && !is_stray_close(y, tokens[0]) {
        lemma_after_token(y, tokens[0]);
        lemma_after_tokens(after_token(y, tokens[0]), tokens.drop_first());
    }
}

/// Two texts with their parentheses in the same places are equally deep.
pub proof fn lemma_same_parentheses(a: Seq<char>, b: Seq<char>, depth: nat)
    requires
        a.len() == b.len(),
        forall|i: int|
            0 <= i < a.len() ==> ((a[i] == '(') == (b[i] == '(') && (a[i] == ')') == (b[i] == ')')),
    ensures
        depth_after(a, depth) == depth_after(b, depth),
    decreases a.len(),
{
    if a.len() > 0 {
        let next: nat = if a[0] == '(' {
            depth + 1
        } else if a[0] == ')' && depth > 0 {
            (depth - 1) as nat
        } else {
            depth
        };
        assert forall|i: int| 0 <= i < a.drop_first().len() implies ((a.drop_first()[i] == '(') == (
        b.drop_first()[i] == '(') && (a.drop_first()[i] == ')') == (b.drop_first()[i] == ')')) by {
            assert(a.drop_first()[i] == a[i + 1] && b.drop_first()[i] == b[i + 1]);
        }
        lemma_same_parentheses(a.drop_first(), b.drop_first(), next);
    }
}

/// An expression whose parentheses do not match is never converted. Unless an operator
/// stands where only a sign can, which is told first, the failure is a mismatched
/// parenthesis; and no other expression fails so.
pub proof fn lemma_mismatch_is_imbalance(input: Seq<char>)
    ensures
        !is_balanced(without_whitespace(input)) ==> postfix_of(input) is Err,
        postfix_of(input) == Err::<Seq<char>, math_parser_errors>(
            math_parser_errors::mismatched_parenthesis,
        ) <==> !unary_conflict(without_whitespace(input)) && !is_balanced(
            without_whitespace(input),
        ),
{
    let bare = without_whitespace(input);
    let tokens = unary_resolved(bare);
    let start = yard { stack: Seq::empty(), output: Seq::empty() };
    assert forall|i: int| 0 <= i < bare.len() implies ((bare[i] == '(') == (tokens[i] == '(') && (
    bare[i] == ')') == (tokens[i] == ')')) by {
        assert(tokens[i] == unary_mark(bare, i));
    }
    lemma_same_parentheses(bare, tokens, 0);
    lemma_after_tokens(start, tokens);
    match after_tokens(start, tokens) {
        Ok(z) => {
            lemma_unwound(z);
        },
        Err(_) => {},
    }
}

} // verus!
