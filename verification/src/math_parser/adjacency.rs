use vstd::prelude::*;
use crate::math_parser::balance::{
    is_balanced, lemma_after_token, lemma_after_tokens, lemma_drained, lemma_mismatch_is_imbalance,
    lemma_rest_below, lemma_unwound, parentheses_rest,
};
use crate::math_parser::errors::math_parser_errors;
use crate::math_parser::infix::{
    after_token, after_tokens, drained, emitted, gives_way, is_stray_close, is_unary_position,
    postfix_of, unary_conflict, unary_conflict_at, unary_mark, unary_resolved, unwound, yard,
};
use crate::math_parser::operator::{is_real_symbol, math_operator};
use crate::math_parser::text::{has_double_space, without_whitespace};

verus! {

/// A run of characters is converted as its first part and then, from where that got
/// to, its second part.
pub proof fn lemma_after_tokens_split(y: yard, a: Seq<char>, b: Seq<char>)
    ensures
        after_tokens(y, a + b) == match after_tokens(y, a) {
            Err(e) => Err(e),
            Ok(z) => after_tokens(z, b),
        },
    decreases a.len(),
{
    if a.len() == 0 {
        assert(a + b =~= b);
    } else {
        assert((a + b)[0] == a[0]);
        assert((a + b).drop_first() =~= a.drop_first() + b);
        if !is_stray_close(y, a[0]) {
            lemma_after_tokens_split(after_token(y, a[0]), a.drop_first(), b);
        }
    }
}

/// Two separators side by side stay so whatever is written after them.
pub proof fn lemma_double_space_stays(a: Seq<char>, b: Seq<char>)
    requires
        a.is_prefix_of(b),
        has_double_space(a),
    ensures
        has_double_space(b),
{
    let i = choose|i: int| 0 <= i && i + 1 < a.len() && a[i] == ' ' && #[trigger] a[i + 1] == ' ';
    assert(b[i] == a[i] && b[i + 1] == a[i + 1]);
}

/// A binary operator leaves a separator at the end of the output and itself on top of
/// the stack.
proof fn lemma_operator_written(y: yard, token: char)
    requires
        is_real_symbol(token),
    ensures
        after_token(y, token).output.len() > 0,
        after_token(y, token).output.last() == ' ',
        after_token(y, token).stack.len() > 0,
        after_token(y, token).stack.last().operator == token,
{
}

/// A binary operator that comes right after another writes a second separator behind
/// the first.
proof fn lemma_second_operator(y: yard, token: char)
    requires
        parentheses_rest(y.stack),
        is_real_symbol(token),
        y.output.len() > 0,
        y.output.last() == ' ',
        y.stack.len() > 0,
        is_real_symbol(y.stack.last().operator),
    ensures
        has_double_space(after_token(y, token).output),
{
    let operator = math_operator::lookup(token).unwrap();
    let n = y.output.len() as int;
    let d = drained(y, operator);
    if gives_way(y.stack.last(), operator) {
        let next = yard { stack: y.stack.drop_last(), output: emitted(y.output, y.stack.last()) };
        assert(next.output[n - 1] == ' ' && next.output[(n - 1) + 1] == ' ');
        assert(has_double_space(next.output));
        lemma_rest_below(y.stack);
        lemma_drained(next, operator);
        lemma_double_space_stays(next.output, d.output);
        assert(d.output.is_prefix_of(d.output.push(' ')));
        lemma_double_space_stays(d.output, d.output.push(' '));
    } else {
        let out = y.output.push(' ');
        assert(out[n - 1] == ' ' && out[(n - 1) + 1] == ' ');
    }
}

/// Two binary operators in a row, the second of which is no sign, never convert: the
/// expression is invalid notation, or, where its parentheses do not match either, a
/// mismatched parenthesis.
pub proof fn lemma_operators_in_a_row(input: Seq<char>, at: int)
    requires
        ({
            let bare = without_whitespace(input);
            &&& 0 <= at && at + 1 < bare.len()
            &&& is_real_symbol(bare[at])
            &&& is_real_symbol(bare[at + 1])
            &&& !(is_unary_position(bare, at + 1) && (bare[at + 1] == '+' || bare[at + 1] == '-'))
        }),
    ensures
        postfix_of(input) is Err,
        is_balanced(without_whitespace(input)) ==> postfix_of(input) == Err::<
            Seq<char>,
            math_parser_errors,
        >(math_parser_errors::invalid_notation),
{
    let bare = without_whitespace(input);
    lemma_mismatch_is_imbalance(input);
    if !unary_conflict(bare) {
        let tokens = unary_resolved(bare);
        let start = yard { stack: Seq::empty(), output: Seq::empty() };
        assert(!unary_conflict_at(bare, at + 1));
        assert(tokens[at] == unary_mark(bare, at) && tokens[at + 1] == unary_mark(bare, at + 1));
        assert(tokens[at] == bare[at] && tokens[at + 1] == bare[at + 1]);
        let head = tokens.take(at);
        let tail = tokens.skip(at);
        let rest = tokens.skip(at + 2);
        assert(tokens =~= head + tail);
        assert(tail[0] == tokens[at]);
        assert(tail.drop_first()[0] == tokens[at + 1]);
        assert(tail.drop_first().drop_first() =~= rest);
        lemma_after_tokens_split(start, head, tail);
        lemma_after_tokens(start, head);
        match after_tokens(start, head) {
            Err(_) => {},
            Ok(first) => {
                let second = after_token(first, tokens[at]);
                let third = after_token(second, tokens[at + 1]);
                lemma_after_token(first, tokens[at]);
                lemma_operator_written(first, tokens[at]);
                lemma_second_operator(second, tokens[at + 1]);
                lemma_after_token(second, tokens[at + 1]);
                assert(after_tokens(first, tail) == after_tokens(second, tail.drop_first()));
                assert(after_tokens(second, tail.drop_first()) == after_tokens(third, rest));
                lemma_after_tokens(third, rest);
                match after_tokens(third, rest) {
                    Err(_) => {},
                    Ok(last) => {
                        lemma_double_space_stays(third.output, last.output);
                        lemma_unwound(last);
                        lemma_double_space_stays(last.output, unwound(last).output);
                    },
                }
            },
        }
    }
}

} // verus!
