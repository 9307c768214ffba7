use vstd::prelude::*;
use crate::math_parser::adjacency::lemma_after_tokens_split;
use crate::math_parser::errors::math_parser_errors;
use crate::math_parser::infix::{
    after_token, after_tokens, drained, emitted, is_number_symbol, is_stray_close,
    is_unary_position, open_count, postfix_of, unary_conflict, unary_resolved, unwound, yard,
};
use crate::math_parser::operator::{is_real_symbol, math_operator};
use crate::math_parser::text::{has_double_space, is_digit, is_whitespace, visible, without_whitespace};

verus! {

/// An arithmetic expression of binary operators, as a tree.
pub enum expression {
    /// A number, by its characters.
    literal(Seq<char>),
    /// Two expressions joined by an operator.
    binary(Box<expression>, char, Box<expression>),
}

impl expression {
    /// A number is a run of digits, points and commas that ends in a digit; an operator
    /// is one of the five binary ones.
    pub open spec fn well_formed(self) -> bool
        decreases self,
    {
        match self {
            expression::literal(digits) => {
                &&& digits.len() > 0
                &&& forall|i: int| 0 <= i < digits.len() ==> is_number_symbol(#[trigger] digits[i])
                &&& is_digit(digits.last())
            },
            expression::binary(left, operator, right) => {
                &&& is_real_symbol(operator)
                &&& left.well_formed()
                &&& right.well_formed()
            },
        }
    }

    /// The expression in infix notation, a pair of parentheses around every operation.
    pub open spec fn infix(self) -> Seq<char>
        decreases self,
    {
        match self {
            expression::literal(digits) => digits,
            expression::binary(left, operator, right) => seq!['('] + left.infix() + seq![operator]
                + right.infix() + seq![')'],
        }
    }

    /// The expression in infix notation without the outermost pair of parentheses.
    pub open spec fn open_infix(self) -> Seq<char> {
        match self {
            expression::literal(digits) => digits,
            expression::binary(left, operator, right) => left.infix() + seq![operator]
                + right.infix(),
        }
    }

    /// The expression in postfix notation: the operands, then the operator, a space
    /// between neighbours.
    pub open spec fn postfix(self) -> Seq<char>
        decreases self,
    {
        match self {
            expression::literal(digits) => digits,
            expression::binary(left, operator, right) => left.postfix() + seq![' ']
                + right.postfix() + seq![' ', operator],
        }
    }
}

/// Every binary operator of the text stands right behind a digit or a closing
/// parenthesis.
pub open spec fn operators_follow_operands(s: Seq<char>) -> bool {
    forall|i: int|
        0 <= i < s.len() && is_real_symbol(#[trigger] s[i]) ==> i > 0 && (is_digit(s[i - 1]) || s[i
            - 1] == ')')
}

/// The text starts and ends on a character other than the separator and has no two
/// separators side by side.
pub open spec fn is_spaced(s: Seq<char>) -> bool {
    &&& s.len() > 0
    &&& s[0] != ' '
    &&& s.last() != ' '
    &&& !has_double_space(s)
}

/// In a grouped expression every operator stands behind an operand, and there is no
/// whitespace.
proof fn lemma_infix_shape(e: expression)
    requires
        e.well_formed(),
    ensures
        e.infix().len() > 0,
        is_digit(e.infix().last()) || e.infix().last() == ')',
        operators_follow_operands(e.infix()),
        forall|i: int| 0 <= i < e.infix().len() ==> !is_whitespace(#[trigger] e.infix()[i]),
    decreases e,
{
    match e {
        expression::literal(digits) => {},
        expression::binary(left, operator, right) => {
            lemma_infix_shape(*left);
            lemma_infix_shape(*right);
            let a = left.infix();
            let b = right.infix();
            let s = e.infix();
            let n = a.len() as int;
            let m = b.len() as int;
            assert(s.len() == n + m + 3);
            assert(s[0] == '(');
            assert(s[n + 1] == operator);
            assert(s[n + m + 2] == ')');
            assert forall|j: int| 0 <= j < n implies s[j + 1] == a[j] by {}
            assert forall|j: int| 0 <= j < m implies s[j + n + 2] == b[j] by {}
            assert forall|i: int| 0 <= i < s.len() implies !is_whitespace(#[trigger] s[i]) by {
                if 1 <= i <= n {
                    assert(s[(i - 1) + 1] == a[i - 1]);
                } else if n + 2 <= i < n + m + 2 {
                    assert(s[(i - n - 2) + n + 2] == b[i - n - 2]);
                }
            }
            assert forall|i: int| 0 <= i < s.len() && is_real_symbol(#[trigger] s[i]) implies i > 0
                && (is_digit(s[i - 1]) || s[i - 1] == ')') by {
                if 1 <= i <= n {
                    let j = i - 1;
                    assert(s[j + 1] == a[j]);
                    assert(is_real_symbol(a[j]));
                    assert(s[(j - 1) + 1] == a[j - 1]);
                } else if i == n + 1 {
                    assert(s[(n - 1) + 1] == a[n - 1]);
                } else if n + 2 <= i < n + m + 2 {
                    let j = i - n - 2;
                    assert(s[j + n + 2] == b[j]);
                    assert(is_real_symbol(b[j]));
                    assert(s[(j - 1) + n + 2] == b[j - 1]);
                }
            }
        },
    }
}

/// Where every binary operator follows an operand, no operator is a sign.
proof fn lemma_no_signs(s: Seq<char>)
    requires
        operators_follow_operands(s),
    ensures
        !unary_conflict(s),
        unary_resolved(s) == s,
{
    assert forall|i: int| !is_unary_position(s, i) by {
        if 0 <= i < s.len() && is_real_symbol(s[i]) {
            assert(i > 0 && (is_digit(s[i - 1]) || s[i - 1] == ')'));
        }
    }
    assert(unary_resolved(s) =~= s);
}

/// A text without whitespace loses nothing when whitespace is taken out.
proof fn lemma_nothing_to_strip(s: Seq<char>)
    requires
        forall|i: int| 0 <= i < s.len() ==> !is_whitespace(#[trigger] s[i]),
    ensures
        without_whitespace(s) == s,
    decreases s.len(),
{
    if s.len() == 0 {
        assert(s.filter(visible()) =~= s) by {
            reveal(Seq::filter);
        }
    } else {
        let front = s.drop_last();
        assert forall|i: int| 0 <= i < front.len() implies !is_whitespace(#[trigger] front[i]) by {
            assert(front[i] == s[i]);
        }
        lemma_nothing_to_strip(front);
        front.lemma_filter_push(s.last(), visible());
        assert(front.push(s.last()) =~= s);
    }
}

/// The converter copies a number to the output.
proof fn lemma_number_written(y: yard, digits: Seq<char>)
    requires
        forall|i: int| 0 <= i < digits.len() ==> is_number_symbol(#[trigger] digits[i]),
    ensures
        after_tokens(y, digits) == Ok::<yard, math_parser_errors>(
            yard { stack: y.stack, output: y.output + digits },
        ),
    decreases digits.len(),
{
    if digits.len() == 0 {
        assert(y.output + digits =~= y.output);
    } else {
        let next = after_token(y, digits[0]);
        assert(is_number_symbol(digits[0]));
        assert forall|i: int| 0 <= i < digits.drop_first().len() implies is_number_symbol(
            #[trigger] digits.drop_first()[i],
        ) by {
            assert(digits.drop_first()[i] == digits[i + 1]);
        }
        lemma_number_written(next, digits.drop_first());
        assert(next.output + digits.drop_first() =~= y.output + digits);
    }
}

/// The converter handles a single character as it handles a run of one.
proof fn lemma_one_token(y: yard, token: char)
    requires
        !is_stray_close(y, token),
    ensures
        after_tokens(y, seq![token]) == Ok::<yard, math_parser_errors>(after_token(y, token)),
{
    let run = seq![token];
    assert(run[0] == token);
    assert(run.drop_first().len() == 0);
    assert(after_tokens(after_token(y, token), run.drop_first()) == Ok::<yard, math_parser_errors>(
        after_token(y, token),
    ));
}

/// Whatever the converter holds when it meets a grouped expression, it leaves the stack
/// as it was and adds the expression's postfix notation to the output.
proof fn lemma_expression_written(e: expression, y: yard)
    requires
        e.well_formed(),
    ensures
        after_tokens(y, e.infix()) == Ok::<yard, math_parser_errors>(
            yard { stack: y.stack, output: y.output + e.postfix() },
        ),
    decreases e,
{
    match e {
        expression::literal(digits) => {
            lemma_number_written(y, digits);
        },
        expression::binary(left, operator, right) => {
            let open = math_operator::lookup('(').unwrap();
            let sign = math_operator::lookup(operator).unwrap();
            let first = yard { stack: y.stack.push(open), output: y.output };
            let second = yard { stack: first.stack, output: y.output + left.postfix() };
            let third = yard { stack: first.stack.push(sign), output: second.output.push(' ') };
            let fourth = yard { stack: third.stack, output: third.output + right.postfix() };
            let fifth = yard { stack: y.stack, output: fourth.output.push(' ').push(operator) };
            let a = seq!['('];
            let b = a + left.infix();
            let c = b + seq![operator];
            let d = c + right.infix();
            assert(e.infix() =~= d + seq![')']);

            assert(after_token(y, '(') == first) by {
                assert(drained(y, open) == y);
            }
            lemma_one_token(y, '(');
            lemma_after_tokens_split(y, a, left.infix());
            lemma_expression_written(*left, first);
            assert(after_tokens(y, b) == Ok::<yard, math_parser_errors>(second));

            assert(after_token(second, operator) == third) by {
                assert(second.stack.last() == open);
                assert(drained(second, sign) == second);
            }
            lemma_one_token(second, operator);
            lemma_after_tokens_split(y, b, seq![operator]);
            assert(after_tokens(y, c) == Ok::<yard, math_parser_errors>(third));

            lemma_after_tokens_split(y, c, right.infix());
            lemma_expression_written(*right, third);
            assert(after_tokens(y, d) == Ok::<yard, math_parser_errors>(fourth));

            assert(after_token(fourth, ')') == fifth && !is_stray_close(fourth, ')')) by {
                let below = yard { stack: first.stack, output: emitted(fourth.output, sign) };
                assert(fourth.stack.drop_last() == first.stack);
                assert(fourth.stack.last() == sign);
                assert(first.stack.drop_last() == y.stack);
                assert(first.stack.last() == open);
                assert(unwound(fourth) == unwound(below));
                assert(unwound(below) == fifth);
                assert(open_count(first.stack) > 0);
                assert(open_count(fourth.stack) == open_count(first.stack));
            }
            lemma_one_token(fourth, ')');
            lemma_after_tokens_split(y, d, seq![')']);
            assert(fifth.output =~= y.output + e.postfix());
        },
    }
}

/// The postfix notation of an expression has single separators only, and none at its
/// ends.
proof fn lemma_postfix_shape(e: expression)
    requires
        e.well_formed(),
    ensures
        is_spaced(e.postfix()),
    decreases e,
{
    match e {
        expression::literal(digits) => {
            assert(is_number_symbol(digits[0]));
            assert(is_number_symbol(digits[digits.len() - 1]));
            assert forall|i: int| 0 <= i && i + 1 < digits.len() implies !(digits[i] == ' '
                && #[trigger] digits[i + 1] == ' ') by {
                assert(is_number_symbol(digits[i + 1]));
            }
        },
        expression::binary(left, operator, right) => {
            lemma_postfix_shape(*left);
            lemma_postfix_shape(*right);
            let a = left.postfix();
            let b = right.postfix();
            let s = e.postfix();
            let n = a.len() as int;
            let m = b.len() as int;
            assert(s.len() == n + m + 3);
            assert(s[0] == a[0]);
            assert(s[n] == ' ');
            assert(s[n + m + 1] == ' ');
            assert(s[n + m + 2] == operator);
            assert forall|j: int| 0 <= j < n implies s[j] == a[j] by {}
            assert forall|j: int| 0 <= j < m implies s[j + n + 1] == b[j] by {}
            assert forall|i: int| 0 <= i && i + 1 < s.len() implies !(s[i] == ' ' && #[trigger] s[i
                + 1] == ' ') by {
                if i + 1 < n {
                    assert(s[i] == a[i] && s[i + 1] == a[i + 1]);
                    assert(!(a[i] == ' ' && a[i + 1] == ' '));
                } else if i + 1 == n {
                    assert(s[i] == a[n - 1]);
                } else if i == n {
                    assert(s[0 + n + 1] == b[0]);
                } else if i < n + m {
                    let j = i - n - 1;
                    assert(s[j + n + 1] == b[j] && s[(j + 1) + n + 1] == b[j + 1]);
                    assert(!(b[j] == ' ' && b[j + 1] == ' '));
                } else if i == n + m {
                    assert(s[(m - 1) + n + 1] == b[m - 1]);
                }
            }
        },
    }
}

/// The converter is right on every expression that groups each of its operations in
/// parentheses: it gives the operands in their order and each operator behind its two
/// operands, with one space between neighbours. Such an expression holds no
/// whitespace, and whitespace added to it changes nothing.
pub proof fn lemma_grouped_expression_converts(e: expression)
    requires
        e.well_formed(),
    ensures
        postfix_of(e.infix()) == Ok::<Seq<char>, math_parser_errors>(e.postfix()),
        without_whitespace(e.infix()) == e.infix(),
        forall|input: Seq<char>|
            without_whitespace(input) == e.infix() ==> #[trigger] postfix_of(input) == Ok::<
                Seq<char>,
                math_parser_errors,
            >(e.postfix()),
{
    let start = yard { stack: Seq::empty(), output: Seq::empty() };
    lemma_infix_shape(e);
    lemma_nothing_to_strip(e.infix());
    lemma_no_signs(e.infix());
    lemma_expression_written(e, start);
    lemma_postfix_shape(e);
    assert(start.output + e.postfix() =~= e.postfix());
    let end = yard { stack: start.stack, output: e.postfix() };
    assert(open_count(end.stack) == 0);
    assert(unwound(end) == end);
}

/// Without its outermost parentheses an operation still holds no whitespace and no
/// sign.
proof fn lemma_open_shape(left: expression, operator: char, right: expression)
    requires
        left.well_formed(),
        right.well_formed(),
        is_real_symbol(operator),
    ensures
        operators_follow_operands(left.infix() + seq![operator] + right.infix()),
        forall|i: int|
            0 <= i < (left.infix() + seq![operator] + right.infix()).len() ==> !is_whitespace(
                #[trigger] (left.infix() + seq![operator] + right.infix())[i],
            ),
{
    let e = expression::binary(Box::new(left), operator, Box::new(right));
    let s = e.infix();
    let t = left.infix() + seq![operator] + right.infix();
    lemma_infix_shape(e);
    assert(s =~= seq!['('] + t + seq![')']);
    assert forall|i: int| 0 <= i < t.len() implies !is_whitespace(#[trigger] t[i]) by {
        assert(s[i + 1] == t[i]);
    }
    assert forall|i: int| 0 <= i < t.len() && is_real_symbol(#[trigger] t[i]) implies i > 0 && (
    is_digit(t[i - 1]) || t[i - 1] == ')') by {
        assert(s[i + 1] == t[i]);
        assert(is_real_symbol(s[i + 1]));
        if i > 0 {
            assert(s[(i - 1) + 1] == t[i - 1]);
        }
    }
}

/// From an empty stack the converter writes the operands of an operation and keeps the
/// operator back.
proof fn lemma_open_written(left: expression, operator: char, right: expression)
    requires
        left.well_formed(),
        right.well_formed(),
        is_real_symbol(operator),
    ensures
        after_tokens(
            yard { stack: Seq::empty(), output: Seq::empty() },
            left.infix() + seq![operator] + right.infix(),
        ) == Ok::<yard, math_parser_errors>(
            yard {
                stack: seq![math_operator::lookup(operator).unwrap()],
                output: left.postfix() + seq![' '] + right.postfix(),
            },
        ),
{
    let start = yard { stack: Seq::empty(), output: Seq::empty() };
    let sign = math_operator::lookup(operator).unwrap();
    let first = yard { stack: start.stack, output: start.output + left.postfix() };
    let second = yard { stack: first.stack.push(sign), output: first.output.push(' ') };
    let third = yard { stack: second.stack, output: second.output + right.postfix() };
    let a = left.infix();
    let b = a + seq![operator];
    lemma_expression_written(left, start);
    assert(after_token(first, operator) == second) by {
        assert(drained(first, sign) == first);
    }
    lemma_one_token(first, operator);
    lemma_after_tokens_split(start, a, seq![operator]);
    lemma_after_tokens_split(start, b, right.infix());
    lemma_expression_written(right, second);
    assert(third.stack =~= seq![sign]);
    assert(third.output =~= left.postfix() + seq![' '] + right.postfix());
}

/// Without its outermost parentheses an operation reads as it stands.
proof fn lemma_open_plain(left: expression, operator: char, right: expression)
    requires
        left.well_formed(),
        right.well_formed(),
        is_real_symbol(operator),
    ensures
        ({
            let t = left.infix() + seq![operator] + right.infix();
            without_whitespace(t) == t && !unary_conflict(t) && unary_resolved(t) == t
        }),
{
    let t = left.infix() + seq![operator] + right.infix();
    lemma_open_shape(left, operator, right);
    lemma_nothing_to_strip(t);
    lemma_no_signs(t);
}

/// At the end the operator that was kept back goes behind its operands.
proof fn lemma_open_flushed(output: Seq<char>, operator: char)
    requires
        is_real_symbol(operator),
    ensures
        ({
            let y = yard { stack: seq![math_operator::lookup(operator).unwrap()], output };
            open_count(y.stack) == 0 && unwound(y).output == output + seq![' ', operator]
        }),
{
    let sign = math_operator::lookup(operator).unwrap();
    let y = yard { stack: seq![sign], output };
    let below = yard { stack: Seq::empty(), output: emitted(output, sign) };
    assert(y.stack.drop_last() =~= below.stack);
    assert(y.stack.last() == sign);
    assert(open_count(below.stack) == 0);
    assert(unwound(below) == below);
    assert(unwound(y) == below);
    assert(below.output =~= output + seq![' ', operator]);
}

/// An operation without parentheses around it converts to its operands and then its
/// operator.
proof fn lemma_open_operation_converts(left: expression, operator: char, right: expression)
    requires
        left.well_formed(),
        right.well_formed(),
        is_real_symbol(operator),
    ensures
        ({
            let t = left.infix() + seq![operator] + right.infix();
            let out = left.postfix() + seq![' '] + right.postfix() + seq![' ', operator];
            &&& without_whitespace(t) == t
            &&& postfix_of(t) == Ok::<Seq<char>, math_parser_errors>(out)
        }),
{
    let e = expression::binary(Box::new(left), operator, Box::new(right));
    let out = left.postfix() + seq![' '] + right.postfix() + seq![' ', operator];
    assert(e.postfix() == out);
    lemma_open_plain(left, operator, right);
    lemma_open_written(left, operator, right);
    lemma_open_flushed(left.postfix() + seq![' '] + right.postfix(), operator);
    lemma_postfix_shape(e);
}

/// The outermost pair of parentheses may be left out.
pub proof fn lemma_open_expression_converts(e: expression)
    requires
        e.well_formed(),
    ensures
        postfix_of(e.open_infix()) == Ok::<Seq<char>, math_parser_errors>(e.postfix()),
        without_whitespace(e.open_infix()) == e.open_infix(),
{
    match e {
        expression::literal(digits) => {
            lemma_grouped_expression_converts(e);
        },
        expression::binary(left, operator, right) => {
            lemma_open_operation_converts(*left, operator, *right);
        },
    }
}

} // verus!
