use vstd::prelude::*;
use crate::math_parser::errors::math_parser_errors;
use crate::math_parser::function::arity_of;
use crate::math_parser::number::is_number;
use crate::math_parser::postfix::{
    call_of, demand_view, is_call, progress_view, started,
};
use crate::math_parser::text::{index_of, letters_from_end};

verus! {

/// The arguments of a call as they are written: what stands before the first `!`.
pub open spec fn arguments_of(token: Seq<char>) -> Seq<char> {
    token.take(index_of(token, '!') as int)
}

/// The first `mark` of a text that starts with a piece free of it, then has the mark,
/// stands right behind that piece.
proof fn lemma_index_behind(piece: Seq<char>, mark: char, rest: Seq<char>)
    requires
        !piece.contains(mark),
    ensures
        index_of(piece + seq![mark] + rest, mark) == piece.len(),
    decreases piece.len(),
{
    let s = piece + seq![mark] + rest;
    if piece.len() == 0 {
        assert(s[0] == mark);
    } else {
        assert(s[0] == piece[0]);
        assert(piece.contains(piece[0]));
        assert(s.drop_first() =~= piece.drop_first() + seq![mark] + rest);
        assert forall|i: int| 0 <= i < piece.drop_first().len() implies piece.drop_first()[i]
            != mark by {
            assert(piece.contains(piece[i + 1]));
        }
        lemma_index_behind(piece.drop_first(), mark, rest);
    }
}

/// A text free of `mark` has it nowhere.
proof fn lemma_index_absent(piece: Seq<char>, mark: char)
    requires
        !piece.contains(mark),
    ensures
        index_of(piece, mark) == piece.len(),
    decreases piece.len(),
{
    if piece.len() > 0 {
        assert(piece.contains(piece[0]));
        assert forall|i: int| 0 <= i < piece.drop_first().len() implies piece.drop_first()[i]
            != mark by {
            assert(piece.contains(piece[i + 1]));
        }
        lemma_index_absent(piece.drop_first(), mark);
    }
}

/// A function of two arguments that is given one is refused: as an invalid function if
/// the one argument is a number, as invalid notation if it is not. The evaluation of a
/// text that is this call alone ends so before any arithmetic is asked for.
pub proof fn lemma_missing_argument(argument: Seq<char>, name: Seq<char>, tracing: bool)
    requires
        !argument.contains('!'),
        !argument.contains(','),
        name.len() > 0,
        name.last() != '!',
        arity_of(letters_from_end(argument + seq!['!'] + name)) == Some(2usize),
    ensures
        ({
            let token = argument + seq!['!'] + name;
            let failure = if is_number(argument) {
                math_parser_errors::invalid_function
            } else {
                math_parser_errors::invalid_notation
            };
            &&& is_call(token)
            &&& call_of(token) == Err::<demand_view, math_parser_errors>(failure)
            &&& started(seq![token], tracing) == progress_view::finished(Err(failure))
        }),
{
    let token = argument + seq!['!'] + name;
    lemma_index_behind(argument, '!', name);
    assert(token[argument.len() as int] == '!');
    assert(token.last() == name.last());
    assert(arguments_of(token) =~= argument);
    lemma_index_absent(argument, ',');
    assert(argument.take(argument.len() as int) =~= argument);
    assert(seq![token][0] == token);
}

/// A function that the catalogue does not hold is refused as an invalid function,
/// whatever its arguments.
pub proof fn lemma_unknown_function(token: Seq<char>, tracing: bool)
    requires
        is_call(token),
        arity_of(letters_from_end(token)) is None,
    ensures
        call_of(token) == Err::<demand_view, math_parser_errors>(
            math_parser_errors::invalid_function,
        ),
        started(seq![token], tracing) == progress_view::finished(
            Err(math_parser_errors::invalid_function),
        ),
{
    assert(seq![token][0] == token);
}

/// A function given the arguments it takes, each of them a number, is called with
/// them: one argument for a function of one, two for a function of two.
pub proof fn lemma_call_accepted(first: Seq<char>, second: Seq<char>, name: Seq<char>)
    requires
        !first.contains('!') && !first.contains(','),
        !second.contains('!') && !second.contains(','),
        is_number(first),
        name.len() > 0,
        name.last() != '!',
    ensures
        ({
            let single = first + seq!['!'] + name;
            arity_of(letters_from_end(single)) == Some(1usize) ==> call_of(single) == Ok::<
                demand_view,
                math_parser_errors,
            >(demand_view::call { name: letters_from_end(single), first, second: None })
        }),
        ({
            let double = first + seq![','] + second + seq!['!'] + name;
            arity_of(letters_from_end(double)) == Some(2usize) && is_number(second) ==> call_of(
                double,
            ) == Ok::<demand_view, math_parser_errors>(
                demand_view::call { name: letters_from_end(double), first, second: Some(second) },
            )
        }),
{
    let single = first + seq!['!'] + name;
    lemma_index_behind(first, '!', name);
    assert(arguments_of(single) =~= first);
    lemma_index_absent(first, ',');
    assert(first.take(first.len() as int) =~= first);

    let double = first + seq![','] + second + seq!['!'] + name;
    let both = first + seq![','] + second;
    assert forall|i: int| 0 <= i < both.len() implies both[i] != '!' by {
        if i < first.len() {
            assert(first.contains(both[i]));
        } else if i > first.len() {
            assert(second[i - first.len() - 1] == both[i]);
            assert(second.contains(both[i]));
        }
    }
    lemma_index_behind(both, '!', name);
    assert(arguments_of(double) =~= both);
    lemma_index_behind(first, ',', second);
    assert(both.take(first.len() as int) =~= first);
    assert(both.skip(first.len() as int + 1) =~= second);
    lemma_index_absent(second, ',');
    assert(second.take(second.len() as int) =~= second);
}

} // verus!
