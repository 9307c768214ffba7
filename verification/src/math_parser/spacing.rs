use vstd::prelude::*;
use crate::math_parser::engine::begun;
use crate::math_parser::infix::postfix_of;
use crate::math_parser::postfix::started;
use crate::math_parser::text::{is_whitespace, visible, without_whitespace, words, words_after};

verus! {

/// Whitespace carries no meaning in an infix expression: two expressions that differ
/// in their whitespace alone are converted alike and evaluated alike.
pub proof fn lemma_whitespace_is_ignored(a: Seq<char>, b: Seq<char>)
    requires
        without_whitespace(a) == without_whitespace(b),
    ensures
        postfix_of(a) == postfix_of(b),
        begun(a) == begun(b),
{
}

/// A whitespace character put into a text anywhere leaves the same text behind once
/// whitespace is taken out.
pub proof fn lemma_whitespace_inserted(s: Seq<char>, at: int, c: char)
    requires
        0 <= at <= s.len(),
        is_whitespace(c),
    ensures
        without_whitespace(s.insert(at, c)) == without_whitespace(s),
        postfix_of(s.insert(at, c)) == postfix_of(s),
        begun(s.insert(at, c)) == begun(s),
{
    let head = s.take(at);
    let tail = s.skip(at);
    assert(s.insert(at, c) =~= head.push(c) + tail);
    assert(s =~= head + tail);
    Seq::filter_distributes_over_add(head.push(c), tail, visible());
    Seq::filter_distributes_over_add(head, tail, visible());
    head.lemma_filter_push(c, visible());
}

/// In postfix text, a whitespace character put before or after another one, or at
/// either end of the text, changes no word.
pub proof fn lemma_words_unmoved(s: Seq<char>, at: int, c: char)
    requires
        0 <= at <= s.len(),
        is_whitespace(c),
        at == 0 || at == s.len() || is_whitespace(s[at - 1]) || is_whitespace(s[at]),
    ensures
        words(s.insert(at, c)) == words(s),
        forall|tracing: bool|
            started(words(s.insert(at, c)), tracing) == started(words(s), tracing),
{
    let head = s.take(at);
    let tail = s.skip(at);
    assert(s.insert(at, c) =~= head + seq![c] + tail);
    assert(s =~= head + tail);
    assert(at > 0 ==> head.last() == s[at - 1]);
    assert(at < s.len() ==> tail[0] == s[at]);
    lemma_words_insert(head, tail, c, Seq::empty());
}

/// A whitespace character between `head` and `tail` changes no word if it stands at
/// an end of the text or next to whitespace.
proof fn lemma_words_insert(head: Seq<char>, tail: Seq<char>, c: char, word: Seq<char>)
    requires
        is_whitespace(c),
        tail.len() == 0 || is_whitespace(tail[0]) || if head.len() == 0 {
            word.len() == 0
        } else {
            is_whitespace(head.last())
        },
    ensures
        words_after(head + seq![c] + tail, word) == words_after(head + tail, word),
    decreases head.len(),
{
    let long = head + seq![c] + tail;
    let short = head + tail;
    if head.len() == 0 {
        assert(long.drop_first() =~= tail);
        assert(short =~= tail);
        assert(long[0] == c);
        let done = if word.len() > 0 {
            seq![word]
        } else {
            Seq::empty()
        };
        let none = Seq::<Seq<char>>::empty();
        assert(words_after(long, word) == done + words_after(tail, Seq::empty()));
        if tail.len() == 0 {
            assert(done + none =~= done);
        } else if is_whitespace(tail[0]) {
            assert(words_after(tail, Seq::empty()) =~= words_after(
                tail.drop_first(),
                Seq::empty(),
            )) by {
                assert(none + words_after(tail.drop_first(), Seq::empty()) =~= words_after(
                    tail.drop_first(),
                    Seq::empty(),
                ));
            }
        } else {
            assert(word =~= Seq::empty());
            assert(done + words_after(tail, Seq::empty()) =~= words_after(tail, Seq::empty()));
        }
    } else {
        let rest = head.drop_first();
        assert(long.drop_first() =~= rest + seq![c] + tail);
        assert(short.drop_first() =~= rest + tail);
        assert(long[0] == head[0] && short[0] == head[0]);
        if rest.len() > 0 {
            assert(rest.last() == head.last());
        }
        if is_whitespace(head[0]) {
            lemma_words_insert(rest, tail, c, Seq::empty());
        } else {
            lemma_words_insert(rest, tail, c, word.push(head[0]));
        }
    }
}

} // verus!
