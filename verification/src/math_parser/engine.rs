use vstd::prelude::*;
use crate::math_parser::infix::{infix_to_postfix, postfix_of};
use crate::math_parser::postfix::{
    applications, coherent, postfix_to_result, progress, progress_view, started, waiting,
};
use crate::math_parser::text::words;

verus! {

/// The evaluation of an infix expression up to its first demand: the expression is
/// converted to postfix text, and that text is evaluated with a trace.
pub open spec fn begun(notation: Seq<char>) -> progress_view {
    match postfix_of(notation) {
        Err(e) => progress_view::finished(Err(e)),
        Ok(text) => started(words(text), true),
    }
}

/// Evaluates infix expressions.
pub struct math_parser;

impl math_parser {
    /// Begins the evaluation of an infix expression. A trace is always kept.
    pub fn parse(notation: &str) -> (r: progress)
        ensures
            r@ == begun(notation@),
            r@ matches progress_view::suspended(e) ==> {
                &&& coherent(e)
                &&& waiting(e)
                &&& postfix_of(notation@) matches Ok(text)
                &&& e.source == words(text)
                &&& e.tracing
            },
            r@ matches progress_view::finished(Ok(pair)) ==> postfix_of(notation@) matches Ok(text)
                && pair.1.len() == applications(words(text)),
    {
        let itop = match infix_to_postfix.parse(notation) {
            Ok(text) => text,
            Err(e) => {
                return progress::finished(Err(e));
            },
        };
        postfix_to_result.parse(itop.as_str(), true)
    }
}

} // verus!
