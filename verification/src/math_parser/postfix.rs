use vstd::prelude::*;
use crate::math_parser::errors::math_parser_errors;
use crate::math_parser::function::{arity_of, math_function};
use crate::math_parser::number::{is_number, number};
use crate::math_parser::operator::{is_real_symbol, math_operator};
use crate::math_parser::text::{
    append, chars_of, closing_letters, contains_char, copy_of, find, index_of, letters_from_end,
    slice_of, split, string_of, texts, words,
};

verus! {

/// One piece of arithmetic that the evaluation cannot do itself. Numbers travel as
/// decimal text.
pub enum demand {
    /// A function of the catalogue on one or two arguments.
    call { name: String, first: String, second: Option<String> },
    /// An operator on its operands. A unary operator has no left operand.
    apply { operator: char, left: Option<String>, right: String },
}

pub enum demand_view {
    call { name: Seq<char>, first: Seq<char>, second: Option<Seq<char>> },
    apply { operator: char, left: Option<Seq<char>>, right: Seq<char> },
}

/// The text of a string that may be absent.
pub open spec fn optional_text(s: Option<String>) -> Option<Seq<char>> {
    match s {
        Some(t) => Some(t@),
        None => None,
    }
}

impl View for demand {
    type V = demand_view;

    open spec fn view(&self) -> demand_view {
        match *self {
            demand::call { name, first, second } => demand_view::call {
                name: name@,
                first: first@,
                second: optional_text(second),
            },
            demand::apply { operator, left, right } => demand_view::apply {
                operator,
                left: optional_text(left),
                right: right@,
            },
        }
    }
}

/// What the arithmetic hands back for a demand: the two operands as it read them and
/// the result, each as decimal text. Where the demand has one operand only, the other
/// text is not looked at.
pub struct outcome {
    pub first: String,
    pub second: String,
    pub result: String,
}

pub struct outcome_view {
    pub first: Seq<char>,
    pub second: Seq<char>,
    pub result: Seq<char>,
}

impl View for outcome {
    type V = outcome_view;

    open spec fn view(&self) -> outcome_view {
        outcome_view { first: self.first@, second: self.second@, result: self.result@ }
    }
}

/// A word that calls a function: it holds a `!` and does not end in one.
pub open spec fn is_call(token: Seq<char>) -> bool {
    token.contains('!') && token.last() != '!'
}

/// The call that a word stands for. The function's name is read backwards from the end
/// of the word; its arguments stand before the first `!`, parted by commas. An unknown
/// name and a missing second argument are invalid functions, an argument that is no
/// number is invalid notation. Arguments beyond those that the function takes are
/// passed over.
pub open spec fn call_of(token: Seq<char>) -> Result<demand_view, math_parser_errors> {
    let name = letters_from_end(token);
    let text = token.take(index_of(token, '!') as int);
    let cut = index_of(text, ',');
    let first = text.take(cut as int);
    match arity_of(name) {
        None => Err(math_parser_errors::invalid_function),
        Some(arity) => if !is_number(first) {
            Err(math_parser_errors::invalid_notation)
        } else if arity == 2 {
            if cut >= text.len() {
                Err(math_parser_errors::invalid_function)
            } else {
                let rest = text.skip(cut as int + 1);
                let second = rest.take(index_of(rest, ',') as int);
                if !is_number(second) {
                    Err(math_parser_errors::invalid_notation)
                } else {
                    Ok(demand_view::call { name, first, second: Some(second) })
                }
            }
        } else {
            Ok(demand_view::call { name, first, second: None })
        },
    }
}

/// A word that goes onto the value stack as it is.
pub open spec fn is_operand(token: Seq<char>) -> bool {
    is_number(token) || token.contains(',')
}

/// The operator that a word stands for: the one its first character names, unless the
/// word is an operand.
pub open spec fn operator_of(token: Seq<char>) -> Option<math_operator> {
    if token.len() > 0 && !is_operand(token) {
        math_operator::lookup(token[0])
    } else {
        None
    }
}

/// What an operator asks of the value stack: a binary operator takes the two topmost
/// values, the lower one as its left operand; a unary operator takes the topmost. A
/// missing operand, one that is no number, and a parenthesis in the operator's place
/// are invalid notation.
pub open spec fn operands_of(values: Seq<Seq<char>>, operator: math_operator) -> Result<
    demand_view,
    math_parser_errors,
> {
    if values.len() == 0 || !is_number(values.last()) {
        Err(math_parser_errors::invalid_notation)
    } else if is_real_symbol(operator.operator) {
        if values.len() < 2 || !is_number(values[values.len() - 2]) {
            Err(math_parser_errors::invalid_notation)
        } else {
            Ok(
                demand_view::apply {
                    operator: operator.operator,
                    left: Some(values[values.len() - 2]),
                    right: values.last(),
                },
            )
        }
    } else if operator.operator == '(' {
        Err(math_parser_errors::invalid_notation)
    } else {
        Ok(demand_view::apply { operator: operator.operator, left: None, right: values.last() })
    }
}

/// Evaluates postfix notation, leaving the arithmetic itself to its caller.
pub struct postfix_to_result;

impl postfix_to_result {
    /// Reads one word in the pass that resolves function calls: `None` for a word that
    /// calls no function, else the call to be made.
    fn handle_function(&self, token: &Vec<char>) -> (r: Result<Option<demand>, math_parser_errors>)
        ensures
            match r {
                Ok(None) => !is_call(token@),
                Ok(Some(d)) => is_call(token@) && call_of(token@) == Ok::<
                    demand_view,
                    math_parser_errors,
                >(d@),
                Err(e) => is_call(token@) && call_of(token@) == Err::<
                    demand_view,
                    math_parser_errors,
                >(e),
            },
    {
        if !contains_char(token, '!') || token[token.len() - 1] == '!' {
            return Ok(None);
        }
        let letters = closing_letters(token);
        let name = string_of(&letters);
        let func = match math_function::new(name.as_str()) {
            Some(func) => func,
            None => {
                return Err(math_parser_errors::invalid_function);
            },
        };
        assert(token@.subrange(0, token@.len() as int) == token@);
        let bang = find(token, 0, token.len(), '!');
        let ghost text = token@.take(bang as int);
        let cut = find(token, 0, bang, ',');
        assert(text.take(cut as int) == token@.subrange(0, cut as int));
        let first = slice_of(token, 0, cut);
        if !number(&first) {
            return Err(math_parser_errors::invalid_notation);
        }
        if func.arity == 2 {
            if cut >= bang {
                return Err(math_parser_errors::invalid_function);
            }
            let ghost rest = text.skip(cut + 1);
            assert(rest == token@.subrange(cut + 1, bang as int));
            let end = find(token, cut + 1, bang, ',');
            assert(rest.take(index_of(rest, ',') as int) == token@.subrange(cut + 1, end as int));
            let second = slice_of(token, cut + 1, end);
            if !number(&second) {
                return Err(math_parser_errors::invalid_notation);
            }
            Ok(
                Some(
                    demand::call {
                        name: func.name,
                        first: string_of(&first),
                        second: Some(string_of(&second)),
                    },
                ),
            )
        } else {
            Ok(Some(demand::call { name: func.name, first: string_of(&first), second: None }))
        }
    }

    /// Reads one word in the pass that reduces operators. An operand goes onto the value
    /// stack. For an operator the result says what is to be computed, and the operands
    /// stay on the stack until the result is known. Any other word is passed over.
    fn handle_token(&self, outstack: &mut Vec<Vec<char>>, token: Vec<char>) -> (r: Result<
        Option<demand>,
        math_parser_errors,
    >)
        ensures
            texts(final(outstack)@) == if is_operand(token@) {
                texts(old(outstack)@).push(token@)
            } else {
                texts(old(outstack)@)
            },
            match r {
                Ok(None) => operator_of(token@) is None,
                Ok(Some(d)) => operator_of(token@) matches Some(operator) && operands_of(
                    texts(old(outstack)@),
                    operator,
                ) == Ok::<demand_view, math_parser_errors>(d@),
                Err(e) => operator_of(token@) matches Some(operator) && operands_of(
                    texts(old(outstack)@),
                    operator,
                ) == Err::<demand_view, math_parser_errors>(e),
            },
    {
        if number(&token) || contains_char(&token, ',') {
            let ghost before = texts(outstack@);
            let ghost word = token@;
            outstack.push(token);
            assert(texts(outstack@) =~= before.push(word));
            return Ok(None);
        }
        if token.len() == 0 {
            return Ok(None);
        }
        let operator = match math_operator::new(token[0]) {
            Some(operator) => operator,
            None => {
                return Ok(None);
            },
        };
        let n = outstack.len();
        if n == 0 || !number(&outstack[n - 1]) {
            return Err(math_parser_errors::invalid_notation);
        }
        if operator.is_real_op() {
            if n < 2 || !number(&outstack[n - 2]) {
                return Err(math_parser_errors::invalid_notation);
            }
            Ok(
                Some(
                    demand::apply {
                        operator: operator.operator,
                        left: Some(string_of(&outstack[n - 2])),
                        right: string_of(&outstack[n - 1]),
                    },
                ),
            )
        } else if operator.operator == '(' {
            Err(math_parser_errors::invalid_notation)
        } else {
            Ok(
                Some(
                    demand::apply {
                        operator: operator.operator,
                        left: None,
                        right: string_of(&outstack[n - 1]),
                    },
                ),
            )
        }
    }
}

/// An evaluation as contracts see it.
pub struct evaluation_view {
    /// The words of the postfix text.
    pub source: Seq<Seq<char>>,
    /// The words once function calls are resolved, as far as that pass has come.
    pub resolved: Seq<Seq<char>>,
    /// The word that is worked on, counted in the pass that is under way.
    pub cursor: nat,
    /// Whether the pass that reduces operators has begun.
    pub reducing: bool,
    /// The value stack, its top last.
    pub values: Seq<Seq<char>>,
    /// The trace, one line for each function called and each operator applied so far.
    pub trace: Seq<Seq<char>>,
    pub tracing: bool,
}

pub enum progress_view {
    suspended(evaluation_view),
    finished(Result<(Seq<char>, Seq<Seq<char>>), math_parser_errors>),
}

/// The text of a missing operand in a trace line.
pub open spec fn absent() -> Seq<char> {
    seq!['N', 'a', 'N']
}

/// A trace line: three parts with a space between them, then ` = ` and the result.
pub open spec fn sentence(a: Seq<char>, b: Seq<char>, c: Seq<char>, result: Seq<char>) -> Seq<char> {
    a + seq![' '] + b + seq![' '] + c + seq![' ', '=', ' '] + result
}

/// How the evaluation ends when no word is left: the one value on the stack, if it is
/// one and a number.
pub open spec fn concluded(e: evaluation_view) -> progress_view {
    if e.values.len() == 1 && is_number(e.values[0]) {
        progress_view::finished(Ok((e.values[0], e.trace)))
    } else {
        progress_view::finished(Err(math_parser_errors::invalid_notation))
    }
}

/// The pass that reduces operators, from the word at the cursor up to the next operator
/// that can be applied, the first failure, or the end.
pub open spec fn reduced(e: evaluation_view) -> progress_view
    decreases e.resolved.len() - e.cursor,
{
    if e.cursor >= e.resolved.len() {
        concluded(e)
    } else {
        let token = e.resolved[e.cursor as int];
        if is_operand(token) {
            reduced(evaluation_view { values: e.values.push(token), cursor: e.cursor + 1, ..e })
        } else {
            match operator_of(token) {
                None => reduced(evaluation_view { cursor: e.cursor + 1, ..e }),
                Some(operator) => match operands_of(e.values, operator) {
                    Err(x) => progress_view::finished(Err(x)),
                    Ok(_) => progress_view::suspended(e),
                },
            }
        }
    }
}

/// The pass that resolves function calls, from the word at the cursor up to the next
/// call, the first failure, or the end, where the other pass begins.
pub open spec fn resolved_on(e: evaluation_view) -> progress_view
    decreases e.source.len() - e.cursor,
{
    if e.cursor >= e.source.len() {
        reduced(evaluation_view { reducing: true, cursor: 0, ..e })
    } else {
        let token = e.source[e.cursor as int];
        if is_call(token) {
            match call_of(token) {
                Err(x) => progress_view::finished(Err(x)),
                Ok(_) => progress_view::suspended(e),
            }
        } else {
            resolved_on(
                evaluation_view { resolved: e.resolved.push(token), cursor: e.cursor + 1, ..e },
            )
        }
    }
}

/// Where an evaluation gets to from a state in which nothing is asked of its caller.
pub open spec fn continued(e: evaluation_view) -> progress_view {
    if e.reducing {
        reduced(e)
    } else {
        resolved_on(e)
    }
}

/// The evaluation of a list of words, up to its first demand.
pub open spec fn started(source: Seq<Seq<char>>, tracing: bool) -> progress_view {
    resolved_on(
        evaluation_view {
            source,
            resolved: Seq::empty(),
            cursor: 0,
            reducing: false,
            values: Seq::empty(),
            trace: Seq::empty(),
            tracing,
        },
    )
}

/// What a suspended evaluation asks for.
pub open spec fn demand_of(e: evaluation_view) -> demand_view {
    if e.reducing {
        operands_of(e.values, operator_of(e.resolved[e.cursor as int]).unwrap()).unwrap()
    } else {
        call_of(e.source[e.cursor as int]).unwrap()
    }
}

/// The trace line for an answered demand. The operand that the demand does not have
/// reads `NaN`.
pub open spec fn line_of(d: demand_view, o: outcome_view) -> Seq<char> {
    match d {
        demand_view::call { name, first, second } => sentence(
            name,
            o.first,
            if second is Some {
                o.second
            } else {
                absent()
            },
            o.result,
        ),
        demand_view::apply { operator, left, right } => sentence(
            if left is Some {
                o.first
            } else {
                absent()
            },
            seq![operator],
            o.second,
            o.result,
        ),
    }
}

/// Where a suspended evaluation gets to with the answer to its demand. A result that
/// is no number is invalid notation. Else the result takes the place of the call, or
/// of the operands on the value stack, the trace grows by a line if it is kept, and
/// the evaluation goes on with the next word.
pub open spec fn resumed(e: evaluation_view, o: outcome_view) -> progress_view {
    let trace = if e.tracing {
        e.trace.push(line_of(demand_of(e), o))
    } else {
        e.trace
    };
    if !is_number(o.result) {
        progress_view::finished(Err(math_parser_errors::invalid_notation))
    } else if e.reducing {
        let used: int = if demand_of(e) matches demand_view::apply { left: Some(_), .. } {
            2
        } else {
            1
        };
        reduced(
            evaluation_view {
                values: e.values.take(e.values.len() - used).push(o.result),
                cursor: e.cursor + 1,
                trace,
                ..e
            },
        )
    } else {
        resolved_on(
            evaluation_view { resolved: e.resolved.push(o.result), cursor: e.cursor + 1, trace, ..e },
        )
    }
}

/// How many of the words call a function.
pub open spec fn calls_in(tokens: Seq<Seq<char>>) -> nat
    decreases tokens.len(),
{
    if tokens.len() == 0 {
        0
    } else {
        calls_in(tokens.drop_last()) + if is_call(tokens.last()) {
            1nat
        } else {
            0nat
        }
    }
}

/// How many of the words stand for an operator.
pub open spec fn operators_in(tokens: Seq<Seq<char>>) -> nat
    decreases tokens.len(),
{
    if tokens.len() == 0 {
        0
    } else {
        operators_in(tokens.drop_last()) + if operator_of(tokens.last()) is Some {
            1nat
        } else {
            0nat
        }
    }
}

/// How many of the words call a function or stand for an operator: the number of
/// pieces of arithmetic in an evaluation that succeeds.
pub open spec fn applications(tokens: Seq<Seq<char>>) -> nat
    decreases tokens.len(),
{
    if tokens.len() == 0 {
        0
    } else {
        applications(tokens.drop_last()) + if is_call(tokens.last()) || operator_of(
            tokens.last(),
        ) is Some {
            1nat
        } else {
            0nat
        }
    }
}

/// How many functions were called and operators applied before the evaluation came to
/// where it stands.
pub open spec fn performed(e: evaluation_view) -> nat {
    if e.reducing {
        calls_in(e.source) + operators_in(e.resolved.take(e.cursor as int))
    } else {
        calls_in(e.source.take(e.cursor as int))
    }
}

/// What holds of an evaluation wherever it stands.
pub open spec fn coherent(e: evaluation_view) -> bool {
    &&& if e.reducing {
        e.resolved.len() == e.source.len() && e.cursor <= e.resolved.len()
    } else {
        e.resolved.len() == e.cursor && e.cursor <= e.source.len() && e.values.len() == 0
    }
    &&& forall|i: int|
        0 <= i < e.resolved.len() ==> if is_call(#[trigger] e.source[i]) {
            is_number(e.resolved[i])
        } else {
            e.resolved[i] == e.source[i]
        }
    &&& e.trace.len() == if e.tracing {
        performed(e)
    } else {
        0
    }
}

/// A bound on the answers that an evaluation can still ask for: the words left in the
/// pass that is under way, and all the words for the pass that is still to come.
pub open spec fn remaining(e: evaluation_view) -> nat {
    if e.reducing {
        (e.resolved.len() - e.cursor) as nat
    } else {
        (2 * e.source.len() - e.cursor + 1) as nat
    }
}

/// What holds of an evaluation that waits for an answer: the word at the cursor calls a
/// function whose arguments are in order, or names an operator whose operands are on
/// the value stack.
pub open spec fn waiting(e: evaluation_view) -> bool {
    if e.reducing {
        &&& e.cursor < e.resolved.len()
        &&& operator_of(e.resolved[e.cursor as int]) matches Some(operator)
        &&& operands_of(e.values, operator) is Ok
    } else {
        &&& e.cursor < e.source.len()
        &&& is_call(e.source[e.cursor as int])
        &&& call_of(e.source[e.cursor as int]) is Ok
    }
}

/// The texts of a list of strings.
pub open spec fn lines(v: Seq<String>) -> Seq<Seq<char>> {
    Seq::new(v.len(), |i: int| v[i]@)
}

/// Counting the calls among one more word.
proof fn lemma_calls_step(tokens: Seq<Seq<char>>, n: int)
    requires
        0 <= n < tokens.len(),
    ensures
        calls_in(tokens.take(n + 1)) == calls_in(tokens.take(n)) + if is_call(tokens[n]) {
            1nat
        } else {
            0nat
        },
{
    assert(tokens.take(n + 1).drop_last() == tokens.take(n));
}

/// Counting the operators among one more word.
proof fn lemma_operators_step(tokens: Seq<Seq<char>>, n: int)
    requires
        0 <= n < tokens.len(),
    ensures
        operators_in(tokens.take(n + 1)) == operators_in(tokens.take(n)) + if operator_of(
            tokens[n],
        ) is Some {
            1nat
        } else {
            0nat
        },
{
    assert(tokens.take(n + 1).drop_last() == tokens.take(n));
}

/// Each word that calls a function is resolved to a number, and every other word is
/// kept: so the calls among the words and the operators among the resolved words make
/// up the applications among the words.
proof fn lemma_applications_split(source: Seq<Seq<char>>, resolved: Seq<Seq<char>>, n: int)
    requires
        0 <= n <= source.len(),
        n <= resolved.len(),
        forall|i: int|
            0 <= i < n ==> if is_call(#[trigger] source[i]) {
                is_number(resolved[i])
            } else {
                resolved[i] == source[i]
            },
    ensures
        calls_in(source.take(n)) + operators_in(resolved.take(n)) == applications(source.take(n)),
    decreases n,
{
    if n > 0 {
        lemma_applications_split(source, resolved, n - 1);
        lemma_calls_step(source, n - 1);
        lemma_operators_step(resolved, n - 1);
        assert(source.take(n).drop_last() == source.take(n - 1));
        assert(is_call(source[n - 1]) ==> operator_of(resolved[n - 1]) is None);
    }
}

/// The state of an evaluation.
struct workings {
    source: Vec<Vec<char>>,
    resolved: Vec<Vec<char>>,
    cursor: usize,
    reducing: bool,
    values: Vec<Vec<char>>,
    trace: Vec<String>,
    tracing: bool,
}

impl View for workings {
    type V = evaluation_view;

    closed spec fn view(&self) -> evaluation_view {
        evaluation_view {
            source: texts(self.source@),
            resolved: texts(self.resolved@),
            cursor: self.cursor as nat,
            reducing: self.reducing,
            values: texts(self.values@),
            trace: lines(self.trace@),
            tracing: self.tracing,
        }
    }
}

/// An evaluation that waits for a piece of arithmetic to be done.
pub struct evaluation {
    state: workings,
    pending: demand,
}

impl View for evaluation {
    type V = evaluation_view;

    closed spec fn view(&self) -> evaluation_view {
        self.state@
    }
}

/// How far an evaluation has come: it waits for arithmetic, or it has ended with the
/// result and the trace, or with a failure.
pub enum progress {
    suspended(evaluation),
    finished(Result<(String, Vec<String>), math_parser_errors>),
}

impl View for progress {
    type V = progress_view;

    open spec fn view(&self) -> progress_view {
        match *self {
            progress::suspended(e) => progress_view::suspended(e@),
            progress::finished(Ok((value, trace))) => progress_view::finished(
                Ok((value@, lines(trace@))),
            ),
            progress::finished(Err(e)) => progress_view::finished(Err(e)),
        }
    }
}

/// Writes the trace line for an answered demand.
fn trace_line(d: &demand, o: &outcome) -> (r: String)
    ensures
        r@ == line_of(d@, o@),
{
    let mut line: Vec<char> = Vec::new();
    let first = chars_of(o.first.as_str());
    let second = chars_of(o.second.as_str());
    let result = chars_of(o.result.as_str());
    let mut absent: Vec<char> = Vec::new();
    absent.push('N');
    absent.push('a');
    absent.push('N');
    assert(absent@ =~= self::absent());
    match d {
        demand::call { name, first: _, second: wanted } => {
            let name = chars_of(name.as_str());
            append(&mut line, &name);
            line.push(' ');
            append(&mut line, &first);
            line.push(' ');
            if wanted.is_some() {
                append(&mut line, &second);
            } else {
                append(&mut line, &absent);
            }
        },
        demand::apply { operator, left, right: _ } => {
            if left.is_some() {
                append(&mut line, &first);
            } else {
                append(&mut line, &absent);
            }
            line.push(' ');
            line.push(*operator);
            line.push(' ');
            append(&mut line, &second);
        },
    }
    line.push(' ');
    line.push('=');
    line.push(' ');
    append(&mut line, &result);
    assert(line@ =~= line_of(d@, o@));
    string_of(&line)
}

/// Goes on with an evaluation up to its next demand or its end.
fn proceed(from: workings) -> (r: progress)
    requires
        coherent(from@),
    ensures
        r@ == continued(from@),
        r@ matches progress_view::suspended(e) ==> {
            &&& coherent(e)
            &&& waiting(e)
            &&& e.source == from@.source
            &&& e.tracing == from@.tracing
            &&& remaining(e) <= remaining(from@)
        },
        r@ matches progress_view::finished(Ok(pair)) ==> pair.1.len() == if from@.tracing {
            applications(from@.source)
        } else {
            0
        },
{
    let ghost start = from@;
    let mut w = from;
    if !w.reducing {
        while w.cursor < w.source.len()
            invariant
                start == from@,
                coherent(w@),
                !w.reducing,
                !start.reducing,
                resolved_on(w@) == resolved_on(start),
                w@.source == start.source,
                w@.tracing == start.tracing,
                remaining(w@) <= remaining(start),
            decreases w.source.len() - w.cursor,
        {
            let ghost here = w@;
            let token = copy_of(&w.source[w.cursor]);
            assert(token@ == here.source[here.cursor as int]);
            match postfix_to_result.handle_function(&token) {
                Err(e) => {
                    return progress::finished(Err(e));
                },
                Ok(Some(d)) => {
                    return progress::suspended(evaluation { state: w, pending: d });
                },
                Ok(None) => {
                    w.resolved.push(token);
                    w.cursor += 1;
                    proof {
                        assert(w@.resolved =~= here.resolved.push(token@));
                        lemma_calls_step(here.source, here.cursor as int);
                    }
                },
            }
        }
        proof {
            assert(w@.source.take(w@.cursor as int) == w@.source);
            assert(w@.resolved.take(0) =~= Seq::<Seq<char>>::empty());
        }
        w.reducing = true;
        w.cursor = 0;
    }
    while w.cursor < w.resolved.len()
        invariant
            start == from@,
            coherent(w@),
            w.reducing,
            reduced(w@) == continued(start),
            w@.source == start.source,
            w@.tracing == start.tracing,
            remaining(w@) <= remaining(start),
        decreases w.resolved.len() - w.cursor,
    {
        let ghost here = w@;
        let token = copy_of(&w.resolved[w.cursor]);
        assert(token@ == here.resolved[here.cursor as int]);
        match postfix_to_result.handle_token(&mut w.values, token) {
            Err(e) => {
                return progress::finished(Err(e));
            },
            Ok(Some(d)) => {
                return progress::suspended(evaluation { state: w, pending: d });
            },
            Ok(None) => {
                w.cursor += 1;
                proof {
                    lemma_operators_step(here.resolved, here.cursor as int);
                }
            },
        }
    }
    proof {
        assert(w@.resolved.take(w@.cursor as int) == w@.resolved);
        assert(w@.source.take(w@.source.len() as int) == w@.source);
        lemma_applications_split(w@.source, w@.resolved, w@.source.len() as int);
    }
    if w.values.len() == 1 && number(&w.values[0]) {
        progress::finished(Ok((string_of(&w.values[0]), w.trace)))
    } else {
        progress::finished(Err(math_parser_errors::invalid_notation))
    }
}

impl evaluation {
    #[verifier::type_invariant]
    spec fn sound(self) -> bool {
        &&& coherent(self.state@)
        &&& waiting(self.state@)
        &&& self.pending@ == demand_of(self.state@)
    }

    /// The arithmetic that the evaluation waits for. An evaluation that waits is in
    /// order: its cursor, its lists of words and its value stack fit together, and its
    /// trace holds one line for each function called and each operator applied so far,
    /// or nothing where no trace is kept.
    pub fn demand(&self) -> (d: &demand)
        ensures
            d@ == demand_of(self@),
            coherent(self@),
            waiting(self@),
    {
        proof {
            use_type_invariant(self);
        }
        &self.pending
    }

    /// Goes on with the answer to the demand.
    pub fn resume(self, answer: outcome) -> (r: progress)
        ensures
            r@ == resumed(self@, answer@),
            r@ matches progress_view::suspended(e) ==> {
                &&& coherent(e)
                &&& waiting(e)
                &&& e.source == self@.source
                &&& e.tracing == self@.tracing
                &&& remaining(e) < remaining(self@)
            },
            r@ matches progress_view::finished(Ok(pair)) ==> pair.1.len() == if self@.tracing {
                applications(self@.source)
            } else {
                0
            },
    {
        proof {
            use_type_invariant(&self);
        }
        let ghost here = self@;
        let mut w = self.state;
        let pending = self.pending;
        assert(w@ == here);
        assert(pending@ == demand_of(here));
        let result = chars_of(answer.result.as_str());
        if !number(&result) {
            return progress::finished(Err(math_parser_errors::invalid_notation));
        }
        if w.tracing {
            let line = trace_line(&pending, &answer);
            w.trace.push(line);
            assert(w@.trace =~= here.trace.push(line_of(demand_of(here), answer@)));
        }
        match pending {
            demand::apply { operator, left, right } => {
                assert(here.reducing);
                w.values.pop();
                if left.is_some() {
                    w.values.pop();
                }
                w.values.push(result);
                proof {
                    let used: int = if left.is_some() {
                        2
                    } else {
                        1
                    };
                    assert(w@.values =~= here.values.take(here.values.len() - used).push(result@));
                    lemma_operators_step(here.resolved, here.cursor as int);
                }
            },
            demand::call { name, first, second } => {
                assert(!here.reducing);
                w.resolved.push(result);
                proof {
                    assert(w@.resolved =~= here.resolved.push(result@));
                    lemma_calls_step(here.source, here.cursor as int);
                }
            },
        }
        assert(w.cursor == here.cursor && here.cursor < here.source.len());
        assert(w.cursor < w.source.len());
        w.cursor += 1;
        proceed(w)
    }
}

impl postfix_to_result {
    /// Begins the evaluation of postfix text: words parted by whitespace, operands
    /// before their operator. With `tracing` the evaluation keeps a line for every
    /// function it has called and every operator it has applied.
    pub fn parse(&self, input_str: &str, tracing: bool) -> (r: progress)
        ensures
            r@ == started(words(input_str@), tracing),
            r@ matches progress_view::suspended(e) ==> {
                &&& coherent(e)
                &&& waiting(e)
                &&& e.source == words(input_str@)
                &&& e.tracing == tracing
            },
            r@ matches progress_view::finished(Ok(pair)) ==> pair.1.len() == if tracing {
                applications(words(input_str@))
            } else {
                0
            },
    {
        let w = workings {
            source: split(input_str),
            resolved: Vec::new(),
            cursor: 0,
            reducing: false,
            values: Vec::new(),
            trace: Vec::new(),
            tracing,
        };
        proof {
            assert(w@.resolved =~= Seq::<Seq<char>>::empty());
            assert(w@.values =~= Seq::<Seq<char>>::empty());
            assert(w@.trace =~= Seq::<Seq<char>>::empty());
            assert(w@.source.take(0) =~= Seq::<Seq<char>>::empty());
        }
        proceed(w)
    }
}

} // verus!
