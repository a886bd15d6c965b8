//! The calculator: variables, and the way from a source text to its value.
use crate::eval::{evaluate, evaluated, Bindings, Progress, ProgressView, Suspension};
use crate::lexer::{tokens_of, LexError, LexErrorView};
use crate::reorder::{reorder, reordered};
use crate::token::Token;
use crate::value::Value;
use vstd::prelude::*;

verus! {

pub struct Calculator {
    globals: Bindings,
}

impl View for Calculator {
    type V = Map<Seq<char>, Value>;

    closed spec fn view(&self) -> Map<Seq<char>, Value> {
        self.globals@
    }
}

/// What the calculator makes of a source text: the lexical error in it, or the
/// evaluation of its tokens, brought into evaluation order, as far as that
/// goes without floating-point work.
pub open spec fn calculated(src: Seq<char>, variables: Map<Seq<char>, Value>) -> Result<
    ProgressView,
    LexErrorView,
> {
    match tokens_of(src) {
        Ok(tokens) => Ok(evaluated(reordered(tokens), variables)),
        Err(error) => Err(error),
    }
}

impl Calculator {
    /// A calculator without variables.
    pub fn new() -> (calculator: Self)
        ensures
            calculator@ == Map::<Seq<char>, Value>::empty(),
    {
        Self { globals: Bindings::new() }
    }

    /// Binds the variable `name` to `value`, whether or not it was bound before.
    pub fn set_var(&mut self, name: &String, value: &Value)
        ensures
            final(self)@ == old(self)@.insert(name@, *value),
    {
        self.globals.set(name, *value);
    }

    /// The variables, for evaluation to read.
    pub fn variables(&self) -> (bindings: &Bindings)
        ensures
            bindings@ == self@,
    {
        &self.globals
    }

    /// Tokenizes, reorders and evaluates `src`. The variables are read, never written.
    pub fn calculate(&mut self, src: String) -> (result: Result<Progress, LexError>)
        ensures
            final(self)@ == old(self)@,
            match result {
                Ok(progress) => calculated(src@, old(self)@) == Ok::<ProgressView, LexErrorView>(
                    progress@,
                ),
                Err(error) => calculated(src@, old(self)@) == Err::<ProgressView, LexErrorView>(
                    error@,
                ),
            },
    {
        match Token::tokenize(src) {
            Ok(tokens) => Ok(evaluate(reorder(tokens), &self.globals)),
            Err(error) => Err(error),
        }
    }

    /// Hands a suspended evaluation the answer to its request, and runs it on
    /// against the variables of this calculator.
    pub fn resume(&self, suspension: Suspension, answer: u64) -> (progress: Progress)
        ensures
            progress@ == suspension@.resumed(answer, self@),
    {
        suspension.resume(answer, &self.globals)
    }
}

} // verus!
