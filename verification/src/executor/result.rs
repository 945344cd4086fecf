//! Rows, and what running a statement gives back.

use crate::sql::ast::{value_views, Value, ValueView};
use vstd::prelude::*;

verus! {

/// A row: values in column order.
#[derive(Debug, PartialEq, Eq)]
pub struct Tuple {
    pub values: Vec<Value>,
}

impl View for Tuple {
    type V = Seq<ValueView>;

    open spec fn view(&self) -> Seq<ValueView> {
        value_views(self.values@)
    }
}

impl Tuple {
    /// A row of the given values.
    pub fn new(values: Vec<Value>) -> (tuple: Tuple)
        ensures
            tuple.values == values,
    {
        Tuple { values }
    }
}

/// The views of a sequence of rows.
pub open spec fn tuple_views(tuples: Seq<Tuple>) -> Seq<Seq<ValueView>> {
    Seq::new(tuples.len(), |k: int| tuples[k]@)
}

/// What a statement gave: a message, or rows.
#[derive(Debug, PartialEq, Eq)]
pub enum ExecutionResult {
    Message(String),
    Data(Vec<Tuple>),
}

/// A result as a mathematical value.
pub enum ResultView {
    Message(Seq<char>),
    Data(Seq<Seq<ValueView>>),
}

impl View for ExecutionResult {
    type V = ResultView;

    open spec fn view(&self) -> ResultView {
        match self {
            ExecutionResult::Message(text) => ResultView::Message(text@),
            ExecutionResult::Data(tuples) => ResultView::Data(tuple_views(tuples@)),
        }
    }
}

/// What running a statement came to, as a mathematical value: a result, or
/// the message of an error.
pub open spec fn outcome_view(outcome: Result<ExecutionResult, String>) -> Result<
    ResultView,
    Seq<char>,
> {
    match outcome {
        Ok(result) => Ok(result@),
        Err(message) => Err(message@),
    }
}

} // verus!
