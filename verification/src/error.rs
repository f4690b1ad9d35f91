//! What the front end reports when it cannot go on.

use vstd::prelude::*;

verus! {

/// What a failed parsing step hands back: the input it was applied to, untouched,
/// and optionally a diagnostic. Alternation retries from `remaining`.
#[derive(Debug, Clone, PartialEq)]
pub struct ParserError<'a> {
    pub remaining: &'a [char],
    pub reason: Option<String>,
}

/// The mathematical content of a `ParserError`.
pub struct Failure {
    pub rest: Seq<char>,
    pub reason: Option<Seq<char>>,
}

impl<'a> DeepView for ParserError<'a> {
    type V = Failure;

    open spec fn deep_view(&self) -> Failure {
        Failure {
            rest: self.remaining@,
            reason: match self.reason {
                Some(text) => Some(text@),
                None => None,
            },
        }
    }
}

impl<'a> ParserError<'a> {
    /// A failure at `remaining` without a diagnostic.
    pub fn new_no_reason(remaining: &'a [char]) -> (e: Self)
        ensures
            e.remaining == remaining,
            e.reason is None,
            e.deep_view() == (Failure { rest: remaining@, reason: None }),
    {
        Self { remaining, reason: None }
    }

    /// A failure that is not tied to a place in the input: `remaining` is empty.
    pub fn new_no_rem(reason: String) -> (e: Self)
        ensures
            e.remaining@ == Seq::<char>::empty(),
            e.reason == Some(reason),
            e.deep_view() == (Failure { rest: Seq::empty(), reason: Some(reason@) }),
    {
        let empty: &'a [char] = &[];
        Self { remaining: empty, reason: Some(reason) }
    }

    /// A failure at `remaining` with a diagnostic.
    pub fn new(remaining: &'a [char], reason: String) -> (e: Self)
        ensures
            e.remaining == remaining,
            e.reason == Some(reason),
            e.deep_view() == (Failure { rest: remaining@, reason: Some(reason@) }),
    {
        Self { remaining, reason: Some(reason) }
    }

    /// The input that the failed step left unconsumed.
    pub fn remaining(&self) -> (rest: &'a [char])
        ensures
            rest == self.remaining,
    {
        self.remaining
    }
}

/// Every way in which turning text into a number can fail.
#[derive(Debug, Clone, PartialEq)]
pub enum Error<'a> {
    /// The text, or a token sequence, does not follow the grammar.
    Parse(ParserError<'a>),
    /// Operands of different types, an unknown operator, or a leaf without a type.
    Type(String),
    /// The evaluator met what type checking rules out.
    Internal(String),
    /// Parentheses or tree nodes are nested deeper than `MAX_DEPTH`.
    NestingTooDeep,
}

/// The mathematical content of an `Error`.
pub enum ErrorModel {
    Parse(Failure),
    Type(Seq<char>),
    Internal(Seq<char>),
    NestingTooDeep,
}

impl<'a> DeepView for Error<'a> {
    type V = ErrorModel;

    open spec fn deep_view(&self) -> ErrorModel {
        match *self {
            Error::Parse(e) => ErrorModel::Parse(e.deep_view()),
            Error::Type(text) => ErrorModel::Type(text@),
            Error::Internal(text) => ErrorModel::Internal(text@),
            Error::NestingTooDeep => ErrorModel::NestingTooDeep,
        }
    }
}

/// Whether `r` is the outcome `model`, success for success and error for error.
pub open spec fn yields<'a, T: DeepView>(r: Result<T, Error<'a>>, model: Result<T::V, ErrorModel>) -> bool {
    match r {
        Ok(v) => model == Ok::<T::V, ErrorModel>(v.deep_view()),
        Err(e) => model == Err::<T::V, ErrorModel>(e.deep_view()),
    }
}

/// The greatest nesting, of parentheses in text and of nodes in a tree, that the
/// recursive passes follow.
pub const MAX_DEPTH: usize = 256;

} // verus!
