//! Parsing steps as values, and the two ways to repeat one.
//!
//! A parsing step is a function from input to `ParseOutcome`. What a step does
//! is said by a function on the mathematical content of input and outcome: the
//! step `implements` that function.

use crate::error::ParserError;
use vstd::prelude::*;

verus! {

/// What a parsing step returns: the input that is left and a value, or a failure.
pub type ParseOutcome<'a, T> = Result<(&'a [char], T), ParserError<'a>>;

/// The mathematical content of a `ParseOutcome`.
pub enum Outcome<V> {
    Success { rest: Seq<char>, value: V },
    Failure { rest: Seq<char>, reason: Option<Seq<char>> },
}

/// The mathematical content of `r`.
pub open spec fn outcome_of<'a, T: DeepView>(r: ParseOutcome<'a, T>) -> Outcome<T::V> {
    match r {
        Ok((rest, value)) => Outcome::Success { rest: rest@, value: value.deep_view() },
        Err(e) => Outcome::Failure { rest: e.remaining@, reason: e.deep_view().reason },
    }
}

/// `p` can be applied to every input.
pub open spec fn total<'a, T, P: Fn(&'a [char]) -> ParseOutcome<'a, T>>(p: &P) -> bool {
    forall|s: &'a [char]| call_requires(*p, (s,))
}

/// `r` is a result of `p` on `s`.
pub open spec fn gives<'a, T, P: Fn(&'a [char]) -> ParseOutcome<'a, T>>(
    p: &P,
    s: &'a [char],
    r: ParseOutcome<'a, T>,
) -> bool {
    call_ensures(*p, (s,), r)
}

/// `p` can be applied to every input, and applied to `s` it returns `f(s)`.
pub open spec fn implements<'a, T: DeepView, P: Fn(&'a [char]) -> ParseOutcome<'a, T>>(
    p: &P,
    f: spec_fn(Seq<char>) -> Outcome<T::V>,
) -> bool {
    &&& total(p)
    &&& forall|s: &'a [char], r: ParseOutcome<'a, T>| #[trigger]
        call_ensures(*p, (s,), r) ==> outcome_of(r) == f(s@)
}

/// `values` came from applications of `p` in turn: the one at place `i` was made
/// to `inputs[i]`, left `inputs[i + 1]` and gave `values[i]`. From place
/// `strict` on, each left less input than it was given.
pub open spec fn applied_in_turn<'a, T, P: Fn(&'a [char]) -> ParseOutcome<'a, T>>(
    p: &P,
    inputs: Seq<&'a [char]>,
    values: Seq<T>,
    strict: int,
) -> bool {
    &&& inputs.len() == values.len() + 1
    &&& forall|i: int|
        0 <= i < values.len() ==> #[trigger] gives(p, inputs[i], Ok((inputs[i + 1], values[i])))
            && (strict <= i ==> inputs[i + 1]@.len() < inputs[i]@.len())
}

/// An application of `p` to `s` has failed, or has left no less input than `s`.
pub open spec fn ends_at<'a, T, P: Fn(&'a [char]) -> ParseOutcome<'a, T>>(
    p: &P,
    s: &'a [char],
) -> bool {
    exists|r: ParseOutcome<'a, T>|
        gives(p, s, r) && (r matches Ok((rest, _)) ==> rest@.len() >= s@.len())
}

/// `values` came from applications of `p` in turn, of which the first was made
/// to `s` and the last left `rest`, and an application to `rest` ended the
/// repetition.
pub open spec fn repeated<'a, T, P: Fn(&'a [char]) -> ParseOutcome<'a, T>>(
    p: &P,
    s: &'a [char],
    rest: &'a [char],
    values: Seq<T>,
    strict: int,
) -> bool {
    &&& ends_at(p, rest)
    &&& exists|inputs: Seq<&'a [char]>|
        #[trigger] applied_in_turn(p, inputs, values, strict) && inputs[0] == s && inputs.last()
            == rest
}

/// Zero or more applications of `f`, each to what the one before left: the values
/// in order, and the input that the last success left. The repetition ends at
/// the first application that fails or that leaves no less input than it was
/// given; nothing of that application is kept.
pub open spec fn many_of<V>(f: spec_fn(Seq<char>) -> Outcome<V>, s: Seq<char>) -> Outcome<Seq<V>>
    decreases s.len(),
{
    match f(s) {
        Outcome::Success { rest, value } => if rest.len() < s.len() {
            match many_of(f, rest) {
                Outcome::Success { rest: last, value: values } => Outcome::Success {
                    rest: last,
                    value: seq![value] + values,
                },
                failure => failure,
            }
        } else {
            Outcome::Success { rest: s, value: Seq::empty() }
        },
        Outcome::Failure { .. } => Outcome::Success { rest: s, value: Seq::empty() },
    }
}

/// One or more applications of `f`: the failure of the first application, or
/// else what `many_of` yields.
pub open spec fn many1_of<V>(f: spec_fn(Seq<char>) -> Outcome<V>, s: Seq<char>) -> Outcome<Seq<V>> {
    match f(s) {
        Outcome::Success { rest, value } => match many_of(f, rest) {
            Outcome::Success { rest: last, value: values } => Outcome::Success {
                rest: last,
                value: seq![value] + values,
            },
            failure => failure,
        },
        Outcome::Failure { rest, reason } => Outcome::Failure { rest, reason },
    }
}

/// `many_of` as a function of the input alone.
pub open spec fn many_fn<V>(f: spec_fn(Seq<char>) -> Outcome<V>) -> spec_fn(Seq<char>) -> Outcome<Seq<V>> {
    |s: Seq<char>| many_of(f, s)
}

/// `many1_of` as a function of the input alone.
pub open spec fn many1_fn<V>(f: spec_fn(Seq<char>) -> Outcome<V>) -> spec_fn(Seq<char>) -> Outcome<
    Seq<V>,
> {
    |s: Seq<char>| many1_of(f, s)
}

/// `many_of` never fails.
pub proof fn lemma_many_succeeds<V>(f: spec_fn(Seq<char>) -> Outcome<V>, s: Seq<char>)
    ensures
        many_of(f, s) is Success,
    decreases s.len(),
{
    match f(s) {
        Outcome::Success { rest, value } => {
            if rest.len() < s.len() {
                lemma_many_succeeds(f, rest);
            }
        },
        Outcome::Failure { .. } => {},
    }
}

/// What `many_of` yields from `s`, behind the values `done` of the applications
/// that came before.
pub open spec fn many_after<V>(
    f: spec_fn(Seq<char>) -> Outcome<V>,
    done: Seq<V>,
    s: Seq<char>,
) -> Outcome<Seq<V>> {
    match many_of(f, s) {
        Outcome::Success { rest, value } => Outcome::Success { rest, value: done + value },
        failure => failure,
    }
}

/// Applies `a` from the last of `inputs` on until it fails or consumes nothing,
/// and adds the values to `result`.
fn collect<'a, T: DeepView, P: Fn(&'a [char]) -> ParseOutcome<'a, T>>(
    a: &P,
    start: &'a [char],
    result: Vec<T>,
    Ghost(origin): Ghost<&'a [char]>,
    Ghost(strict): Ghost<int>,
) -> (out: (&'a [char], Vec<T>))
    requires
        total(a),
        exists|inputs: Seq<&'a [char]>|
            #[trigger] applied_in_turn(a, inputs, result@, strict) && inputs[0] == origin
                && inputs.last() == start,
        0 <= strict <= result@.len(),
    ensures
        repeated(a, origin, out.0, out.1@, strict),
        out.1@.len() >= result@.len(),
        forall|f: spec_fn(Seq<char>) -> Outcome<T::V>| #[trigger]
            implements(a, f) ==> many_after(f, result.deep_view(), start@) == (Outcome::Success {
                rest: out.0@,
                value: out.1.deep_view(),
            }),
{
    let ghost first = result.deep_view();
    let ghost given = result@.len();
    let ghost mut inputs: Seq<&'a [char]> = choose|inputs: Seq<&'a [char]>|
        #[trigger] applied_in_turn(a, inputs, result@, strict) && inputs[0] == origin
            && inputs.last() == start;
    let mut result = result;
    let mut remaining = start;
    loop
        invariant
            total(a),
            0 <= strict <= result@.len(),
            given <= result@.len(),
            applied_in_turn(a, inputs, result@, strict),
            inputs[0] == origin,
            inputs.last() == remaining,
            forall|f: spec_fn(Seq<char>) -> Outcome<T::V>| #[trigger]
                implements(a, f) ==> many_after(f, first, start@) == many_after(
                    f,
                    result.deep_view(),
                    remaining@,
                ),
        ensures
            given <= result@.len(),
            applied_in_turn(a, inputs, result@, strict),
            inputs[0] == origin,
            inputs.last() == remaining,
            ends_at(a, remaining),
            forall|f: spec_fn(Seq<char>) -> Outcome<T::V>| #[trigger]
                implements(a, f) ==> many_after(f, first, start@) == (Outcome::Success {
                    rest: remaining@,
                    value: result.deep_view(),
                }),
        decreases remaining@.len(),
    {
        let ghost before = result.deep_view();
        let ghost input = remaining;
        let ghost values = result@;
        let ghost places = inputs;
        match a(remaining) {
            Ok((rest, value)) => {
                if rest.len() >= remaining.len() {
                    proof {
                        assert(gives(a, input, Ok((rest, value))));
                        assert forall|f: spec_fn(Seq<char>) -> Outcome<T::V>| #[trigger]
                            implements(a, f) implies many_after(f, first, start@) == (
                        Outcome::Success { rest: remaining@, value: result.deep_view() }) by {
                            assert(before + Seq::<T::V>::empty() =~= before);
                        }
                    }
                    break ;
                }
                let ghost v = value.deep_view();
                result.push(value);
                remaining = rest;
                proof {
                    inputs = places.push(rest);
                    assert(gives(a, input, Ok((rest, value))));
                    assert forall|i: int| 0 <= i < result@.len() implies #[trigger] gives(
                        a,
                        inputs[i],
                        Ok((inputs[i + 1], result@[i])),
                    ) && (strict <= i ==> inputs[i + 1]@.len() < inputs[i]@.len()) by {
                        if i < values.len() {
                            assert(gives(a, places[i], Ok((places[i + 1], values[i]))));
                        }
                    }
                    assert(result.deep_view() =~= before.push(v));
                    assert forall|f: spec_fn(Seq<char>) -> Outcome<T::V>| #[trigger]
                        implements(a, f) implies many_after(f, first, start@) == many_after(
                        f,
                        result.deep_view(),
                        remaining@,
                    ) by {
                        lemma_many_succeeds(f, rest@);
                        let tail = many_of(f, rest@)->Success_value;
                        assert(before + (seq![v] + tail) =~= before.push(v) + tail);
                    }
                }
            },
            Err(e) => {
                proof {
                    assert(gives(a, input, Err(e)));
                    assert forall|f: spec_fn(Seq<char>) -> Outcome<T::V>| #[trigger]
                        implements(a, f) implies many_after(f, first, start@) == (Outcome::Success {
                        rest: remaining@,
                        value: result.deep_view(),
                    }) by {
                        assert(before + Seq::<T::V>::empty() =~= before);
                    }
                }
                break ;
            },
        }
    }
    (remaining, result)
}

/// The parser that applies `a` zero or more times, each time to what the
/// application before left, and collects the values. It always succeeds: the
/// repetition ends at the first application that fails, or that consumes
/// nothing, and keeps nothing of that application.
pub fn many<'a, T: DeepView, P: Fn(&'a [char]) -> ParseOutcome<'a, T>>(a: P) -> (q: impl Fn(
    &'a [char],
) -> ParseOutcome<'a, Vec<T>>)
    requires
        total(&a),
    ensures
        total(&q),
        forall|s: &'a [char], r: ParseOutcome<'a, Vec<T>>| #[trigger]
            call_ensures(q, (s,), r) ==> (r matches Ok((rest, values)) && repeated(
                &a,
                s,
                rest,
                values@,
                0,
            )),
        forall|f: spec_fn(Seq<char>) -> Outcome<T::V>| #[trigger]
            implements(&a, f) ==> implements(&q, many_fn(f)),
{
    move |s: &'a [char]| -> (r: ParseOutcome<'a, Vec<T>>)
        ensures
            r matches Ok((rest, values)) && repeated(&a, s, rest, values@, 0),
            forall|f: spec_fn(Seq<char>) -> Outcome<T::V>| #[trigger]
                implements(&a, f) ==> outcome_of(r) == many_of(f, s@),
        {
            let none: Vec<T> = Vec::new();
            assert(none.deep_view() =~= Seq::<T::V>::empty());
            assert(applied_in_turn(&a, seq![s], none@, 0));
            let (remaining, result) = collect(&a, s, none, Ghost(s), Ghost(0));
            proof {
                assert forall|f: spec_fn(Seq<char>) -> Outcome<T::V>| #[trigger]
                    implements(&a, f) implies outcome_of::<Vec<T>>(Ok((remaining, result)))
                    == many_of(f, s@) by {
                    lemma_many_succeeds(f, s@);
                    let all = many_of(f, s@)->Success_value;
                    assert(Seq::<T::V>::empty() + all =~= all);
                }
            }
            Ok((remaining, result))
        }
}

/// The parser that applies `predicate` one or more times and collects the
/// values. It fails, as `predicate` does, where the first application fails;
/// after the first success it goes on as `many` does.
pub fn many1<'a, T: DeepView, P: Fn(&'a [char]) -> ParseOutcome<'a, T>>(predicate: P) -> (q: impl Fn(
    &'a [char],
) -> ParseOutcome<'a, Vec<T>>)
    requires
        total(&predicate),
    ensures
        total(&q),
        forall|s: &'a [char], r: ParseOutcome<'a, Vec<T>>| #[trigger]
            call_ensures(q, (s,), r) ==> match r {
                Ok((rest, values)) => values@.len() >= 1 && repeated(&predicate, s, rest, values@, 1),
                Err(e) => gives(&predicate, s, Err(e)),
            },
        forall|f: spec_fn(Seq<char>) -> Outcome<T::V>| #[trigger]
            implements(&predicate, f) ==> implements(&q, many1_fn(f)),
{
    move |s: &'a [char]| -> (r: ParseOutcome<'a, Vec<T>>)
        ensures
            match r {
                Ok((rest, values)) => values@.len() >= 1 && repeated(&predicate, s, rest, values@, 1),
                Err(e) => gives(&predicate, s, Err(e)),
            },
            forall|f: spec_fn(Seq<char>) -> Outcome<T::V>| #[trigger]
                implements(&predicate, f) ==> outcome_of(r) == many1_of(f, s@),
        {
            match predicate(s) {
                Ok((rest, value)) => {
                    let ghost v = value.deep_view();
                    let mut values: Vec<T> = Vec::new();
                    values.push(value);
                    assert(values.deep_view() =~= seq![v]);
                    assert(gives(&predicate, s, Ok((rest, value))));
                    assert(applied_in_turn(&predicate, seq![s, rest], values@, 1));
                    let (remaining, values) = collect(&predicate, rest, values, Ghost(s), Ghost(1));
                    proof {
                        assert forall|f: spec_fn(Seq<char>) -> Outcome<T::V>| #[trigger]
                            implements(&predicate, f) implies outcome_of::<Vec<T>>(
                            Ok((remaining, values)),
                        ) == many1_of(f, s@) by {
                            lemma_many_succeeds(f, rest@);
                        }
                    }
                    Ok((remaining, values))
                },
                Err(e) => {
                    proof {
                        assert(gives(&predicate, s, Err(e)));
                    }
                    Err(e)
                },
            }
        }
}

} // verus!
