//! The lexical builders: parsers of one character, of a fixed text, of one text
//! among several, and of runs of characters.

use crate::combinators::{
    implements, many, many1, many1_fn, many1_of, many_fn, many_of, outcome_of, total, Outcome,
    ParseOutcome,
};
use crate::error::ParserError;
use crate::text::{around_char, chars_of, join3, push_char};
use vstd::prelude::*;
use vstd::slice::slice_subrange;
use vstd::string::*;

verus! {

/// A decimal digit.
pub open spec fn is_digit(c: char) -> bool {
    '0' <= c <= '9'
}

/// A character from `A` to `z` in the order of the code points: the letters of
/// the Latin alphabet and the six characters that stand between `Z` and `a`.
pub open spec fn is_alpha(c: char) -> bool {
    'A' <= c <= 'z'
}

/// A letter of the Latin alphabet.
pub open spec fn is_letter(c: char) -> bool {
    'A' <= c <= 'Z' || 'a' <= c <= 'z'
}

/// A letter of the Latin alphabet or a decimal digit.
pub open spec fn is_letter_or_digit(c: char) -> bool {
    is_letter(c) || is_digit(c)
}

/// A character with the Unicode property `White_Space`.
pub open spec fn is_whitespace(c: char) -> bool {
    let n = c as u32;
    0x09 <= n <= 0x0D || n == 0x20 || n == 0x85 || n == 0xA0 || n == 0x1680 || 0x2000 <= n
        <= 0x200A || n == 0x2028 || n == 0x2029 || n == 0x202F || n == 0x205F || n == 0x3000
}

/// Whether `c` is white space.
pub fn whitespace(c: char) -> (yes: bool)
    ensures
        yes == is_whitespace(c),
{
    let n: u32 = c as u32;
    (0x09 <= n && n <= 0x0D) || n == 0x20 || n == 0x85 || n == 0xA0 || n == 0x1680 || (0x2000
        <= n && n <= 0x200A) || n == 0x2028 || n == 0x2029 || n == 0x202F || n == 0x205F || n
        == 0x3000
}

/// The diagnostic of a parser that wanted `wanted` at the front of `s`.
pub open spec fn found_instead(wanted: Seq<char>, s: Seq<char>) -> Seq<char> {
    if s.len() == 0 {
        "Expected "@ + wanted + ", found nothing"@
    } else {
        ("Expected "@ + wanted + ", found: `"@).push(s[0]) + "`"@
    }
}

/// One character of `s` that `accept` holds of: that character and the input
/// behind it, or a failure that leaves `s` as it is.
pub open spec fn one_char(
    accept: spec_fn(char) -> bool,
    reason: Option<Seq<char>>,
    s: Seq<char>,
) -> Outcome<char> {
    if s.len() > 0 && accept(s[0]) {
        Outcome::Success { rest: s.skip(1), value: s[0] }
    } else {
        Outcome::Failure { rest: s, reason }
    }
}

/// What `take_digit` does.
pub open spec fn digit_of(s: Seq<char>) -> Outcome<char> {
    one_char(|c: char| is_digit(c), Some(found_instead("a digit"@, s)), s)
}

/// `digit_of` as a function of the input alone.
pub open spec fn digit_fn() -> spec_fn(Seq<char>) -> Outcome<char> {
    |s: Seq<char>| digit_of(s)
}

/// What `take_alpha` does.
pub open spec fn alpha_of(s: Seq<char>) -> Outcome<char> {
    one_char(|c: char| is_alpha(c), Some(found_instead("an alphabetic char"@, s)), s)
}

/// `alpha_of` as a function of the input alone.
pub open spec fn alpha_fn() -> spec_fn(Seq<char>) -> Outcome<char> {
    |s: Seq<char>| alpha_of(s)
}

/// The diagnostic of `take_char(c)` on `s`.
pub open spec fn char_not_found(c: char, s: Seq<char>) -> Seq<char> {
    if s.len() == 0 {
        "Expected `"@.push(c) + "`, found nothing"@
    } else {
        ("Expected `"@.push(c) + "`, found `"@).push(s[0]) + "`"@
    }
}

/// What `take_char(c)` does.
pub open spec fn char_of(c: char, s: Seq<char>) -> Outcome<char> {
    one_char(|x: char| x == c, Some(char_not_found(c, s)), s)
}

/// `char_of` as a function of the input alone.
pub open spec fn char_fn(c: char) -> spec_fn(Seq<char>) -> Outcome<char> {
    |s: Seq<char>| char_of(c, s)
}

/// What `take_cpredicate` does with a predicate that computes `accept`.
pub open spec fn cpredicate_fn(accept: spec_fn(char) -> bool) -> spec_fn(Seq<char>) -> Outcome<char> {
    |s: Seq<char>| one_char(accept, None, s)
}

/// `predicate` can be applied to every character and applied to `c` it returns
/// `accept(c)`.
pub open spec fn decides<F: Fn(char) -> bool>(predicate: &F, accept: spec_fn(char) -> bool) -> bool {
    &&& forall|c: char| call_requires(*predicate, (c,))
    &&& forall|c: char, yes: bool| #[trigger]
        call_ensures(*predicate, (c,), yes) ==> yes == accept(c)
}

/// `yes` is a result of `predicate` on `c`.
pub open spec fn says<F: Fn(char) -> bool>(predicate: &F, c: char, yes: bool) -> bool {
    call_ensures(*predicate, (c,), yes)
}

/// `predicate` can be applied to every character.
pub open spec fn total_on_chars<F: Fn(char) -> bool>(predicate: &F) -> bool {
    forall|c: char| call_requires(*predicate, (c,))
}

/// The input behind the first character.
fn behind_first<'a>(s: &'a [char]) -> (rest: &'a [char])
    requires
        s@.len() > 0,
    ensures
        rest@ == s@.skip(1),
{
    slice_subrange(s, 1, s.len())
}

/// The diagnostic of a parser that wanted `wanted` at the front of `s`.
fn found<'a>(wanted: &str, s: &'a [char]) -> (text: String)
    ensures
        text@ == found_instead(wanted@, s@),
{
    let mut text = "Expected ".to_owned();
    text.append(wanted);
    if s.len() == 0 {
        text.append(", found nothing");
    } else {
        text.append(", found: `");
        push_char(&mut text, s[0]);
        text.append("`");
    }
    text
}

/// The parser of one decimal digit.
pub fn take_digit<'a>() -> (p: impl Fn(&'a [char]) -> ParseOutcome<'a, char>)
    ensures
        implements(&p, digit_fn()),
{
    |s: &'a [char]| -> (r: ParseOutcome<'a, char>)
        ensures
            outcome_of(r) == digit_of(s@),
        {
            if s.len() > 0 && '0' <= s[0] && s[0] <= '9' {
                Ok((behind_first(s), s[0]))
            } else {
                Err(ParserError::new(s, found("a digit", s)))
            }
        }
}

/// The parser of one character from `A` to `z`.
pub fn take_alpha<'a>() -> (p: impl Fn(&'a [char]) -> ParseOutcome<'a, char>)
    ensures
        implements(&p, alpha_fn()),
{
    |s: &'a [char]| -> (r: ParseOutcome<'a, char>)
        ensures
            outcome_of(r) == alpha_of(s@),
        {
            if s.len() > 0 && 'A' <= s[0] && s[0] <= 'z' {
                Ok((behind_first(s), s[0]))
            } else {
                Err(ParserError::new(s, found("an alphabetic char", s)))
            }
        }
}

/// The parser of the character `c`.
pub fn take_char<'a>(c: char) -> (p: impl Fn(&'a [char]) -> ParseOutcome<'a, char>)
    ensures
        implements(&p, char_fn(c)),
{
    move |s: &'a [char]| -> (r: ParseOutcome<'a, char>)
        ensures
            outcome_of(r) == char_of(c, s@),
        {
            if s.len() == 0 {
                Err(ParserError::new(s, around_char("Expected `", c, "`, found nothing")))
            } else if s[0] == c {
                Ok((behind_first(s), s[0]))
            } else {
                let mut text = around_char("Expected `", c, "`, found `");
                push_char(&mut text, s[0]);
                text.append("`");
                Err(ParserError::new(s, text))
            }
        }
}

/// The parser of one character of which `predicate` returns `true`. Its failure
/// carries no diagnostic.
pub fn take_cpredicate<'a, F: Fn(char) -> bool>(predicate: F) -> (p: impl Fn(
    &'a [char],
) -> ParseOutcome<'a, char>)
    requires
        total_on_chars(&predicate),
    ensures
        total(&p),
        forall|s: &'a [char], r: ParseOutcome<'a, char>| #[trigger]
            call_ensures(p, (s,), r) ==> match r {
                Ok((rest, c)) => s@.len() > 0 && c == s@[0] && rest@ == s@.skip(1) && says(
                    &predicate,
                    c,
                    true,
                ),
                Err(e) => e.remaining == s && e.reason is None && (s@.len() > 0 ==> says(
                    &predicate,
                    s@[0],
                    false,
                )),
            },
        forall|accept: spec_fn(char) -> bool| #[trigger]
            decides(&predicate, accept) ==> implements(&p, cpredicate_fn(accept)),
{
    move |s: &'a [char]| -> (r: ParseOutcome<'a, char>)
        requires
            total_on_chars(&predicate),
        ensures
            match r {
                Ok((rest, c)) => s@.len() > 0 && c == s@[0] && rest@ == s@.skip(1) && says(
                    &predicate,
                    c,
                    true,
                ),
                Err(e) => e.remaining == s && e.reason is None && (s@.len() > 0 ==> says(
                    &predicate,
                    s@[0],
                    false,
                )),
            },
            forall|accept: spec_fn(char) -> bool| #[trigger]
                decides(&predicate, accept) ==> outcome_of(r) == one_char(accept, None, s@),
        {
            if s.len() == 0 {
                return Err(ParserError::new_no_reason(s));
            }
            if predicate(s[0]) {
                Ok((behind_first(s), s[0]))
            } else {
                Err(ParserError::new_no_reason(s))
            }
        }
}

/// How many characters at the front of `s` `accept` holds of.
pub open spec fn leading(accept: spec_fn(char) -> bool, s: Seq<char>) -> nat
    decreases s.len(),
{
    if s.len() > 0 && accept(s[0]) {
        1 + leading(accept, s.skip(1))
    } else {
        0
    }
}

/// The longest run at the front of `s` of characters that `accept` holds of,
/// and the input behind it.
pub open spec fn run_of(accept: spec_fn(char) -> bool, s: Seq<char>) -> Outcome<Seq<char>> {
    Outcome::Success { rest: s.skip(leading(accept, s) as int), value: s.take(leading(accept, s) as int) }
}

/// `f` takes one character that `accept` holds of, and fails on every other input.
pub open spec fn takes_one(f: spec_fn(Seq<char>) -> Outcome<char>, accept: spec_fn(char) -> bool) -> bool {
    forall|s: Seq<char>|
        if s.len() > 0 && accept(s[0]) {
            #[trigger] f(s) == (Outcome::Success { rest: s.skip(1), value: s[0] })
        } else {
            f(s) is Failure
        }
}

/// The run is no longer than the input.
pub proof fn lemma_leading_bound(accept: spec_fn(char) -> bool, s: Seq<char>)
    ensures
        leading(accept, s) <= s.len(),
        forall|i: int| 0 <= i < leading(accept, s) ==> accept(#[trigger] s[i]),
        leading(accept, s) < s.len() ==> !accept(s[leading(accept, s) as int]),
    decreases s.len(),
{
    if s.len() > 0 && accept(s[0]) {
        lemma_leading_bound(accept, s.skip(1));
        assert forall|i: int| 0 <= i < leading(accept, s) implies accept(#[trigger] s[i]) by {
            if i > 0 {
                assert(s[i] == s.skip(1)[i - 1]);
            }
        }
    }
}

/// Repeating a parser of one character yields the longest run of such characters.
pub proof fn lemma_many_run(
    f: spec_fn(Seq<char>) -> Outcome<char>,
    accept: spec_fn(char) -> bool,
    s: Seq<char>,
)
    requires
        takes_one(f, accept),
    ensures
        many_of(f, s) == run_of(accept, s),
    decreases s.len(),
{
    if s.len() > 0 && accept(s[0]) {
        let rest = s.skip(1);
        lemma_many_run(f, accept, rest);
        lemma_leading_bound(accept, rest);
        let n = leading(accept, rest) as int;
        assert(rest.skip(n) =~= s.skip(n + 1));
        assert(seq![s[0]] + rest.take(n) =~= s.take(n + 1));
    } else {
        assert(f(s) is Failure);
        assert(s.skip(0) =~= s);
        assert(s.take(0) =~= Seq::<char>::empty());
    }
}

/// One or more applications of a parser of one character yield the longest run
/// of such characters, or the failure of the parser.
pub proof fn lemma_many1_run(
    f: spec_fn(Seq<char>) -> Outcome<char>,
    accept: spec_fn(char) -> bool,
    s: Seq<char>,
)
    requires
        takes_one(f, accept),
    ensures
        many1_of(f, s) == if leading(accept, s) > 0 {
            run_of(accept, s)
        } else {
            Outcome::Failure { rest: f(s)->Failure_rest, reason: f(s)->Failure_reason }
        },
        leading(accept, s) == 0 ==> f(s) is Failure,
{
    if s.len() > 0 && accept(s[0]) {
        let rest = s.skip(1);
        lemma_many_run(f, accept, rest);
        lemma_leading_bound(accept, rest);
        let n = leading(accept, rest) as int;
        assert(rest.skip(n) =~= s.skip(n + 1));
        assert(seq![s[0]] + rest.take(n) =~= s.take(n + 1));
    } else {
        assert(f(s) is Failure);
    }
}

/// White space, as a function.
pub open spec fn whitespace_fn() -> spec_fn(char) -> bool {
    |c: char| is_whitespace(c)
}

/// What `take_whitespaces` does: it takes the white space at the front of the
/// input, all of it, and never fails.
pub open spec fn whitespaces_of(s: Seq<char>) -> Outcome<Seq<char>> {
    run_of(whitespace_fn(), s)
}

/// `whitespaces_of` as a function of the input alone.
pub open spec fn whitespaces_fn() -> spec_fn(Seq<char>) -> Outcome<Seq<char>> {
    |s: Seq<char>| whitespaces_of(s)
}

/// What `take_whitespaces1` does: as `take_whitespaces`, but it fails without a
/// diagnostic where the input does not begin with white space.
pub open spec fn whitespaces1_of(s: Seq<char>) -> Outcome<Seq<char>> {
    if leading(whitespace_fn(), s) > 0 {
        run_of(whitespace_fn(), s)
    } else {
        Outcome::Failure { rest: s, reason: None }
    }
}

/// `whitespaces1_of` as a function of the input alone.
pub open spec fn whitespaces1_fn() -> spec_fn(Seq<char>) -> Outcome<Seq<char>> {
    |s: Seq<char>| whitespaces1_of(s)
}

/// The parser of zero or more characters of white space.
pub fn take_whitespaces<'a>() -> (p: impl Fn(&'a [char]) -> ParseOutcome<'a, Vec<char>>)
    ensures
        implements(&p, whitespaces_fn()),
{
    let one = take_cpredicate(whitespace);
    let ghost single = cpredicate_fn(whitespace_fn());
    assert(decides(&whitespace, whitespace_fn()));
    let p = many(one);
    proof {
        assert(implements(&p, many_fn(single)));
        assert(takes_one(single, whitespace_fn()));
        assert forall|s: Seq<char>| #[trigger] many_fn(single)(s) == whitespaces_fn()(s) by {
            lemma_many_run(single, whitespace_fn(), s);
        }
    }
    p
}

/// The parser of one or more characters of white space.
pub fn take_whitespaces1<'a>() -> (p: impl Fn(&'a [char]) -> ParseOutcome<'a, Vec<char>>)
    ensures
        implements(&p, whitespaces1_fn()),
{
    let one = take_cpredicate(whitespace);
    let ghost single = cpredicate_fn(whitespace_fn());
    assert(decides(&whitespace, whitespace_fn()));
    let p = many1(one);
    proof {
        assert(implements(&p, many1_fn(single)));
        assert(takes_one(single, whitespace_fn()));
        assert forall|s: Seq<char>| #[trigger] many1_fn(single)(s) == whitespaces1_fn()(s) by {
            lemma_many1_run(single, whitespace_fn(), s);
        }
    }
    p
}

/// `n` is the length of the run at the front of `s`.
pub proof fn lemma_leading_is(accept: spec_fn(char) -> bool, s: Seq<char>, n: int)
    requires
        0 <= n <= s.len(),
        forall|i: int| 0 <= i < n ==> accept(#[trigger] s[i]),
        n < s.len() ==> !accept(s[n]),
    ensures
        leading(accept, s) == n,
    decreases n,
{
    if n > 0 {
        let rest = s.skip(1);
        assert forall|i: int| 0 <= i < n - 1 implies accept(#[trigger] rest[i]) by {
            assert(rest[i] == s[i + 1]);
        }
        lemma_leading_is(accept, rest, n - 1);
    }
}

/// What `take_predicate1` does with a predicate that computes `accept`. On
/// empty input it fails without a diagnostic. Otherwise it succeeds with the
/// longest run, at the front of the input, of characters that `accept` holds
/// of, which may be empty, and leaves everything behind the run: the run
/// followed by what is left is the input.
pub open spec fn predicate1_of(accept: spec_fn(char) -> bool, s: Seq<char>) -> Outcome<Seq<char>> {
    if s.len() == 0 {
        Outcome::Failure { rest: s, reason: None }
    } else {
        run_of(accept, s)
    }
}

/// `predicate1_of` as a function of the input alone.
pub open spec fn predicate1_fn(accept: spec_fn(char) -> bool) -> spec_fn(Seq<char>) -> Outcome<
    Seq<char>,
> {
    |s: Seq<char>| predicate1_of(accept, s)
}

/// `r` is what `take_predicate1` makes of `s` with the answers that
/// `predicate` gave. Where it succeeds, the text followed by what is left is
/// `s`; the answer was `true` for every character of the text; and what is left
/// is empty or begins with a character for which the answer was `false`. It
/// fails, without a diagnostic, on empty input alone.
pub open spec fn ran<'a, F: Fn(char) -> bool>(
    predicate: &F,
    s: &'a [char],
    r: ParseOutcome<'a, String>,
) -> bool {
    match r {
        Ok((rest, text)) => {
            &&& 0 < s@.len()
            &&& text@ + rest@ == s@
            &&& forall|j: int| 0 <= j < text@.len() ==> says(predicate, #[trigger] text@[j], true)
            &&& rest@.len() > 0 ==> says(predicate, rest@[0], false)
        },
        Err(e) => s@.len() == 0 && e.remaining == s && e.reason is None,
    }
}

/// The run loses nothing: it is made of characters that `accept` holds of,
/// followed by what is left it is the input, and what is left is empty or
/// begins with a character that `accept` does not hold of.
pub proof fn lemma_run_and_rest(accept: spec_fn(char) -> bool, s: Seq<char>)
    ensures
        run_of(accept, s)->Success_value + run_of(accept, s)->Success_rest == s,
        forall|j: int|
            0 <= j < run_of(accept, s)->Success_value.len() ==> accept(
                #[trigger] run_of(accept, s)->Success_value[j],
            ),
        run_of(accept, s)->Success_rest.len() > 0 ==> !accept(run_of(accept, s)->Success_rest[0]),
{
    lemma_leading_bound(accept, s);
    let n = leading(accept, s) as int;
    assert(s.take(n) + s.skip(n) =~= s);
}

/// The parser of the longest run of characters of which `predicate` returns
/// `true`. It asks `predicate` about the characters in their order, from the
/// first on, up to and including the first for which the answer is `false`,
/// and consumes the run alone.
pub fn take_predicate1<'a, T: Fn(char) -> bool>(predicate: T) -> (p: impl Fn(
    &'a [char],
) -> ParseOutcome<'a, String>)
    requires
        total_on_chars(&predicate),
    ensures
        total(&p),
        forall|s: &'a [char], r: ParseOutcome<'a, String>| #[trigger]
            call_ensures(p, (s,), r) ==> ran(&predicate, s, r),
        forall|accept: spec_fn(char) -> bool| #[trigger]
            decides(&predicate, accept) ==> implements(&p, predicate1_fn(accept)),
{
    move |s: &'a [char]| -> (r: ParseOutcome<'a, String>)
        requires
            total_on_chars(&predicate),
        ensures
            ran(&predicate, s, r),
            forall|accept: spec_fn(char) -> bool| #[trigger]
                decides(&predicate, accept) ==> outcome_of(r) == predicate1_of(accept, s@),
        {
            if s.len() == 0 {
                return Err(ParserError::new_no_reason(s));
            }
            let mut values = String::new();
            let mut i: usize = 0;
            let mut open = true;
            while open && i < s.len()
                invariant
                    total_on_chars(&predicate),
                    0 <= i <= s@.len(),
                    values@ == s@.take(i as int),
                    forall|j: int| 0 <= j < i ==> says(&predicate, #[trigger] s@[j], true),
                    !open ==> i < s@.len() && says(&predicate, s@[i as int], false),
                decreases (if open { 1int } else { 0int }), s@.len() - i,
            {
                if predicate(s[i]) {
                    push_char(&mut values, s[i]);
                    assert(s@.take(i as int).push(s@[i as int]) =~= s@.take(i + 1));
                    i += 1;
                } else {
                    open = false;
                }
            }
            let rest = slice_subrange(s, i, s.len());
            proof {
                assert(values@ + rest@ =~= s@);
                assert forall|j: int| 0 <= j < values@.len() implies says(
                    &predicate,
                    #[trigger] values@[j],
                    true,
                ) by {
                    assert(says(&predicate, s@[j], true));
                }
                if rest@.len() > 0 {
                    assert(rest@[0] == s@[i as int]);
                }
                assert forall|accept: spec_fn(char) -> bool| #[trigger]
                    decides(&predicate, accept) implies outcome_of::<String>(Ok((rest, values)))
                    == predicate1_of(accept, s@) by {
                    assert forall|j: int| 0 <= j < i implies accept(#[trigger] s@[j]) by {
                        assert(says(&predicate, s@[j], true));
                    }
                    if i < s@.len() {
                        assert(says(&predicate, s@[i as int], false));
                    }
                    lemma_leading_is(accept, s@, i as int);
                }
            }
            Ok((rest, values))
        }
}

/// Whether `c` is a letter of the Latin alphabet.
pub fn letter(c: char) -> (yes: bool)
    ensures
        yes == is_letter(c),
{
    ('A' <= c && c <= 'Z') || ('a' <= c && c <= 'z')
}

/// Whether `c` is a letter of the Latin alphabet or a decimal digit.
pub fn letter_or_digit(c: char) -> (yes: bool)
    ensures
        yes == is_letter_or_digit(c),
{
    letter(c) || ('0' <= c && c <= '9')
}

/// The letters of the Latin alphabet, as a function.
pub open spec fn letter_fn() -> spec_fn(char) -> bool {
    |c: char| is_letter(c)
}

/// The letters of the Latin alphabet and the decimal digits, as a function.
pub open spec fn letter_or_digit_fn() -> spec_fn(char) -> bool {
    |c: char| is_letter_or_digit(c)
}

/// What `take_identifier` does: it takes a letter and the longest run of
/// letters and digits behind it, and leaves everything behind the run. It
/// fails without a diagnostic where the input does not begin with a letter,
/// and, as `take_predicate1` does on empty input, where nothing follows the
/// letter.
pub open spec fn identifier_of(s: Seq<char>) -> Outcome<Seq<char>> {
    if s.len() > 0 && is_letter(s[0]) {
        match predicate1_of(letter_or_digit_fn(), s.skip(1)) {
            Outcome::Success { rest, value } => Outcome::Success { rest, value: seq![s[0]] + value },
            failure => failure,
        }
    } else {
        Outcome::Failure { rest: s, reason: None }
    }
}

/// `identifier_of` as a function of the input alone.
pub open spec fn identifier_fn() -> spec_fn(Seq<char>) -> Outcome<Seq<char>> {
    |s: Seq<char>| identifier_of(s)
}

/// The parser of an identifier.
pub fn take_identifier<'a>() -> (p: impl Fn(&'a [char]) -> ParseOutcome<'a, String>)
    ensures
        implements(&p, identifier_fn()),
{
    |s: &'a [char]| -> (r: ParseOutcome<'a, String>)
        ensures
            outcome_of(r) == identifier_of(s@),
        {
            let first = take_cpredicate(letter);
            let others = take_predicate1(letter_or_digit);
            assert(decides(&letter, letter_fn()));
            assert(decides(&letter_or_digit, letter_or_digit_fn()));
            assert(implements(&first, cpredicate_fn(letter_fn())));
            assert(implements(&others, predicate1_fn(letter_or_digit_fn())));
            match first(s) {
                Ok((remaining, c)) => match others(remaining) {
                    Ok((remaining, ident)) => {
                        let mut identifier = String::new();
                        push_char(&mut identifier, c);
                        identifier.append(ident.as_str());
                        assert(identifier@ =~= seq![c] + ident@);
                        Ok((remaining, identifier))
                    },
                    Err(e) => Err(e),
                },
                Err(e) => Err(e),
            }
        }
}

/// How many characters `a` and `b` have in common at the front.
pub open spec fn common_prefix(a: Seq<char>, b: Seq<char>) -> nat
    decreases a.len(),
{
    if a.len() > 0 && b.len() > 0 && a[0] == b[0] {
        1 + common_prefix(a.skip(1), b.skip(1))
    } else {
        0
    }
}

/// `n` is the length of the common prefix.
pub proof fn lemma_common_prefix_is(a: Seq<char>, b: Seq<char>, n: int)
    requires
        0 <= n <= a.len(),
        n <= b.len(),
        forall|i: int| 0 <= i < n ==> a[i] == b[i],
        n < a.len() && n < b.len() ==> a[n] != b[n],
    ensures
        common_prefix(a, b) == n,
    decreases n,
{
    if n > 0 {
        assert(a[0] == b[0]);
        assert forall|i: int| 0 <= i < n - 1 implies a.skip(1)[i] == b.skip(1)[i] by {
            assert(a[i + 1] == b[i + 1]);
        }
        lemma_common_prefix_is(a.skip(1), b.skip(1), n - 1);
    }
}

/// The diagnostic of `take_str`: the text that was wanted and the longest prefix
/// of it that the input begins with.
pub open spec fn str_not_found(wanted: Seq<char>, s: Seq<char>) -> Seq<char> {
    "Expected `"@ + wanted + "` found `"@ + wanted.take(common_prefix(wanted, s) as int) + "`"@
}

/// What `take_str` does: it takes `wanted` from the front of the input, or fails
/// and leaves the input as it is.
pub open spec fn str_of(wanted: Seq<char>, s: Seq<char>) -> Outcome<Seq<char>> {
    if wanted.is_prefix_of(s) {
        Outcome::Success { rest: s.skip(wanted.len() as int), value: wanted }
    } else {
        Outcome::Failure { rest: s, reason: Some(str_not_found(wanted, s)) }
    }
}

/// `str_of` as a function of the input alone.
pub open spec fn str_fn(wanted: Seq<char>) -> spec_fn(Seq<char>) -> Outcome<Seq<char>> {
    |s: Seq<char>| str_of(wanted, s)
}

/// The parser of the text `str_to_match`.
pub fn take_str<'a>(str_to_match: String) -> (p: impl Fn(&'a [char]) -> ParseOutcome<'a, String>)
    ensures
        implements(&p, str_fn(str_to_match@)),
{
    let wanted = chars_of(str_to_match.as_str());
    move |s: &'a [char]| -> (r: ParseOutcome<'a, String>)
        requires
            wanted@ == str_to_match@,
        ensures
            outcome_of(r) == str_of(str_to_match@, s@),
        {
            let mut i: usize = 0;
            while i < wanted.len() && i < s.len() && wanted[i] == s[i]
                invariant
                    0 <= i <= wanted@.len(),
                    i <= s@.len(),
                    forall|j: int| 0 <= j < i ==> wanted@[j] == s@[j],
                decreases wanted@.len() - i,
            {
                i += 1;
            }
            proof {
                lemma_common_prefix_is(wanted@, s@, i as int);
            }
            if i == wanted.len() {
                assert(wanted@ =~= s@.subrange(0, wanted@.len() as int));
                Ok((slice_subrange(s, i, s.len()), str_to_match.clone()))
            } else {
                assert(!wanted@.is_prefix_of(s@)) by {
                    if wanted@.is_prefix_of(s@) {
                        assert(s@.subrange(0, wanted@.len() as int)[i as int] == s@[i as int]);
                    }
                }
                let matched = str_to_match.as_str().substring_char(0, i);
                let mut text = join3("Expected `", str_to_match.as_str(), "` found `");
                text.append(matched);
                text.append("`");
                Err(ParserError::new(s, text))
            }
        }
}

/// The place in `candidates`, from `from` on, of the first text that `s` begins
/// with; the length of `candidates` where there is none.
pub open spec fn first_match(candidates: Seq<Seq<char>>, s: Seq<char>, from: int) -> int
    decreases candidates.len() - from,
{
    if from < 0 || from >= candidates.len() {
        candidates.len() as int
    } else if candidates[from].is_prefix_of(s) {
        from
    } else {
        first_match(candidates, s, from + 1)
    }
}

/// How the standard library shows a list of texts for inspection, spread over
/// several lines: the pretty form (`{:#?}`) of `Debug` for a vector of string
/// slices.
pub uninterp spec fn listing(candidates: Seq<Seq<char>>) -> Seq<char>;

/// `format!` with `{:#?}` on a vector of string slices. The text depends on the
/// characters of the candidates and on nothing else.
#[verifier::external_body]
fn list_candidates(candidates: &Vec<&'static str>) -> (text: String)
    ensures
        text@ == listing(candidates.deep_view()),
{
    format!("{:#?}", candidates)
}

/// The diagnostic of `take_one_of`: it lists all the candidates.
pub open spec fn none_of(candidates: Seq<Seq<char>>) -> Seq<char> {
    "Expected one of the "@ + listing(candidates)
}

/// What `take_one_of` does: it takes the first of the candidates, in their
/// order, that the input begins with, or fails and leaves the input as it is.
pub open spec fn one_of(candidates: Seq<Seq<char>>, s: Seq<char>) -> Outcome<Seq<char>> {
    let i = first_match(candidates, s, 0);
    if i < candidates.len() {
        Outcome::Success { rest: s.skip(candidates[i].len() as int), value: candidates[i] }
    } else {
        Outcome::Failure { rest: s, reason: Some(none_of(candidates)) }
    }
}

/// `one_of` as a function of the input alone.
pub open spec fn one_of_fn(candidates: Seq<Seq<char>>) -> spec_fn(Seq<char>) -> Outcome<Seq<char>> {
    |s: Seq<char>| one_of(candidates, s)
}

/// The parser of one text among `strings`.
pub fn take_one_of<'a>(strings: Vec<&'static str>) -> (p: impl Fn(&'a [char]) -> ParseOutcome<
    'a,
    String,
>)
    ensures
        implements(&p, one_of_fn(strings.deep_view())),
{
    move |s: &'a [char]| -> (r: ParseOutcome<'a, String>)
        ensures
            outcome_of(r) == one_of(strings.deep_view(), s@),
        {
            let ghost candidates = strings.deep_view();
            let mut remaining = s;
            let mut i: usize = 0;
            while i < strings.len()
                invariant
                    0 <= i <= strings@.len(),
                    candidates == strings.deep_view(),
                    remaining@ == s@,
                    first_match(candidates, s@, 0) == first_match(candidates, s@, i as int),
                decreases strings@.len() - i,
            {
                assert(candidates[i as int] == strings@[i as int]@);
                let attempt = take_str(strings[i].to_owned());
                match attempt(remaining) {
                    Ok((remaining, matched)) => {
                        return Ok((remaining, matched));
                    },
                    Err(e) => {
                        remaining = e.remaining();
                    },
                }
                i += 1;
            }
            let mut text = "Expected one of the ".to_owned();
            text.append(list_candidates(&strings).as_str());
            Err(ParserError::new(remaining, text))
        }
}

} // verus!
