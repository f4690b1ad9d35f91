//! Numbers and operators in text, and the fold of a flat sequence of operators
//! and operands into a tree.

use crate::combinators::{
    implements, many, many1, many1_fn, many_fn, outcome_of, Outcome, ParseOutcome,
};
use crate::common::{
    digit_fn, first_match, found_instead, is_digit, leading, lemma_leading_bound,
    lemma_leading_is, lemma_many1_run, lemma_many_run, str_not_found, take_char, take_digit,
    take_one_of, take_str, takes_one,
};
use crate::error::{Error, ErrorModel, Failure, ParserError, MAX_DEPTH};
use crate::parser::{
    levels, terms_model, ArithOp, Assoc, Bin, BinModel, BinaryModel, Expr, ExprModel, Float,
    FloatModel, Number, NumberModel, OpTerm, OpTermModel, Operator, OperatorModel, Type,
};
use crate::text::{join3, same_text};
use crate::typechecking::operation_of;
use vstd::prelude::*;
use vstd::string::*;

verus! {

/// The decimal digits, as a function.
pub open spec fn digit_class() -> spec_fn(char) -> bool {
    |c: char| is_digit(c)
}

/// The number that a decimal digit stands for.
pub open spec fn digit_value(c: char) -> nat {
    (c as u32 - '0' as u32) as nat
}

/// The number that a text of decimal digits stands for.
pub open spec fn decimal_value(text: Seq<char>) -> nat
    decreases text.len(),
{
    if text.len() == 0 {
        0
    } else {
        decimal_value(text.drop_last()) * 10 + digit_value(text.last())
    }
}

/// The forms of a numeric literal: digits alone, or digits, a point and
/// possibly further digits.
pub enum Shape {
    Integer,
    Fraction,
    Neither,
}

/// The form of `text`.
pub open spec fn shape_of(text: Seq<char>) -> Shape {
    let k = leading(digit_class(), text) as int;
    if k == 0 {
        Shape::Neither
    } else if k == text.len() {
        Shape::Integer
    } else if text[k] == '.' && k + 1 + leading(digit_class(), text.skip(k + 1)) == text.len() {
        Shape::Fraction
    } else {
        Shape::Neither
    }
}

/// The type that a literal gets: the one that the suffix names, or else `F32`
/// for a literal with a point and `I32` for one without.
pub open spec fn literal_kind(suffix: Option<Seq<char>>, text: Seq<char>) -> Type {
    if suffix == Some("u32"@) {
        Type::U32
    } else if suffix == Some("i32"@) {
        Type::I32
    } else if suffix == Some("f32"@) {
        Type::F32
    } else if shape_of(text) is Fraction {
        Type::F32
    } else {
        Type::I32
    }
}

/// The diagnostic for a text that is no numeric literal.
pub open spec fn not_a_number() -> Seq<char> {
    "Expected digits, optionally followed by a point and further digits"@
}

/// The diagnostic for a literal with a point that is to be an integer.
pub open spec fn fraction_as_integer() -> Seq<char> {
    "A number with a fractional part cannot have an integer type"@
}

/// The diagnostic for a literal beyond the greatest number of its type.
pub open spec fn out_of_range() -> Seq<char> {
    "The number is too large for its type"@
}

/// The number that a literal with this suffix and these characters is, or why
/// it is none.
pub open spec fn number_from(suffix: Option<Seq<char>>, text: Seq<char>) -> Result<
    NumberModel,
    Seq<char>,
> {
    if shape_of(text) is Neither {
        Err(not_a_number())
    } else {
        match literal_kind(suffix, text) {
            Type::F32 => Ok(NumberModel::F32(FloatModel::Decimal(text))),
            Type::I32 => if shape_of(text) is Fraction {
                Err(fraction_as_integer())
            } else if decimal_value(text) > i32::MAX {
                Err(out_of_range())
            } else {
                Ok(NumberModel::I32(decimal_value(text) as i32))
            },
            Type::U32 => if shape_of(text) is Fraction {
                Err(fraction_as_integer())
            } else if decimal_value(text) > u32::MAX {
                Err(out_of_range())
            } else {
                Ok(NumberModel::U32(decimal_value(text) as u32))
            },
        }
    }
}

/// The value of a prefix is at most the value of the whole.
pub proof fn lemma_prefix_value(text: Seq<char>, k: int)
    requires
        0 <= k <= text.len(),
    ensures
        decimal_value(text.take(k)) <= decimal_value(text),
    decreases text.len(),
{
    if k == text.len() {
        assert(text.take(k) =~= text);
    } else {
        lemma_prefix_value(text.drop_last(), k);
        assert(text.drop_last().take(k) =~= text.take(k));
    }
}

/// How many decimal digits stand at the front of `text`, from `from` on.
fn count_digits(text: &Vec<char>, from: usize) -> (n: usize)
    requires
        from <= text@.len(),
    ensures
        n == leading(digit_class(), text@.skip(from as int)),
        from + n <= text@.len(),
{
    let mut i: usize = from;
    while i < text.len() && '0' <= text[i] && text[i] <= '9'
        invariant
            from <= i <= text@.len(),
            forall|j: int| from <= j < i ==> is_digit(#[trigger] text@[j]),
        decreases text@.len() - i,
    {
        i += 1;
    }
    proof {
        let tail = text@.skip(from as int);
        assert forall|j: int| 0 <= j < i - from implies digit_class()(#[trigger] tail[j]) by {
            assert(tail[j] == text@[from + j]);
        }
        lemma_leading_is(digit_class(), tail, i - from);
    }
    i - from
}

/// The value of a text of digits, where it is at most `limit`.
fn value_within(text: &Vec<char>, limit: u64) -> (v: Option<u64>)
    requires
        limit <= u32::MAX,
        forall|j: int| 0 <= j < text@.len() ==> is_digit(#[trigger] text@[j]),
    ensures
        match v {
            Some(v) => v == decimal_value(text@) && v <= limit,
            None => decimal_value(text@) > limit,
        },
{
    let mut value: u64 = 0;
    let mut i: usize = 0;
    while i < text.len()
        invariant
            limit <= u32::MAX,
            0 <= i <= text@.len(),
            forall|j: int| 0 <= j < text@.len() ==> is_digit(#[trigger] text@[j]),
            value == decimal_value(text@.take(i as int)),
            value <= limit,
        decreases text@.len() - i,
    {
        let c = text[i];
        assert(is_digit(text@[i as int]));
        let digit: u64 = (c as u32 - '0' as u32) as u64;
        proof {
            assert(text@.take(i + 1).drop_last() =~= text@.take(i as int));
            assert(text@.take(i + 1).last() == c);
            lemma_prefix_value(text@, i + 1);
        }
        let next: u64 = value * 10 + digit;
        if next > limit {
            return None;
        }
        value = next;
        i += 1;
    }
    assert(text@.take(i as int) =~= text@);
    Some(value)
}

/// The number that a literal with the suffix `s` and the characters `num` is,
/// or the diagnostic that says why it is none. Without a suffix, or with one
/// that names no type, a literal with a point is an `F32` and one without an
/// `I32`.
pub fn number_from_type(s: Option<String>, num: Vec<char>) -> (r: Result<Number, String>)
    ensures
        match r {
            Ok(n) => number_from(s.deep_view(), num@) == Ok::<NumberModel, Seq<char>>(n.deep_view()),
            Err(reason) => number_from(s.deep_view(), num@) == Err::<NumberModel, Seq<char>>(reason@),
        },
{
    let whole = count_digits(&num, 0);
    assert(num@.skip(0) =~= num@);
    let fraction = if whole == 0 {
        return Err("Expected digits, optionally followed by a point and further digits".to_owned());
    } else if whole == num.len() {
        false
    } else if num[whole] == '.' && whole + 1 + count_digits(&num, whole + 1) == num.len() {
        true
    } else {
        return Err("Expected digits, optionally followed by a point and further digits".to_owned());
    };
    let default = if fraction {
        Type::F32
    } else {
        Type::I32
    };
    let kind = match &s {
        Some(name) => if same_text(name.as_str(), "u32") {
            Type::U32
        } else if same_text(name.as_str(), "i32") {
            Type::I32
        } else if same_text(name.as_str(), "f32") {
            Type::F32
        } else {
            default
        },
        None => default,
    };
    assert(kind == literal_kind(s.deep_view(), num@));
    let limit: u64 = match kind {
        Type::F32 => {
            return Ok(Number::F32(Float::Decimal(num)));
        },
        Type::I32 => 0x7fff_ffff,
        Type::U32 => 0xffff_ffff,
    };
    if fraction {
        return Err("A number with a fractional part cannot have an integer type".to_owned());
    }
    proof {
        lemma_leading_bound(digit_class(), num@);
    }
    match value_within(&num, limit) {
        Some(v) => match kind {
            Type::I32 => Ok(Number::I32(v as i32)),
            _ => Ok(Number::U32(v as u32)),
        },
        None => Err("The number is too large for its type".to_owned()),
    }
}

/// The suffixes that name a type, in the order in which they are tried.
pub open spec fn suffixes() -> Seq<Seq<char>> {
    seq!["u32"@, "i32"@, "f32"@]
}

/// The suffix that `s` begins with.
pub open spec fn suffix_at(s: Seq<char>) -> Option<Seq<char>> {
    let i = first_match(suffixes(), s, 0);
    if i < suffixes().len() {
        Some(suffixes()[i])
    } else {
        None
    }
}

/// The input behind the suffix that `s` begins with; `s` where it begins with
/// none.
pub open spec fn behind_suffix(s: Seq<char>) -> Seq<char> {
    match suffix_at(s) {
        Some(name) => s.skip(name.len() as int),
        None => s,
    }
}

/// The parser of an optional type suffix behind the characters `val` of a
/// literal: it hands `val` on, together with the suffix that it took from the
/// input, and never fails.
pub fn take_num_type<'a>() -> (p: impl Fn((&'a [char], Vec<char>)) -> ParseOutcome<
    'a,
    (Vec<char>, Option<String>),
>)
    ensures
        forall|input: (&'a [char], Vec<char>)| call_requires(p, (input,)),
        forall|input: (&'a [char], Vec<char>), r: ParseOutcome<'a, (Vec<char>, Option<String>)>|
            #[trigger] call_ensures(p, (input,), r) ==> (r matches Ok((rest, (val, suffix)))
                && val == input.1 && rest@ == behind_suffix(input.0@) && suffix.deep_view()
                == suffix_at(input.0@)),
{
    |input: (&'a [char], Vec<char>)| -> (r: ParseOutcome<'a, (Vec<char>, Option<String>)>)
        ensures
            r matches Ok((rest, (val, suffix))) && val == input.1 && rest@ == behind_suffix(
                input.0@,
            ) && suffix.deep_view() == suffix_at(input.0@),
        {
            let (remaining, val) = input;
            let names = vec!["u32", "i32", "f32"];
            assert(names.deep_view() =~= suffixes());
            let suffix = take_one_of(names);
            match suffix(remaining) {
                Ok((remaining, num_type)) => Ok((remaining, (val, Some(num_type)))),
                Err(e) => Ok((e.remaining(), (val, None))),
            }
        }
}

/// How many characters at the front of `s` make up a literal without its
/// suffix: the digits and, where a point follows them, the point and the
/// digits behind it.
pub open spec fn literal_len(s: Seq<char>) -> int {
    let k = leading(digit_class(), s) as int;
    if k < s.len() && s[k] == '.' {
        k + 1 + leading(digit_class(), s.skip(k + 1))
    } else {
        k
    }
}

/// What `take_number` does. A literal is one or more digits, optionally a point
/// and zero or more digits, and optionally a suffix `u32`, `i32` or `f32`
/// directly behind. Where the input does not begin with a digit the failure is
/// that of `take_digit`. Where it does, but the literal is no number of its
/// type, the failure leaves the input as it is and says why.
pub open spec fn number_of(s: Seq<char>) -> Outcome<NumberModel> {
    if leading(digit_class(), s) == 0 {
        Outcome::Failure { rest: s, reason: Some(found_instead("a digit"@, s)) }
    } else {
        let n = literal_len(s);
        match number_from(suffix_at(s.skip(n)), s.take(n)) {
            Ok(value) => Outcome::Success { rest: behind_suffix(s.skip(n)), value },
            Err(reason) => Outcome::Failure { rest: s, reason: Some(reason) },
        }
    }
}

/// `number_of` as a function of the input alone.
pub open spec fn number_fn() -> spec_fn(Seq<char>) -> Outcome<NumberModel> {
    |s: Seq<char>| number_of(s)
}

/// The parser of a numeric literal.
pub fn take_number<'a>() -> (p: impl Fn(&'a [char]) -> ParseOutcome<'a, Number>)
    ensures
        implements(&p, number_fn()),
{
    |s: &'a [char]| -> (r: ParseOutcome<'a, Number>)
        ensures
            outcome_of(r) == number_of(s@),
        {
            let digits = many1(take_digit());
            let decimals = many(take_digit());
            let point = take_char('.');
            let num_type = take_num_type();
            proof {
                assert(implements(&digits, many1_fn(digit_fn())));
                assert(implements(&decimals, many_fn(digit_fn())));
                assert(takes_one(digit_fn(), digit_class()));
                lemma_many1_run(digit_fn(), digit_class(), s@);
                lemma_leading_bound(digit_class(), s@);
            }
            let (remaining, mut num) = match digits(s) {
                Ok(found) => found,
                Err(e) => {
                    return Err(e);
                },
            };
            let ghost k = leading(digit_class(), s@) as int;
            assert(num@ =~= s@.take(k)) by {
                assert(num.deep_view() =~= num@);
            }
            let remaining = match point(remaining) {
                Ok((remaining, dot)) => {
                    proof {
                        lemma_many_run(digit_fn(), digit_class(), remaining@);
                        lemma_leading_bound(digit_class(), remaining@);
                        assert(remaining@ =~= s@.skip(k + 1));
                    }
                    num.push(dot);
                    match decimals(remaining) {
                        Ok((remaining, mut more)) => {
                            let ghost m = leading(digit_class(), s@.skip(k + 1)) as int;
                            assert(more@ =~= s@.skip(k + 1).take(m)) by {
                                assert(more.deep_view() =~= more@);
                            }
                            num.append(&mut more);
                            assert(num@ =~= s@.take(k + 1 + m));
                            assert(remaining@ =~= s@.skip(k + 1 + m));
                            remaining
                        },
                        Err(e) => {
                            return Err(e);
                        },
                    }
                },
                Err(e) => e.remaining(),
            };
            assert(num@ == s@.take(literal_len(s@)));
            assert(remaining@ == s@.skip(literal_len(s@)));
            match num_type((remaining, num)) {
                Ok((remaining, (num, suffix))) => match number_from_type(suffix, num) {
                    Ok(number) => Ok((remaining, number)),
                    Err(reason) => Err(ParserError::new(s, reason)),
                },
                Err(e) => Err(e),
            }
        }
}

/// Whether `c` is the lexeme of an operator: one of `+`, `*`, `/` and `-`.
pub open spec fn is_operator(c: char) -> bool {
    c == '+' || c == '*' || c == '/' || c == '-'
}

/// How tightly the operator with the lexeme `c` binds: `*` and `/` tighter
/// than `+` and `-`.
pub open spec fn precedence_of(c: char) -> i32 {
    if c == '*' || c == '/' {
        10
    } else {
        5
    }
}

/// What `take_operator` does: it takes one of `+`, `*`, `/` and `-` and yields
/// the operator, which groups to the left. Its failure is that of looking for
/// the last of them, `-`.
pub open spec fn operator_of(s: Seq<char>) -> Outcome<OpTermModel> {
    if s.len() > 0 && is_operator(s[0]) {
        Outcome::Success {
            rest: s.skip(1),
            value: OpTermModel::Op(
                OperatorModel {
                    lexeme: seq![s[0]],
                    precedence: precedence_of(s[0]),
                    assoc: Assoc::Left,
                },
            ),
        }
    } else {
        Outcome::Failure { rest: s, reason: Some(str_not_found(seq!['-'], s)) }
    }
}

/// `operator_of` as a function of the input alone.
pub open spec fn operator_fn() -> spec_fn(Seq<char>) -> Outcome<OpTermModel> {
    |s: Seq<char>| operator_of(s)
}

/// A text of one character is at the front of `s` where `s` begins with that
/// character.
proof fn lemma_single_prefix(c: char, s: Seq<char>)
    ensures
        seq![c].is_prefix_of(s) <==> s.len() > 0 && s[0] == c,
        s.len() > 0 ==> s.skip(seq![c].len() as int) == s.skip(1),
{
    if s.len() > 0 && s[0] == c {
        assert(seq![c] =~= s.subrange(0, 1));
    }
    if seq![c].is_prefix_of(s) {
        assert(s.subrange(0, 1)[0] == s[0]);
    }
}

/// The parser of an operator.
pub fn take_operator<'a>() -> (p: impl Fn(&'a [char]) -> ParseOutcome<'a, OpTerm>)
    ensures
        implements(&p, operator_fn()),
{
    |s: &'a [char]| -> (r: ParseOutcome<'a, OpTerm>)
        ensures
            outcome_of(r) == operator_of(s@),
        {
            proof {
                reveal_strlit("+");
                reveal_strlit("*");
                reveal_strlit("/");
                reveal_strlit("-");
                assert("+"@ =~= seq!['+']);
                assert("*"@ =~= seq!['*']);
                assert("/"@ =~= seq!['/']);
                assert("-"@ =~= seq!['-']);
                lemma_single_prefix('+', s@);
                lemma_single_prefix('*', s@);
                lemma_single_prefix('/', s@);
                lemma_single_prefix('-', s@);
            }
            let plus = take_str("+".to_owned());
            let times = take_str("*".to_owned());
            let over = take_str("/".to_owned());
            let minus = take_str("-".to_owned());
            let found = match plus(s) {
                Ok(found) => Ok(found),
                Err(error) => match times(error.remaining()) {
                    Ok(found) => Ok(found),
                    Err(error) => match over(error.remaining()) {
                        Ok(found) => Ok(found),
                        Err(error) => minus(error.remaining()),
                    },
                },
            };
            match found {
                Ok((remaining, op)) => {
                    let precedence: i32 = match operation_of(op.as_str()) {
                        Some(ArithOp::Add) => 5,
                        Some(ArithOp::Mul) => 10,
                        Some(ArithOp::Div) => 10,
                        Some(ArithOp::Sub) => 5,
                        None => {
                            return Err(
                                ParserError::new(s, join3("Unknown operator: `", op.as_str(), "`")),
                            );
                        },
                    };
                    Ok((remaining, OpTerm::Op(Operator { lexeme: op, precedence, assoc: Assoc::Left })))
                },
                Err(error) => Err(error),
            }
        }
}

/// The diagnostic for an operator without two operands to take.
pub open spec fn missing_operand() -> Seq<char> {
    "An operator needs an operand on either side"@
}

/// The diagnostic for tokens that leave no tree, or more than one.
pub open spec fn no_single_tree() -> Seq<char> {
    "The tokens do not make up one expression"@
}

/// The diagnostic for a tree where a token was expected.
pub open spec fn tree_among_tokens() -> Seq<char> {
    "A tree cannot stand among the tokens of an expression"@
}

/// A failure of the fold: it is not tied to a place in the input.
pub open spec fn malformed(reason: Seq<char>) -> ErrorModel {
    ErrorModel::Parse(Failure { rest: Seq::empty(), reason: Some(reason) })
}

/// The tree that the fold makes of two trees and an operator.
pub open spec fn joined(left: BinModel, op: OperatorModel, right: BinModel) -> BinModel {
    BinModel::Bin(
        BinaryModel {
            left: ExprModel::BinOp(Box::new(left)),
            op,
            right: ExprModel::BinOp(Box::new(right)),
            expr_type: None,
        },
    )
}

/// The operand stack after `op` has taken its two operands from the top, the
/// right one first, and put the operation in their place; `None` where there
/// are fewer than two.
pub open spec fn reduced(operands: Seq<BinModel>, op: OperatorModel) -> Option<Seq<BinModel>> {
    if operands.len() < 2 {
        None
    } else {
        let n = operands.len() as int;
        Some(operands.take(n - 2).push(joined(operands[n - 2], op, operands[n - 1])))
    }
}

/// As `reduced`, within the limits of the fold: an operator without two
/// operands is a failure, and so is an operation that would make a tree of more
/// than `MAX_DEPTH` levels.
pub open spec fn taken(operands: Seq<BinModel>, op: OperatorModel) -> Result<
    Seq<BinModel>,
    ErrorModel,
> {
    match reduced(operands, op) {
        None => Err(malformed(missing_operand())),
        Some(next) => if levels(next.last()) > MAX_DEPTH {
            Err(ErrorModel::NestingTooDeep)
        } else {
            Ok(next)
        },
    }
}

/// Whether the operator `top` of the stack takes its operands before `incoming`
/// is put on the stack: it binds tighter, or as tightly while `incoming`
/// groups to the left.
pub open spec fn binds_first(top: OperatorModel, incoming: OperatorModel) -> bool {
    top.precedence > incoming.precedence || (top.precedence == incoming.precedence
        && incoming.assoc == Assoc::Left)
}

/// The two stacks after every operator on top that binds before `incoming` has
/// taken its operands.
pub open spec fn unwound(
    ops: Seq<OperatorModel>,
    operands: Seq<BinModel>,
    incoming: OperatorModel,
) -> Result<(Seq<OperatorModel>, Seq<BinModel>), ErrorModel>
    decreases ops.len(),
{
    if ops.len() > 0 && binds_first(ops.last(), incoming) {
        match taken(operands, ops.last()) {
            Ok(next) => unwound(ops.drop_last(), next, incoming),
            Err(e) => Err(e),
        }
    } else {
        Ok((ops, operands))
    }
}

/// The operand stack after all operators of the stack, from the top down, have
/// taken their operands.
pub open spec fn drained(ops: Seq<OperatorModel>, operands: Seq<BinModel>) -> Result<
    Seq<BinModel>,
    ErrorModel,
>
    decreases ops.len(),
{
    if ops.len() == 0 {
        Ok(operands)
    } else {
        match taken(operands, ops.last()) {
            Ok(next) => drained(ops.drop_last(), next),
            Err(e) => Err(e),
        }
    }
}

/// The tree that an operand is on the operand stack, with `depth` levels of
/// groups left to go down: a literal or a variable is a leaf, a group the tree
/// that its own tokens make. A tree is no token.
pub open spec fn operand_tree(e: ExprModel, depth: nat) -> Result<BinModel, ErrorModel>
    decreases depth, 0nat,
{
    match e {
        ExprModel::Lit(l) => Ok(BinModel::Uno(ExprModel::Lit(l))),
        ExprModel::Var(name) => Ok(BinModel::Uno(ExprModel::Var(name))),
        ExprModel::Operation(group) => if depth == 0 {
            Err(ErrorModel::NestingTooDeep)
        } else {
            folded_from(group, 0, (depth - 1) as nat, Seq::empty(), Seq::empty())
        },
        ExprModel::BinOp(_) => Err(malformed(tree_among_tokens())),
    }
}

/// The tree that the tokens from place `i` on make, given the two stacks that
/// the tokens before them left, with `depth` levels of groups left to go down.
///
/// An operand is put on the operand stack as a tree. An operator first lets the
/// operators on top of the stack that bind before it take their operands, and
/// is then put on the operator stack. At the end the operators that are left
/// take their operands, and the one tree that remains is the result.
pub open spec fn folded_from(
    tokens: Seq<OpTermModel>,
    i: int,
    depth: nat,
    ops: Seq<OperatorModel>,
    operands: Seq<BinModel>,
) -> Result<BinModel, ErrorModel>
    decreases depth, 1 + if i < tokens.len() {
        tokens.len() - i
    } else {
        0
    },
{
    if i < 0 || i >= tokens.len() {
        match drained(ops, operands) {
            Ok(trees) => if trees.len() == 1 {
                Ok(trees[0])
            } else {
                Err(malformed(no_single_tree()))
            },
            Err(e) => Err(e),
        }
    } else {
        match tokens[i] {
            OpTermModel::Op(op) => match unwound(ops, operands, op) {
                Ok((ops, operands)) => folded_from(tokens, i + 1, depth, ops.push(op), operands),
                Err(e) => Err(e),
            },
            OpTermModel::OpTerm(e) => match operand_tree(e, depth) {
                Ok(tree) => folded_from(tokens, i + 1, depth, ops, operands.push(tree)),
                Err(e) => Err(e),
            },
        }
    }
}

/// The tree that a sequence of tokens makes, with groups nested at most
/// `MAX_DEPTH` deep.
pub open spec fn folded(tokens: Seq<OpTermModel>) -> Result<BinModel, ErrorModel> {
    folded_from(tokens, 0, MAX_DEPTH as nat, Seq::empty(), Seq::empty())
}

/// The failure of the fold with the diagnostic `reason`.
fn fold_failure<'a>(reason: &str) -> (e: Error<'a>)
    ensures
        e.deep_view() == malformed(reason@),
{
    Error::Parse(ParserError::new_no_rem(reason.to_owned()))
}

/// Lets `operator` take its two operands from the top of `ast` and puts the
/// operation in their place. With fewer than two operands `ast` stays as it is.
pub fn add_infix_op<'a>(ast: &mut Vec<Bin>, operator: Operator) -> (r: Result<(), Error<'a>>)
    ensures
        match r {
            Ok(_) => reduced(old(ast).deep_view(), operator.deep_view()) == Some(
                final(ast).deep_view(),
            ),
            Err(e) => reduced(old(ast).deep_view(), operator.deep_view()) is None && *final(ast)
                == *old(ast) && e.deep_view() == malformed(missing_operand()),
        },
{
    if ast.len() < 2 {
        return Err(fold_failure("An operator needs an operand on either side"));
    }
    let ghost before = ast.deep_view();
    let ghost n = before.len() as int;
    let roperand = ast.pop().unwrap();
    let loperand = ast.pop().unwrap();
    assert(ast.deep_view() =~= before.take(n - 2));
    assert(before[n - 1] == roperand.deep_view());
    assert(before[n - 2] == loperand.deep_view());
    let ghost below = ast.deep_view();
    let node = Bin::new_bin(Expr::BinOp(Box::new(loperand)), operator, Expr::BinOp(Box::new(roperand)));
    let ghost model = node.deep_view();
    ast.push(node);
    assert(ast.deep_view() =~= below.push(model));
    Ok(())
}

/// `heights` holds, tree by tree, the levels of the trees of `ast`, none of
/// them more than `MAX_DEPTH`.
pub open spec fn measured(ast: Seq<BinModel>, heights: Seq<usize>) -> bool {
    &&& heights.len() == ast.len()
    &&& forall|i: int|
        0 <= i < ast.len() ==> #[trigger] heights[i] == levels(ast[i]) && heights[i] <= MAX_DEPTH
}

/// As `add_infix_op`, within the limits of the fold, and with the levels of the
/// trees kept beside them.
fn take_operands<'a>(ast: &mut Vec<Bin>, heights: &mut Vec<usize>, operator: Operator) -> (r:
    Result<(), Error<'a>>)
    requires
        measured(old(ast).deep_view(), old(heights)@),
    ensures
        match r {
            Ok(_) => taken(old(ast).deep_view(), operator.deep_view()) == Ok::<
                Seq<BinModel>,
                ErrorModel,
            >(final(ast).deep_view()) && measured(final(ast).deep_view(), final(heights)@),
            Err(e) => taken(old(ast).deep_view(), operator.deep_view()) == Err::<
                Seq<BinModel>,
                ErrorModel,
            >(e.deep_view()),
        },
{
    let n = heights.len();
    if n < 2 {
        return Err(fold_failure("An operator needs an operand on either side"));
    }
    let ghost trees = ast.deep_view();
    let ghost before = heights@;
    let left = heights[n - 2];
    let right = heights[n - 1];
    let deeper = if left < right {
        right
    } else {
        left
    };
    assert(left == levels(trees[n - 2]) && right == levels(trees[n - 1]));
    if deeper >= MAX_DEPTH {
        return Err(Error::NestingTooDeep);
    }
    match add_infix_op(ast, operator) {
        Ok(_) => {
            heights.pop();
            heights.pop();
            heights.push(deeper + 1);
            assert(heights@ =~= before.take(n - 2).push((deeper + 1) as usize));
            Ok(())
        },
        Err(e) => Err(e),
    }
}

/// Whether the operator on top of `op_stack` takes its operands before `op` is
/// put on the stack.
fn top_binds_first(op_stack: &Vec<Operator>, op: &Operator) -> (yes: bool)
    ensures
        yes == (op_stack.deep_view().len() > 0 && binds_first(
            op_stack.deep_view().last(),
            op.deep_view(),
        )),
{
    match op_stack.last() {
        Some(last_op) => last_op.precedence > op.precedence || (last_op.precedence == op.precedence
            && op.is_left_assoc()),
        None => false,
    }
}

/// The tree that `tokens` make, and its levels, with `depth` levels of groups
/// left to go down.
#[verifier::loop_isolation(false)]
fn fold<'a>(tokens: Vec<OpTerm>, depth: usize) -> (r: Result<(Bin, usize), Error<'a>>)
    ensures
        match r {
            Ok((tree, height)) => folded_from(
                tokens.deep_view(),
                0,
                depth as nat,
                Seq::empty(),
                Seq::empty(),
            ) == Ok::<BinModel, ErrorModel>(tree.deep_view()) && height == levels(tree.deep_view())
                && height <= MAX_DEPTH,
            Err(e) => folded_from(tokens.deep_view(), 0, depth as nat, Seq::empty(), Seq::empty())
                == Err::<BinModel, ErrorModel>(e.deep_view()),
        },
    decreases depth,
{
    proof {
        reveal_with_fuel(folded_from, 2);
    }
    let mut op_stack: Vec<Operator> = Vec::new();
    let mut ast: Vec<Bin> = Vec::new();
    let mut heights: Vec<usize> = Vec::new();
    let ghost all = tokens;
    let ghost models = tokens.deep_view();
    let ghost whole = folded_from(models, 0, depth as nat, Seq::empty(), Seq::empty());
    assert(op_stack.deep_view() =~= Seq::<OperatorModel>::empty());
    assert(ast.deep_view() =~= Seq::<BinModel>::empty());
    for token in it: tokens
        invariant
            it.seq() == all@,
            models == all.deep_view(),
            measured(ast.deep_view(), heights@),
            whole == folded_from(
                models,
                it.index() as int,
                depth as nat,
                op_stack.deep_view(),
                ast.deep_view(),
            ),
    {
        let ghost i = it.index() as int;
        assert(models[i] == token.deep_view());
        match token {
            OpTerm::OpTerm(Expr::Lit(lit)) => {
                let ghost before = ast.deep_view();
                let leaf = Bin::new_uno(Expr::Lit(lit));
                let ghost model = leaf.deep_view();
                ast.push(leaf);
                heights.push(1);
                assert(ast.deep_view() =~= before.push(model));
            },
            OpTerm::OpTerm(Expr::Var(ident)) => {
                let ghost before = ast.deep_view();
                let leaf = Bin::new_uno(Expr::Var(ident));
                let ghost model = leaf.deep_view();
                ast.push(leaf);
                heights.push(1);
                assert(ast.deep_view() =~= before.push(model));
            },
            OpTerm::Op(op) => {
                let ghost incoming = op.deep_view();
                let ghost target = unwound(op_stack.deep_view(), ast.deep_view(), incoming);
                let mut proceed = top_binds_first(&op_stack, &op);
                while proceed
                    invariant
                        incoming == op.deep_view(),
                        measured(ast.deep_view(), heights@),
                        target == unwound(op_stack.deep_view(), ast.deep_view(), incoming),
                        proceed == (op_stack.deep_view().len() > 0 && binds_first(
                            op_stack.deep_view().last(),
                            incoming,
                        )),
                    decreases op_stack@.len(),
                {
                    let ghost ops = op_stack.deep_view();
                    let operator = op_stack.pop().unwrap();
                    assert(op_stack.deep_view() =~= ops.drop_last());
                    assert(operator.deep_view() == ops.last());
                    match take_operands(&mut ast, &mut heights, operator) {
                        Ok(_) => {},
                        Err(e) => {
                            return Err(e);
                        },
                    }
                    proceed = top_binds_first(&op_stack, &op);
                }
                let ghost ops = op_stack.deep_view();
                op_stack.push(op);
                assert(op_stack.deep_view() =~= ops.push(incoming));
            },
            OpTerm::OpTerm(Expr::Operation(expr)) => {
                if depth == 0 {
                    return Err(Error::NestingTooDeep);
                }
                assert(expr.deep_view() =~= terms_model(expr@));
                match fold(expr, depth - 1) {
                    Ok((tree, height)) => {
                        let ghost before = ast.deep_view();
                        let ghost model = tree.deep_view();
                        ast.push(tree);
                        heights.push(height);
                        assert(ast.deep_view() =~= before.push(model));
                    },
                    Err(e) => {
                        return Err(e);
                    },
                }
            },
            OpTerm::OpTerm(Expr::BinOp(_)) => {
                return Err(fold_failure("A tree cannot stand among the tokens of an expression"));
            },
        }
    }
    let ghost target = drained(op_stack.deep_view(), ast.deep_view());
    while op_stack.len() > 0
        invariant
            measured(ast.deep_view(), heights@),
            target == drained(op_stack.deep_view(), ast.deep_view()),
        decreases op_stack@.len(),
    {
        let ghost ops = op_stack.deep_view();
        let operator = op_stack.pop().unwrap();
        assert(op_stack.deep_view() =~= ops.drop_last());
        assert(operator.deep_view() == ops.last());
        match take_operands(&mut ast, &mut heights, operator) {
            Ok(_) => {},
            Err(e) => {
                return Err(e);
            },
        }
    }
    assert(op_stack.deep_view().len() == 0);
    if ast.len() != 1 {
        return Err(fold_failure("The tokens do not make up one expression"));
    }
    let tree = ast.pop().unwrap();
    let height = heights[0];
    Ok((tree, height))
}

/// The fold of a flat sequence of operators and operands into one tree, in
/// which an operator that binds tighter stands lower, and operators that bind
/// alike group to the left. The input that is left is empty.
pub fn into_ast<'a>() -> (p: impl Fn(Vec<OpTerm>) -> Result<(&'a [char], Bin), Error<'a>>)
    ensures
        forall|tokens: Vec<OpTerm>| call_requires(p, (tokens,)),
        forall|tokens: Vec<OpTerm>, r: Result<(&'a [char], Bin), Error<'a>>| #[trigger]
            call_ensures(p, (tokens,), r) ==> match r {
                Ok((rest, tree)) => rest@.len() == 0 && folded(tokens.deep_view()) == Ok::<
                    BinModel,
                    ErrorModel,
                >(tree.deep_view()),
                Err(e) => folded(tokens.deep_view()) == Err::<BinModel, ErrorModel>(e.deep_view()),
            },
{
    |tokens: Vec<OpTerm>| -> (r: Result<(&'a [char], Bin), Error<'a>>)
        ensures
            match r {
                Ok((rest, tree)) => rest@.len() == 0 && folded(tokens.deep_view()) == Ok::<
                    BinModel,
                    ErrorModel,
                >(tree.deep_view()),
                Err(e) => folded(tokens.deep_view()) == Err::<BinModel, ErrorModel>(e.deep_view()),
            },
        {
            let empty: &'a [char] = &[];
            match fold(tokens, MAX_DEPTH) {
                Ok((tree, _)) => Ok((empty, tree)),
                Err(e) => Err(e),
            }
        }
}

} // verus!
