//! Expressions without parentheses, over integers: white space between the
//! tokens changes nothing, and the tree is the one that precedence and
//! associativity ask for.

use crate::climbing::{climbed, law_fold_is_precedence_climbing};
use crate::combinators::Outcome;
use crate::common::{first_match, is_digit, is_whitespace, lemma_leading_is};
use crate::error::{ErrorModel, MAX_DEPTH};
use crate::evaluation::evaluated;
use crate::laws::law_more_white_space_is_skipped_too;
use crate::math::{
    decimal_value, digit_class, is_operator, number_of, operand_tree, operator_of, precedence_of,
    suffix_at,
};
use crate::parser::{
    after_whitespace, ast_of, expr_of, operand_of, tail_of, Assoc, BinModel, ExprModel,
    LiteralModel, NumberModel, OpTermModel, OperatorModel,
};
use vstd::prelude::*;

verus! {

/// A text of one or more decimal digits.
pub open spec fn is_digits(text: Seq<char>) -> bool {
    text.len() > 0 && forall|i: int| 0 <= i < text.len() ==> is_digit(#[trigger] text[i])
}

/// A text of white space, which may be empty.
pub open spec fn is_blank(text: Seq<char>) -> bool {
    forall|i: int| 0 <= i < text.len() ==> is_whitespace(#[trigger] text[i])
}

/// Nothing in `rest` goes on with a literal of digits: it is empty, or begins
/// with white space or with an operator.
pub open spec fn ends_a_literal(rest: Seq<char>) -> bool {
    rest.len() > 0 ==> is_whitespace(rest[0]) || is_operator(rest[0])
}

/// Behind white space that is followed by none, the input goes on where the
/// white space ends.
pub proof fn lemma_blank_is_skipped(blank: Seq<char>, s: Seq<char>)
    requires
        is_blank(blank),
        s.len() > 0 ==> !is_whitespace(s[0]),
    ensures
        after_whitespace(blank + s) == s,
{
    law_more_white_space_is_skipped_too(blank, s);
    assert(s.skip(0) =~= s);
}

/// No type suffix stands where the literal ends.
pub proof fn lemma_no_suffix(rest: Seq<char>)
    requires
        ends_a_literal(rest),
    ensures
        suffix_at(rest) is None,
{
    reveal_with_fuel(first_match, 4);
    reveal_strlit("u32");
    reveal_strlit("i32");
    reveal_strlit("f32");
    if rest.len() > 0 {
        assert(!is_whitespace('u') && !is_whitespace('i') && !is_whitespace('f'));
        if "u32"@.is_prefix_of(rest) {
            assert(rest.subrange(0, 3)[0] == 'u');
        }
        if "i32"@.is_prefix_of(rest) {
            assert(rest.subrange(0, 3)[0] == 'i');
        }
        if "f32"@.is_prefix_of(rest) {
            assert(rest.subrange(0, 3)[0] == 'f');
        }
    } else {
        assert(!"u32"@.is_prefix_of(rest));
        assert(!"i32"@.is_prefix_of(rest));
        assert(!"f32"@.is_prefix_of(rest));
    }
}

/// Digits that stand alone are read as one `I32`, and what follows them is
/// left.
pub proof fn lemma_digits_are_read(digits: Seq<char>, rest: Seq<char>)
    requires
        is_digits(digits),
        ends_a_literal(rest),
        decimal_value(digits) <= i32::MAX,
    ensures
        number_of(digits + rest) == (Outcome::Success {
            rest,
            value: NumberModel::I32(decimal_value(digits) as i32),
        }),
{
    let s = digits + rest;
    let k = digits.len() as int;
    assert forall|i: int| 0 <= i < k implies digit_class()(#[trigger] s[i]) by {
        assert(s[i] == digits[i]);
    }
    if rest.len() > 0 {
        assert(s[k] == rest[0]);
        assert(!is_digit(rest[0]) && rest[0] != '.');
    }
    lemma_leading_is(digit_class(), s, k);
    assert(s.take(k) =~= digits);
    assert(s.skip(k) =~= rest);
    lemma_no_suffix(rest);
    lemma_leading_is(digit_class(), digits, k);
}

/// The operator with the lexeme `c`.
pub open spec fn operator_with(c: char) -> OperatorModel {
    OperatorModel { lexeme: seq![c], precedence: precedence_of(c), assoc: Assoc::Left }
}

/// The token of the integer that `digits` stand for.
pub open spec fn integer_token(digits: Seq<char>) -> OpTermModel {
    OpTermModel::OpTerm(
        ExprModel::Lit(LiteralModel::Num(NumberModel::I32(decimal_value(digits) as i32))),
    )
}

/// An expression without parentheses, written out: integers `operands` with
/// the operators `signs` between them, white space `behind_operand[k]` behind
/// the integer at place `k` and `behind_sign[k]` behind the operator there.
pub open spec fn well_written(
    operands: Seq<Seq<char>>,
    signs: Seq<char>,
    behind_operand: Seq<Seq<char>>,
    behind_sign: Seq<Seq<char>>,
) -> bool {
    &&& operands.len() == signs.len() + 1
    &&& behind_operand.len() == operands.len()
    &&& behind_sign.len() == signs.len()
    &&& forall|k: int|
        0 <= k < operands.len() ==> is_digits(#[trigger] operands[k]) && decimal_value(operands[k])
            <= i32::MAX
    &&& forall|k: int| 0 <= k < signs.len() ==> is_operator(#[trigger] signs[k])
    &&& forall|k: int| 0 <= k < behind_operand.len() ==> is_blank(#[trigger] behind_operand[k])
    &&& forall|k: int| 0 <= k < behind_sign.len() ==> is_blank(#[trigger] behind_sign[k])
}

/// The text from the operator at place `k` on.
pub open spec fn written_from(
    operands: Seq<Seq<char>>,
    signs: Seq<char>,
    behind_operand: Seq<Seq<char>>,
    behind_sign: Seq<Seq<char>>,
    k: int,
) -> Seq<char>
    decreases signs.len() - k,
{
    if k < 0 || k >= signs.len() {
        Seq::empty()
    } else {
        seq![signs[k]] + behind_sign[k] + operands[k + 1] + behind_operand[k + 1] + written_from(
            operands,
            signs,
            behind_operand,
            behind_sign,
            k + 1,
        )
    }
}

/// The text of the whole expression.
pub open spec fn written(
    operands: Seq<Seq<char>>,
    signs: Seq<char>,
    behind_operand: Seq<Seq<char>>,
    behind_sign: Seq<Seq<char>>,
) -> Seq<char> {
    operands[0] + behind_operand[0] + written_from(operands, signs, behind_operand, behind_sign, 0)
}

/// The tokens from the operator at place `k` on.
pub open spec fn tokens_from(operands: Seq<Seq<char>>, signs: Seq<char>, k: int) -> Seq<
    OpTermModel,
>
    decreases signs.len() - k,
{
    if k < 0 || k >= signs.len() {
        Seq::empty()
    } else {
        seq![OpTermModel::Op(operator_with(signs[k])), integer_token(operands[k + 1])]
            + tokens_from(operands, signs, k + 1)
    }
}

/// The tokens of the whole expression.
pub open spec fn tokens_of(operands: Seq<Seq<char>>, signs: Seq<char>) -> Seq<OpTermModel> {
    seq![integer_token(operands[0])] + tokens_from(operands, signs, 0)
}

/// No white space, behind each of `n` tokens.
pub open spec fn no_blanks(n: nat) -> Seq<Seq<char>> {
    Seq::new(n, |k: int| Seq::<char>::empty())
}

/// What is written from an operator on begins with that operator, or is empty.
pub proof fn lemma_written_begins_with_operator(
    operands: Seq<Seq<char>>,
    signs: Seq<char>,
    behind_operand: Seq<Seq<char>>,
    behind_sign: Seq<Seq<char>>,
    k: int,
)
    requires
        well_written(operands, signs, behind_operand, behind_sign),
        0 <= k,
    ensures
        ({
            let text = written_from(operands, signs, behind_operand, behind_sign, k);
            if k < signs.len() {
                text.len() > 0 && text[0] == signs[k] && is_operator(text[0])
            } else {
                text.len() == 0
            }
        }),
{
}

/// An operator and an integer, each with white space behind it, are read as
/// two tokens; reading goes on with what follows them.
pub proof fn lemma_pair_is_read(
    c: char,
    gap: Seq<char>,
    digits: Seq<char>,
    space: Seq<char>,
    later: Seq<char>,
    depth: nat,
    tokens: Seq<OpTermModel>,
)
    requires
        is_operator(c),
        is_blank(gap),
        is_digits(digits),
        decimal_value(digits) <= i32::MAX,
        is_blank(space),
        later.len() > 0 ==> is_operator(later[0]),
    ensures
        tail_of(seq![c] + gap + digits + space + later, depth, tokens) == tail_of(
            later,
            depth,
            tokens.push(OpTermModel::Op(operator_with(c))).push(integer_token(digits)),
        ),
{
    let s = seq![c] + gap + digits + space + later;
    assert(!is_whitespace(c) && !is_digit(c));
    assert(!is_whitespace(digits[0]));
    let from_digits = digits + (space + later);
    let operator_rest = gap + from_digits;
    assert(s =~= seq![c] + operator_rest);
    assert(s.skip(1) =~= operator_rest);
    let sign = OpTermModel::Op(operator_with(c));
    assert(operator_of(s) == (Outcome::Success { rest: operator_rest, value: sign }));
    assert(from_digits[0] == digits[0]);
    lemma_blank_is_skipped(gap, from_digits);
    assert(ends_a_literal(space + later)) by {
        if space.len() > 0 {
            assert((space + later)[0] == space[0]);
        } else if later.len() > 0 {
            assert((space + later)[0] == later[0]);
        }
    }
    lemma_digits_are_read(digits, space + later);
    if later.len() > 0 {
        assert(!is_whitespace(later[0]));
    }
    lemma_blank_is_skipped(space, later);
    assert(later.len() < s.len());
}

/// The operators and integers from place `k` on are read as their tokens, and
/// nothing is left.
pub proof fn lemma_tail_is_read(
    operands: Seq<Seq<char>>,
    signs: Seq<char>,
    behind_operand: Seq<Seq<char>>,
    behind_sign: Seq<Seq<char>>,
    k: int,
    depth: nat,
    tokens: Seq<OpTermModel>,
)
    requires
        well_written(operands, signs, behind_operand, behind_sign),
        0 <= k <= signs.len(),
    ensures
        tail_of(written_from(operands, signs, behind_operand, behind_sign, k), depth, tokens)
            == Ok::<(Seq<char>, Seq<OpTermModel>), ErrorModel>(
            (Seq::<char>::empty(), tokens + tokens_from(operands, signs, k)),
        ),
    decreases signs.len() - k,
{
    let s = written_from(operands, signs, behind_operand, behind_sign, k);
    if k >= signs.len() {
        assert(operator_of(s) is Failure);
        assert(tokens + tokens_from(operands, signs, k) =~= tokens);
    } else {
        let c = signs[k];
        let digits = operands[k + 1];
        let gap = behind_sign[k];
        let space = behind_operand[k + 1];
        let later = written_from(operands, signs, behind_operand, behind_sign, k + 1);
        lemma_written_begins_with_operator(operands, signs, behind_operand, behind_sign, k + 1);
        assert(is_digits(digits) && decimal_value(digits) <= i32::MAX);
        assert(is_blank(gap) && is_blank(space));
        assert(is_operator(c));
        lemma_pair_is_read(c, gap, digits, space, later, depth, tokens);
        let more = tokens.push(OpTermModel::Op(operator_with(c))).push(integer_token(digits));
        lemma_tail_is_read(operands, signs, behind_operand, behind_sign, k + 1, depth, more);
        assert(more + tokens_from(operands, signs, k + 1) =~= tokens + tokens_from(
            operands,
            signs,
            k,
        ));
    }
}

/// An expression without parentheses is read as its tokens, whatever white
/// space stands behind them, and nothing is left.
pub proof fn lemma_expression_is_read(
    operands: Seq<Seq<char>>,
    signs: Seq<char>,
    behind_operand: Seq<Seq<char>>,
    behind_sign: Seq<Seq<char>>,
    depth: nat,
)
    requires
        well_written(operands, signs, behind_operand, behind_sign),
    ensures
        expr_of(written(operands, signs, behind_operand, behind_sign), depth) == Ok::<
            (Seq<char>, Seq<OpTermModel>),
            ErrorModel,
        >((Seq::<char>::empty(), tokens_of(operands, signs))),
{
    let later = written_from(operands, signs, behind_operand, behind_sign, 0);
    let digits = operands[0];
    let space = behind_operand[0];
    let text = written(operands, signs, behind_operand, behind_sign);
    lemma_written_begins_with_operator(operands, signs, behind_operand, behind_sign, 0);
    assert(is_digits(digits) && decimal_value(digits) <= i32::MAX);
    assert(is_blank(space));
    assert(text =~= digits + (space + later));
    assert(ends_a_literal(space + later)) by {
        if space.len() > 0 {
            assert((space + later)[0] == space[0]);
        } else if later.len() > 0 {
            assert((space + later)[0] == later[0]);
        }
    }
    lemma_digits_are_read(digits, space + later);
    if later.len() > 0 {
        assert(!is_whitespace(later[0]));
    }
    lemma_blank_is_skipped(space, later);
    lemma_tail_is_read(
        operands,
        signs,
        behind_operand,
        behind_sign,
        0,
        depth,
        seq![integer_token(digits)],
    );
    assert(operand_of(text, depth) == Ok::<(Seq<char>, OpTermModel), ErrorModel>(
        (space + later, integer_token(digits)),
    ));
}

/// White space between the tokens of an expression without parentheses, and
/// behind them, changes nothing in what the text evaluates to.
pub proof fn law_white_space_between_tokens(
    operands: Seq<Seq<char>>,
    signs: Seq<char>,
    behind_operand: Seq<Seq<char>>,
    behind_sign: Seq<Seq<char>>,
)
    requires
        well_written(operands, signs, behind_operand, behind_sign),
    ensures
        evaluated(written(operands, signs, behind_operand, behind_sign)) == evaluated(
            written(operands, signs, no_blanks(operands.len()), no_blanks(signs.len())),
        ),
{
    let depth = MAX_DEPTH as nat;
    lemma_expression_is_read(operands, signs, behind_operand, behind_sign, depth);
    lemma_expression_is_read(
        operands,
        signs,
        no_blanks(operands.len()),
        no_blanks(signs.len()),
        depth,
    );
}

/// The integers of the expression as leaves.
pub open spec fn leaves_of(operands: Seq<Seq<char>>) -> Seq<BinModel> {
    Seq::new(
        operands.len(),
        |k: int|
            BinModel::Uno(
                ExprModel::Lit(LiteralModel::Num(NumberModel::I32(decimal_value(operands[k]) as i32))),
            ),
    )
}

/// The operators of the expression.
pub open spec fn operators_of(signs: Seq<char>) -> Seq<OperatorModel> {
    Seq::new(signs.len(), |k: int| operator_with(signs[k]))
}

/// The tokens from an operator on are operators and integers in turn.
pub proof fn lemma_tokens_in_turn(operands: Seq<Seq<char>>, signs: Seq<char>, k: int)
    requires
        operands.len() == signs.len() + 1,
        0 <= k <= signs.len(),
    ensures
        tokens_from(operands, signs, k).len() == 2 * (signs.len() - k),
        forall|j: int|
            0 <= j < signs.len() - k ==> #[trigger] tokens_from(operands, signs, k)[2 * j]
                == OpTermModel::Op(operator_with(signs[k + j])),
        forall|j: int|
            0 <= j < signs.len() - k ==> #[trigger] tokens_from(operands, signs, k)[2 * j + 1]
                == integer_token(operands[k + j + 1]),
    decreases signs.len() - k,
{
    if k < signs.len() {
        lemma_tokens_in_turn(operands, signs, k + 1);
        let all = tokens_from(operands, signs, k);
        let later = tokens_from(operands, signs, k + 1);
        assert forall|j: int| 0 <= j < signs.len() - k implies #[trigger] all[2 * j]
            == OpTermModel::Op(operator_with(signs[k + j])) by {
            if j > 0 {
                assert(all[2 * j] == later[2 * (j - 1)]);
            }
        }
        assert forall|j: int| 0 <= j < signs.len() - k implies #[trigger] all[2 * j + 1]
            == integer_token(operands[k + j + 1]) by {
            if j > 0 {
                assert(all[2 * j + 1] == later[2 * (j - 1) + 1]);
            }
        }
    }
}

/// The tree of an expression without parentheses: it splits at the last of the
/// operators that bind loosest, `+` and `-`, or else `*` and `/`, and on either
/// side of that operator in the same way. Reading the text fails only where
/// the tree would have more levels than the limit allows.
pub proof fn law_expression_is_climbed(
    operands: Seq<Seq<char>>,
    signs: Seq<char>,
    behind_operand: Seq<Seq<char>>,
    behind_sign: Seq<Seq<char>>,
)
    requires
        well_written(operands, signs, behind_operand, behind_sign),
    ensures
        ast_of(written(operands, signs, behind_operand, behind_sign)) == Ok::<
            (Seq<char>, BinModel),
            ErrorModel,
        >(
            (
                Seq::<char>::empty(),
                climbed(leaves_of(operands), operators_of(signs), 0, signs.len() as int),
            ),
        ) || ast_of(written(operands, signs, behind_operand, behind_sign)) == Err::<
            (Seq<char>, BinModel),
            ErrorModel,
        >(ErrorModel::NestingTooDeep),
{
    let depth = MAX_DEPTH as nat;
    let tokens = tokens_of(operands, signs);
    let trees = leaves_of(operands);
    let ops = operators_of(signs);
    lemma_expression_is_read(operands, signs, behind_operand, behind_sign, depth);
    lemma_tokens_in_turn(operands, signs, 0);
    let later = tokens_from(operands, signs, 0);
    assert forall|j: int| 0 <= j < trees.len() implies (#[trigger] tokens[2 * j] matches OpTermModel::OpTerm(
        e,
    ) && operand_tree(e, depth) == Ok::<BinModel, ErrorModel>(trees[j])) by {
        if j > 0 {
            assert(tokens[2 * j] == later[2 * (j - 1) + 1]);
        }
    }
    assert forall|j: int| 0 <= j < ops.len() implies #[trigger] tokens[2 * j + 1] == OpTermModel::Op(
        ops[j],
    ) && ops[j].assoc == Assoc::Left by {
        assert(tokens[2 * j + 1] == later[2 * j]);
    }
    law_fold_is_precedence_climbing(tokens, trees, ops);
}

} // verus!
