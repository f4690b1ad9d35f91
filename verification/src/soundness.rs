//! What comes out of the front end in single precision stands for a value: the
//! literals in it are numeric literals.

use crate::combinators::Outcome;
use crate::evaluation::{applied, evaluated, operand_value, value_of};
use crate::math::{
    drained, folded_from, number_of, operand_tree, operator_of, shape_of, taken, unwound,
};
use crate::parser::{
    after_whitespace, ast_of, expr_of, group_of, operand_of, promoted, tail_of, BinModel,
    ExprModel, FloatModel, LiteralModel, NumberModel, OpTermModel, OperatorModel,
};
use crate::typechecking::{typed, typed_bin, typed_expr};
use vstd::prelude::*;

verus! {

/// Every literal in the quantity is a numeric literal: digits, optionally
/// followed by a point and further digits.
pub open spec fn float_sound(x: FloatModel) -> bool
    decreases x,
{
    match x {
        FloatModel::Decimal(text) => !(shape_of(text) is Neither),
        FloatModel::Signed(_) => true,
        FloatModel::Unsigned(_) => true,
        FloatModel::Binary { left, right, .. } => float_sound(*left) && float_sound(*right),
    }
}

/// A number in single precision is sound; every integer is.
pub open spec fn number_sound(n: NumberModel) -> bool {
    match n {
        NumberModel::F32(x) => float_sound(x),
        _ => true,
    }
}

/// The number of the literal is sound.
pub open spec fn literal_sound(l: LiteralModel) -> bool {
    match l {
        LiteralModel::Num(n) => number_sound(n),
    }
}

/// Every literal of the token is sound.
pub open spec fn term_sound(t: OpTermModel) -> bool
    decreases t,
{
    match t {
        OpTermModel::Op(_) => true,
        OpTermModel::OpTerm(e) => expr_sound(e),
    }
}

/// Every literal of the operand is sound.
pub open spec fn expr_sound(e: ExprModel) -> bool
    decreases e,
{
    match e {
        ExprModel::Lit(l) => literal_sound(l),
        ExprModel::Var(_) => true,
        ExprModel::Operation(terms) => forall|i: int|
            0 <= i < terms.len() ==> term_sound(#[trigger] terms[i]),
        ExprModel::BinOp(b) => bin_sound(*b),
    }
}

/// Every literal of the tree is sound.
pub open spec fn bin_sound(b: BinModel) -> bool
    decreases b,
{
    match b {
        BinModel::Uno(e) => expr_sound(e),
        BinModel::Bin(binary) => expr_sound(binary.left) && expr_sound(binary.right),
    }
}

/// Every token of the sequence is sound.
pub open spec fn terms_sound(terms: Seq<OpTermModel>) -> bool {
    forall|i: int| 0 <= i < terms.len() ==> term_sound(#[trigger] terms[i])
}

/// Every tree of the sequence is sound.
pub open spec fn trees_sound(trees: Seq<BinModel>) -> bool {
    forall|i: int| 0 <= i < trees.len() ==> bin_sound(#[trigger] trees[i])
}

/// A number that is read from text is sound.
pub proof fn lemma_number_sound(s: Seq<char>)
    requires
        number_of(s) is Success,
    ensures
        number_sound(number_of(s)->Success_value),
{
}

/// The token of a group that is read from text is sound.
pub proof fn lemma_group_sound(s: Seq<char>, depth: nat)
    requires
        group_of(s, depth) is Ok,
    ensures
        term_sound(group_of(s, depth)->Ok_0.1),
    decreases depth, s.len(), 0int,
{
    lemma_expr_sound(after_whitespace(s), (depth - 1) as nat);
}

/// The token of an operand that is read from text is sound.
pub proof fn lemma_operand_sound(s: Seq<char>, depth: nat)
    requires
        operand_of(s, depth) is Ok,
    ensures
        term_sound(operand_of(s, depth)->Ok_0.1),
    decreases depth, s.len(), 1int,
{
    match number_of(s) {
        Outcome::Success { .. } => {
            lemma_number_sound(s);
        },
        Outcome::Failure { .. } => {
            lemma_group_sound(s.skip(1), depth);
        },
    }
}

/// The tokens that follow the first operand are sound.
pub proof fn lemma_tail_sound(s: Seq<char>, depth: nat, tokens: Seq<OpTermModel>)
    requires
        terms_sound(tokens),
        tail_of(s, depth, tokens) is Ok,
    ensures
        terms_sound(tail_of(s, depth, tokens)->Ok_0.1),
    decreases depth, s.len(), 2int,
{
    match operator_of(s) {
        Outcome::Failure { .. } => {},
        Outcome::Success { rest, value: op } => {
            let at = after_whitespace(rest);
            crate::common::lemma_leading_bound(crate::common::whitespace_fn(), rest);
            match number_of(at) {
                Outcome::Success { rest: behind, value } => {
                    lemma_number_sound(at);
                    let operand = OpTermModel::OpTerm(ExprModel::Lit(LiteralModel::Num(value)));
                    let next = after_whitespace(behind);
                    let more = tokens.push(op).push(operand);
                    if next.len() < s.len() {
                        lemma_tail_sound(next, depth, more);
                    }
                },
                Outcome::Failure { .. } => {
                    if at.len() > 0 && at[0] == '(' {
                        lemma_group_sound(at.skip(1), depth);
                        let (behind, operand) = group_of(at.skip(1), depth)->Ok_0;
                        let next = after_whitespace(behind);
                        let more = tokens.push(op).push(operand);
                        if next.len() < s.len() {
                            lemma_tail_sound(next, depth, more);
                        }
                    }
                },
            }
        },
    }
}

/// The tokens of an expression that is read from text are sound.
pub proof fn lemma_expr_sound(s: Seq<char>, depth: nat)
    requires
        expr_of(s, depth) is Ok,
    ensures
        terms_sound(expr_of(s, depth)->Ok_0.1),
    decreases depth, s.len(), 3int,
{
    lemma_operand_sound(s, depth);
    let (rest, first) = operand_of(s, depth)->Ok_0;
    let next = after_whitespace(rest);
    if next.len() < s.len() {
        lemma_tail_sound(next, depth, seq![first]);
    }
}

/// An operator that takes its operands leaves the operand stack sound.
pub proof fn lemma_taken_sound(operands: Seq<BinModel>, op: OperatorModel)
    requires
        trees_sound(operands),
        taken(operands, op) is Ok,
    ensures
        trees_sound(taken(operands, op)->Ok_0),
{
    let n = operands.len() as int;
    assert(bin_sound(operands[n - 2]));
    assert(bin_sound(operands[n - 1]));
}

/// Unwinding leaves the operand stack sound.
pub proof fn lemma_unwound_sound(
    ops: Seq<OperatorModel>,
    operands: Seq<BinModel>,
    incoming: OperatorModel,
)
    requires
        trees_sound(operands),
        unwound(ops, operands, incoming) is Ok,
    ensures
        trees_sound(unwound(ops, operands, incoming)->Ok_0.1),
    decreases ops.len(),
{
    if ops.len() > 0 && crate::math::binds_first(ops.last(), incoming) {
        lemma_taken_sound(operands, ops.last());
        lemma_unwound_sound(ops.drop_last(), taken(operands, ops.last())->Ok_0, incoming);
    }
}

/// Draining leaves the operand stack sound.
pub proof fn lemma_drained_sound(ops: Seq<OperatorModel>, operands: Seq<BinModel>)
    requires
        trees_sound(operands),
        drained(ops, operands) is Ok,
    ensures
        trees_sound(drained(ops, operands)->Ok_0),
    decreases ops.len(),
{
    if ops.len() > 0 {
        lemma_taken_sound(operands, ops.last());
        lemma_drained_sound(ops.drop_last(), taken(operands, ops.last())->Ok_0);
    }
}

/// The tree of a sound operand is sound.
pub proof fn lemma_operand_tree_sound(e: ExprModel, depth: nat)
    requires
        expr_sound(e),
        operand_tree(e, depth) is Ok,
    ensures
        bin_sound(operand_tree(e, depth)->Ok_0),
    decreases depth, 0nat,
{
    match e {
        ExprModel::Operation(group) => {
            lemma_folded_sound(group, 0, (depth - 1) as nat, Seq::empty(), Seq::empty());
        },
        _ => {},
    }
}

/// The tree that the fold makes of sound tokens is sound.
pub proof fn lemma_folded_sound(
    tokens: Seq<OpTermModel>,
    i: int,
    depth: nat,
    ops: Seq<OperatorModel>,
    operands: Seq<BinModel>,
)
    requires
        terms_sound(tokens),
        trees_sound(operands),
        folded_from(tokens, i, depth, ops, operands) is Ok,
    ensures
        bin_sound(folded_from(tokens, i, depth, ops, operands)->Ok_0),
    decreases depth, 1 + if i < tokens.len() {
        tokens.len() - i
    } else {
        0
    },
{
    if i < 0 || i >= tokens.len() {
        lemma_drained_sound(ops, operands);
    } else {
        assert(term_sound(tokens[i]));
        match tokens[i] {
            OpTermModel::Op(op) => {
                lemma_unwound_sound(ops, operands, op);
                let (next_ops, next) = unwound(ops, operands, op)->Ok_0;
                lemma_folded_sound(tokens, i + 1, depth, next_ops.push(op), next);
            },
            OpTermModel::OpTerm(e) => {
                lemma_operand_tree_sound(e, depth);
                let tree = operand_tree(e, depth)->Ok_0;
                lemma_folded_sound(tokens, i + 1, depth, ops, operands.push(tree));
            },
        }
    }
}

/// Type checking keeps an operand sound.
pub proof fn lemma_typed_operand_sound(e: ExprModel, depth: nat)
    requires
        expr_sound(e),
        typed_expr(e, depth) is Ok,
    ensures
        expr_sound(typed_expr(e, depth)->Ok_0.0),
    decreases e,
{
    match e {
        ExprModel::BinOp(b) => {
            lemma_typed_sound(*b, depth);
        },
        _ => {},
    }
}

/// Type checking keeps a tree sound.
pub proof fn lemma_typed_sound(b: BinModel, depth: nat)
    requires
        bin_sound(b),
        typed_bin(b, depth) is Ok,
    ensures
        bin_sound(typed_bin(b, depth)->Ok_0.0),
    decreases b,
{
    let below = (depth - 1) as nat;
    match b {
        BinModel::Uno(e) => {
            lemma_typed_operand_sound(e, below);
        },
        BinModel::Bin(binary) => {
            lemma_typed_operand_sound(binary.left, below);
            lemma_typed_operand_sound(binary.right, below);
        },
    }
}

/// An operation on sound numbers yields a sound number.
pub proof fn lemma_applied_sound(left: LiteralModel, op: OperatorModel, right: LiteralModel)
    requires
        literal_sound(left),
        literal_sound(right),
        applied(left, op, right) is Ok,
    ensures
        literal_sound(applied(left, op, right)->Ok_0),
{
    assert(float_sound(promoted(left->Num_0)));
    assert(float_sound(promoted(right->Num_0)));
}

/// The value of a sound operand is sound.
pub proof fn lemma_operand_value_sound(e: ExprModel, depth: nat)
    requires
        expr_sound(e),
        operand_value(e, depth) is Ok,
    ensures
        literal_sound(operand_value(e, depth)->Ok_0),
    decreases e,
{
    match e {
        ExprModel::BinOp(b) => {
            lemma_value_sound(*b, depth);
        },
        _ => {},
    }
}

/// The value of a sound tree is sound.
pub proof fn lemma_value_sound(b: BinModel, depth: nat)
    requires
        bin_sound(b),
        value_of(b, depth) is Ok,
    ensures
        literal_sound(value_of(b, depth)->Ok_0),
    decreases b,
{
    let below = (depth - 1) as nat;
    match b {
        BinModel::Uno(e) => {
            lemma_operand_value_sound(e, below);
        },
        BinModel::Bin(binary) => {
            lemma_operand_value_sound(binary.left, below);
            lemma_operand_value_sound(binary.right, below);
            lemma_applied_sound(
                operand_value(binary.left, below)->Ok_0,
                binary.op,
                operand_value(binary.right, below)->Ok_0,
            );
        },
    }
}

/// Whatever number text evaluates to, it is sound: every literal in a result
/// in single precision is a numeric literal, so that the result stands for a
/// value.
pub proof fn law_results_are_sound(text: Seq<char>)
    requires
        evaluated(text) is Ok,
    ensures
        number_sound(evaluated(text)->Ok_0),
{
    let depth = crate::error::MAX_DEPTH as nat;
    let (rest, tree) = ast_of(text)->Ok_0;
    lemma_expr_sound(text, depth);
    let tokens = expr_of(text, depth)->Ok_0.1;
    lemma_folded_sound(tokens, 0, depth, Seq::empty(), Seq::empty());
    lemma_typed_sound(tree, depth);
    lemma_value_sound(typed(tree)->Ok_0, depth);
}

} // verus!
