//! What holds of the front end as a whole.

use crate::common::{is_whitespace, leading, lemma_leading_bound, whitespace_fn};
use crate::error::{yields, Error, ErrorModel, MAX_DEPTH};
use crate::evaluation::{applied, evaluated, operand_value, value, value_of};
use crate::math::{drained, folded, folded_from, joined, operand_tree, taken, unwound};
use crate::parser::{
    after_whitespace, group_of, levels, literal_type, Assoc, BinModel, BinaryModel, ExprModel,
    LiteralModel, Number, OpTermModel, OperatorModel, Type,
};
use crate::typechecking::{binary_type_of, type_mismatch, typed, typed_bin, typed_expr};
use vstd::prelude::*;

verus! {

/// Evaluation is determined by the text: whatever `evaluate` returns for two
/// inputs with the same characters, the two results are the same number or the
/// same failure.
pub proof fn law_same_text_same_result<'a, 'b>(
    first: &'a [char],
    second: &'b [char],
    first_result: Result<Number, Error<'a>>,
    second_result: Result<Number, Error<'b>>,
)
    requires
        first@ == second@,
        yields(first_result, evaluated(first@)),
        yields(second_result, evaluated(second@)),
    ensures
        match (first_result, second_result) {
            (Ok(x), Ok(y)) => x.deep_view() == y.deep_view(),
            (Err(x), Err(y)) => x.deep_view() == y.deep_view(),
            _ => false,
        },
{
}

/// Operands of different types are never brought to one type: whatever the
/// operator, and whichever operand stands on the left, the operation is a type
/// error.
pub proof fn law_no_coercion(left: Type, op: OperatorModel, right: Type)
    requires
        left != right,
    ensures
        binary_type_of(left, op, right) == Err::<Type, ErrorModel>(
            ErrorModel::Type(type_mismatch(left, right)),
        ),
        binary_type_of(right, op, left) == Err::<Type, ErrorModel>(
            ErrorModel::Type(type_mismatch(right, left)),
        ),
{
}

/// An operation of type `t` on two numbers of one type yields a number of type
/// `t`.
pub proof fn law_operation_has_checked_type(
    left: LiteralModel,
    op: OperatorModel,
    right: LiteralModel,
    t: Type,
)
    requires
        binary_type_of(literal_type(left), op, literal_type(right)) == Ok::<Type, ErrorModel>(t),
    ensures
        applied(left, op, right) is Ok,
        literal_type(applied(left, op, right)->Ok_0) == t,
{
}

/// The value of a type checked operand has the type that the checker gave it.
pub proof fn law_operand_value_has_checked_type(e: ExprModel, depth: nat)
    requires
        typed_expr(e, depth) is Ok,
    ensures
        operand_value(typed_expr(e, depth)->Ok_0.0, depth) is Ok,
        literal_type(operand_value(typed_expr(e, depth)->Ok_0.0, depth)->Ok_0) == typed_expr(
            e,
            depth,
        )->Ok_0.1,
    decreases e,
{
    match e {
        ExprModel::BinOp(b) => {
            law_value_has_checked_type(*b, depth);
        },
        _ => {},
    }
}

/// The evaluator honours the type checker: a tree that type checks evaluates
/// without failure, and to a number of the type that the checker gave the
/// tree. In particular a quotient is an `F32`, whatever the operands are.
pub proof fn law_value_has_checked_type(b: BinModel, depth: nat)
    requires
        typed_bin(b, depth) is Ok,
    ensures
        value_of(typed_bin(b, depth)->Ok_0.0, depth) is Ok,
        literal_type(value_of(typed_bin(b, depth)->Ok_0.0, depth)->Ok_0) == typed_bin(
            b,
            depth,
        )->Ok_0.1,
    decreases b,
{
    match b {
        BinModel::Uno(e) => {
            law_operand_value_has_checked_type(e, (depth - 1) as nat);
        },
        BinModel::Bin(binary) => {
            let below = (depth - 1) as nat;
            law_operand_value_has_checked_type(binary.left, below);
            law_operand_value_has_checked_type(binary.right, below);
            let left = operand_value(typed_expr(binary.left, below)->Ok_0.0, below)->Ok_0;
            let right = operand_value(typed_expr(binary.right, below)->Ok_0.0, below)->Ok_0;
            law_operation_has_checked_type(left, binary.op, right, typed_bin(b, depth)->Ok_0.1);
        },
    }
}

/// Text that parses and type checks evaluates to a number: no failure comes
/// from the evaluator.
pub proof fn law_checked_tree_evaluates(tree: BinModel)
    requires
        typed(tree) is Ok,
    ensures
        value(typed(tree)->Ok_0) is Ok,
{
    law_value_has_checked_type(tree, MAX_DEPTH as nat);
}

/// A leaf for the fold: the literal as a token and as a tree.
pub open spec fn operand_token(l: LiteralModel) -> OpTermModel {
    OpTermModel::OpTerm(ExprModel::Lit(l))
}

/// The leaf that the fold makes of a literal.
pub open spec fn leaf(l: LiteralModel) -> BinModel {
    BinModel::Uno(ExprModel::Lit(l))
}

/// A leaf has one level, and a tree that the fold makes of two trees has one
/// more than the taller of them.
pub proof fn lemma_levels_of_joined(left: BinModel, op: OperatorModel, right: BinModel)
    ensures
        levels(joined(left, op, right)) == 1 + if levels(left) < levels(right) {
            levels(right)
        } else {
            levels(left)
        },
{
}

/// What an operator makes of the two trees on top of the operand stack, where
/// the result is within the limit.
pub proof fn lemma_taken(below: Seq<BinModel>, left: BinModel, op: OperatorModel, right: BinModel)
    requires
        levels(left) < MAX_DEPTH,
        levels(right) < MAX_DEPTH,
    ensures
        taken(below.push(left).push(right), op) == Ok::<Seq<BinModel>, ErrorModel>(
            below.push(joined(left, op, right)),
        ),
{
    let operands = below.push(left).push(right);
    assert(operands.take(operands.len() - 2) =~= below);
    lemma_levels_of_joined(left, op, right);
}

/// Precedence: in `a first b second c` an operator `second` that binds tighter
/// than `first` takes `b` and `c`, and `first` takes `a` and the result.
pub proof fn law_tighter_operator_takes_its_operands_first(
    a: LiteralModel,
    first: OperatorModel,
    b: LiteralModel,
    second: OperatorModel,
    c: LiteralModel,
)
    requires
        second.precedence > first.precedence,
    ensures
        folded(
            seq![
                operand_token(a),
                OpTermModel::Op(first),
                operand_token(b),
                OpTermModel::Op(second),
                operand_token(c),
            ],
        ) == Ok::<BinModel, ErrorModel>(joined(leaf(a), first, joined(leaf(b), second, leaf(c)))),
{
    reveal_with_fuel(folded_from, 2);
    let tokens = seq![
        operand_token(a),
        OpTermModel::Op(first),
        operand_token(b),
        OpTermModel::Op(second),
        operand_token(c),
    ];
    let depth = MAX_DEPTH as nat;
    let no_ops = Seq::<OperatorModel>::empty();
    let none = Seq::<BinModel>::empty();
    let inner = joined(leaf(b), second, leaf(c));
    let outer = joined(leaf(a), first, inner);
    lemma_levels_of_joined(leaf(b), second, leaf(c));
    assert(drained(no_ops, none.push(outer)) == Ok::<Seq<BinModel>, ErrorModel>(none.push(outer)));
    assert(drained(no_ops.push(first), none.push(leaf(a)).push(inner)) == drained(
        no_ops,
        none.push(outer),
    )) by {
        lemma_taken(none, leaf(a), first, inner);
        assert(no_ops.push(first).drop_last() =~= no_ops);
    }
    assert(drained(
        no_ops.push(first).push(second),
        none.push(leaf(a)).push(leaf(b)).push(leaf(c)),
    ) == drained(no_ops.push(first), none.push(leaf(a)).push(inner))) by {
        lemma_taken(none.push(leaf(a)), leaf(b), second, leaf(c));
        assert(no_ops.push(first).push(second).drop_last() =~= no_ops.push(first));
    }
    let all = none.push(leaf(a)).push(leaf(b)).push(leaf(c));
    assert(folded_from(tokens, 5, depth, no_ops.push(first).push(second), all) == Ok::<
        BinModel,
        ErrorModel,
    >(outer));
    assert(folded_from(tokens, 4, depth, no_ops.push(first).push(second), none.push(leaf(a)).push(leaf(b)))
        == folded_from(tokens, 5, depth, no_ops.push(first).push(second), all));
    assert(folded_from(tokens, 3, depth, no_ops.push(first), none.push(leaf(a)).push(leaf(b)))
        == folded_from(
        tokens,
        4,
        depth,
        no_ops.push(first).push(second),
        none.push(leaf(a)).push(leaf(b)),
    ));
    assert(folded_from(tokens, 2, depth, no_ops.push(first), none.push(leaf(a))) == folded_from(
        tokens,
        3,
        depth,
        no_ops.push(first),
        none.push(leaf(a)).push(leaf(b)),
    ));
    assert(folded_from(tokens, 1, depth, no_ops, none.push(leaf(a))) == folded_from(
        tokens,
        2,
        depth,
        no_ops.push(first),
        none.push(leaf(a)),
    ));
    assert(folded_from(tokens, 0, depth, no_ops, none) == folded_from(
        tokens,
        1,
        depth,
        no_ops,
        none.push(leaf(a)),
    ));
}

/// Associativity: in `a first b second c` with operators that bind alike, where
/// `second` groups to the left, `first` takes `a` and `b`, and `second` takes
/// the result and `c`.
pub proof fn law_equal_precedence_groups_to_the_left(
    a: LiteralModel,
    first: OperatorModel,
    b: LiteralModel,
    second: OperatorModel,
    c: LiteralModel,
)
    requires
        second.precedence == first.precedence,
        second.assoc == Assoc::Left,
    ensures
        folded(
            seq![
                operand_token(a),
                OpTermModel::Op(first),
                operand_token(b),
                OpTermModel::Op(second),
                operand_token(c),
            ],
        ) == Ok::<BinModel, ErrorModel>(joined(joined(leaf(a), first, leaf(b)), second, leaf(c))),
{
    reveal_with_fuel(folded_from, 2);
    let tokens = seq![
        operand_token(a),
        OpTermModel::Op(first),
        operand_token(b),
        OpTermModel::Op(second),
        operand_token(c),
    ];
    let depth = MAX_DEPTH as nat;
    let no_ops = Seq::<OperatorModel>::empty();
    let none = Seq::<BinModel>::empty();
    let inner = joined(leaf(a), first, leaf(b));
    let outer = joined(inner, second, leaf(c));
    lemma_levels_of_joined(leaf(a), first, leaf(b));
    assert(drained(no_ops, none.push(outer)) == Ok::<Seq<BinModel>, ErrorModel>(none.push(outer)));
    assert(drained(no_ops.push(second), none.push(inner).push(leaf(c))) == drained(
        no_ops,
        none.push(outer),
    )) by {
        lemma_taken(none, inner, second, leaf(c));
        assert(no_ops.push(second).drop_last() =~= no_ops);
    }
    assert(folded_from(tokens, 5, depth, no_ops.push(second), none.push(inner).push(leaf(c)))
        == Ok::<BinModel, ErrorModel>(outer));
    assert(folded_from(tokens, 4, depth, no_ops.push(second), none.push(inner)) == folded_from(
        tokens,
        5,
        depth,
        no_ops.push(second),
        none.push(inner).push(leaf(c)),
    ));
    assert(unwound(no_ops.push(first), none.push(leaf(a)).push(leaf(b)), second) == Ok::<
        (Seq<OperatorModel>, Seq<BinModel>),
        ErrorModel,
    >((no_ops, none.push(inner)))) by {
        lemma_taken(none, leaf(a), first, leaf(b));
        assert(no_ops.push(first).drop_last() =~= no_ops);
        assert(unwound(no_ops, none.push(inner), second) == Ok::<
            (Seq<OperatorModel>, Seq<BinModel>),
            ErrorModel,
        >((no_ops, none.push(inner))));
    }
    assert(folded_from(tokens, 3, depth, no_ops.push(first), none.push(leaf(a)).push(leaf(b)))
        == folded_from(tokens, 4, depth, no_ops.push(second), none.push(inner)));
    assert(folded_from(tokens, 2, depth, no_ops.push(first), none.push(leaf(a))) == folded_from(
        tokens,
        3,
        depth,
        no_ops.push(first),
        none.push(leaf(a)).push(leaf(b)),
    ));
    assert(folded_from(tokens, 1, depth, no_ops, none.push(leaf(a))) == folded_from(
        tokens,
        2,
        depth,
        no_ops.push(first),
        none.push(leaf(a)),
    ));
    assert(folded_from(tokens, 0, depth, no_ops, none) == folded_from(
        tokens,
        1,
        depth,
        no_ops,
        none.push(leaf(a)),
    ));
}

/// Every tree of `trees` has at most `MAX_DEPTH` levels.
pub open spec fn all_within_limit(trees: Seq<BinModel>) -> bool {
    forall|i: int| 0 <= i < trees.len() ==> levels(#[trigger] trees[i]) <= MAX_DEPTH
}

/// An operator that takes its operands leaves the operand stack within the
/// limit.
pub proof fn lemma_taken_within_limit(operands: Seq<BinModel>, op: OperatorModel)
    requires
        all_within_limit(operands),
        taken(operands, op) is Ok,
    ensures
        all_within_limit(taken(operands, op)->Ok_0),
{
}

/// Unwinding leaves the operand stack within the limit.
pub proof fn lemma_unwound_within_limit(
    ops: Seq<OperatorModel>,
    operands: Seq<BinModel>,
    incoming: OperatorModel,
)
    requires
        all_within_limit(operands),
        unwound(ops, operands, incoming) is Ok,
    ensures
        all_within_limit(unwound(ops, operands, incoming)->Ok_0.1),
    decreases ops.len(),
{
    if ops.len() > 0 && crate::math::binds_first(ops.last(), incoming) {
        lemma_taken_within_limit(operands, ops.last());
        lemma_unwound_within_limit(ops.drop_last(), taken(operands, ops.last())->Ok_0, incoming);
    }
}

/// Draining leaves the operand stack within the limit.
pub proof fn lemma_drained_within_limit(ops: Seq<OperatorModel>, operands: Seq<BinModel>)
    requires
        all_within_limit(operands),
        drained(ops, operands) is Ok,
    ensures
        all_within_limit(drained(ops, operands)->Ok_0),
    decreases ops.len(),
{
    if ops.len() > 0 {
        lemma_taken_within_limit(operands, ops.last());
        lemma_drained_within_limit(ops.drop_last(), taken(operands, ops.last())->Ok_0);
    }
}

/// An operand is a tree within the limit.
pub proof fn lemma_operand_tree_within_limit(e: ExprModel, depth: nat)
    requires
        operand_tree(e, depth) is Ok,
    ensures
        levels(operand_tree(e, depth)->Ok_0) <= MAX_DEPTH,
    decreases depth, 0nat,
{
    match e {
        ExprModel::Operation(group) => {
            lemma_folded_within_limit(group, 0, (depth - 1) as nat, Seq::empty(), Seq::empty());
        },
        _ => {},
    }
}

/// The fold from any place on, with an operand stack within the limit, makes a
/// tree within the limit.
pub proof fn lemma_folded_within_limit(
    tokens: Seq<OpTermModel>,
    i: int,
    depth: nat,
    ops: Seq<OperatorModel>,
    operands: Seq<BinModel>,
)
    requires
        all_within_limit(operands),
        folded_from(tokens, i, depth, ops, operands) is Ok,
    ensures
        levels(folded_from(tokens, i, depth, ops, operands)->Ok_0) <= MAX_DEPTH,
    decreases depth, 1 + if i < tokens.len() {
        tokens.len() - i
    } else {
        0
    },
{
    if i < 0 || i >= tokens.len() {
        lemma_drained_within_limit(ops, operands);
    } else {
        match tokens[i] {
            OpTermModel::Op(op) => {
                lemma_unwound_within_limit(ops, operands, op);
                let (next_ops, next) = unwound(ops, operands, op)->Ok_0;
                lemma_folded_within_limit(tokens, i + 1, depth, next_ops.push(op), next);
            },
            OpTermModel::OpTerm(e) => {
                lemma_operand_tree_within_limit(e, depth);
                let tree = operand_tree(e, depth)->Ok_0;
                lemma_folded_within_limit(tokens, i + 1, depth, ops, operands.push(tree));
            },
        }
    }
}

/// The fold builds no tree of more than `MAX_DEPTH` levels, however long the
/// sequence of tokens is.
pub proof fn law_fold_keeps_trees_within_limit(tokens: Seq<OpTermModel>)
    requires
        folded(tokens) is Ok,
    ensures
        levels(folded(tokens)->Ok_0) <= MAX_DEPTH,
{
    lemma_folded_within_limit(tokens, 0, MAX_DEPTH as nat, Seq::empty(), Seq::empty());
}

/// Type checking goes through an operand that has no more levels than it may go
/// down, and leaves the levels as they are.
pub proof fn lemma_operand_is_checked_through(e: ExprModel, depth: nat)
    requires
        crate::parser::operand_levels(e) <= depth,
    ensures
        typed_expr(e, depth) != Err::<(ExprModel, Type), ErrorModel>(ErrorModel::NestingTooDeep),
        typed_expr(e, depth) is Ok ==> crate::parser::operand_levels(typed_expr(e, depth)->Ok_0.0)
            == crate::parser::operand_levels(e),
    decreases e,
{
    match e {
        ExprModel::BinOp(b) => {
            if levels(*b) > 0 {
                lemma_tree_is_checked_through(*b, depth);
            }
        },
        _ => {},
    }
}

/// Type checking goes through a tree that has no more levels than it may go
/// down, and leaves the levels as they are.
pub proof fn lemma_tree_is_checked_through(b: BinModel, depth: nat)
    requires
        levels(b) <= depth,
    ensures
        typed_bin(b, depth) != Err::<(BinModel, Type), ErrorModel>(ErrorModel::NestingTooDeep),
        typed_bin(b, depth) is Ok ==> levels(typed_bin(b, depth)->Ok_0.0) == levels(b),
    decreases b,
{
    let below = (depth - 1) as nat;
    match b {
        BinModel::Uno(e) => {
            lemma_operand_is_checked_through(e, below);
        },
        BinModel::Bin(binary) => {
            lemma_operand_is_checked_through(binary.left, below);
            lemma_operand_is_checked_through(binary.right, below);
        },
    }
}

/// The nesting limit is met in parsing and folding alone: a tree that the fold
/// has made is type checked all the way down.
pub proof fn law_folded_tree_is_checked_through(tokens: Seq<OpTermModel>)
    requires
        folded(tokens) is Ok,
    ensures
        typed(folded(tokens)->Ok_0) != Err::<BinModel, ErrorModel>(ErrorModel::NestingTooDeep),
{
    law_fold_keeps_trees_within_limit(tokens);
    lemma_tree_is_checked_through(folded(tokens)->Ok_0, MAX_DEPTH as nat);
}

/// No failure of `evaluate` comes from the evaluator: text that parses as one
/// expression and type checks has a value, and the value has the type that the
/// checker gave the tree.
pub proof fn law_checked_text_has_a_value(text: Seq<char>)
    requires
        crate::parser::ast_of(text) is Ok,
        crate::parser::ast_of(text)->Ok_0.0.len() == 0,
        typed(crate::parser::ast_of(text)->Ok_0.1) is Ok,
    ensures
        evaluated(text) is Ok,
        crate::parser::number_type(evaluated(text)->Ok_0) == typed_bin(
            crate::parser::ast_of(text)->Ok_0.1,
            MAX_DEPTH as nat,
        )->Ok_0.1,
{
    law_value_has_checked_type(crate::parser::ast_of(text)->Ok_0.1, MAX_DEPTH as nat);
}

/// White space is skipped whole: more of it in front of the input changes
/// nothing in what stands behind the white space.
pub proof fn law_more_white_space_is_skipped_too(blank: Seq<char>, s: Seq<char>)
    requires
        forall|i: int| 0 <= i < blank.len() ==> is_whitespace(#[trigger] blank[i]),
    ensures
        after_whitespace(blank + s) == after_whitespace(s),
    decreases blank.len(),
{
    if blank.len() == 0 {
        assert(blank + s =~= s);
    } else {
        let shorter = blank.skip(1);
        assert((blank + s).skip(1) =~= shorter + s);
        assert forall|i: int| 0 <= i < shorter.len() implies is_whitespace(
            #[trigger] shorter[i],
        ) by {
            assert(shorter[i] == blank[i + 1]);
        }
        law_more_white_space_is_skipped_too(shorter, s);
        lemma_leading_bound(whitespace_fn(), shorter + s);
        assert((blank + s)[0] == blank[0]);
        let n = leading(whitespace_fn(), shorter + s) as int;
        assert((blank + s).skip(n + 1) =~= (shorter + s).skip(n));
    }
}

/// White space behind an opening parenthesis changes nothing in what the group
/// is, nor in how reading it fails.
pub proof fn law_white_space_opens_a_group(blank: Seq<char>, s: Seq<char>, depth: nat)
    requires
        forall|i: int| 0 <= i < blank.len() ==> is_whitespace(#[trigger] blank[i]),
    ensures
        group_of(blank + s, depth) == group_of(s, depth),
{
    law_more_white_space_is_skipped_too(blank, s);
}

/// The operand without the types that type checking writes into a tree.
pub open spec fn bare_operand(e: ExprModel) -> ExprModel
    decreases e,
{
    match e {
        ExprModel::BinOp(b) => ExprModel::BinOp(Box::new(bare(*b))),
        _ => e,
    }
}

/// The tree without the types that type checking writes into it.
pub open spec fn bare(b: BinModel) -> BinModel
    decreases b,
{
    match b {
        BinModel::Uno(e) => BinModel::Uno(bare_operand(e)),
        BinModel::Bin(binary) => BinModel::Bin(
            BinaryModel {
                left: bare_operand(binary.left),
                op: binary.op,
                right: bare_operand(binary.right),
                expr_type: None,
            },
        ),
    }
}

/// Every operation in the operand carries a type.
pub open spec fn operand_annotated(e: ExprModel) -> bool
    decreases e,
{
    match e {
        ExprModel::BinOp(b) => annotated(*b),
        _ => true,
    }
}

/// Every operation in the tree carries a type.
pub open spec fn annotated(b: BinModel) -> bool
    decreases b,
{
    match b {
        BinModel::Uno(e) => operand_annotated(e),
        BinModel::Bin(binary) => binary.expr_type is Some && operand_annotated(binary.left)
            && operand_annotated(binary.right),
    }
}

/// Type checking changes nothing in an operand but the types, and leaves no
/// operation without one.
pub proof fn lemma_typed_operand_mirrors(e: ExprModel, depth: nat)
    requires
        typed_expr(e, depth) is Ok,
    ensures
        bare_operand(typed_expr(e, depth)->Ok_0.0) == bare_operand(e),
        operand_annotated(typed_expr(e, depth)->Ok_0.0),
    decreases e,
{
    match e {
        ExprModel::BinOp(b) => {
            lemma_typed_tree_mirrors(*b, depth);
        },
        _ => {},
    }
}

/// Type checking changes nothing in a tree but the types, and leaves no
/// operation without one.
pub proof fn lemma_typed_tree_mirrors(b: BinModel, depth: nat)
    requires
        typed_bin(b, depth) is Ok,
    ensures
        bare(typed_bin(b, depth)->Ok_0.0) == bare(b),
        annotated(typed_bin(b, depth)->Ok_0.0),
    decreases b,
{
    let below = (depth - 1) as nat;
    match b {
        BinModel::Uno(e) => {
            lemma_typed_operand_mirrors(e, below);
        },
        BinModel::Bin(binary) => {
            lemma_typed_operand_mirrors(binary.left, below);
            lemma_typed_operand_mirrors(binary.right, below);
        },
    }
}

/// The typed tree mirrors the tree: the same operands under the same operators,
/// and in every operation the type of its result.
pub proof fn law_typing_mirrors_the_tree(tree: BinModel)
    requires
        typed(tree) is Ok,
    ensures
        bare(typed(tree)->Ok_0) == bare(tree),
        annotated(typed(tree)->Ok_0),
{
    lemma_typed_tree_mirrors(tree, MAX_DEPTH as nat);
}

/// The types play no part in the value of an operand.
pub proof fn lemma_operand_value_ignores_types(first: ExprModel, second: ExprModel, depth: nat)
    requires
        bare_operand(first) == bare_operand(second),
    ensures
        operand_value(first, depth) == operand_value(second, depth),
    decreases first,
{
    match (first, second) {
        (ExprModel::BinOp(a), ExprModel::BinOp(b)) => {
            lemma_value_ignores_types(*a, *b, depth);
        },
        _ => {},
    }
}

/// The types play no part in the value of a tree.
pub proof fn lemma_value_ignores_types(first: BinModel, second: BinModel, depth: nat)
    requires
        bare(first) == bare(second),
    ensures
        value_of(first, depth) == value_of(second, depth),
    decreases first,
{
    let below = (depth - 1) as nat;
    match (first, second) {
        (BinModel::Uno(a), BinModel::Uno(b)) => {
            lemma_operand_value_ignores_types(a, b, below);
        },
        (BinModel::Bin(a), BinModel::Bin(b)) => {
            lemma_operand_value_ignores_types(a.left, b.left, below);
            lemma_operand_value_ignores_types(a.right, b.right, below);
        },
        _ => {},
    }
}

/// Type checking decides whether a tree has a value, not which: the typed tree
/// has the value of the tree.
pub proof fn law_typing_keeps_the_value(tree: BinModel)
    requires
        typed(tree) is Ok,
    ensures
        value(typed(tree)->Ok_0) == value(tree),
{
    law_typing_mirrors_the_tree(tree);
    lemma_value_ignores_types(typed(tree)->Ok_0, tree, MAX_DEPTH as nat);
}

} // verus!
