//! The fold of operands and left-associative operators, said without stacks:
//! the tree splits at the last of the operators that bind loosest.

use crate::error::{ErrorModel, MAX_DEPTH};
use crate::laws::law_fold_keeps_trees_within_limit;
use crate::math::{
    binds_first, drained, folded, folded_from, joined, operand_tree, reduced, taken, unwound,
};
use crate::parser::{levels, Assoc, BinModel, OpTermModel, OperatorModel};
use vstd::prelude::*;

verus! {

/// The place, among the operators from `a` up to but not including `b`, of the
/// last of those that bind loosest; `a` where there is none.
pub open spec fn loosest(ops: Seq<OperatorModel>, a: int, b: int) -> int
    decreases b - a,
{
    if b - a <= 1 {
        a
    } else {
        let c = loosest(ops, a, b - 1);
        if ops[b - 1].precedence <= ops[c].precedence {
            b - 1
        } else {
            c
        }
    }
}

/// The last of the loosest operators is one of the operators.
pub proof fn lemma_loosest_in_range(ops: Seq<OperatorModel>, a: int, b: int)
    requires
        a < b,
    ensures
        a <= loosest(ops, a, b) < b,
    decreases b - a,
{
    if b - a > 1 {
        lemma_loosest_in_range(ops, a, b - 1);
    }
}

/// The tree of the operands from `a` up to and including `b`, with the operators
/// between them: one operand is its own tree; otherwise the last of the loosest
/// operators stands at the root, over the tree of what is on its left and the
/// tree of what is on its right.
pub open spec fn climbed(trees: Seq<BinModel>, ops: Seq<OperatorModel>, a: int, b: int) -> BinModel
    decreases b - a,
{
    if b <= a {
        trees[a]
    } else {
        let c = loosest(ops, a, b);
        if a <= c < b {
            joined(climbed(trees, ops, a, c), ops[c], climbed(trees, ops, c + 1, b))
        } else {
            trees[a]
        }
    }
}

/// Every operator from `a` up to but not including `b` binds at least as tight
/// as `p`.
pub open spec fn all_at_least(ops: Seq<OperatorModel>, a: int, b: int, p: int) -> bool {
    forall|q: int| a <= q < b ==> (#[trigger] ops[q]).precedence >= p
}

/// Every operator from `a` up to but not including `b` binds tighter than `p`.
pub open spec fn all_above(ops: Seq<OperatorModel>, a: int, b: int, p: int) -> bool {
    forall|q: int| a <= q < b ==> (#[trigger] ops[q]).precedence > p
}

/// The operator at `c` is the last of the loosest where none before it binds
/// looser and every one behind it binds tighter.
pub proof fn lemma_loosest_is(ops: Seq<OperatorModel>, a: int, b: int, c: int)
    requires
        a <= c < b,
        all_at_least(ops, a, c, ops[c].precedence as int),
        all_above(ops, c + 1, b, ops[c].precedence as int),
    ensures
        loosest(ops, a, b) == c,
    decreases b - a,
{
    if b - a > 1 {
        if c == b - 1 {
            lemma_loosest_in_range(ops, a, b - 1);
            let d = loosest(ops, a, b - 1);
            assert(ops[d].precedence >= ops[c].precedence);
        } else {
            lemma_loosest_is(ops, a, b - 1, c);
            assert(ops[b - 1].precedence > ops[c].precedence);
        }
    }
}

/// The tree splits at an operator that binds no tighter than any before it and
/// looser than every one behind it.
pub proof fn lemma_climbed_splits(
    trees: Seq<BinModel>,
    ops: Seq<OperatorModel>,
    a: int,
    b: int,
    c: int,
)
    requires
        a <= c < b,
        all_at_least(ops, a, c, ops[c].precedence as int),
        all_above(ops, c + 1, b, ops[c].precedence as int),
    ensures
        climbed(trees, ops, a, b) == joined(
            climbed(trees, ops, a, c),
            ops[c],
            climbed(trees, ops, c + 1, b),
        ),
{
    lemma_loosest_is(ops, a, b, c);
}

/// Where the part of the operand stack at place `t` begins: behind the operator
/// below it.
pub open spec fn low(marks: Seq<int>, t: int) -> int {
    if t == 0 {
        0
    } else {
        marks[t - 1] + 1
    }
}

/// Where the part of the operand stack at place `t` ends: at the operator above
/// it, or at the last operand read, `k`.
pub open spec fn high(marks: Seq<int>, t: int, k: int) -> int {
    if t < marks.len() {
        marks[t]
    } else {
        k
    }
}

/// What holds of place `t` of the stacks once the operands up to `k` are read:
/// the tree there is the tree of a stretch of the input; the operator above it
/// binds no tighter than the operators of the stretch, and the operator below
/// it looser than they and than the operator above.
pub open spec fn slot(
    trees: Seq<BinModel>,
    ops: Seq<OperatorModel>,
    k: int,
    op_stack: Seq<OperatorModel>,
    operands: Seq<BinModel>,
    marks: Seq<int>,
    t: int,
) -> bool {
    let a = low(marks, t);
    let b = high(marks, t, k);
    &&& 0 <= a <= b <= k
    &&& operands[t] == climbed(trees, ops, a, b)
    &&& t < marks.len() ==> b < k && op_stack[t] == ops[b] && all_at_least(
        ops,
        a,
        b,
        ops[b].precedence as int,
    )
    &&& t >= 1 ==> all_above(ops, a, b, ops[a - 1].precedence as int) && (t < marks.len()
        ==> ops[a - 1].precedence < ops[b].precedence)
}

/// What holds of the stacks once the operands up to `k` are read; `marks` are
/// the places in the input of the operators on the stack.
pub open spec fn climbing(
    trees: Seq<BinModel>,
    ops: Seq<OperatorModel>,
    k: int,
    op_stack: Seq<OperatorModel>,
    operands: Seq<BinModel>,
    marks: Seq<int>,
) -> bool {
    &&& trees.len() == ops.len() + 1
    &&& 0 <= k < trees.len()
    &&& marks.len() == op_stack.len()
    &&& operands.len() == marks.len() + 1
    &&& forall|t: int|
        0 <= t <= marks.len() ==> #[trigger] slot(trees, ops, k, op_stack, operands, marks, t)
}

/// The operator on top of the stack takes its operands: the stacks are one
/// shorter, and the stretch on top is the two that were there and the operator
/// between them.
pub proof fn lemma_pop(
    trees: Seq<BinModel>,
    ops: Seq<OperatorModel>,
    k: int,
    op_stack: Seq<OperatorModel>,
    operands: Seq<BinModel>,
    marks: Seq<int>,
    bound: int,
)
    requires
        climbing(trees, ops, k, op_stack, operands, marks),
        op_stack.len() > 0,
        all_at_least(ops, low(marks, marks.len() as int), k, bound),
        op_stack.last().precedence >= bound,
    ensures
        reduced(operands, op_stack.last()) is Some,
        climbing(
            trees,
            ops,
            k,
            op_stack.drop_last(),
            reduced(operands, op_stack.last())->Some_0,
            marks.drop_last(),
        ),
        all_at_least(ops, low(marks.drop_last(), marks.len() - 1), k, bound),
{
    let m = marks.len() as int;
    let next = reduced(operands, op_stack.last())->Some_0;
    let rest = op_stack.drop_last();
    let fewer = marks.drop_last();
    assert(slot(trees, ops, k, op_stack, operands, marks, m));
    assert(slot(trees, ops, k, op_stack, operands, marks, m - 1));
    let c = marks[m - 1];
    let a = low(marks, m - 1);
    lemma_climbed_splits(trees, ops, a, k, c);
    assert(low(fewer, m - 1) == a);
    assert forall|t: int| 0 <= t <= fewer.len() implies #[trigger] slot(
        trees,
        ops,
        k,
        rest,
        next,
        fewer,
        t,
    ) by {
        assert(slot(trees, ops, k, op_stack, operands, marks, t));
        if t < m - 1 {
            assert(low(fewer, t) == low(marks, t));
            assert(high(fewer, t, k) == high(marks, t, k));
        } else {
            assert(high(fewer, t, k) == k);
            if t >= 1 {
                assert(all_above(ops, a, k, ops[a - 1].precedence as int)) by {
                    assert forall|q: int| a <= q < k implies (#[trigger] ops[q]).precedence > ops[a
                        - 1].precedence by {
                        if q < c {
                        } else if q == c {
                        } else {
                            assert(ops[q].precedence > ops[c].precedence);
                        }
                    }
                }
            }
        }
    }
    assert forall|q: int| a <= q < k implies (#[trigger] ops[q]).precedence >= bound by {
        if q < c {
            assert(ops[q].precedence >= ops[c].precedence);
        }
    }
}

/// Unwinding for a left-associative operator keeps the stacks in order: it ends
/// with the stacks of a shorter sequence of marks, every operator of the
/// stretch on top binds at least as tight as the incoming one, and the
/// operator on top of the stack binds looser.
pub proof fn lemma_unwind(
    trees: Seq<BinModel>,
    ops: Seq<OperatorModel>,
    k: int,
    op_stack: Seq<OperatorModel>,
    operands: Seq<BinModel>,
    marks: Seq<int>,
    incoming: OperatorModel,
)
    requires
        climbing(trees, ops, k, op_stack, operands, marks),
        incoming.assoc == Assoc::Left,
        all_at_least(ops, low(marks, marks.len() as int), k, incoming.precedence as int),
    ensures
        match unwound(op_stack, operands, incoming) {
            Ok((rest, next)) => {
                let fewer = marks.take(rest.len() as int);
                &&& rest.len() <= op_stack.len()
                &&& climbing(trees, ops, k, rest, next, fewer)
                &&& all_at_least(ops, low(fewer, fewer.len() as int), k, incoming.precedence as int)
                &&& rest.len() > 0 ==> rest.last().precedence < incoming.precedence
            },
            Err(e) => e == ErrorModel::NestingTooDeep,
        },
    decreases op_stack.len(),
{
    if op_stack.len() > 0 && binds_first(op_stack.last(), incoming) {
        lemma_pop(trees, ops, k, op_stack, operands, marks, incoming.precedence as int);
        if taken(operands, op_stack.last()) is Ok {
            let next = taken(operands, op_stack.last())->Ok_0;
            lemma_unwind(trees, ops, k, op_stack.drop_last(), next, marks.drop_last(), incoming);
            if unwound(op_stack, operands, incoming) is Ok {
                let (rest, _) = unwound(op_stack, operands, incoming)->Ok_0;
                assert(marks.drop_last().take(rest.len() as int) =~= marks.take(rest.len() as int));
            }
        }
    } else {
        assert(marks.take(op_stack.len() as int) =~= marks);
    }
}

/// Draining leaves the tree of the whole input that was read.
pub proof fn lemma_drain(
    trees: Seq<BinModel>,
    ops: Seq<OperatorModel>,
    k: int,
    op_stack: Seq<OperatorModel>,
    operands: Seq<BinModel>,
    marks: Seq<int>,
)
    requires
        climbing(trees, ops, k, op_stack, operands, marks),
    ensures
        drained(op_stack, operands) == Ok::<Seq<BinModel>, ErrorModel>(
            seq![climbed(trees, ops, 0, k)],
        ) || drained(op_stack, operands) == Err::<Seq<BinModel>, ErrorModel>(
            ErrorModel::NestingTooDeep,
        ),
    decreases op_stack.len(),
{
    if op_stack.len() == 0 {
        assert(slot(trees, ops, k, op_stack, operands, marks, 0));
        assert(operands =~= seq![climbed(trees, ops, 0, k)]);
    } else {
        let m = marks.len() as int;
        assert(slot(trees, ops, k, op_stack, operands, marks, m));
        assert(slot(trees, ops, k, op_stack, operands, marks, m - 1));
        let bound = op_stack.last().precedence as int;
        assert(all_at_least(ops, low(marks, m), k, bound)) by {
            assert forall|q: int| low(marks, m) <= q < k implies (#[trigger] ops[q]).precedence
                >= bound by {
                assert(ops[q].precedence > ops[marks[m - 1]].precedence);
            }
        }
        lemma_pop(trees, ops, k, op_stack, operands, marks, bound);
        if taken(operands, op_stack.last()) is Ok {
            let next = taken(operands, op_stack.last())->Ok_0;
            lemma_drain(trees, ops, k, op_stack.drop_last(), next, marks.drop_last());
        }
    }
}

/// The tokens are the operands `trees` and the operators `ops` in turn, and
/// every operator groups to the left.
pub open spec fn in_turn(
    tokens: Seq<OpTermModel>,
    trees: Seq<BinModel>,
    ops: Seq<OperatorModel>,
    depth: nat,
) -> bool {
    &&& trees.len() == ops.len() + 1
    &&& tokens.len() == trees.len() + ops.len()
    &&& forall|j: int|
        0 <= j < trees.len() ==> (#[trigger] tokens[2 * j] matches OpTermModel::OpTerm(e)
            && operand_tree(e, depth) == Ok::<BinModel, ErrorModel>(trees[j]))
    &&& forall|j: int|
        0 <= j < ops.len() ==> #[trigger] tokens[2 * j + 1] == OpTermModel::Op(ops[j]) && ops[j].assoc
            == Assoc::Left
}

/// The fold from the token behind operand `k` on, with stacks in order, yields
/// the tree of the whole input, where it yields a tree.
pub proof fn lemma_fold_climbs(
    tokens: Seq<OpTermModel>,
    trees: Seq<BinModel>,
    ops: Seq<OperatorModel>,
    depth: nat,
    k: int,
    op_stack: Seq<OperatorModel>,
    operands: Seq<BinModel>,
    marks: Seq<int>,
)
    requires
        in_turn(tokens, trees, ops, depth),
        climbing(trees, ops, k, op_stack, operands, marks),
        low(marks, marks.len() as int) == k,
    ensures
        folded_from(tokens, 2 * k + 1, depth, op_stack, operands) == Ok::<BinModel, ErrorModel>(
            climbed(trees, ops, 0, ops.len() as int),
        ) || folded_from(tokens, 2 * k + 1, depth, op_stack, operands) == Err::<
            BinModel,
            ErrorModel,
        >(ErrorModel::NestingTooDeep),
    decreases ops.len() - k,
{
    reveal_with_fuel(folded_from, 3);
    if k == ops.len() {
        lemma_drain(trees, ops, k, op_stack, operands, marks);
    } else {
        let incoming = ops[k];
        assert(tokens[2 * k + 1] == OpTermModel::Op(incoming));
        lemma_unwind(trees, ops, k, op_stack, operands, marks, incoming);
        if unwound(op_stack, operands, incoming) is Err {
            return ;
        }
        let (rest, next) = unwound(op_stack, operands, incoming)->Ok_0;
        let fewer = marks.take(rest.len() as int);
        let m = fewer.len() as int;
        let tree = trees[k + 1];
        assert(tokens[2 * (k + 1)] matches OpTermModel::OpTerm(e) && operand_tree(e, depth) == Ok::<
            BinModel,
            ErrorModel,
        >(tree));
        let new_ops = rest.push(incoming);
        let new_operands = next.push(tree);
        let new_marks = fewer.push(k);
        assert(folded_from(tokens, 2 * k + 1, depth, op_stack, operands) == folded_from(
            tokens,
            2 * (k + 1) + 1,
            depth,
            new_ops,
            new_operands,
        ));
        assert forall|t: int| 0 <= t <= new_marks.len() implies #[trigger] slot(
            trees,
            ops,
            k + 1,
            new_ops,
            new_operands,
            new_marks,
            t,
        ) by {
            if t < m {
                assert(slot(trees, ops, k, rest, next, fewer, t));
                assert(low(new_marks, t) == low(fewer, t));
                assert(high(new_marks, t, k + 1) == high(fewer, t, k));
            } else if t == m {
                assert(slot(trees, ops, k, rest, next, fewer, t));
                assert(low(new_marks, t) == low(fewer, t));
                assert(high(new_marks, t, k + 1) == k);
                assert(high(fewer, t, k) == k);
                if t >= 1 {
                    assert(slot(trees, ops, k, rest, next, fewer, t - 1));
                    assert(rest.last() == ops[fewer[t - 1]]);
                }
            } else {
                assert(low(new_marks, t) == k + 1);
                assert(high(new_marks, t, k + 1) == k + 1);
                assert(new_operands[t] == tree);
            }
        }
        lemma_fold_climbs(tokens, trees, ops, depth, k + 1, new_ops, new_operands, new_marks);
    }
}

/// The fold is precedence climbing. Of operands and left-associative operators
/// in turn it makes the tree that splits at the last of the loosest operators,
/// and on either side of it in the same way; it fails only where a tree would
/// have more levels than the limit allows.
pub proof fn law_fold_is_precedence_climbing(
    tokens: Seq<OpTermModel>,
    trees: Seq<BinModel>,
    ops: Seq<OperatorModel>,
)
    requires
        in_turn(tokens, trees, ops, MAX_DEPTH as nat),
    ensures
        folded(tokens) == Ok::<BinModel, ErrorModel>(climbed(trees, ops, 0, ops.len() as int))
            || folded(tokens) == Err::<BinModel, ErrorModel>(ErrorModel::NestingTooDeep),
        folded(tokens) is Ok ==> levels(climbed(trees, ops, 0, ops.len() as int)) <= MAX_DEPTH,
{
    reveal_with_fuel(folded_from, 2);
    let depth = MAX_DEPTH as nat;
    let none = Seq::<OperatorModel>::empty();
    let first = seq![trees[0]];
    assert(tokens[2 * 0int] matches OpTermModel::OpTerm(e) && operand_tree(e, depth) == Ok::<
        BinModel,
        ErrorModel,
    >(trees[0]));
    assert(Seq::<BinModel>::empty().push(trees[0]) =~= first);
    assert(folded(tokens) == folded_from(tokens, 1, depth, none, first));
    assert(slot(trees, ops, 0, none, first, Seq::<int>::empty(), 0));
    lemma_fold_climbs(tokens, trees, ops, depth, 0, none, first, Seq::<int>::empty());
    if folded(tokens) is Ok {
        law_fold_keeps_trees_within_limit(tokens);
    }
}

} // verus!
