//! The evaluator: a tree is folded, from the leaves up, into one number.

use crate::error::{yields, Error, ErrorModel, Failure, ParserError, MAX_DEPTH};
use crate::parser::{
    arith, ast_of, build_ast, Bin, BinModel, Binary, Expr, ExprModel, Literal, LiteralModel,
    Number, NumberModel, Operator, OperatorModel,
};
use crate::text::join3;
use crate::typechecking::{arith_of, operation_of, typed};
use vstd::prelude::*;
use vstd::string::*;

verus! {

/// The diagnostic for a variable among the operands of a tree.
pub open spec fn variable_in_tree() -> Seq<char> {
    "Internal inconsistency: evaluation failed because a variable was inside the tree"@
}

/// The diagnostic for a group of tokens among the operands of a tree.
pub open spec fn group_in_tree() -> Seq<char> {
    "Internal inconsistency: evaluation failed because a group of tokens was inside the tree"@
}

/// The diagnostic for a lexeme that stands for no operation.
pub open spec fn cannot_apply(lexeme: Seq<char>) -> Seq<char> {
    "Internal inconsistency: evaluation failed because of the unknown operator `"@ + lexeme + "`"@
}

/// The diagnostic for text behind the expression.
pub open spec fn trailing_input() -> Seq<char> {
    "Expected the end of the expression"@
}

/// The value of `left op right`: the operation that the lexeme stands for,
/// applied to the two numbers.
pub open spec fn applied(left: LiteralModel, op: OperatorModel, right: LiteralModel) -> Result<
    LiteralModel,
    ErrorModel,
> {
    match arith_of(op.lexeme) {
        Some(operation) => match arith(operation, left->Num_0, right->Num_0) {
            Ok(n) => Ok(LiteralModel::Num(n)),
            Err(e) => Err(e),
        },
        None => Err(ErrorModel::Internal(cannot_apply(op.lexeme))),
    }
}

/// The value of an operand, with `depth` levels of nodes left to go down.
pub open spec fn operand_value(e: ExprModel, depth: nat) -> Result<LiteralModel, ErrorModel>
    decreases e,
{
    match e {
        ExprModel::Lit(l) => Ok(l),
        ExprModel::Var(_) => Err(ErrorModel::Internal(variable_in_tree())),
        ExprModel::Operation(_) => Err(ErrorModel::Internal(group_in_tree())),
        ExprModel::BinOp(b) => value_of(*b, depth),
    }
}

/// The value of a tree, with `depth` levels of nodes left to go down: a leaf
/// has the value of its operand, an operation the operation on the values of
/// its operands. The types that the tree carries play no part. The first
/// failure, left operand before right operand before the operation itself, is
/// the failure of the whole.
pub open spec fn value_of(b: BinModel, depth: nat) -> Result<LiteralModel, ErrorModel>
    decreases b,
{
    if depth == 0 {
        Err(ErrorModel::NestingTooDeep)
    } else {
        match b {
            BinModel::Uno(e) => operand_value(e, (depth - 1) as nat),
            BinModel::Bin(binary) => match operand_value(binary.left, (depth - 1) as nat) {
                Ok(left) => match operand_value(binary.right, (depth - 1) as nat) {
                    Ok(right) => applied(left, binary.op, right),
                    Err(e) => Err(e),
                },
                Err(e) => Err(e),
            },
        }
    }
}

/// The value of a tree nested at most `MAX_DEPTH` deep.
pub open spec fn value(b: BinModel) -> Result<LiteralModel, ErrorModel> {
    value_of(b, MAX_DEPTH as nat)
}

/// What the text evaluates to: the text is parsed as one expression, with
/// nothing behind it, the tree is type checked, and the typed tree is
/// evaluated.
pub open spec fn evaluated(text: Seq<char>) -> Result<NumberModel, ErrorModel> {
    match ast_of(text) {
        Ok((rest, tree)) => if rest.len() > 0 {
            Err(ErrorModel::Parse(Failure { rest, reason: Some(trailing_input()) }))
        } else {
            match typed(tree) {
                Ok(tree) => match value(tree) {
                    Ok(LiteralModel::Num(n)) => Ok(n),
                    Err(e) => Err(e),
                },
                Err(e) => Err(e),
            }
        },
        Err(e) => Err(e),
    }
}

/// `left op right`.
pub fn eval_bin<'a>(left: Literal, op: Operator, right: Literal) -> (r: Result<Literal, Error<'a>>)
    ensures
        yields(r, applied(left.deep_view(), op.deep_view(), right.deep_view())),
{
    match left {
        Literal::Num(lnum) => match right {
            Literal::Num(rnum) => {
                let result = match operation_of(op.lexeme.as_str()) {
                    Some(crate::parser::ArithOp::Add) => lnum.add(rnum),
                    Some(crate::parser::ArithOp::Sub) => lnum.sub(rnum),
                    Some(crate::parser::ArithOp::Mul) => lnum.mul(rnum),
                    Some(crate::parser::ArithOp::Div) => lnum.div(rnum),
                    None => {
                        return Err(
                            Error::Internal(
                                join3(
                                    "Internal inconsistency: evaluation failed because of the unknown operator `",
                                    op.lexeme.as_str(),
                                    "`",
                                ),
                            ),
                        );
                    },
                };
                match result {
                    Ok(n) => Ok(Literal::Num(n)),
                    Err(e) => Err(e),
                }
            },
        },
    }
}

/// The value of an operand, with `depth` levels of nodes left to go down.
fn eval_operand<'a>(e: Expr, depth: usize) -> (r: Result<Literal, Error<'a>>)
    ensures
        yields(r, operand_value(e.deep_view(), depth as nat)),
    decreases e,
{
    match e {
        Expr::Lit(lit) => Ok(lit),
        Expr::BinOp(bin) => eval_tree(*bin, depth),
        Expr::Var(_) => Err(
            Error::Internal(
                "Internal inconsistency: evaluation failed because a variable was inside the tree".to_owned(),
            ),
        ),
        Expr::Operation(_) => Err(
            Error::Internal(
                "Internal inconsistency: evaluation failed because a group of tokens was inside the tree".to_owned(),
            ),
        ),
    }
}

/// The value of a tree, with `depth` levels of nodes left to go down.
fn eval_tree<'a>(bin: Bin, depth: usize) -> (r: Result<Literal, Error<'a>>)
    ensures
        yields(r, value_of(bin.deep_view(), depth as nat)),
    decreases bin,
{
    if depth == 0 {
        return Err(Error::NestingTooDeep);
    }
    match bin {
        Bin::Bin(Binary { left, right, op, .. }) => {
            let left = match eval_operand(left, depth - 1) {
                Ok(lit) => lit,
                Err(e) => {
                    return Err(e);
                },
            };
            let right = match eval_operand(right, depth - 1) {
                Ok(lit) => lit,
                Err(e) => {
                    return Err(e);
                },
            };
            eval_bin(left, op, right)
        },
        Bin::Uno(expr) => eval_operand(expr, depth - 1),
    }
}

/// The value of a tree, or the first failure on the way to it. A tree nested
/// deeper than `MAX_DEPTH` is not gone through.
pub fn eval_ast<'a>(bin: Bin) -> (r: Result<Literal, Error<'a>>)
    ensures
        yields(r, value(bin.deep_view())),
{
    eval_tree(bin, MAX_DEPTH)
}

/// The number that `text` stands for, or why it stands for none. The result
/// depends on the characters of `text` alone.
pub fn evaluate<'a>(text: &'a [char]) -> (r: Result<Number, Error<'a>>)
    ensures
        yields(r, evaluated(text@)),
{
    let parse = build_ast();
    let (rest, tree) = match parse(text) {
        Ok(found) => found,
        Err(e) => {
            return Err(e);
        },
    };
    if rest.len() > 0 {
        return Err(
            Error::Parse(ParserError::new(rest, "Expected the end of the expression".to_owned())),
        );
    }
    let tree = match tree.into_typed() {
        Ok(tree) => tree,
        Err(e) => {
            return Err(e);
        },
    };
    match eval_ast(tree) {
        Ok(Literal::Num(n)) => Ok(n),
        Err(e) => Err(e),
    }
}

} // verus!
