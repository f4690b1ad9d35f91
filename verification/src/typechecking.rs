//! The type checker: every operation of a tree is given the type of its result,
//! from the leaves up.

use crate::error::{yields, Error, ErrorModel, MAX_DEPTH};
use crate::parser::{
    literal_type, unfolded_group, untyped_variable, ArithOp, Bin, BinModel, Binary, BinaryModel,
    Expr, ExprModel, Operator, OperatorModel, Type,
};
use crate::text::{is_char, join3};
use vstd::prelude::*;
use vstd::string::*;

verus! {

/// The operation that a lexeme stands for: `+`, `-`, `*` and `/` stand for one,
/// every other text for none.
pub open spec fn arith_of(lexeme: Seq<char>) -> Option<ArithOp> {
    if lexeme == seq!['+'] {
        Some(ArithOp::Add)
    } else if lexeme == seq!['-'] {
        Some(ArithOp::Sub)
    } else if lexeme == seq!['*'] {
        Some(ArithOp::Mul)
    } else if lexeme == seq!['/'] {
        Some(ArithOp::Div)
    } else {
        None
    }
}

/// The operation that `lexeme` stands for.
pub fn operation_of(lexeme: &str) -> (op: Option<ArithOp>)
    ensures
        op == arith_of(lexeme@),
{
    if is_char(lexeme, '+') {
        Some(ArithOp::Add)
    } else if is_char(lexeme, '-') {
        Some(ArithOp::Sub)
    } else if is_char(lexeme, '*') {
        Some(ArithOp::Mul)
    } else if is_char(lexeme, '/') {
        Some(ArithOp::Div)
    } else {
        None
    }
}

/// The name of a type in diagnostics.
pub open spec fn type_word(t: Type) -> Seq<char> {
    match t {
        Type::U32 => "u32"@,
        Type::I32 => "i32"@,
        Type::F32 => "f32"@,
    }
}

/// The diagnostic for operands of different types.
pub open spec fn type_mismatch(left: Type, right: Type) -> Seq<char> {
    "Cannot add an "@ + type_word(left) + " and an "@ + type_word(right) + " between them"@
}

/// The diagnostic for a lexeme that stands for no operation.
pub open spec fn unknown_operator(lexeme: Seq<char>) -> Seq<char> {
    "Unknown operator `"@ + lexeme + "`"@
}

/// The type of `left op right`. The operands must have one type; nothing is
/// converted. `+`, `-` and `*` keep that type, `/` yields `F32` whatever it is.
pub open spec fn binary_type_of(left: Type, op: OperatorModel, right: Type) -> Result<
    Type,
    ErrorModel,
> {
    if left != right {
        Err(ErrorModel::Type(type_mismatch(left, right)))
    } else {
        match arith_of(op.lexeme) {
            Some(ArithOp::Div) => Ok(Type::F32),
            Some(_) => Ok(left),
            None => Err(ErrorModel::Type(unknown_operator(op.lexeme))),
        }
    }
}

/// The name of a type in diagnostics.
fn name_of(t: Type) -> (name: &'static str)
    ensures
        name@ == type_word(t),
{
    match t {
        Type::U32 => "u32",
        Type::I32 => "i32",
        Type::F32 => "f32",
    }
}

/// The type error of operands of the types `left` and `right`.
fn mismatch<'a>(left: Type, right: Type) -> (e: Error<'a>)
    ensures
        e.deep_view() == ErrorModel::Type(type_mismatch(left, right)),
{
    let mut text = join3("Cannot add an ", name_of(left), " and an ");
    text.append(name_of(right));
    text.append(" between them");
    Error::Type(text)
}

/// The type of `left op right`, or the type error that the operation is.
pub fn binary_type<'a>(left: Type, op: &Operator, right: Type) -> (r: Result<Type, Error<'a>>)
    ensures
        yields(r, binary_type_of(left, op.deep_view(), right)),
{
    match left {
        Type::U32 => match right {
            Type::U32 => {},
            _ => {
                return Err(mismatch(left, right));
            },
        },
        Type::I32 => match right {
            Type::I32 => {},
            _ => {
                return Err(mismatch(left, right));
            },
        },
        Type::F32 => match right {
            Type::F32 => {},
            _ => {
                return Err(mismatch(left, right));
            },
        },
    }
    match operation_of(op.lexeme.as_str()) {
        Some(ArithOp::Div) => Ok(Type::F32),
        Some(_) => Ok(left),
        None => Err(Error::Type(join3("Unknown operator `", op.lexeme.as_str(), "`"))),
    }
}

/// The typed form of an operand and its type, with `depth` levels of nodes left
/// to go down.
pub open spec fn typed_expr(e: ExprModel, depth: nat) -> Result<(ExprModel, Type), ErrorModel>
    decreases e,
{
    match e {
        ExprModel::Lit(l) => Ok((e, literal_type(l))),
        ExprModel::Var(_) => Err(ErrorModel::Type(untyped_variable())),
        ExprModel::Operation(_) => Err(ErrorModel::Type(unfolded_group())),
        ExprModel::BinOp(b) => match typed_bin(*b, depth) {
            Ok((tree, t)) => Ok((ExprModel::BinOp(Box::new(tree)), t)),
            Err(e) => Err(e),
        },
    }
}

/// The typed form of a tree and its type, with `depth` levels of nodes left to
/// go down. The result has the shape of `b`; each operation in it carries the
/// type of its result. The first failure, left operand before right operand
/// before the operation itself, is the failure of the whole.
pub open spec fn typed_bin(b: BinModel, depth: nat) -> Result<(BinModel, Type), ErrorModel>
    decreases b,
{
    if depth == 0 {
        Err(ErrorModel::NestingTooDeep)
    } else {
        match b {
            BinModel::Uno(e) => match typed_expr(e, (depth - 1) as nat) {
                Ok((operand, t)) => Ok((BinModel::Uno(operand), t)),
                Err(e) => Err(e),
            },
            BinModel::Bin(binary) => match typed_expr(binary.left, (depth - 1) as nat) {
                Ok((left, left_type)) => match typed_expr(binary.right, (depth - 1) as nat) {
                    Ok((right, right_type)) => match binary_type_of(
                        left_type,
                        binary.op,
                        right_type,
                    ) {
                        Ok(t) => Ok(
                            (
                                BinModel::Bin(
                                    BinaryModel { left, op: binary.op, right, expr_type: Some(t) },
                                ),
                                t,
                            ),
                        ),
                        Err(e) => Err(e),
                    },
                    Err(e) => Err(e),
                },
                Err(e) => Err(e),
            },
        }
    }
}

/// What type checking makes of a tree.
pub open spec fn typed(b: BinModel) -> Result<BinModel, ErrorModel> {
    match typed_bin(b, MAX_DEPTH as nat) {
        Ok((tree, _)) => Ok(tree),
        Err(e) => Err(e),
    }
}

/// The typed form of an operand and its type, with `depth` levels of nodes left
/// to go down.
fn typed_operand<'a>(e: Expr, depth: usize) -> (r: Result<(Expr, Type), Error<'a>>)
    ensures
        yields(r, typed_expr(e.deep_view(), depth as nat)),
    decreases e,
{
    match e {
        Expr::Lit(l) => {
            let t = l.get_type();
            Ok((Expr::Lit(l), t))
        },
        Expr::Var(_) => Err(Error::Type("Cannot know the type of a variable yet".to_owned())),
        Expr::Operation(_) => Err(
            Error::Type("Cannot know the type of a group that is not folded into a tree".to_owned()),
        ),
        Expr::BinOp(b) => match typed_tree(*b, depth) {
            Ok((tree, t)) => Ok((Expr::BinOp(Box::new(tree)), t)),
            Err(e) => Err(e),
        },
    }
}

/// The typed form of a tree and its type, with `depth` levels of nodes left to go
/// down.
fn typed_tree<'a>(b: Bin, depth: usize) -> (r: Result<(Bin, Type), Error<'a>>)
    ensures
        yields(r, typed_bin(b.deep_view(), depth as nat)),
    decreases b,
{
    if depth == 0 {
        return Err(Error::NestingTooDeep);
    }
    match b {
        Bin::Uno(e) => match typed_operand(e, depth - 1) {
            Ok((operand, t)) => Ok((Bin::Uno(operand), t)),
            Err(e) => Err(e),
        },
        Bin::Bin(Binary { left, op, right, .. }) => {
            let (left, left_type) = match typed_operand(left, depth - 1) {
                Ok(typed) => typed,
                Err(e) => {
                    return Err(e);
                },
            };
            let (right, right_type) = match typed_operand(right, depth - 1) {
                Ok(typed) => typed,
                Err(e) => {
                    return Err(e);
                },
            };
            match binary_type(left_type, &op, right_type) {
                Ok(t) => Ok((Bin::new_bin_typed(left, op, right, t), t)),
                Err(e) => Err(e),
            }
        },
    }
}

impl Bin {
    /// Type checks the tree: the same tree, with the type of its result written
    /// into every operation, or the first failure. A tree nested deeper than
    /// `MAX_DEPTH` is not gone through.
    pub fn into_typed<'a>(self) -> (r: Result<Bin, Error<'a>>)
        ensures
            yields(r, typed(self.deep_view())),
    {
        match typed_tree(self, MAX_DEPTH) {
            Ok((tree, _)) => Ok(tree),
            Err(e) => Err(e),
        }
    }
}

/// The type checker as a step that takes a tree and leaves no input.
pub fn type_ast<'a>() -> (p: impl Fn(Bin) -> Result<(&'a [char], Bin), Error<'a>>)
    ensures
        forall|bin: Bin| call_requires(p, (bin,)),
        forall|bin: Bin, r: Result<(&'a [char], Bin), Error<'a>>| #[trigger]
            call_ensures(p, (bin,), r) ==> match r {
                Ok((rest, tree)) => rest@.len() == 0 && typed(bin.deep_view()) == Ok::<
                    BinModel,
                    ErrorModel,
                >(tree.deep_view()),
                Err(e) => typed(bin.deep_view()) == Err::<BinModel, ErrorModel>(e.deep_view()),
            },
{
    |bin: Bin| -> (r: Result<(&'a [char], Bin), Error<'a>>)
        ensures
            match r {
                Ok((rest, tree)) => rest@.len() == 0 && typed(bin.deep_view()) == Ok::<
                    BinModel,
                    ErrorModel,
                >(tree.deep_view()),
                Err(e) => typed(bin.deep_view()) == Err::<BinModel, ErrorModel>(e.deep_view()),
            },
        {
            let empty: &'a [char] = &[];
            match bin.into_typed() {
                Ok(typed_bin) => Ok((empty, typed_bin)),
                Err(e) => Err(e),
            }
        }
}

} // verus!
