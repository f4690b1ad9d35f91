//! The data of the front end: numbers, operators, tokens and trees, each with
//! its mathematical model; and the grammar, which turns text into tokens and
//! tokens into a tree.

use crate::combinators::{implements, Outcome};
use crate::common::{
    char_fn, char_of, leading, lemma_leading_bound, take_char, take_whitespaces, whitespace_fn,
    whitespaces_fn,
};
use crate::error::{yields, Error, ErrorModel, Failure, ParserError, MAX_DEPTH};
use crate::math::{
    folded, into_ast, number_fn, number_of, operator_fn, operator_of, take_number,
    take_operator,
};
use vstd::prelude::*;

verus! {

/// The numeric types.
#[derive(Debug, Clone, Copy, PartialEq, Eq, Structural)]
pub enum Type {
    U32,
    I32,
    F32,
}

impl DeepView for Type {
    type V = Type;

    open spec fn deep_view(&self) -> Type {
        *self
    }
}

/// How operators of equal precedence group.
#[derive(Debug, Clone, Copy, PartialEq, Eq, Structural)]
pub enum Assoc {
    Left,
    Right,
    Both,
}

/// The four arithmetic operations.
#[derive(Debug, Clone, Copy, PartialEq, Eq, Structural)]
pub enum ArithOp {
    Add,
    Sub,
    Mul,
    Div,
}

/// A single-precision quantity in exact form: the literal, the integer or the
/// operation that defines it. No rounding takes place in this crate; whoever
/// needs the rounded value converts the literals and integers and carries out
/// the operations, each on the rounded values of its operands.
#[derive(Debug, PartialEq)]
pub enum Float {
    /// A literal, by its characters: decimal digits, optionally followed by a
    /// point and further digits.
    Decimal(Vec<char>),
    /// The single-precision value nearest to a signed integer.
    Signed(i32),
    /// The single-precision value nearest to an unsigned integer.
    Unsigned(u32),
    /// An operation on two quantities.
    Binary { op: ArithOp, left: Box<Float>, right: Box<Float> },
}

/// The mathematical content of a `Float`.
pub enum FloatModel {
    Decimal(Seq<char>),
    Signed(i32),
    Unsigned(u32),
    Binary { op: ArithOp, left: Box<FloatModel>, right: Box<FloatModel> },
}

/// The mathematical content of `x`.
pub open spec fn float_model(x: Float) -> FloatModel
    decreases x,
{
    match x {
        Float::Decimal(text) => FloatModel::Decimal(text@),
        Float::Signed(v) => FloatModel::Signed(v),
        Float::Unsigned(v) => FloatModel::Unsigned(v),
        Float::Binary { op, left, right } => FloatModel::Binary {
            op,
            left: Box::new(float_model(*left)),
            right: Box::new(float_model(*right)),
        },
    }
}

impl DeepView for Float {
    type V = FloatModel;

    open spec fn deep_view(&self) -> FloatModel {
        float_model(*self)
    }
}

impl Clone for Float {
    /// A copy with the same content.
    fn clone(&self) -> (copy: Self)
        ensures
            copy.deep_view() == self.deep_view(),
        decreases self,
    {
        match self {
            Float::Decimal(text) => {
                let digits = text.clone();
                assert(digits@ =~= text@);
                Float::Decimal(digits)
            },
            Float::Signed(v) => Float::Signed(*v),
            Float::Unsigned(v) => Float::Unsigned(*v),
            Float::Binary { op, left, right } => Float::Binary {
                op: *op,
                left: Box::new((&**left).clone()),
                right: Box::new((&**right).clone()),
            },
        }
    }
}

/// A number of one of the three types.
#[derive(Debug, PartialEq)]
pub enum Number {
    I32(i32),
    F32(Float),
    U32(u32),
}

/// The mathematical content of a `Number`.
pub enum NumberModel {
    I32(i32),
    F32(FloatModel),
    U32(u32),
}

impl DeepView for Number {
    type V = NumberModel;

    open spec fn deep_view(&self) -> NumberModel {
        match *self {
            Number::I32(v) => NumberModel::I32(v),
            Number::F32(x) => NumberModel::F32(x.deep_view()),
            Number::U32(v) => NumberModel::U32(v),
        }
    }
}

impl Clone for Number {
    /// A copy with the same content.
    fn clone(&self) -> (copy: Self)
        ensures
            copy.deep_view() == self.deep_view(),
    {
        match self {
            Number::I32(v) => Number::I32(*v),
            Number::F32(x) => Number::F32(x.clone()),
            Number::U32(v) => Number::U32(*v),
        }
    }
}

/// The type of a number.
pub open spec fn number_type(n: NumberModel) -> Type {
    match n {
        NumberModel::I32(_) => Type::I32,
        NumberModel::U32(_) => Type::U32,
        NumberModel::F32(_) => Type::F32,
    }
}

/// What a number is as a single-precision quantity: itself, or the conversion of
/// the integer.
pub open spec fn promoted(n: NumberModel) -> FloatModel {
    match n {
        NumberModel::I32(v) => FloatModel::Signed(v),
        NumberModel::U32(v) => FloatModel::Unsigned(v),
        NumberModel::F32(x) => x,
    }
}

/// The diagnostic for operands of different types that reach the evaluator.
pub open spec fn operand_mismatch() -> Seq<char> {
    "Internal inconsistency: the operands are numbers of different types"@
}

/// The result of an operation on two numbers. Operands of one type are required.
/// Integer `+ - *` wrap around in the width of the type; `/` converts both
/// operands to single precision first, whatever their type, and so always
/// yields an `F32`; on `F32` operands every operation yields the `F32` that is
/// made of them.
pub open spec fn arith(op: ArithOp, left: NumberModel, right: NumberModel) -> Result<
    NumberModel,
    ErrorModel,
> {
    if number_type(left) != number_type(right) {
        Err(ErrorModel::Internal(operand_mismatch()))
    } else if op == ArithOp::Div || left is F32 {
        Ok(
            NumberModel::F32(
                FloatModel::Binary {
                    op,
                    left: Box::new(promoted(left)),
                    right: Box::new(promoted(right)),
                },
            ),
        )
    } else {
        match (left, right) {
            (NumberModel::I32(a), NumberModel::I32(b)) => Ok(
                NumberModel::I32(
                    match op {
                        ArithOp::Add => a.wrapping_add(b),
                        ArithOp::Sub => a.wrapping_sub(b),
                        _ => a.wrapping_mul(b),
                    },
                ),
            ),
            (NumberModel::U32(a), NumberModel::U32(b)) => Ok(
                NumberModel::U32(
                    match op {
                        ArithOp::Add => a.wrapping_add(b),
                        ArithOp::Sub => a.wrapping_sub(b),
                        _ => a.wrapping_mul(b),
                    },
                ),
            ),
            _ => Err(ErrorModel::Internal(operand_mismatch())),
        }
    }
}

impl Number {
    /// The type of this number.
    pub fn get_type(&self) -> (t: Type)
        ensures
            t == number_type(self.deep_view()),
    {
        match self {
            Self::I32(_) => Type::I32,
            Self::U32(_) => Type::U32,
            Self::F32(_) => Type::F32,
        }
    }

    /// This number as a single-precision quantity.
    fn promote(self) -> (x: Float)
        ensures
            x.deep_view() == promoted(self.deep_view()),
    {
        match self {
            Self::I32(v) => Float::Signed(v),
            Self::U32(v) => Float::Unsigned(v),
            Self::F32(x) => x,
        }
    }

    /// `self op other`.
    pub fn combine<'a>(self, op: ArithOp, other: Self) -> (r: Result<Self, Error<'a>>)
        ensures
            yields(r, arith(op, self.deep_view(), other.deep_view())),
    {
        let same = match (&self, &other) {
            (Self::I32(_), Self::I32(_)) => true,
            (Self::U32(_), Self::U32(_)) => true,
            (Self::F32(_), Self::F32(_)) => true,
            _ => false,
        };
        if !same {
            return Err(
                Error::Internal(
                    "Internal inconsistency: the operands are numbers of different types".to_owned(),
                ),
            );
        }
        let float_result = match (&self, op) {
            (Self::F32(_), _) => true,
            (_, ArithOp::Div) => true,
            _ => false,
        };
        if float_result {
            let left = self.promote();
            let right = other.promote();
            return Ok(Self::F32(Float::Binary { op, left: Box::new(left), right: Box::new(right) }));
        }
        match (self, other) {
            (Self::I32(a), Self::I32(b)) => match op {
                ArithOp::Add => Ok(Self::I32(a.wrapping_add(b))),
                ArithOp::Sub => Ok(Self::I32(a.wrapping_sub(b))),
                _ => Ok(Self::I32(a.wrapping_mul(b))),
            },
            (Self::U32(a), Self::U32(b)) => match op {
                ArithOp::Add => Ok(Self::U32(a.wrapping_add(b))),
                ArithOp::Sub => Ok(Self::U32(a.wrapping_sub(b))),
                _ => Ok(Self::U32(a.wrapping_mul(b))),
            },
            _ => Err(
                Error::Internal(
                    "Internal inconsistency: the operands are numbers of different types".to_owned(),
                ),
            ),
        }
    }

    /// The sum; integers wrap around.
    pub fn add<'a>(self, other: Self) -> (r: Result<Self, Error<'a>>)
        ensures
            yields(r, arith(ArithOp::Add, self.deep_view(), other.deep_view())),
    {
        self.combine(ArithOp::Add, other)
    }

    /// The difference; integers wrap around.
    pub fn sub<'a>(self, other: Self) -> (r: Result<Self, Error<'a>>)
        ensures
            yields(r, arith(ArithOp::Sub, self.deep_view(), other.deep_view())),
    {
        self.combine(ArithOp::Sub, other)
    }

    /// The product; integers wrap around.
    pub fn mul<'a>(self, other: Self) -> (r: Result<Self, Error<'a>>)
        ensures
            yields(r, arith(ArithOp::Mul, self.deep_view(), other.deep_view())),
    {
        self.combine(ArithOp::Mul, other)
    }

    /// The quotient, always in single precision: integers are converted first.
    pub fn div<'a>(self, other: Self) -> (r: Result<Self, Error<'a>>)
        ensures
            yields(r, arith(ArithOp::Div, self.deep_view(), other.deep_view())),
    {
        self.combine(ArithOp::Div, other)
    }
}

/// A literal of the input.
#[derive(Debug, PartialEq)]
pub enum Literal {
    Num(Number),
}

/// The mathematical content of a `Literal`.
pub enum LiteralModel {
    Num(NumberModel),
}

impl DeepView for Literal {
    type V = LiteralModel;

    open spec fn deep_view(&self) -> LiteralModel {
        match *self {
            Literal::Num(n) => LiteralModel::Num(n.deep_view()),
        }
    }
}

impl Clone for Literal {
    /// A copy with the same content.
    fn clone(&self) -> (copy: Self)
        ensures
            copy.deep_view() == self.deep_view(),
    {
        match self {
            Literal::Num(n) => Literal::Num(n.clone()),
        }
    }
}

/// The type of a literal.
pub open spec fn literal_type(l: LiteralModel) -> Type {
    match l {
        LiteralModel::Num(n) => number_type(n),
    }
}

impl Literal {
    /// The type of this literal.
    pub fn get_type(&self) -> (t: Type)
        ensures
            t == literal_type(self.deep_view()),
    {
        match self {
            Self::Num(num) => num.get_type(),
        }
    }
}

/// An infix operator: its text, how tightly it binds, and how it groups.
#[derive(Debug, PartialEq)]
pub struct Operator {
    pub lexeme: String,
    pub precedence: i32,
    pub assoc: Assoc,
}

/// The mathematical content of an `Operator`.
pub struct OperatorModel {
    pub lexeme: Seq<char>,
    pub precedence: i32,
    pub assoc: Assoc,
}

impl DeepView for Operator {
    type V = OperatorModel;

    open spec fn deep_view(&self) -> OperatorModel {
        OperatorModel { lexeme: self.lexeme@, precedence: self.precedence, assoc: self.assoc }
    }
}

impl Clone for Operator {
    /// A copy with the same content.
    fn clone(&self) -> (copy: Self)
        ensures
            copy.deep_view() == self.deep_view(),
    {
        Operator { lexeme: self.lexeme.clone(), precedence: self.precedence, assoc: self.assoc }
    }
}

impl Operator {
    /// Whether the operator groups to the left.
    pub fn is_left_assoc(&self) -> (left: bool)
        ensures
            left == (self.assoc == Assoc::Left),
    {
        if let Assoc::Left = self.assoc {
            true
        } else {
            false
        }
    }
}

/// One unit of the flat form of an expression: an operator or an operand.
#[derive(Debug, PartialEq)]
pub enum OpTerm {
    Op(Operator),
    OpTerm(Expr),
}

/// An operand.
#[derive(Debug, PartialEq)]
pub enum Expr {
    Lit(Literal),
    Var(String),
    /// A parenthesized group that is not folded into a tree yet.
    Operation(Vec<OpTerm>),
    BinOp(Box<Bin>),
}

/// A node of the tree: an operation on two operands, or a leaf.
#[derive(Debug, PartialEq)]
pub enum Bin {
    Bin(Binary),
    Uno(Expr),
}

/// An operation on two operands. `expr_type` is unset until type checking.
#[derive(Debug, PartialEq)]
pub struct Binary {
    pub left: Expr,
    pub op: Operator,
    pub right: Expr,
    pub expr_type: Option<Type>,
}

/// The mathematical content of an `OpTerm`.
pub enum OpTermModel {
    Op(OperatorModel),
    OpTerm(ExprModel),
}

/// The mathematical content of an `Expr`.
pub enum ExprModel {
    Lit(LiteralModel),
    Var(Seq<char>),
    Operation(Seq<OpTermModel>),
    BinOp(Box<BinModel>),
}

/// The mathematical content of a `Bin`.
pub enum BinModel {
    Bin(BinaryModel),
    Uno(ExprModel),
}

/// The mathematical content of a `Binary`.
pub struct BinaryModel {
    pub left: ExprModel,
    pub op: OperatorModel,
    pub right: ExprModel,
    pub expr_type: Option<Type>,
}

/// The mathematical content of a token.
pub open spec fn term_model(t: OpTerm) -> OpTermModel
    decreases t,
{
    match t {
        OpTerm::Op(op) => OpTermModel::Op(op.deep_view()),
        OpTerm::OpTerm(e) => OpTermModel::OpTerm(expr_model(e)),
    }
}

/// The mathematical content of a sequence of tokens.
pub open spec fn terms_model(terms: Seq<OpTerm>) -> Seq<OpTermModel>
    decreases terms,
{
    Seq::new(
        terms.len(),
        |i: int|
            if 0 <= i < terms.len() {
                term_model(terms[i])
            } else {
                arbitrary()
            },
    )
}

/// The mathematical content of an operand.
pub open spec fn expr_model(e: Expr) -> ExprModel
    decreases e,
{
    match e {
        Expr::Lit(l) => ExprModel::Lit(l.deep_view()),
        Expr::Var(name) => ExprModel::Var(name@),
        Expr::Operation(terms) => ExprModel::Operation(terms_model(terms@)),
        Expr::BinOp(b) => ExprModel::BinOp(Box::new(bin_model(*b))),
    }
}

/// The mathematical content of a tree.
pub open spec fn bin_model(b: Bin) -> BinModel
    decreases b,
{
    match b {
        Bin::Bin(binary) => BinModel::Bin(
            BinaryModel {
                left: expr_model(binary.left),
                op: binary.op.deep_view(),
                right: expr_model(binary.right),
                expr_type: binary.expr_type,
            },
        ),
        Bin::Uno(e) => BinModel::Uno(expr_model(e)),
    }
}

/// How many levels of nodes an operand adds below the node that holds it: none,
/// unless it is a tree.
pub open spec fn operand_levels(e: ExprModel) -> nat
    decreases e,
{
    match e {
        ExprModel::BinOp(b) => levels(*b),
        _ => 0,
    }
}

/// How many levels of nodes a tree has: a leaf with a literal has one, an
/// operation one more than the taller of its operands.
pub open spec fn levels(b: BinModel) -> nat
    decreases b,
{
    match b {
        BinModel::Uno(e) => 1 + operand_levels(e),
        BinModel::Bin(binary) => if operand_levels(binary.left) < operand_levels(binary.right) {
            1 + operand_levels(binary.right)
        } else {
            1 + operand_levels(binary.left)
        },
    }
}

impl DeepView for OpTerm {
    type V = OpTermModel;

    open spec fn deep_view(&self) -> OpTermModel {
        term_model(*self)
    }
}

impl DeepView for Expr {
    type V = ExprModel;

    open spec fn deep_view(&self) -> ExprModel {
        expr_model(*self)
    }
}

impl DeepView for Bin {
    type V = BinModel;

    open spec fn deep_view(&self) -> BinModel {
        bin_model(*self)
    }
}

impl DeepView for Binary {
    type V = BinaryModel;

    open spec fn deep_view(&self) -> BinaryModel {
        BinaryModel {
            left: expr_model(self.left),
            op: self.op.deep_view(),
            right: expr_model(self.right),
            expr_type: self.expr_type,
        }
    }
}

impl Clone for OpTerm {
    /// A copy with the same content.
    fn clone(&self) -> (copy: Self)
        ensures
            copy.deep_view() == self.deep_view(),
        decreases self,
    {
        match self {
            OpTerm::Op(op) => OpTerm::Op(op.clone()),
            OpTerm::OpTerm(e) => OpTerm::OpTerm(e.clone()),
        }
    }
}

impl Clone for Expr {
    /// A copy with the same content.
    fn clone(&self) -> (copy: Self)
        ensures
            copy.deep_view() == self.deep_view(),
        decreases self,
    {
        match self {
            Expr::Lit(l) => Expr::Lit(l.clone()),
            Expr::Var(name) => Expr::Var(name.clone()),
            Expr::Operation(terms) => {
                let mut copies: Vec<OpTerm> = Vec::new();
                let mut i: usize = 0;
                while i < terms.len()
                    invariant
                        0 <= i <= terms@.len(),
                        copies@.len() == i,
                        forall|j: int|
                            0 <= j < i ==> term_model(#[trigger] copies@[j]) == term_model(
                                terms@[j],
                            ),
                        decreases_to!(self => *terms),
                    decreases terms@.len() - i,
                {
                    proof {
                        vstd::std_specs::vec::axiom_vec_index_decreases(*terms, i as int);
                        assert(decreases_to!(self => terms@[i as int]));
                    }
                    let term = &terms[i];
                    assert(*term == terms@[i as int]);
                    copies.push(term.clone());
                    i += 1;
                }
                assert(terms_model(copies@) =~= terms_model(terms@));
                Expr::Operation(copies)
            },
            Expr::BinOp(b) => Expr::BinOp(Box::new((&**b).clone())),
        }
    }
}

impl Clone for Binary {
    /// A copy with the same content.
    fn clone(&self) -> (copy: Self)
        ensures
            copy.deep_view() == self.deep_view(),
        decreases self,
    {
        Binary {
            left: self.left.clone(),
            op: self.op.clone(),
            right: self.right.clone(),
            expr_type: self.expr_type,
        }
    }
}

impl Clone for Bin {
    /// A copy with the same content.
    fn clone(&self) -> (copy: Self)
        ensures
            copy.deep_view() == self.deep_view(),
        decreases self,
    {
        match self {
            Bin::Bin(binary) => Bin::Bin(binary.clone()),
            Bin::Uno(e) => Bin::Uno(e.clone()),
        }
    }
}

impl OpTerm {
    /// The token of the operator with this lexeme, precedence and associativity.
    pub fn new_op(lexeme: String, precedence: i32, assoc: Assoc) -> (t: Self)
        ensures
            t == OpTerm::Op(Operator { lexeme, precedence, assoc }),
            t.deep_view() == OpTermModel::Op(OperatorModel { lexeme: lexeme@, precedence, assoc }),
    {
        Self::Op(Operator { lexeme, precedence, assoc })
    }
}

/// The diagnostic for a variable where a type is asked for.
pub open spec fn untyped_variable() -> Seq<char> {
    "Cannot know the type of a variable yet"@
}

/// The diagnostic for a group of tokens where a type or a value is asked for.
pub open spec fn unfolded_group() -> Seq<char> {
    "Cannot know the type of a group that is not folded into a tree"@
}

/// The diagnostic for an operation that type checking has not reached.
pub open spec fn unchecked_operation() -> Seq<char> {
    "Cannot know the type of an operation before type checking"@
}

/// The type that an operand carries: a literal has the type of its number, a
/// nested tree the type of its root.
pub open spec fn expr_type_of(e: ExprModel) -> Result<Type, ErrorModel>
    decreases e,
{
    match e {
        ExprModel::Lit(l) => Ok(literal_type(l)),
        ExprModel::Var(_) => Err(ErrorModel::Type(untyped_variable())),
        ExprModel::Operation(_) => Err(ErrorModel::Type(unfolded_group())),
        ExprModel::BinOp(b) => bin_type_of(*b),
    }
}

/// The type that a node carries: an operation has the type that type checking
/// wrote into it, a leaf the type of its operand.
pub open spec fn bin_type_of(b: BinModel) -> Result<Type, ErrorModel>
    decreases b,
{
    match b {
        BinModel::Bin(binary) => match binary.expr_type {
            Some(t) => Ok(t),
            None => Err(ErrorModel::Type(unchecked_operation())),
        },
        BinModel::Uno(e) => expr_type_of(e),
    }
}

impl Expr {
    /// The type of this operand, or the reason why it has none.
    pub fn get_type<'a>(&self) -> (r: Result<Type, Error<'a>>)
        ensures
            yields(r, expr_type_of(self.deep_view())),
        decreases self,
    {
        match self {
            Self::Lit(literal) => Ok(literal.get_type()),
            Self::Var(_) => Err(Error::Type("Cannot know the type of a variable yet".to_owned())),
            Self::Operation(_) => Err(
                Error::Type("Cannot know the type of a group that is not folded into a tree".to_owned()),
            ),
            Self::BinOp(bin) => bin.get_type(),
        }
    }

    /// The tree inside `BinOp`; `None` for every other operand.
    pub fn to_bin(self) -> (r: Option<Bin>)
        ensures
            match self {
                Expr::BinOp(bin) => r == Some(*bin),
                _ => r is None,
            },
    {
        match self {
            Self::BinOp(bin) => Some(*bin),
            _ => None,
        }
    }
}

impl Bin {
    /// An operation that is not type checked yet.
    pub fn new_bin(left: Expr, op: Operator, right: Expr) -> (b: Self)
        ensures
            b == Bin::Bin(Binary { left, op, right, expr_type: None }),
            b.deep_view() == BinModel::Bin(
                BinaryModel {
                    left: left.deep_view(),
                    op: op.deep_view(),
                    right: right.deep_view(),
                    expr_type: None,
                },
            ),
    {
        Self::Bin(Binary { left, op, right, expr_type: None })
    }

    /// An operation of type `expr_type`.
    pub fn new_bin_typed(left: Expr, op: Operator, right: Expr, expr_type: Type) -> (b: Self)
        ensures
            b == Bin::Bin(Binary { left, op, right, expr_type: Some(expr_type) }),
            b.deep_view() == BinModel::Bin(
                BinaryModel {
                    left: left.deep_view(),
                    op: op.deep_view(),
                    right: right.deep_view(),
                    expr_type: Some(expr_type),
                },
            ),
    {
        Self::Bin(Binary { left, op, right, expr_type: Some(expr_type) })
    }

    /// A leaf.
    pub fn new_uno(expr: Expr) -> (b: Self)
        ensures
            b == Bin::Uno(expr),
            b.deep_view() == BinModel::Uno(expr.deep_view()),
    {
        Self::Uno(expr)
    }

    /// The type of this node, or the reason why it has none.
    pub fn get_type<'a>(&self) -> (r: Result<Type, Error<'a>>)
        ensures
            yields(r, bin_type_of(self.deep_view())),
        decreases self,
    {
        match self {
            Bin::Bin(binary) => match binary.expr_type {
                Some(t) => Ok(t),
                None => Err(
                    Error::Type("Cannot know the type of an operation before type checking".to_owned()),
                ),
            },
            Bin::Uno(expr) => expr.get_type(),
        }
    }
}

/// The input behind the white space that `s` begins with.
pub open spec fn after_whitespace(s: Seq<char>) -> Seq<char> {
    s.skip(leading(whitespace_fn(), s) as int)
}

/// What is left of the input, and what was read, or why the grammar was not
/// followed.
pub type Parsed<V> = Result<(Seq<char>, V), ErrorModel>;

/// Whether `r` is the result `model`: the same input left and the same value,
/// or the same failure.
pub open spec fn parsed_as<'a, T: DeepView>(
    r: Result<(&'a [char], T), Error<'a>>,
    model: Parsed<T::V>,
) -> bool {
    match r {
        Ok((rest, value)) => model == Ok::<(Seq<char>, T::V), ErrorModel>(
            (rest@, value.deep_view()),
        ),
        Err(e) => model == Err::<(Seq<char>, T::V), ErrorModel>(e.deep_view()),
    }
}

/// A failure of a parsing step as a failure of the grammar.
pub open spec fn mismatch<V>(rest: Seq<char>, reason: Option<Seq<char>>) -> Parsed<V> {
    Err(ErrorModel::Parse(Failure { rest, reason }))
}

/// The group whose opening parenthesis stands directly before `s`: white
/// space, an expression and the closing parenthesis, with `depth` levels of
/// groups left to go down. A failure in the group is the failure of the whole.
pub open spec fn group_of(s: Seq<char>, depth: nat) -> Parsed<OpTermModel>
    decreases depth, s.len(), 0int,
{
    if depth == 0 {
        Err(ErrorModel::NestingTooDeep)
    } else {
        match expr_of(after_whitespace(s), (depth - 1) as nat) {
            Ok((rest, tokens)) => match char_of(')', rest) {
                Outcome::Success { rest: behind, .. } => Ok(
                    (behind, OpTermModel::OpTerm(ExprModel::Operation(tokens))),
                ),
                Outcome::Failure { rest, reason } => mismatch(rest, reason),
            },
            Err(e) => Err(e),
        }
    }
}

/// The operand at the front of `s`: a number, or else a group in parentheses.
/// Where `s` begins with neither, the failure is that of looking for the
/// opening parenthesis.
pub open spec fn operand_of(s: Seq<char>, depth: nat) -> Parsed<OpTermModel>
    decreases depth, s.len(), 1int,
{
    match number_of(s) {
        Outcome::Success { rest, value } => Ok(
            (rest, OpTermModel::OpTerm(ExprModel::Lit(LiteralModel::Num(value)))),
        ),
        Outcome::Failure { .. } => match char_of('(', s) {
            Outcome::Success { rest, .. } => group_of(rest, depth),
            Outcome::Failure { rest, reason } => mismatch(rest, reason),
        },
    }
}

/// The operators and operands that follow the first operand, added to
/// `tokens`: as long as an operator and an operand stand at the front of `s`,
/// with white space allowed behind each, they are taken. An operator that no
/// operand follows is left in the input. A failure inside a group is the
/// failure of the whole.
pub open spec fn tail_of(s: Seq<char>, depth: nat, tokens: Seq<OpTermModel>) -> Parsed<
    Seq<OpTermModel>,
>
    decreases depth, s.len(), 2int,
{
    match operator_of(s) {
        Outcome::Failure { .. } => Ok((s, tokens)),
        Outcome::Success { rest, value: op } => {
            let at = after_whitespace(rest);
            let operand = match number_of(at) {
                Outcome::Success { rest: behind, value } => Some(
                    Ok((behind, OpTermModel::OpTerm(ExprModel::Lit(LiteralModel::Num(value))))),
                ),
                Outcome::Failure { .. } => match char_of('(', at) {
                    Outcome::Success { rest: inside, .. } => {
                        proof {
                            lemma_leading_bound(whitespace_fn(), rest);
                        }
                        Some(group_of(inside, depth))
                    },
                    Outcome::Failure { .. } => None,
                },
            };
            match operand {
                None => Ok((s, tokens)),
                Some(Err(e)) => Err(e),
                Some(Ok((behind, operand))) => {
                    let next = after_whitespace(behind);
                    let more = tokens.push(op).push(operand);
                    if next.len() < s.len() {
                        tail_of(next, depth, more)
                    } else {
                        Ok((next, more))
                    }
                },
            }
        },
    }
}

/// The tokens of the expression at the front of `s`: an operand, then
/// operators and operands in turn, with white space allowed behind each token.
pub open spec fn expr_of(s: Seq<char>, depth: nat) -> Parsed<Seq<OpTermModel>>
    decreases depth, s.len(), 3int,
{
    match operand_of(s, depth) {
        Ok((rest, first)) => {
            let next = after_whitespace(rest);
            if next.len() < s.len() {
                tail_of(next, depth, seq![first])
            } else {
                Ok((next, seq![first]))
            }
        },
        Err(e) => Err(e),
    }
}

/// The input behind the white space that `s` begins with.
fn skip_whitespace<'a>(s: &'a [char]) -> (rest: &'a [char])
    ensures
        rest@ == after_whitespace(s@),
        rest@.len() <= s@.len(),
{
    proof {
        lemma_leading_bound(whitespace_fn(), s@);
    }
    let blank = take_whitespaces();
    assert(implements(&blank, whitespaces_fn()));
    match blank(s) {
        Ok((rest, _)) => rest,
        Err(e) => e.remaining(),
    }
}

/// The number at the front of `s`, as a token.
fn number_token<'a>(s: &'a [char]) -> (r: Option<(&'a [char], OpTerm)>)
    ensures
        match r {
            Some((rest, token)) => number_of(s@) == (Outcome::Success {
                rest: rest@,
                value: token.deep_view()->OpTerm_0->Lit_0->Num_0,
            }) && token.deep_view() == OpTermModel::OpTerm(
                ExprModel::Lit(LiteralModel::Num(token.deep_view()->OpTerm_0->Lit_0->Num_0)),
            ),
            None => number_of(s@) is Failure,
        },
{
    let number = take_number();
    assert(implements(&number, number_fn()));
    match number(s) {
        Ok((rest, value)) => Some((rest, OpTerm::OpTerm(Expr::Lit(Literal::Num(value))))),
        Err(_) => None,
    }
}

/// The group whose opening parenthesis stands directly before `s`.
fn group<'a>(s: &'a [char], depth: usize) -> (r: Result<(&'a [char], OpTerm), Error<'a>>)
    ensures
        parsed_as(r, group_of(s@, depth as nat)),
    decreases depth, s@.len(), 0int,
{
    if depth == 0 {
        return Err(Error::NestingTooDeep);
    }
    let (rest, tokens) = match expr(skip_whitespace(s), depth - 1) {
        Ok(found) => found,
        Err(e) => {
            return Err(e);
        },
    };
    let close = take_char(')');
    assert(implements(&close, char_fn(')')));
    match close(rest) {
        Ok((behind, _)) => {
            assert(tokens.deep_view() =~= terms_model(tokens@));
            Ok((behind, OpTerm::OpTerm(Expr::Operation(tokens))))
        },
        Err(e) => Err(Error::Parse(e)),
    }
}

/// The operand at the front of `s`.
fn operand<'a>(s: &'a [char], depth: usize) -> (r: Result<(&'a [char], OpTerm), Error<'a>>)
    ensures
        parsed_as(r, operand_of(s@, depth as nat)),
    decreases depth, s@.len(), 1int,
{
    match number_token(s) {
        Some(found) => Ok(found),
        None => {
            let open = take_char('(');
            assert(implements(&open, char_fn('(')));
            match open(s) {
                Ok((rest, _)) => group(rest, depth),
                Err(e) => Err(Error::Parse(e)),
            }
        },
    }
}

/// The tokens of the expression at the front of `s`.
#[verifier::loop_isolation(false)]
fn expr<'a>(s: &'a [char], depth: usize) -> (r: Result<(&'a [char], Vec<OpTerm>), Error<'a>>)
    ensures
        parsed_as(r, expr_of(s@, depth as nat)),
    decreases depth, s@.len(), 3int,
{
    let (rest, first) = match operand(s, depth) {
        Ok(found) => found,
        Err(e) => {
            return Err(e);
        },
    };
    let ghost whole = expr_of(s@, depth as nat);
    let ghost head = first.deep_view();
    let mut tokens: Vec<OpTerm> = Vec::new();
    tokens.push(first);
    assert(tokens.deep_view() =~= seq![head]);
    let mut rest = skip_whitespace(rest);
    let mut more = rest.len() < s.len();
    while more
        invariant
            more ==> rest@.len() < s@.len(),
            whole == if more {
                tail_of(rest@, depth as nat, tokens.deep_view())
            } else {
                Ok::<(Seq<char>, Seq<OpTermModel>), ErrorModel>((rest@, tokens.deep_view()))
            },
        decreases
                (if more {
                    1int
                } else {
                    0int
                }),
                rest@.len(),
    {
        let sign = take_operator();
        assert(implements(&sign, operator_fn()));
        match sign(rest) {
            Err(_) => {
                more = false;
            },
            Ok((after, op)) => {
                let at = skip_whitespace(after);
                let found = match number_token(at) {
                    Some(found) => Some(found),
                    None => {
                        let open = take_char('(');
                        assert(implements(&open, char_fn('(')));
                        match open(at) {
                            Ok((inside, _)) => match group(inside, depth) {
                                Ok(found) => Some(found),
                                Err(e) => {
                                    return Err(e);
                                },
                            },
                            Err(_) => None,
                        }
                    },
                };
                match found {
                    None => {
                        more = false;
                    },
                    Some((behind, term)) => {
                        let next = skip_whitespace(behind);
                        let ghost before = tokens.deep_view();
                        let ghost sign_model = op.deep_view();
                        let ghost term_model = term.deep_view();
                        tokens.push(op);
                        tokens.push(term);
                        assert(tokens.deep_view() =~= before.push(sign_model).push(term_model));
                        if next.len() >= rest.len() {
                            more = false;
                        }
                        rest = next;
                    },
                }
            },
        }
    }
    Ok((rest, tokens))
}

/// What `take_parenthesized` does on the input `s`: an opening parenthesis and
/// the group behind it, as a sequence of one token.
pub open spec fn parenthesized_of(s: Seq<char>) -> Parsed<Seq<OpTermModel>> {
    match char_of('(', s) {
        Outcome::Success { rest, .. } => match group_of(rest, MAX_DEPTH as nat) {
            Ok((behind, token)) => Ok((behind, seq![token])),
            Err(e) => Err(e),
        },
        Outcome::Failure { rest, reason } => mismatch(rest, reason),
    }
}

/// The tree of the expression at the front of `s`, and the input behind the
/// expression.
pub open spec fn ast_of(s: Seq<char>) -> Parsed<BinModel> {
    match expr_of(s, MAX_DEPTH as nat) {
        Ok((rest, tokens)) => match folded(tokens) {
            Ok(tree) => Ok((rest, tree)),
            Err(e) => Err(e),
        },
        Err(e) => Err(e),
    }
}

/// The parser of a group in parentheses. It is the second alternative for an
/// operand: it takes the failure of the first and goes on from the input that
/// the failure left.
pub fn take_parenthesized<'a>() -> (p: impl Fn(ParserError<'a>) -> Result<
    (&'a [char], Vec<OpTerm>),
    Error<'a>,
>)
    ensures
        forall|s: ParserError<'a>| call_requires(p, (s,)),
        forall|s: ParserError<'a>, r: Result<(&'a [char], Vec<OpTerm>), Error<'a>>| #[trigger]
            call_ensures(p, (s,), r) ==> parsed_as(r, parenthesized_of(s.remaining@)),
{
    |s: ParserError<'a>| -> (r: Result<(&'a [char], Vec<OpTerm>), Error<'a>>)
        ensures
            parsed_as(r, parenthesized_of(s.remaining@)),
        {
            let open = take_char('(');
            assert(implements(&open, char_fn('(')));
            match open(s.remaining()) {
                Ok((remaining, _)) => match group(remaining, MAX_DEPTH) {
                    Ok((remaining, token)) => {
                        let ghost model = token.deep_view();
                        let mut tokens: Vec<OpTerm> = Vec::new();
                        tokens.push(token);
                        assert(tokens.deep_view() =~= seq![model]);
                        Ok((remaining, tokens))
                    },
                    Err(e) => Err(e),
                },
                Err(e) => Err(Error::Parse(e)),
            }
        }
}

/// The parser of an expression, which yields its tokens: operands and operators
/// in turn, each group in parentheses as one operand.
pub fn take_expr<'a>() -> (p: impl Fn(&'a [char]) -> Result<(&'a [char], Vec<OpTerm>), Error<'a>>)
    ensures
        forall|s: &'a [char]| call_requires(p, (s,)),
        forall|s: &'a [char], r: Result<(&'a [char], Vec<OpTerm>), Error<'a>>| #[trigger]
            call_ensures(p, (s,), r) ==> parsed_as(r, expr_of(s@, MAX_DEPTH as nat)),
{
    |s: &'a [char]| -> (r: Result<(&'a [char], Vec<OpTerm>), Error<'a>>)
        ensures
            parsed_as(r, expr_of(s@, MAX_DEPTH as nat)),
        { expr(s, MAX_DEPTH) }
}

/// The parser of an expression, which yields its tree.
pub fn build_ast<'a>() -> (p: impl Fn(&'a [char]) -> Result<(&'a [char], Bin), Error<'a>>)
    ensures
        forall|s: &'a [char]| call_requires(p, (s,)),
        forall|s: &'a [char], r: Result<(&'a [char], Bin), Error<'a>>| #[trigger]
            call_ensures(p, (s,), r) ==> parsed_as(r, ast_of(s@)),
{
    |s: &'a [char]| -> (r: Result<(&'a [char], Bin), Error<'a>>)
        ensures
            parsed_as(r, ast_of(s@)),
        {
            let tokens = take_expr();
            let tree = into_ast();
            match tokens(s) {
                Ok((remaining, tokens)) => match tree(tokens) {
                    Ok((_, tree)) => Ok((remaining, tree)),
                    Err(e) => Err(e),
                },
                Err(e) => Err(e),
            }
        }
}

} // verus!
