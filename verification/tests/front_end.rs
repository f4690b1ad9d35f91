use calculator::error::{Error, ParserError, MAX_DEPTH};
use calculator::evaluation::{eval_ast, eval_bin, evaluate};
use calculator::math::{add_infix_op, into_ast};
use calculator::parser::{
    build_ast, take_expr, take_parenthesized, ArithOp, Assoc, Bin, Binary, Expr, Float, Literal,
    Number, OpTerm, Operator, Type,
};
use calculator::typechecking::{binary_type, operation_of, type_ast};

fn chars(s: &str) -> Vec<char> {
    s.chars().collect()
}

fn single(x: &Float) -> f32 {
    match x {
        Float::Decimal(digits) => digits.iter().collect::<String>().parse().unwrap(),
        Float::Signed(v) => *v as f32,
        Float::Unsigned(v) => *v as f32,
        Float::Binary { op, left, right } => match op {
            ArithOp::Add => single(left) + single(right),
            ArithOp::Sub => single(left) - single(right),
            ArithOp::Mul => single(left) * single(right),
            ArithOp::Div => single(left) / single(right),
        },
    }
}

fn operator(lexeme: &str, precedence: i32) -> Operator {
    Operator { lexeme: lexeme.to_string(), precedence, assoc: Assoc::Left }
}

fn leaf(n: i32) -> Expr {
    Expr::BinOp(Box::new(Bin::Uno(Expr::Lit(Literal::Num(Number::I32(n))))))
}

fn literal(n: i32) -> OpTerm {
    OpTerm::OpTerm(Expr::Lit(Literal::Num(Number::I32(n))))
}

#[test]
fn ast() {
    let first = chars("(1 + 2) * 3");
    let none: &[char] = &[];
    assert_eq!(
        build_ast()(&first),
        Ok((
            none,
            Bin::Bin(Binary {
                left: Expr::BinOp(Box::new(Bin::Bin(Binary {
                    left: Expr::BinOp(Box::new(Bin::Uno(Expr::Lit(Literal::Num(Number::I32(1)))))),
                    op: Operator {
                        lexeme: "+".to_string(),
                        precedence: 5,
                        assoc: Assoc::Left,
                    },
                    right: Expr::BinOp(Box::new(Bin::Uno(Expr::Lit(Literal::Num(Number::I32(2)))))),
                    expr_type: None,
                }))),
                op: Operator {
                    lexeme: "*".to_string(),
                    precedence: 10,
                    assoc: Assoc::Left,
                },
                right: Expr::BinOp(Box::new(Bin::Uno(Expr::Lit(Literal::Num(Number::I32(3)))))),
                expr_type: None,
            }),
        ))
    );
    let second = chars("1 + 2 * 3");
    assert_eq!(
        build_ast()(&second),
        Ok((
            none,
            Bin::Bin(Binary {
                left: Expr::BinOp(Box::new(Bin::Uno(Expr::Lit(Literal::Num(Number::I32(1)))))),
                op: Operator {
                    lexeme: "+".to_string(),
                    precedence: 5,
                    assoc: Assoc::Left,
                },
                right: Expr::BinOp(Box::new(Bin::Bin(Binary {
                    left: Expr::BinOp(Box::new(Bin::Uno(Expr::Lit(Literal::Num(Number::I32(2)))))),
                    op: Operator {
                        lexeme: "*".to_string(),
                        precedence: 10,
                        assoc: Assoc::Left,
                    },
                    right: Expr::BinOp(Box::new(Bin::Uno(Expr::Lit(Literal::Num(Number::I32(3)))))),
                    expr_type: None,
                }))),
                expr_type: None,
            }),
        ))
    );
}

#[test]
fn eval() {
    assert_eq!(evaluate(&chars("1+2")).map(Literal::Num), Ok(Literal::Num(Number::I32(3))));
    let input = chars("(1+2) * 3 / 4");
    let quotient = evaluate(&input);
    assert_eq!(
        quotient,
        Ok(Number::F32(Float::Binary {
            op: ArithOp::Div,
            left: Box::new(Float::Signed((1 + 2) * 3)),
            right: Box::new(Float::Signed(4)),
        }))
    );
    let Ok(Number::F32(x)) = quotient else { panic!() };
    assert_eq!(single(&x), ((1 + 2) * 3) as f32 / 4 as f32);
}

#[test]
fn evaluation_is_determined_by_the_text() {
    for input in ["1 + 2 * 3", "(1 + 2", "1 + 2.0", "8 / 3 / 2", ""] {
        let once = chars(input);
        let again = chars(input);
        assert_eq!(evaluate(&once), evaluate(&again));
    }
}

#[test]
fn multiplication_binds_tighter_than_addition() {
    assert_eq!(evaluate(&chars("1 + 2 * 3")), Ok(Number::I32(7)));
    assert_eq!(evaluate(&chars("(1 + 2) * 3")), Ok(Number::I32(9)));
    assert_eq!(evaluate(&chars("2 * 3 + 1")), Ok(Number::I32(7)));
    assert_eq!(evaluate(&chars("2 * (3 + 1)")), Ok(Number::I32(8)));
}

#[test]
fn equal_precedence_groups_to_the_left() {
    assert_eq!(evaluate(&chars("10 - 3 - 2")), Ok(Number::I32(5)));
    assert_eq!(evaluate(&chars("10 - (3 - 2)")), Ok(Number::I32(9)));
    assert_eq!(evaluate(&chars("2 - 3 + 4")), Ok(Number::I32(3)));
}

#[test]
fn nested_parentheses_divide_in_single_precision() {
    let Ok(Number::F32(x)) = evaluate(&chars("(1 + 2) * 3 / 4")) else { panic!() };
    assert_eq!(single(&x), 2.25);
    let Ok(Number::F32(x)) = evaluate(&chars("((7 - 1) / (1 + 2))")) else { panic!() };
    assert_eq!(single(&x), 2.0);
    let Ok(Number::F32(x)) = evaluate(&chars("8u32 / 3u32")) else { panic!() };
    assert_eq!(single(&x), 8.0f32 / 3.0f32);
    let Ok(Number::F32(x)) = evaluate(&chars("1.5 / 0.5 + 1.0")) else { panic!() };
    assert_eq!(single(&x), 4.0);
}

#[test]
fn quotient_cannot_meet_an_integer() {
    assert_eq!(
        evaluate(&chars("1 / 2 + 3")),
        Err(Error::Type("Cannot add an f32 and an i32 between them".to_string()))
    );
    let Ok(Number::F32(x)) = evaluate(&chars("1 / 2 + 3.0")) else { panic!() };
    assert_eq!(single(&x), 3.5);
}

#[test]
fn operands_of_different_types_are_rejected() {
    assert_eq!(
        evaluate(&chars("1 + 2.0")),
        Err(Error::Type("Cannot add an i32 and an f32 between them".to_string()))
    );
    assert_eq!(
        evaluate(&chars("2.0 + 1")),
        Err(Error::Type("Cannot add an f32 and an i32 between them".to_string()))
    );
    assert_eq!(
        evaluate(&chars("1u32 * 2")),
        Err(Error::Type("Cannot add an u32 and an i32 between them".to_string()))
    );
    assert_eq!(
        evaluate(&chars("1 - 2u32")),
        Err(Error::Type("Cannot add an i32 and an u32 between them".to_string()))
    );
    assert_eq!(
        evaluate(&chars("1u32 / 2.0")),
        Err(Error::Type("Cannot add an u32 and an f32 between them".to_string()))
    );
    assert_eq!(
        evaluate(&chars("2.0 / 1u32")),
        Err(Error::Type("Cannot add an f32 and an u32 between them".to_string()))
    );
}

#[test]
fn malformed_input_is_a_parse_error() {
    let leading = chars("+ 1");
    assert_eq!(
        evaluate(&leading),
        Err(Error::Parse(ParserError::new(&leading, "Expected `(`, found `+`".to_string())))
    );
    let open = chars("(1 + 2");
    assert_eq!(
        evaluate(&open),
        Err(Error::Parse(ParserError::new(&open[6..], "Expected `)`, found nothing".to_string())))
    );
    let empty = chars("");
    assert_eq!(
        evaluate(&empty),
        Err(Error::Parse(ParserError::new(&empty, "Expected `(`, found nothing".to_string())))
    );
}

#[test]
fn text_behind_the_expression_is_a_parse_error() {
    let closed = chars("1 + 2)");
    assert_eq!(
        evaluate(&closed),
        Err(Error::Parse(ParserError::new(
            &closed[5..],
            "Expected the end of the expression".to_string()
        )))
    );
    let dangling = chars("1 +");
    assert_eq!(
        evaluate(&dangling),
        Err(Error::Parse(ParserError::new(
            &dangling[2..],
            "Expected the end of the expression".to_string()
        )))
    );
    let leading_blank = chars(" 1");
    assert!(matches!(evaluate(&leading_blank), Err(Error::Parse(_))));
}

#[test]
fn failure_inside_parentheses_is_not_recovered() {
    let input = chars("1 + (2 + $) + 3");
    assert_eq!(
        evaluate(&input),
        Err(Error::Parse(ParserError::new(&input[7..], "Expected `)`, found `+`".to_string())))
    );
    assert_eq!(
        build_ast()(&input),
        Err(Error::Parse(ParserError::new(&input[7..], "Expected `)`, found `+`".to_string())))
    );
}

#[test]
fn white_space_between_tokens_changes_nothing() {
    assert_eq!(evaluate(&chars("1   +   2")), evaluate(&chars("1+2")));
    assert_eq!(evaluate(&chars("1+2")), Ok(Number::I32(3)));
    assert_eq!(evaluate(&chars("( 1\t+ 2 )\n* 3 ")), Ok(Number::I32(9)));
    assert_eq!(evaluate(&chars("(1+2)*3")), Ok(Number::I32(9)));
}

#[test]
fn integer_results_wrap_around() {
    assert_eq!(evaluate(&chars("2147483647 + 1")), Ok(Number::I32(i32::MIN)));
    assert_eq!(evaluate(&chars("0u32 - 1u32")), Ok(Number::U32(u32::MAX)));
}

#[test]
fn parentheses_nest_up_to_the_limit() {
    let mut deepest = String::new();
    for _ in 0..MAX_DEPTH {
        deepest.push('(');
    }
    deepest.push('1');
    for _ in 0..MAX_DEPTH {
        deepest.push(')');
    }
    assert_eq!(evaluate(&chars(&deepest)), Ok(Number::I32(1)));
    let too_deep = format!("({})", deepest);
    assert_eq!(evaluate(&chars(&too_deep)), Err(Error::NestingTooDeep));
    let hopeless = "(".repeat(100_000);
    assert_eq!(evaluate(&chars(&hopeless)), Err(Error::NestingTooDeep));
}

#[test]
fn trees_are_gone_through_up_to_the_limit() {
    let mut sum = String::from("1");
    for _ in 0..MAX_DEPTH - 1 {
        sum.push_str("+1");
    }
    assert_eq!(evaluate(&chars(&sum)), Ok(Number::I32(256)));
    sum.push_str("+1");
    assert_eq!(evaluate(&chars(&sum)), Err(Error::NestingTooDeep));
}

#[test]
fn expression_becomes_a_flat_sequence() {
    let input = chars("1 * (2 - 3) rest");
    assert_eq!(
        take_expr()(&input),
        Ok((
            &input[12..],
            vec![
                literal(1),
                OpTerm::Op(operator("*", 10)),
                OpTerm::OpTerm(Expr::Operation(vec![
                    literal(2),
                    OpTerm::Op(operator("-", 5)),
                    literal(3)
                ])),
            ]
        ))
    );
}

#[test]
fn operator_without_operand_stays_in_the_input() {
    let input = chars("1 + ");
    assert_eq!(take_expr()(&input), Ok((&input[2..], vec![literal(1)])));
}

#[test]
fn parenthesized_goes_on_from_a_failure() {
    let input = chars("(4) + 1");
    let failure = ParserError::new(&input, "no number".to_string());
    assert_eq!(
        take_parenthesized()(failure),
        Ok((&input[3..], vec![OpTerm::OpTerm(Expr::Operation(vec![literal(4)]))]))
    );
    let other = chars("4");
    assert_eq!(
        take_parenthesized()(ParserError::new_no_reason(&other)),
        Err(Error::Parse(ParserError::new(&other, "Expected `(`, found `4`".to_string())))
    );
}

#[test]
fn new_op_makes_an_operator_token() {
    assert_eq!(OpTerm::new_op("*".to_string(), 10, Assoc::Left), OpTerm::Op(operator("*", 10)));
    assert!(operator("*", 10).is_left_assoc());
    assert!(!Operator { lexeme: "^".to_string(), precedence: 15, assoc: Assoc::Right }
        .is_left_assoc());
    assert!(!Operator { lexeme: "^".to_string(), precedence: 15, assoc: Assoc::Both }
        .is_left_assoc());
}

#[test]
fn infix_op_takes_the_two_operands_on_top() {
    let mut stack = vec![
        Bin::new_uno(Expr::Lit(Literal::Num(Number::I32(0)))),
        Bin::new_uno(Expr::Lit(Literal::Num(Number::I32(1)))),
        Bin::new_uno(Expr::Lit(Literal::Num(Number::I32(2)))),
    ];
    assert_eq!(add_infix_op(&mut stack, operator("-", 5)), Ok(()));
    assert_eq!(
        stack,
        vec![
            Bin::new_uno(Expr::Lit(Literal::Num(Number::I32(0)))),
            Bin::new_bin(leaf(1), operator("-", 5), leaf(2)),
        ]
    );
    let mut short = vec![Bin::new_uno(Expr::Lit(Literal::Num(Number::I32(0))))];
    assert_eq!(
        add_infix_op(&mut short, operator("-", 5)),
        Err(Error::Parse(ParserError::new_no_rem(
            "An operator needs an operand on either side".to_string()
        )))
    );
    assert_eq!(short, vec![Bin::new_uno(Expr::Lit(Literal::Num(Number::I32(0))))]);
}

#[test]
fn fold_honours_precedence_and_associativity() {
    let none: &[char] = &[];
    let tokens = vec![
        literal(1),
        OpTerm::Op(operator("-", 5)),
        literal(2),
        OpTerm::Op(operator("*", 10)),
        literal(3),
        OpTerm::Op(operator("-", 5)),
        literal(4),
    ];
    assert_eq!(
        into_ast()(tokens),
        Ok((
            none,
            Bin::new_bin(
                Expr::BinOp(Box::new(Bin::new_bin(
                    leaf(1),
                    operator("-", 5),
                    Expr::BinOp(Box::new(Bin::new_bin(leaf(2), operator("*", 10), leaf(3)))),
                ))),
                operator("-", 5),
                leaf(4),
            )
        ))
    );
}

#[test]
fn right_associative_operators_group_to_the_right() {
    let none: &[char] = &[];
    let power = || Operator { lexeme: "^".to_string(), precedence: 15, assoc: Assoc::Right };
    let tokens = vec![literal(1), OpTerm::Op(power()), literal(2), OpTerm::Op(power()), literal(3)];
    assert_eq!(
        into_ast()(tokens),
        Ok((
            none,
            Bin::new_bin(
                leaf(1),
                power(),
                Expr::BinOp(Box::new(Bin::new_bin(leaf(2), power(), leaf(3)))),
            )
        ))
    );
}

#[test]
fn fold_keeps_variables_and_folds_groups() {
    let none: &[char] = &[];
    let tokens = vec![
        OpTerm::OpTerm(Expr::Var("x".to_string())),
        OpTerm::Op(operator("*", 10)),
        OpTerm::OpTerm(Expr::Operation(vec![literal(1), OpTerm::Op(operator("+", 5)), literal(2)])),
    ];
    assert_eq!(
        into_ast()(tokens),
        Ok((
            none,
            Bin::new_bin(
                Expr::BinOp(Box::new(Bin::Uno(Expr::Var("x".to_string())))),
                operator("*", 10),
                Expr::BinOp(Box::new(Bin::new_bin(leaf(1), operator("+", 5), leaf(2)))),
            )
        ))
    );
}

#[test]
fn fold_rejects_malformed_sequences() {
    let missing = Err(Error::Parse(ParserError::new_no_rem(
        "An operator needs an operand on either side".to_string(),
    )));
    assert_eq!(into_ast()(vec![OpTerm::Op(operator("+", 5)), literal(1)]), missing);
    assert_eq!(
        into_ast()(vec![
            OpTerm::Op(operator("*", 10)),
            OpTerm::Op(operator("+", 5)),
            literal(1)
        ]),
        missing
    );
    let several = Err(Error::Parse(ParserError::new_no_rem(
        "The tokens do not make up one expression".to_string(),
    )));
    assert_eq!(into_ast()(vec![literal(1), literal(2)]), several);
    assert_eq!(into_ast()(vec![]), several);
    assert_eq!(
        into_ast()(vec![OpTerm::OpTerm(leaf(1))]),
        Err(Error::Parse(ParserError::new_no_rem(
            "A tree cannot stand among the tokens of an expression".to_string()
        )))
    );
}

#[test]
fn fold_goes_down_groups_up_to_the_limit() {
    let none: &[char] = &[];
    let mut nested = literal(1);
    for _ in 0..MAX_DEPTH {
        nested = OpTerm::OpTerm(Expr::Operation(vec![nested]));
    }
    assert_eq!(
        into_ast()(vec![nested]),
        Ok((none, Bin::Uno(Expr::Lit(Literal::Num(Number::I32(1))))))
    );
    let mut nested = literal(1);
    for _ in 0..MAX_DEPTH + 1 {
        nested = OpTerm::OpTerm(Expr::Operation(vec![nested]));
    }
    assert_eq!(into_ast()(vec![nested]), Err(Error::NestingTooDeep));
}

#[test]
fn binary_type_of_every_operator() {
    for t in [Type::I32, Type::U32, Type::F32] {
        assert_eq!(binary_type(t, &operator("+", 5), t), Ok(t));
        assert_eq!(binary_type(t, &operator("-", 5), t), Ok(t));
        assert_eq!(binary_type(t, &operator("*", 10), t), Ok(t));
        assert_eq!(binary_type(t, &operator("/", 10), t), Ok(Type::F32));
        assert_eq!(
            binary_type(t, &operator("%", 10), t),
            Err(Error::Type("Unknown operator `%`".to_string()))
        );
        assert_eq!(
            binary_type(t, &operator("++", 10), t),
            Err(Error::Type("Unknown operator `++`".to_string()))
        );
    }
    assert_eq!(
        binary_type(Type::U32, &operator("%", 10), Type::I32),
        Err(Error::Type("Cannot add an u32 and an i32 between them".to_string()))
    );
    assert_eq!(operation_of("/"), Some(ArithOp::Div));
    assert_eq!(operation_of(""), None);
}

#[test]
fn typing_annotates_every_operation() {
    let input = chars("(1 + 2) / 3");
    let (_, tree) = build_ast()(&input).unwrap();
    let typed = tree.into_typed();
    assert_eq!(
        typed,
        Ok(Bin::new_bin_typed(
            Expr::BinOp(Box::new(Bin::new_bin_typed(leaf(1), operator("+", 5), leaf(2), Type::I32))),
            operator("/", 10),
            leaf(3),
            Type::F32,
        ))
    );
    assert_eq!(typed.unwrap().get_type(), Ok(Type::F32));
}

#[test]
fn typing_takes_literals_as_operands_and_leaves() {
    let lit = |n: u32| Expr::Lit(Literal::Num(Number::U32(n)));
    let none: &[char] = &[];
    assert_eq!(
        type_ast()(Bin::new_bin(lit(1), operator("*", 10), lit(2))),
        Ok((none, Bin::new_bin_typed(lit(1), operator("*", 10), lit(2), Type::U32)))
    );
    assert_eq!(Bin::new_uno(lit(1)).into_typed(), Ok(Bin::new_uno(lit(1))));
    assert_eq!(Bin::new_uno(leaf(1)).into_typed(), Ok(Bin::new_uno(leaf(1))));
}

#[test]
fn variable_cannot_be_typed() {
    let reason = "Cannot know the type of a variable yet".to_string();
    assert_eq!(
        Bin::new_uno(Expr::Var("x".to_string())).into_typed(),
        Err(Error::Type(reason.clone()))
    );
    assert_eq!(
        Bin::new_bin(leaf(1), operator("+", 5), Expr::Var("x".to_string())).into_typed(),
        Err(Error::Type(reason.clone()))
    );
    assert_eq!(Expr::Var("x".to_string()).get_type(), Err(Error::Type(reason.clone())));
    assert_eq!(Bin::Uno(Expr::Var("x".to_string())).get_type(), Err(Error::Type(reason)));
}

#[test]
fn first_type_error_ends_the_pass() {
    let unknown = Bin::new_bin(leaf(1), operator("%", 10), leaf(2));
    let mixed = Bin::new_bin(
        leaf(1),
        operator("+", 5),
        Expr::Lit(Literal::Num(Number::U32(1))),
    );
    assert_eq!(
        Bin::new_bin(Expr::BinOp(Box::new(unknown)), operator("+", 5), Expr::BinOp(Box::new(mixed)))
            .into_typed(),
        Err(Error::Type("Unknown operator `%`".to_string()))
    );
}

#[test]
fn types_of_operands_and_nodes() {
    assert_eq!(Expr::Lit(Literal::Num(Number::U32(1))).get_type(), Ok(Type::U32));
    assert_eq!(leaf(1).get_type(), Ok(Type::I32));
    assert_eq!(
        Expr::Operation(vec![literal(1)]).get_type(),
        Err(Error::Type(
            "Cannot know the type of a group that is not folded into a tree".to_string()
        ))
    );
    assert_eq!(
        Bin::new_bin(leaf(1), operator("+", 5), leaf(2)).get_type(),
        Err(Error::Type("Cannot know the type of an operation before type checking".to_string()))
    );
    assert_eq!(
        Bin::new_bin_typed(leaf(1), operator("/", 10), leaf(2), Type::F32).get_type(),
        Ok(Type::F32)
    );
}

#[test]
fn to_bin_unwraps_a_tree_only() {
    assert_eq!(leaf(1).to_bin(), Some(Bin::Uno(Expr::Lit(Literal::Num(Number::I32(1))))));
    assert_eq!(Expr::Var("x".to_string()).to_bin(), None);
    assert_eq!(Expr::Lit(Literal::Num(Number::I32(1))).to_bin(), None);
    assert_eq!(Expr::Operation(vec![]).to_bin(), None);
}

#[test]
fn eval_bin_applies_the_operator() {
    let num = |n: i32| Literal::Num(Number::I32(n));
    assert_eq!(eval_bin(num(6), operator("+", 5), num(3)), Ok(num(9)));
    assert_eq!(eval_bin(num(6), operator("-", 5), num(3)), Ok(num(3)));
    assert_eq!(eval_bin(num(6), operator("*", 10), num(3)), Ok(num(18)));
    let Ok(Literal::Num(Number::F32(x))) = eval_bin(num(6), operator("/", 10), num(4)) else {
        panic!()
    };
    assert_eq!(single(&x), 1.5);
    assert_eq!(
        eval_bin(num(6), operator("%", 10), num(3)),
        Err(Error::Internal(
            "Internal inconsistency: evaluation failed because of the unknown operator `%`"
                .to_string()
        ))
    );
    assert_eq!(
        eval_bin(num(6), operator("+", 5), Literal::Num(Number::U32(3))),
        Err(Error::Internal(
            "Internal inconsistency: the operands are numbers of different types".to_string()
        ))
    );
}

#[test]
fn eval_ast_folds_the_tree() {
    let input = chars("2 * (3 + 4) - 5");
    let (_, tree) = build_ast()(&input).unwrap();
    assert_eq!(eval_ast(tree), Ok(Literal::Num(Number::I32(9))));
    assert_eq!(
        eval_ast(Bin::new_bin(
            Expr::Lit(Literal::Num(Number::U32(2))),
            operator("*", 10),
            Expr::Lit(Literal::Num(Number::U32(3)))
        )),
        Ok(Literal::Num(Number::U32(6)))
    );
}

#[test]
fn eval_ast_reports_what_cannot_be_evaluated() {
    assert_eq!(
        eval_ast(Bin::new_uno(Expr::Var("x".to_string()))),
        Err(Error::Internal(
            "Internal inconsistency: evaluation failed because a variable was inside the tree"
                .to_string()
        ))
    );
    assert_eq!(
        eval_ast(Bin::new_bin(leaf(1), operator("+", 5), Expr::Operation(vec![literal(1)]))),
        Err(Error::Internal(
            "Internal inconsistency: evaluation failed because a group of tokens was inside the tree"
                .to_string()
        ))
    );
    let mut deep = Bin::new_uno(Expr::Lit(Literal::Num(Number::I32(1))));
    for _ in 0..MAX_DEPTH {
        deep = Bin::new_uno(Expr::BinOp(Box::new(deep)));
    }
    assert_eq!(eval_ast(deep), Err(Error::NestingTooDeep));
}

#[test]
fn long_sums_are_refused_without_harm() {
    let mut sum = String::from("1");
    for _ in 0..300_000 {
        sum.push_str("+1");
    }
    assert_eq!(evaluate(&chars(&sum)), Err(Error::NestingTooDeep));
}

#[test]
fn copies_have_the_same_content() {
    let input = chars("2 * (3 + 4.5) - x");
    let (_, tokens) = take_expr()(&input).unwrap();
    assert_eq!(tokens.clone(), tokens);
    let mut with_variable = tokens.clone();
    with_variable.push(OpTerm::Op(operator("-", 5)));
    with_variable.push(OpTerm::OpTerm(Expr::Var("x".to_string())));
    let (_, tree) = into_ast()(with_variable).unwrap();
    let copy = tree.clone();
    assert_eq!(copy, tree);
    let quotient = Number::F32(Float::Decimal(chars("1.5"))).div(Number::F32(Float::Signed(2)));
    assert_eq!(quotient.clone(), quotient);
}

struct Draws(u64);

impl Draws {
    fn below(&mut self, bound: u64) -> u64 {
        self.0 = self.0.wrapping_mul(6364136223846793005).wrapping_add(1442695040888963407);
        (self.0 >> 33) % bound
    }
}

fn write_sum(draws: &mut Draws, depth: u32, out: &mut String) {
    write_product(draws, depth, out);
    for _ in 0..draws.below(3) {
        out.push_str(if draws.below(2) == 0 { " + " } else { "-" });
        write_product(draws, depth, out);
    }
}

fn write_product(draws: &mut Draws, depth: u32, out: &mut String) {
    write_factor(draws, depth, out);
    for _ in 0..draws.below(3) {
        out.push_str(if draws.below(2) == 0 { "*" } else { " *  " });
        write_factor(draws, depth, out);
    }
}

fn write_factor(draws: &mut Draws, depth: u32, out: &mut String) {
    if depth > 0 && draws.below(3) == 0 {
        out.push_str(if draws.below(2) == 0 { "(" } else { "( " });
        write_sum(draws, depth - 1, out);
        out.push_str(if draws.below(2) == 0 { ")" } else { ") " });
    } else {
        out.push_str(&draws.below(100_000).to_string());
    }
}

fn skip_blanks(text: &[char], at: &mut usize) {
    while *at < text.len() && text[*at] == ' ' {
        *at += 1;
    }
}

fn read_sum(text: &[char], at: &mut usize) -> i32 {
    let mut value = read_product(text, at);
    loop {
        skip_blanks(text, at);
        match text.get(*at) {
            Some('+') => {
                *at += 1;
                value = value.wrapping_add(read_product(text, at));
            }
            Some('-') => {
                *at += 1;
                value = value.wrapping_sub(read_product(text, at));
            }
            _ => return value,
        }
    }
}

fn read_product(text: &[char], at: &mut usize) -> i32 {
    let mut value = read_factor(text, at);
    loop {
        skip_blanks(text, at);
        match text.get(*at) {
            Some('*') => {
                *at += 1;
                value = value.wrapping_mul(read_factor(text, at));
            }
            _ => return value,
        }
    }
}

fn read_factor(text: &[char], at: &mut usize) -> i32 {
    skip_blanks(text, at);
    if text[*at] == '(' {
        *at += 1;
        let value = read_sum(text, at);
        skip_blanks(text, at);
        assert_eq!(text[*at], ')');
        *at += 1;
        value
    } else {
        let mut value: i32 = 0;
        while *at < text.len() && text[*at].is_ascii_digit() {
            value = value * 10 + text[*at].to_digit(10).unwrap() as i32;
            *at += 1;
        }
        value
    }
}

#[test]
fn evaluation_agrees_with_recursive_descent() {
    let mut draws = Draws(2024);
    for _ in 0..2000 {
        let mut text = String::new();
        write_sum(&mut draws, 4, &mut text);
        let input = chars(&text);
        let mut at = 0;
        let expected = read_sum(&input, &mut at);
        assert_eq!(at, input.len(), "{}", text);
        assert_eq!(evaluate(&input), Ok(Number::I32(expected)), "{}", text);
    }
}
