use calculator::error::{Error, ParserError};
use calculator::math::{number_from_type, take_num_type, take_number, take_operator};
use calculator::parser::{ArithOp, Assoc, Float, Literal, Number, OpTerm, Operator, Type};

fn letters(s: &str) -> Vec<char> {
    s.chars().collect()
}

fn rounded(x: &Float) -> f32 {
    match x {
        Float::Decimal(digits) => digits.iter().collect::<String>().parse().unwrap(),
        Float::Signed(v) => *v as f32,
        Float::Unsigned(v) => *v as f32,
        Float::Binary { op, left, right } => match op {
            ArithOp::Add => rounded(left) + rounded(right),
            ArithOp::Sub => rounded(left) - rounded(right),
            ArithOp::Mul => rounded(left) * rounded(right),
            ArithOp::Div => rounded(left) / rounded(right),
        },
    }
}

#[test]
fn integer_literal_is_an_i32() {
    let input = letters("42 + 1");
    assert_eq!(take_number()(&input), Ok((&input[2..], Number::I32(42))));
}

#[test]
fn fractional_literal_is_an_f32() {
    let input = letters("2.5)");
    assert_eq!(
        take_number()(&input),
        Ok((&input[3..], Number::F32(Float::Decimal(letters("2.5")))))
    );
    let Ok((_, Number::F32(x))) = take_number()(&input) else { panic!() };
    assert_eq!(rounded(&x), 2.5);
}

#[test]
fn point_without_digits_behind_it_belongs_to_the_literal() {
    let input = letters("1.");
    assert_eq!(
        take_number()(&input),
        Ok((&input[2..], Number::F32(Float::Decimal(letters("1.")))))
    );
}

#[test]
fn suffix_overrides_the_default() {
    let unsigned = letters("7u32 ");
    assert_eq!(take_number()(&unsigned), Ok((&unsigned[4..], Number::U32(7))));
    let signed = letters("7i32");
    assert_eq!(take_number()(&signed), Ok((&signed[4..], Number::I32(7))));
    let float = letters("7f32");
    assert_eq!(
        take_number()(&float),
        Ok((&float[4..], Number::F32(Float::Decimal(letters("7")))))
    );
    let fraction = letters("7.25f32");
    assert_eq!(
        take_number()(&fraction),
        Ok((&fraction[7..], Number::F32(Float::Decimal(letters("7.25")))))
    );
}

#[test]
fn suffix_is_taken_only_behind_the_whole_literal() {
    let input = letters("1u32.5");
    assert_eq!(take_number()(&input), Ok((&input[4..], Number::U32(1))));
}

#[test]
fn greatest_literals_fit() {
    let signed = letters("2147483647");
    assert_eq!(take_number()(&signed), Ok((&signed[10..], Number::I32(i32::MAX))));
    let unsigned = letters("4294967295u32");
    assert_eq!(take_number()(&unsigned), Ok((&unsigned[13..], Number::U32(u32::MAX))));
    let zeros = letters("0000000000000000000007");
    assert_eq!(take_number()(&zeros), Ok((&zeros[22..], Number::I32(7))));
}

#[test]
fn literal_beyond_its_type_is_rejected() {
    let signed = letters("2147483648");
    assert_eq!(
        take_number()(&signed),
        Err(ParserError::new(&signed, "The number is too large for its type".to_string()))
    );
    let unsigned = letters("4294967296u32");
    assert_eq!(
        take_number()(&unsigned),
        Err(ParserError::new(&unsigned, "The number is too large for its type".to_string()))
    );
    let huge = letters("99999999999999999999999999999");
    assert_eq!(
        take_number()(&huge),
        Err(ParserError::new(&huge, "The number is too large for its type".to_string()))
    );
}

#[test]
fn fraction_with_integer_suffix_is_rejected() {
    let input = letters("1.5u32");
    assert_eq!(
        take_number()(&input),
        Err(ParserError::new(
            &input,
            "A number with a fractional part cannot have an integer type".to_string()
        ))
    );
}

#[test]
fn number_needs_a_digit() {
    let input = letters(".5");
    assert_eq!(
        take_number()(&input),
        Err(ParserError::new(&input, "Expected a digit, found: `.`".to_string()))
    );
    let empty = letters("");
    assert_eq!(
        take_number()(&empty),
        Err(ParserError::new(&empty, "Expected a digit, found nothing".to_string()))
    );
}

#[test]
fn number_from_type_follows_suffix_and_shape() {
    assert_eq!(number_from_type(None, letters("12")), Ok(Number::I32(12)));
    assert_eq!(
        number_from_type(None, letters("12.5")),
        Ok(Number::F32(Float::Decimal(letters("12.5"))))
    );
    assert_eq!(number_from_type(Some("u32".to_string()), letters("12")), Ok(Number::U32(12)));
    assert_eq!(number_from_type(Some("i32".to_string()), letters("12")), Ok(Number::I32(12)));
    assert_eq!(
        number_from_type(Some("f32".to_string()), letters("12")),
        Ok(Number::F32(Float::Decimal(letters("12"))))
    );
    assert_eq!(number_from_type(Some("u64".to_string()), letters("12")), Ok(Number::I32(12)));
}

#[test]
fn number_from_type_rejects_what_is_no_number() {
    let reason = "Expected digits, optionally followed by a point and further digits".to_string();
    assert_eq!(number_from_type(None, letters("")), Err(reason.clone()));
    assert_eq!(number_from_type(None, letters("1.2.3")), Err(reason.clone()));
    assert_eq!(number_from_type(None, letters("12a")), Err(reason.clone()));
    assert_eq!(number_from_type(Some("f32".to_string()), letters(".5")), Err(reason));
}

#[test]
fn num_type_is_optional() {
    let input = letters("f32+");
    assert_eq!(
        take_num_type()((&input[..], letters("1"))),
        Ok((&input[3..], (letters("1"), Some("f32".to_string()))))
    );
    let none = letters("+1");
    assert_eq!(take_num_type()((&none[..], letters("1"))), Ok((&none[..], (letters("1"), None))));
}

#[test]
fn operators_have_their_precedence() {
    for (lexeme, precedence) in [("+", 5), ("-", 5), ("*", 10), ("/", 10)] {
        let input = letters(&format!("{} 1", lexeme));
        assert_eq!(
            take_operator()(&input),
            Ok((
                &input[1..],
                OpTerm::Op(Operator { lexeme: lexeme.to_string(), precedence, assoc: Assoc::Left })
            ))
        );
    }
}

#[test]
fn operator_failure_is_that_of_the_last_alternative() {
    let input = letters("1");
    assert_eq!(
        take_operator()(&input),
        Err(ParserError::new(&input, "Expected `-` found ``".to_string()))
    );
}

#[test]
fn number_type_and_literal_type() {
    assert_eq!(Number::I32(1).get_type(), Type::I32);
    assert_eq!(Number::U32(1).get_type(), Type::U32);
    assert_eq!(Number::F32(Float::Signed(1)).get_type(), Type::F32);
    assert_eq!(Literal::Num(Number::U32(1)).get_type(), Type::U32);
}

#[test]
fn integer_arithmetic_wraps() {
    assert_eq!(Number::I32(i32::MAX).add(Number::I32(1)), Ok(Number::I32(i32::MIN)));
    assert_eq!(Number::I32(i32::MIN).sub(Number::I32(1)), Ok(Number::I32(i32::MAX)));
    assert_eq!(Number::I32(65536).mul(Number::I32(65536)), Ok(Number::I32(0)));
    assert_eq!(Number::U32(0).sub(Number::U32(1)), Ok(Number::U32(u32::MAX)));
    assert_eq!(Number::U32(u32::MAX).add(Number::U32(2)), Ok(Number::U32(1)));
    assert_eq!(Number::U32(65536).mul(Number::U32(65537)), Ok(Number::U32(65536)));
    assert_eq!(Number::I32(6).mul(Number::I32(-7)), Ok(Number::I32(-42)));
}

#[test]
fn division_is_always_in_single_precision() {
    let quotient = Number::I32(9).div(Number::I32(4));
    assert_eq!(
        quotient,
        Ok(Number::F32(Float::Binary {
            op: ArithOp::Div,
            left: Box::new(Float::Signed(9)),
            right: Box::new(Float::Signed(4)),
        }))
    );
    let Ok(Number::F32(x)) = quotient else { panic!() };
    assert_eq!(rounded(&x), 2.25);
    let Ok(Number::F32(x)) = Number::U32(1).div(Number::U32(0)) else { panic!() };
    assert_eq!(rounded(&x), f32::INFINITY);
}

#[test]
fn float_arithmetic_keeps_the_operation() {
    let sum = Number::F32(Float::Decimal(letters("1.5")))
        .combine(ArithOp::Add, Number::F32(Float::Decimal(letters("2.25"))));
    let Ok(Number::F32(x)) = sum else { panic!() };
    assert_eq!(rounded(&x), 3.75);
}

#[test]
fn operands_of_different_types_are_an_internal_inconsistency() {
    let reason =
        "Internal inconsistency: the operands are numbers of different types".to_string();
    assert_eq!(Number::I32(1).add(Number::U32(1)), Err(Error::Internal(reason.clone())));
    assert_eq!(Number::U32(1).div(Number::I32(1)), Err(Error::Internal(reason.clone())));
    assert_eq!(
        Number::F32(Float::Signed(1)).mul(Number::I32(1)),
        Err(Error::Internal(reason))
    );
}
