use calculator::combinators::{many, many1};
use calculator::common::{
    letter, letter_or_digit, whitespace, take_alpha, take_char, take_cpredicate, take_digit, take_identifier, take_one_of,
    take_predicate1, take_str, take_whitespaces, take_whitespaces1,
};
use calculator::error::ParserError;

fn text(s: &str) -> Vec<char> {
    s.chars().collect()
}

#[test]
fn parser_error_constructors() {
    let input = text("abc");
    let plain = ParserError::new_no_reason(&input);
    assert_eq!(plain.remaining(), &input[..]);
    assert_eq!(plain.reason, None);
    let placeless = ParserError::new_no_rem("why".to_string());
    assert!(placeless.remaining().is_empty());
    assert_eq!(placeless.reason, Some("why".to_string()));
    let full = ParserError::new(&input[1..], "why".to_string());
    assert_eq!(full.remaining(), &input[1..]);
    assert_eq!(full.reason, Some("why".to_string()));
}

#[test]
fn digit_is_taken() {
    let input = text("7up");
    assert_eq!(take_digit()(&input), Ok((&input[1..], '7')));
}

#[test]
fn digit_failure_names_what_was_found() {
    let input = text("a1");
    assert_eq!(
        take_digit()(&input),
        Err(ParserError::new(&input, "Expected a digit, found: `a`".to_string()))
    );
    let empty = text("");
    assert_eq!(
        take_digit()(&empty),
        Err(ParserError::new(&empty, "Expected a digit, found nothing".to_string()))
    );
}

#[test]
fn alpha_covers_the_range_from_upper_a_to_lower_z() {
    let letter = text("Zz");
    assert_eq!(take_alpha()(&letter), Ok((&letter[1..], 'Z')));
    let between = text("_x");
    assert_eq!(take_alpha()(&between), Ok((&between[1..], '_')));
    let digit = text("1");
    assert_eq!(
        take_alpha()(&digit),
        Err(ParserError::new(&digit, "Expected an alphabetic char, found: `1`".to_string()))
    );
    let empty = text("");
    assert_eq!(
        take_alpha()(&empty),
        Err(ParserError::new(&empty, "Expected an alphabetic char, found nothing".to_string()))
    );
}

#[test]
fn char_is_taken_or_reported() {
    let input = text("(1");
    assert_eq!(take_char('(')(&input), Ok((&input[1..], '(')));
    let other = text("+ 1");
    assert_eq!(
        take_char('(')(&other),
        Err(ParserError::new(&other, "Expected `(`, found `+`".to_string()))
    );
    let empty = text("");
    assert_eq!(
        take_char(')')(&empty),
        Err(ParserError::new(&empty, "Expected `)`, found nothing".to_string()))
    );
}

#[test]
fn cpredicate_fails_without_reason() {
    let input = text("x1");
    assert_eq!(take_cpredicate(|c: char| c == 'x')(&input), Ok((&input[1..], 'x')));
    assert_eq!(
        take_cpredicate(|c: char| c == 'y')(&input),
        Err(ParserError::new_no_reason(&input))
    );
    let empty = text("");
    assert_eq!(
        take_cpredicate(|_c: char| true)(&empty),
        Err(ParserError::new_no_reason(&empty))
    );
}

#[test]
fn many_collects_until_the_first_failure() {
    let input = text("123ab");
    assert_eq!(many(take_digit())(&input), Ok((&input[3..], vec!['1', '2', '3'])));
}

#[test]
fn many_succeeds_with_nothing() {
    let input = text("ab");
    assert_eq!(many(take_digit())(&input), Ok((&input[..], vec![])));
    let empty = text("");
    assert_eq!(many(take_digit())(&empty), Ok((&empty[..], vec![])));
}

#[test]
fn many_stops_at_a_step_that_consumes_nothing() {
    let input = text("12");
    let idle = many(take_digit());
    assert_eq!(many(idle)(&input), Ok((&input[2..], vec![vec!['1', '2']])));
    let letters = text("ab");
    assert_eq!(many(many(take_digit()))(&letters), Ok((&letters[..], vec![])));
}

#[test]
fn many1_needs_one_success() {
    let input = text("42 ");
    assert_eq!(many1(take_digit())(&input), Ok((&input[2..], vec!['4', '2'])));
    let letters = text("x");
    assert_eq!(
        many1(take_digit())(&letters),
        Err(ParserError::new(&letters, "Expected a digit, found: `x`".to_string()))
    );
}

#[test]
fn whitespaces_take_every_kind_of_white_space() {
    let input = text(" \t\n\u{a0}\u{3000}x ");
    assert_eq!(
        take_whitespaces()(&input),
        Ok((&input[5..], vec![' ', '\t', '\n', '\u{a0}', '\u{3000}']))
    );
    let none = text("x");
    assert_eq!(take_whitespaces()(&none), Ok((&none[..], vec![])));
}

#[test]
fn whitespaces1_needs_white_space() {
    let input = text("  x");
    assert_eq!(take_whitespaces1()(&input), Ok((&input[2..], vec![' ', ' '])));
    let none = text("x");
    assert_eq!(take_whitespaces1()(&none), Err(ParserError::new_no_reason(&none)));
}

#[test]
fn str_is_taken_verbatim() {
    let input = text("u32 rest");
    assert_eq!(take_str("u32".to_string())(&input), Ok((&input[3..], "u32".to_string())));
    let empty_wanted = text("abc");
    assert_eq!(take_str(String::new())(&empty_wanted), Ok((&empty_wanted[..], String::new())));
}

#[test]
fn str_failure_reports_the_longest_matched_prefix() {
    let input = text("abd");
    assert_eq!(
        take_str("abc".to_string())(&input),
        Err(ParserError::new(&input, "Expected `abc` found `ab`".to_string()))
    );
    let short = text("a");
    assert_eq!(
        take_str("abc".to_string())(&short),
        Err(ParserError::new(&short, "Expected `abc` found `a`".to_string()))
    );
    let other = text("xyz");
    assert_eq!(
        take_str("abc".to_string())(&other),
        Err(ParserError::new(&other, "Expected `abc` found ``".to_string()))
    );
}

#[test]
fn one_of_takes_the_first_match() {
    let input = text("i32)");
    assert_eq!(
        take_one_of(vec!["u32", "i32", "f32"])(&input),
        Ok((&input[3..], "i32".to_string()))
    );
    let both = text("abc");
    assert_eq!(take_one_of(vec!["a", "abc"])(&both), Ok((&both[1..], "a".to_string())));
}

#[test]
fn one_of_failure_lists_the_candidates() {
    let input = text("u64");
    assert_eq!(
        take_one_of(vec!["u32", "i32", "f32"])(&input),
        Err(ParserError::new(
            &input,
            "Expected one of the [\n    \"u32\",\n    \"i32\",\n    \"f32\",\n]".to_string()
        ))
    );
}

#[test]
fn predicate1_takes_the_run_and_nothing_more() {
    let input = text("ab cd");
    assert_eq!(
        take_predicate1(|c: char| c.is_ascii_alphanumeric())(&input),
        Ok((&input[2..], "ab".to_string()))
    );
    let all = text("ab");
    assert_eq!(
        take_predicate1(|c: char| c.is_ascii_alphanumeric())(&all),
        Ok((&all[2..], "ab".to_string()))
    );
    let none = text("+b");
    assert_eq!(
        take_predicate1(|c: char| c.is_ascii_alphanumeric())(&none),
        Ok((&none[..], String::new()))
    );
    let empty = text("");
    assert_eq!(
        take_predicate1(|c: char| c.is_ascii_alphanumeric())(&empty),
        Err(ParserError::new_no_reason(&empty))
    );
}

#[test]
fn predicate1_loses_no_character() {
    for input in ["ab cd", "ab", "+b", " ", "a1b2;c3", "x = 1", "zz\u{a0}z"] {
        let chars = text(input);
        let (rest, run) = take_predicate1(|c: char| c.is_ascii_alphanumeric())(&chars).unwrap();
        let mut whole: Vec<char> = run.chars().collect();
        whole.extend_from_slice(rest);
        assert_eq!(whole, chars);
        assert!(run.chars().all(|c| c.is_ascii_alphanumeric()));
        assert!(rest.first().map_or(true, |c| !c.is_ascii_alphanumeric()));
    }
}

#[test]
fn predicate1_asks_in_order_and_stops_at_the_first_refusal() {
    let asked = std::cell::RefCell::new(Vec::new());
    let input = text("ab cd");
    let result = take_predicate1(|c: char| {
        asked.borrow_mut().push(c);
        c.is_ascii_alphanumeric()
    })(&input);
    assert_eq!(result, Ok((&input[2..], "ab".to_string())));
    assert_eq!(*asked.borrow(), vec!['a', 'b', ' ']);
}

#[test]
fn identifier_is_a_letter_and_a_run() {
    let input = text("x1 = 2");
    assert_eq!(take_identifier()(&input), Ok((&input[2..], "x1".to_string())));
    let spaced = text("x = 2");
    assert_eq!(take_identifier()(&spaced), Ok((&spaced[1..], "x".to_string())));
    let digit = text("1x");
    assert_eq!(take_identifier()(&digit), Err(ParserError::new_no_reason(&digit)));
    let lone = text("x");
    assert_eq!(take_identifier()(&lone), Err(ParserError::new_no_reason(&lone[1..])));
}

#[test]
fn character_classes_are_those_of_the_standard_library() {
    for code in 0..=0x10FFFFu32 {
        if let Some(c) = char::from_u32(code) {
            assert_eq!(whitespace(c), c.is_whitespace(), "white space {:?}", c);
            assert_eq!(letter(c), c.is_ascii_alphabetic(), "letter {:?}", c);
            assert_eq!(letter_or_digit(c), c.is_ascii_alphanumeric(), "letter or digit {:?}", c);
        }
    }
}
