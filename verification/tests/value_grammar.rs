use rulebook::ast::{Comparator, Matcher, Value};
use rulebook::copy::copy_matcher;
use rulebook::error::{Expected, Production, SyntaxError};
use rulebook::values::{
    all, any, parse_comparator, parse_comparison, parse_disjunction, parse_literal,
    parse_matcher, parse_negation, parse_value,
};

fn lit(text: &str) -> Value {
    Value::Literal(text.to_string(), None)
}

fn chain(items: Vec<Value>) -> Value {
    Value::Reference(items, None)
}

fn cmp(lhs: &str, how: Comparator, rhs: &str) -> Matcher {
    Matcher::Comparison(lit(lhs), lit(rhs), how)
}

fn syntax(production: Production, expected: Expected, offset: usize) -> SyntaxError {
    SyntaxError { production, expected, offset }
}

#[test]
fn bare_word_is_a_literal() {
    assert_eq!(parse_value("score", 0), Ok((lit("score"), 5)));
    assert_eq!(parse_value("42 x", 0), Ok((lit("42"), 2)));
}

#[test]
fn the_introduces_a_reference() {
    assert_eq!(parse_value("the x", 0), Ok((chain(vec![lit("x")]), 5)));
    assert_eq!(
        parse_value("the total of x", 0),
        Ok((chain(vec![lit("total"), lit("x")]), 14))
    );
    assert_eq!(
        parse_value("the a then b of c", 0),
        Ok((chain(vec![lit("a"), lit("b"), lit("c")]), 17))
    );
}

#[test]
fn references_nest_to_the_right() {
    assert_eq!(
        parse_value("the a of the b of c", 0),
        Ok((chain(vec![lit("a"), chain(vec![lit("b"), lit("c")])]), 19))
    );
}

#[test]
fn the_alone_is_a_literal() {
    assert_eq!(parse_value("the", 0), Ok((lit("the"), 3)));
    assert_eq!(parse_value("the !", 0), Ok((lit("the"), 3)));
    assert_eq!(parse_value("then", 0), Ok((lit("then"), 4)));
}

#[test]
fn chain_ends_where_no_separator_follows() {
    assert_eq!(parse_value("the a is b", 0), Ok((chain(vec![lit("a")]), 5)));
    assert_eq!(parse_value("the a  ", 0), Ok((chain(vec![lit("a")]), 5)));
}

#[test]
fn chain_separator_must_be_followed_by_a_value() {
    assert_eq!(parse_value("the a of ", 0), Err(syntax(Production::Value, Expected::Word, 9)));
    assert_eq!(parse_value("the a of", 0), Err(syntax(Production::Value, Expected::Word, 8)));
    assert_eq!(
        parse_value("the a then b of !", 0),
        Err(syntax(Production::Value, Expected::Word, 16))
    );
}

#[test]
fn value_needs_a_word() {
    assert_eq!(parse_value("", 0), Err(syntax(Production::Value, Expected::Word, 0)));
    assert_eq!(parse_value(" x", 0), Err(syntax(Production::Value, Expected::Word, 0)));
    assert_eq!(parse_value("x", 3), Err(syntax(Production::Value, Expected::Word, 3)));
}

#[test]
fn every_comparator_is_read() {
    for (text, how) in [
        (" is at least", Comparator::GTE),
        (" is bigger than", Comparator::GT),
        (" is at most", Comparator::LTE),
        (" is smaller than", Comparator::LT),
        (" is not", Comparator::NEQ),
        (" is", Comparator::EQ),
    ] {
        assert_eq!(parse_comparator(text, 0), Some((how, text.len())));
    }
}

#[test]
fn short_comparator_is_read_when_the_long_one_is_not_there() {
    assert_eq!(parse_comparator(" is at", 0), Some((Comparator::EQ, 3)));
    assert_eq!(parse_comparator(" is notable", 0), Some((Comparator::EQ, 3)));
    assert_eq!(parse_comparator(" is at leasty", 0), Some((Comparator::EQ, 3)));
}

#[test]
fn comparator_needs_whitespace_before_it() {
    assert_eq!(parse_comparator("is", 0), None);
    assert_eq!(parse_comparator(" equals", 0), None);
}

#[test]
fn comparison_of_two_values() {
    assert_eq!(
        parse_comparison("x is bigger than y", 0),
        Ok((cmp("x", Comparator::GT, "y"), 18))
    );
    let expected =
        Matcher::Comparison(chain(vec![lit("hand"), lit("size")]), lit("5"), Comparator::LTE);
    assert_eq!(parse_comparison("the hand of size is at most 5", 0), Ok((expected, 29)));
}

#[test]
fn comparison_fails_where_a_part_is_missing() {
    assert_eq!(
        parse_comparison("x equals y", 0),
        Err(syntax(Production::Matcher, Expected::Comparator, 2))
    );
    assert_eq!(
        parse_comparison("x", 0),
        Err(syntax(Production::Matcher, Expected::Comparator, 1))
    );
    assert_eq!(parse_comparison("x is", 0), Err(syntax(Production::Value, Expected::Word, 4)));
    assert_eq!(parse_comparison("x is  !", 0), Err(syntax(Production::Value, Expected::Word, 6)));
}

#[test]
fn not_wraps_only_when_written() {
    assert_eq!(
        parse_negation("not x is y", 0),
        Ok((Matcher::Not(Box::new(cmp("x", Comparator::EQ, "y"))), 10))
    );
    assert_eq!(parse_negation("x is y", 0), Ok((cmp("x", Comparator::EQ, "y"), 6)));
}

#[test]
fn not_can_be_a_value_name() {
    assert_eq!(parse_negation("not is y", 0), Ok((cmp("not", Comparator::EQ, "y"), 8)));
}

#[test]
fn negation_reports_the_alternative_that_got_further() {
    assert_eq!(
        parse_negation("not x is", 0),
        Err(syntax(Production::Value, Expected::Word, 8))
    );
    assert_eq!(
        parse_negation("not", 0),
        Err(syntax(Production::Value, Expected::Word, 3))
    );
}

#[test]
fn single_comparison_stands_for_itself() {
    assert_eq!(parse_disjunction("x is y", 0), Ok((cmp("x", Comparator::EQ, "y"), 6)));
    assert_eq!(parse_matcher("x is y", 0), Ok((cmp("x", Comparator::EQ, "y"), 6)));
}

#[test]
fn or_list_is_flat() {
    let text = "a is 1 or b is 2 or not c is 3";
    let expected = Matcher::Or(vec![
        cmp("a", Comparator::EQ, "1"),
        cmp("b", Comparator::EQ, "2"),
        Matcher::Not(Box::new(cmp("c", Comparator::EQ, "3"))),
    ]);
    assert_eq!(parse_disjunction(text, 0), Ok((copy_matcher(&expected), text.len())));
    assert_eq!(parse_matcher(text, 0), Ok((expected, text.len())));
}

#[test]
fn and_of_ors() {
    let text = "a is 1 and b is 2 or c is 3 and d is 4";
    let expected = Matcher::And(vec![
        cmp("a", Comparator::EQ, "1"),
        Matcher::Or(vec![cmp("b", Comparator::EQ, "2"), cmp("c", Comparator::EQ, "3")]),
        cmp("d", Comparator::EQ, "4"),
    ]);
    assert_eq!(parse_matcher(text, 0), Ok((expected, text.len())));
}

#[test]
fn matcher_ends_where_no_separator_follows() {
    assert_eq!(parse_matcher("a is 1 then", 0), Ok((cmp("a", Comparator::EQ, "1"), 6)));
    assert_eq!(parse_matcher("a is 1 andy", 0), Ok((cmp("a", Comparator::EQ, "1"), 6)));
    assert_eq!(parse_matcher("a is 1  ", 0), Ok((cmp("a", Comparator::EQ, "1"), 6)));
}

#[test]
fn matcher_separator_must_be_followed_by_an_item() {
    assert_eq!(
        parse_matcher("a is 1 and", 0),
        Err(syntax(Production::Value, Expected::Word, 10))
    );
    assert_eq!(
        parse_matcher("a is 1 or b", 0),
        Err(syntax(Production::Matcher, Expected::Comparator, 11))
    );
    assert_eq!(
        parse_matcher("a is 1 or b equals c and d is e", 0),
        Err(syntax(Production::Matcher, Expected::Comparator, 12))
    );
    assert_eq!(
        parse_matcher("a is 1 and b is 2 or not", 0),
        Err(syntax(Production::Value, Expected::Word, 24))
    );
    assert_eq!(
        parse_matcher("a is 1 and b is 2 or not c", 0),
        Err(syntax(Production::Matcher, Expected::Comparator, 26))
    );
}

#[test]
fn matcher_starts_at_the_given_position() {
    assert_eq!(parse_matcher("if a is 1", 3), Ok((cmp("a", Comparator::EQ, "1"), 9)));
}

#[test]
fn lists_of_one_collapse_and_others_do_not() {
    let one = || cmp("a", Comparator::EQ, "b");
    assert_eq!(any(vec![one()]), one());
    assert_eq!(all(vec![one()]), one());
    assert_eq!(any(vec![one(), one()]), Matcher::Or(vec![one(), one()]));
    assert_eq!(all(vec![one(), one()]), Matcher::And(vec![one(), one()]));
    assert_eq!(any(vec![]), Matcher::Or(vec![]));
    assert_eq!(all(vec![]), Matcher::And(vec![]));
}

#[test]
fn a_literal_is_any_word() {
    assert_eq!(parse_literal("the x", 0), Ok((lit("the"), 3)));
    assert_eq!(parse_literal("x1 y", 0), Ok((lit("x1"), 2)));
    assert_eq!(parse_literal(" x", 0), Err(syntax(Production::Value, Expected::Word, 0)));
}
