use rulebook::ast::{
    Binding, Comparator, GenericBinding, Matcher, Provision, ProvisionBodyStmt, Type, TypeType,
    Value,
};
use rulebook::error::{
    Expected, ParseError, Production, SemanticError, SemanticKind, SyntaxError,
};
use rulebook::provisions::{
    parse_argument, parse_arguments, parse_header, parse_provision, parse_provision_body,
};

fn unbound(name: &str, generics: &[&str]) -> Type {
    Type {
        name: name.to_string(),
        contents: TypeType::Declaration,
        generics: GenericBinding::Unbound(generics.iter().map(|g| g.to_string()).collect()),
    }
}

fn arg(name: &str, ty: Type) -> Binding {
    Binding { name: name.to_string(), ty }
}

fn lit(text: &str) -> Value {
    Value::Literal(text.to_string(), None)
}

fn provide(text: &str) -> ProvisionBodyStmt {
    ProvisionBodyStmt::ProvideStmt(lit(text))
}

fn cmp(lhs: &str, how: Comparator, rhs: &str) -> Matcher {
    Matcher::Comparison(lit(lhs), lit(rhs), how)
}

fn syntax(production: Production, expected: Expected, offset: usize) -> SyntaxError {
    SyntaxError { production, expected, offset }
}

#[test]
fn argument_with_either_article() {
    assert_eq!(
        parse_argument("x called a Number", 0),
        Ok((arg("x", unbound("Number", &[])), 17))
    );
    assert_eq!(
        parse_argument("e called an Item of Kind", 0),
        Ok((arg("e", unbound("Item", &["Kind"])), 24))
    );
}

#[test]
fn argument_fails_where_a_part_is_missing() {
    assert_eq!(
        parse_argument("", 0),
        Err(syntax(Production::Arguments, Expected::Word, 0))
    );
    assert_eq!(
        parse_argument("x is a Number", 0),
        Err(syntax(Production::Arguments, Expected::CalledA, 2))
    );
    assert_eq!(
        parse_argument("x called a", 0),
        Err(syntax(Production::TypeInstantiation, Expected::Word, 10))
    );
}

#[test]
fn arguments_are_separated_by_then() {
    let text = "Given an a called a Number then b called an Item";
    let expected = vec![arg("a", unbound("Number", &[])), arg("b", unbound("Item", &[]))];
    assert_eq!(parse_arguments(text, 0), Ok((expected, vec![9, 32], text.len())));
}

#[test]
fn arguments_need_given() {
    assert_eq!(
        parse_arguments("given a x called a Number", 0),
        Err(syntax(Production::Arguments, Expected::Given, 0))
    );
    assert_eq!(
        parse_arguments("Given a", 0),
        Err(syntax(Production::Arguments, Expected::Word, 7))
    );
    assert_eq!(
        parse_arguments("Given a  ", 0),
        Err(syntax(Production::Arguments, Expected::Word, 9))
    );
}

#[test]
fn header_gives_name_and_return_type() {
    let text = "resolve an owner to get a Player of Team";
    assert_eq!(
        parse_header(text, 0),
        Ok(("owner".to_string(), unbound("Player", &["Team"]), text.len()))
    );
}

#[test]
fn header_fails_where_a_part_is_missing() {
    assert_eq!(parse_header("solve a x", 0), Err(syntax(Production::Header, Expected::Resolve, 0)));
    assert_eq!(parse_header("resolve a", 0), Err(syntax(Production::Header, Expected::Word, 9)));
    assert_eq!(
        parse_header("resolve a x to a Number", 0),
        Err(syntax(Production::Header, Expected::ToGet, 12))
    );
    assert_eq!(
        parse_header("resolve a x to get a", 0),
        Err(syntax(Production::TypeInstantiation, Expected::Word, 20))
    );
}

#[test]
fn terminal_body() {
    assert_eq!(parse_provision_body("providing x", 0), Ok((provide("x"), 11)));
}

#[test]
fn conditional_body() {
    let text = "if x is 1 then providing a else providing b";
    let expected = ProvisionBodyStmt::IfStmt(
        cmp("x", Comparator::EQ, "1"),
        Box::new(provide("a")),
        Box::new(provide("b")),
    );
    assert_eq!(parse_provision_body(text, 0), Ok((expected, text.len())));
}

#[test]
fn nested_conditionals() {
    let text = "if x is 1 then if y is 2 then providing a else providing b \
                else if z is 3 then providing c else providing d";
    let expected = ProvisionBodyStmt::IfStmt(
        cmp("x", Comparator::EQ, "1"),
        Box::new(ProvisionBodyStmt::IfStmt(
            cmp("y", Comparator::EQ, "2"),
            Box::new(provide("a")),
            Box::new(provide("b")),
        )),
        Box::new(ProvisionBodyStmt::IfStmt(
            cmp("z", Comparator::EQ, "3"),
            Box::new(provide("c")),
            Box::new(provide("d")),
        )),
    );
    assert_eq!(parse_provision_body(text, 0), Ok((expected, text.len())));
}

#[test]
fn body_fails_where_a_part_is_missing() {
    assert_eq!(
        parse_provision_body("give x", 0),
        Err(syntax(Production::Body, Expected::IfOrProviding, 0))
    );
    assert_eq!(
        parse_provision_body("providing", 0),
        Err(syntax(Production::Value, Expected::Word, 9))
    );
    assert_eq!(
        parse_provision_body("if", 0),
        Err(syntax(Production::Value, Expected::Word, 2))
    );
    assert_eq!(
        parse_provision_body("if x is 1 providing a", 0),
        Err(syntax(Production::Body, Expected::Then, 10))
    );
    assert_eq!(
        parse_provision_body("if x is 1 then", 0),
        Err(syntax(Production::Body, Expected::IfOrProviding, 14))
    );
    assert_eq!(
        parse_provision_body("if x is 1 then providing a", 0),
        Err(syntax(Production::Body, Expected::Else, 26))
    );
    assert_eq!(
        parse_provision_body("if x is 1 then providing a else x", 0),
        Err(syntax(Production::Body, Expected::IfOrProviding, 32))
    );
}

#[test]
fn whole_provision() {
    let text = "Given a card called a Card then n called a Number \
                resolve a bonus to get a Number \
                by if n is at least 3 then providing n else providing 0";
    let expected = Provision {
        name: "bonus".to_string(),
        args: vec![arg("card", unbound("Card", &[])), arg("n", unbound("Number", &[]))],
        body: ProvisionBodyStmt::IfStmt(
            cmp("n", Comparator::GTE, "3"),
            Box::new(provide("n")),
            Box::new(provide("0")),
        ),
        returns: unbound("Number", &[]),
    };
    assert_eq!(parse_provision(text, 0), Ok((expected, text.len())));
}

#[test]
fn provision_fails_where_a_part_is_missing() {
    assert_eq!(
        parse_provision("Given a x called a Number", 0),
        Err(ParseError::Syntax(syntax(Production::Header, Expected::Resolve, 25)))
    );
    assert_eq!(
        parse_provision("Given a x called a Number resolve a f to get a Number", 0),
        Err(ParseError::Syntax(syntax(Production::Provision, Expected::By, 53)))
    );
    assert_eq!(
        parse_provision("Given a x called a Number resolve a f to get a Number  with", 0),
        Err(ParseError::Syntax(syntax(Production::Provision, Expected::By, 55)))
    );
    assert_eq!(
        parse_provision("Given a x called a Number resolve a f to get a Number by", 0),
        Err(ParseError::Syntax(syntax(Production::Body, Expected::IfOrProviding, 56)))
    );
}

#[test]
fn duplicate_parameter_is_rejected() {
    let text = "Given a x called a Number then y called a Number then x called a Card \
                resolve a f to get a Number by providing x";
    let expected = ParseError::Semantic(SemanticError {
        kind: SemanticKind::DuplicateParameter,
        production: Production::Arguments,
        offset: 54,
        identifier: "x".to_string(),
        context: "f".to_string(),
    });
    assert_eq!(&text[54..55], "x");
    assert_eq!(parse_provision(text, 0), Err(expected));
}

#[test]
fn syntax_errors_come_before_duplicate_parameters() {
    let text = "Given a x called a Number then x called a Number resolve a f";
    assert_eq!(
        parse_provision(text, 0),
        Err(ParseError::Syntax(syntax(Production::Header, Expected::ToGet, 60)))
    );
}

#[test]
fn argument_separator_must_be_followed_by_an_argument() {
    assert_eq!(
        parse_arguments("Given a x called a Number then", 0),
        Err(syntax(Production::Arguments, Expected::Word, 30))
    );
    assert_eq!(
        parse_arguments("Given a x called a Number then y", 0),
        Err(syntax(Production::Arguments, Expected::CalledA, 32))
    );
    assert_eq!(
        parse_arguments("Given a x called a Number thence", 0),
        Ok((vec![arg("x", unbound("Number", &[]))], vec![8], 25))
    );
}
