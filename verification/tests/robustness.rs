use rulebook::ast::{Declaration, ProvisionBodyStmt, Value};
use rulebook::error::{Expected, ParseError, Production, SyntaxError};
use rulebook::program::parse_program;
use rulebook::values::parse_value;

fn syntax(production: Production, expected: Expected, offset: usize) -> ParseError {
    ParseError::Syntax(SyntaxError { production, expected, offset })
}

#[test]
fn multibyte_characters_end_words_and_fail_cleanly() {
    assert_eq!(
        parse_program("Suit is a H\u{e9}arts"),
        Err(syntax(Production::Program, Expected::EndOfInput, 11))
    );
    assert_eq!(
        parse_program("\u{1f0a1} is a Card"),
        Err(syntax(Production::Arguments, Expected::Given, 0))
    );
    assert_eq!(
        parse_program("Suit is a \u{2660}"),
        Err(syntax(Production::EnumDecl, Expected::Word, 10))
    );
    assert_eq!(
        parse_program("Suit\u{a0}is a Hearts"),
        Err(syntax(Production::TypeDecl, Expected::IsOrHas, 4))
    );
}

#[test]
fn text_between_multibyte_characters_is_read_by_position() {
    let text = "\u{2660}\u{2660} Suit is a Hearts";
    assert_eq!(parse_value(text, 7), Ok((Value::Literal("Suit".to_string(), None), 11)));
}

#[test]
fn a_long_rule_book() {
    let mut text = String::new();
    for i in 0..500 {
        text.push_str(&format!("T{} has a Number called a and a T{} called b\n", i, (i + 1) % 500));
    }
    for i in 0..500 {
        text.push_str(&format!(
            "Given a x called a T{} resolve a f{} to get a Number by providing the f{} of x\n",
            i,
            i,
            (i + 7) % 500
        ));
    }
    let book = parse_program(&text).unwrap();
    assert_eq!(book.declarations.len(), 1000);
    match &book.declarations[999] {
        Declaration::ProvisionDecl(p) => {
            assert!(matches!(&p.body, ProvisionBodyStmt::ProvideStmt(Value::Invocation(n, _, _)) if n == "f6"));
        }
        other => panic!("{:?}", other),
    }
}

#[test]
fn deeply_nested_conditionals() {
    let depth = 200;
    let mut body = String::new();
    for _ in 0..depth {
        body.push_str("if n is 1 then providing n else ");
    }
    body.push_str("providing 0");
    let text = format!("Given a n called a Number resolve a f to get a Number by {}", body);
    let book = parse_program(&text).unwrap();
    let mut stmt = match &book.declarations[0] {
        Declaration::ProvisionDecl(p) => &p.body,
        other => panic!("{:?}", other),
    };
    let mut seen = 0;
    while let ProvisionBodyStmt::IfStmt(_, _, no) = stmt {
        seen += 1;
        stmt = no;
    }
    assert_eq!(seen, depth);
}

#[test]
fn deeply_nested_references() {
    let depth = 200;
    let mut text = String::new();
    for _ in 0..depth {
        text.push_str("the ");
    }
    text.push('x');
    let (mut value, end) = parse_value(&text, 0).unwrap();
    assert_eq!(end, text.len());
    let mut seen = 0;
    while let Value::Reference(mut chain, None) = value {
        assert_eq!(chain.len(), 1);
        seen += 1;
        value = chain.pop().unwrap();
    }
    assert_eq!(seen, depth);
    assert_eq!(value, Value::Literal("x".to_string(), None));
}
