use rulebook::ast::{
    Binding, Comparator, Declaration, GenericBinding, Matcher, Program, Provision,
    ProvisionBodyStmt, Type, TypeType, Value,
};
use rulebook::error::{
    Expected, ParseError, Production, SemanticError, SemanticKind, SyntaxError,
};
use rulebook::program::parse_program;
use rulebook::provisions::parse_provision;
use rulebook::types::{parse_record, parse_type_decl};
use rulebook::values::parse_matcher;

fn raw(name: &str) -> Type {
    Type {
        name: name.to_string(),
        contents: TypeType::Declaration,
        generics: GenericBinding::Unbound(vec![]),
    }
}

fn number() -> Type {
    Type {
        name: "Number".to_string(),
        contents: TypeType::Number,
        generics: GenericBinding::Bound(vec![]),
    }
}

fn named(name: &str) -> Type {
    Type {
        name: name.to_string(),
        contents: TypeType::Declaration,
        generics: GenericBinding::Bound(vec![]),
    }
}

fn word(text: &str) -> Value {
    Value::Literal(text.to_string(), None)
}

fn typed_word(text: &str, ty: Type) -> Value {
    Value::Literal(text.to_string(), Some(ty))
}

fn compare(lhs: &str, rhs: &str, how: Comparator) -> Matcher {
    Matcher::Comparison(word(lhs), word(rhs), how)
}

#[test]
fn record_declaration_parses_before_resolution() {
    let text = "Container of Item has a Number called count";
    let (declared, end) = parse_type_decl(text, 0).unwrap();
    assert_eq!(end, text.len());
    let expected = Type {
        name: "Container".to_string(),
        contents: TypeType::RecordDecl(vec![Binding {
            name: "count".to_string(),
            ty: raw("Number"),
        }]),
        generics: GenericBinding::Unbound(vec!["Item".to_string()]),
    };
    assert_eq!(declared, expected);
}

#[test]
fn record_declaration_end_to_end() {
    let book =
        parse_program("Item is a Thing Container of Item has a Number called count").unwrap();
    let expected = Declaration::TypeDecl(Type {
        name: "Container".to_string(),
        contents: TypeType::RecordDecl(vec![Binding {
            name: "count".to_string(),
            ty: number(),
        }]),
        generics: GenericBinding::Bound(vec![Binding {
            name: "Item".to_string(),
            ty: named("Item"),
        }]),
    });
    assert_eq!(book.declarations.len(), 2);
    assert_eq!(book.declarations[1], expected);
}

#[test]
fn undeclared_generic_parameter_is_rejected() {
    let expected = ParseError::Semantic(SemanticError {
        kind: SemanticKind::UnknownTypeReference,
        production: Production::TypeInstantiation,
        offset: 0,
        identifier: "Item".to_string(),
        context: "Container".to_string(),
    });
    assert_eq!(parse_program("Container of Item has a Number called count"), Err(expected));
}

#[test]
fn enum_declaration_end_to_end() {
    let book =
        parse_program("Suit is a Hearts or a Spades or a Clubs or a Diamonds").unwrap();
    let expected = Program {
        declarations: vec![Declaration::TypeDecl(Type {
            name: "Suit".to_string(),
            contents: TypeType::EnumDecl(vec![
                "Hearts".to_string(),
                "Spades".to_string(),
                "Clubs".to_string(),
                "Diamonds".to_string(),
            ]),
            generics: GenericBinding::Bound(vec![]),
        })],
    };
    assert_eq!(book, expected);
}

#[test]
fn provision_parses_before_resolution() {
    let text = "Given a x called a Number resolve a identity to get a Number by providing the x";
    let (provision, end) = parse_provision(text, 0).unwrap();
    assert_eq!(end, text.len());
    let expected = Provision {
        name: "identity".to_string(),
        args: vec![Binding { name: "x".to_string(), ty: raw("Number") }],
        body: ProvisionBodyStmt::ProvideStmt(Value::Reference(vec![word("x")], None)),
        returns: raw("Number"),
    };
    assert_eq!(provision, expected);
}

#[test]
fn provision_end_to_end() {
    let text = "Given a x called a Number resolve a identity to get a Number by providing the x";
    let book = parse_program(text).unwrap();
    let expected = Program {
        declarations: vec![Declaration::ProvisionDecl(Provision {
            name: "identity".to_string(),
            args: vec![Binding { name: "x".to_string(), ty: number() }],
            body: ProvisionBodyStmt::ProvideStmt(Value::Reference(
                vec![typed_word("x", number())],
                Some(number()),
            )),
            returns: number(),
        })],
    };
    assert_eq!(book, expected);
}

#[test]
fn trailing_keyword_fails_after_it() {
    let expected = ParseError::Syntax(SyntaxError {
        production: Production::EnumDecl,
        expected: Expected::Word,
        offset: 9,
    });
    assert_eq!(parse_program("Suit is a"), Err(expected));
}

#[test]
fn and_is_outermost() {
    let text = "a is b or c is d and e is f";
    let (matcher, end) = parse_matcher(text, 0).unwrap();
    assert_eq!(end, text.len());
    let expected = Matcher::And(vec![
        Matcher::Or(vec![
            compare("a", "b", Comparator::EQ),
            compare("c", "d", Comparator::EQ),
        ]),
        compare("e", "f", Comparator::EQ),
    ]);
    assert_eq!(matcher, expected);
}

#[test]
fn longest_comparator_wins() {
    let text = "x is at least y";
    let (matcher, end) = parse_matcher(text, 0).unwrap();
    assert_eq!(end, text.len());
    assert_eq!(matcher, compare("x", "y", Comparator::GTE));
}

#[test]
fn duplicate_field_is_rejected() {
    let text = "Pair has a Number called count and a Number called count";
    let second = text.rfind("count").unwrap();
    let expected = ParseError::Semantic(SemanticError {
        kind: SemanticKind::DuplicateField,
        production: Production::RecordDecl,
        offset: second,
        identifier: "count".to_string(),
        context: "Pair".to_string(),
    });
    assert_eq!(parse_type_decl(text, 0), Err(expected));
    let body = "Number called count and a Number called count";
    match parse_record(body, 0) {
        Err(ParseError::Semantic(e)) => {
            assert_eq!(e.kind, SemanticKind::DuplicateField);
            assert_eq!(e.identifier, "count");
            assert_eq!(e.offset, body.rfind("count").unwrap());
        }
        other => panic!("{:?}", other),
    }
}

#[test]
fn distinct_fields_are_accepted() {
    let text = "Number called count and a Number called total";
    let (contents, end) = parse_record(text, 0).unwrap();
    assert_eq!(end, text.len());
    let expected = TypeType::RecordDecl(vec![
        Binding { name: "count".to_string(), ty: raw("Number") },
        Binding { name: "total".to_string(), ty: raw("Number") },
    ]);
    assert_eq!(contents, expected);
}

#[test]
fn reference_to_provision_becomes_invocation() {
    let text = "Given a x called a Number resolve a total to get a Number by providing x \
                Given a x called a Number resolve a twice to get a Number by providing the total of x";
    let book = parse_program(text).unwrap();
    match &book.declarations[1] {
        Declaration::ProvisionDecl(p) => {
            let expected = ProvisionBodyStmt::ProvideStmt(Value::Invocation(
                "total".to_string(),
                vec!["x".to_string()],
                number(),
            ));
            assert_eq!(p.body, expected);
        }
        other => panic!("{:?}", other),
    }
}

#[test]
fn reference_to_field_becomes_projection() {
    let text = "Player has a Number called score \
                Given a x called a Player resolve a points to get a Number by providing the x of score";
    let book = parse_program(text).unwrap();
    match &book.declarations[1] {
        Declaration::ProvisionDecl(p) => {
            let expected = ProvisionBodyStmt::ProvideStmt(Value::Reference(
                vec![typed_word("x", named("Player")), typed_word("score", number())],
                Some(number()),
            ));
            assert_eq!(p.body, expected);
        }
        other => panic!("{:?}", other),
    }
}
