use rulebook::ast::{
    Binding, Comparator, Declaration, GenericBinding, Matcher, Program, Provision,
    ProvisionBodyStmt, Type, TypeType, Value,
};
use rulebook::error::{
    Expected, ParseError, Production, ResolveError, SemanticError, SemanticKind, SyntaxError,
};
use rulebook::program::{parse_declaration, parse_declarations, parse_program};
use rulebook::resolve::resolve_program;

fn number() -> Type {
    Type {
        name: "Number".to_string(),
        contents: TypeType::Number,
        generics: GenericBinding::Bound(vec![]),
    }
}

fn named(name: &str) -> Type {
    Type {
        name: name.to_string(),
        contents: TypeType::Declaration,
        generics: GenericBinding::Bound(vec![]),
    }
}

fn typed(text: &str, ty: Type) -> Value {
    Value::Literal(text.to_string(), Some(ty))
}

fn semantic(
    kind: SemanticKind,
    production: Production,
    offset: usize,
    identifier: &str,
    context: &str,
) -> ParseError {
    ParseError::Semantic(SemanticError {
        kind,
        production,
        offset,
        identifier: identifier.to_string(),
        context: context.to_string(),
    })
}

fn syntax(production: Production, expected: Expected, offset: usize) -> ParseError {
    ParseError::Syntax(SyntaxError { production, expected, offset })
}

fn body_of(book: &Program, index: usize) -> &ProvisionBodyStmt {
    match &book.declarations[index] {
        Declaration::ProvisionDecl(p) => &p.body,
        other => panic!("{:?}", other),
    }
}

#[test]
fn empty_text_is_an_empty_rule_book() {
    assert_eq!(parse_program(""), Ok(Program { declarations: vec![] }));
    assert_eq!(parse_program(" \n\t "), Ok(Program { declarations: vec![] }));
}

#[test]
fn whitespace_around_declarations_is_skipped() {
    let book = parse_program("\n  Suit is a Hearts\n\nRank is a Two or a Three  \n").unwrap();
    assert_eq!(book.declarations.len(), 2);
    let (raw, at) = parse_declarations("\n  Suit is a Hearts\n\nRank is a Two or a Three  \n")
        .unwrap();
    assert_eq!(raw.declarations.len(), 2);
    assert_eq!(at, vec![3, 21]);
}

#[test]
fn parsing_twice_gives_equal_trees() {
    let text = "Player has a Number called score \
                Given a p called a Player resolve a points to get a Number \
                by if the p of score is at least 10 then providing 10 else providing the p of score";
    assert_eq!(parse_program(text), parse_program(text));
    let broken = "Player has a Number called";
    assert_eq!(parse_program(broken), parse_program(broken));
    assert!(parse_program(broken).is_err());
}

#[test]
fn junk_after_a_declaration_is_an_error() {
    assert_eq!(
        parse_program("Suit is a Hearts!"),
        Err(syntax(Production::Program, Expected::EndOfInput, 16))
    );
}

#[test]
fn a_failed_declaration_fails_the_whole_text() {
    assert_eq!(
        parse_program("Suit is a Hearts Rank is Two"),
        Err(syntax(Production::TypeDecl, Expected::IsOrHas, 22))
    );
    assert_eq!(
        parse_program("Suit is a Hearts or a"),
        Err(syntax(Production::EnumDecl, Expected::Word, 21))
    );
    assert_eq!(
        parse_program("Pair has a Number called a and a Number"),
        Err(syntax(Production::RecordDecl, Expected::Called, 39))
    );
    assert_eq!(
        parse_program("Box of Item and is a Crate"),
        Err(syntax(Production::TypeDecl, Expected::IsOrHas, 19))
    );
    assert_eq!(
        parse_program("Box of Item and  "),
        Err(syntax(Production::TypeInstantiation, Expected::Word, 17))
    );
}

#[test]
fn declaration_reports_the_alternative_that_got_further() {
    assert_eq!(
        parse_declaration("Given a x called a Number resolve", 0),
        Err(syntax(Production::Header, Expected::Resolve, 26))
    );
    assert_eq!(
        parse_declaration("Given", 0),
        Err(syntax(Production::TypeDecl, Expected::IsOrHas, 5))
    );
    assert_eq!(
        parse_declaration("!", 0),
        Err(syntax(Production::Arguments, Expected::Given, 0))
    );
}

#[test]
fn a_type_may_be_called_given() {
    let (d, end) = parse_declaration("Given is a Present", 0).unwrap();
    assert_eq!(end, 18);
    assert!(matches!(d, Declaration::TypeDecl(_)));
}

#[test]
fn duplicate_errors_pass_through_the_pipeline() {
    let text = "Suit is a Hearts\nPair has a Number called n and a Number called n";
    assert_eq!(text.len(), 65);
    assert_eq!(
        parse_program(text),
        Err(semantic(SemanticKind::DuplicateField, Production::RecordDecl, 64, "n", "Pair"))
    );
    let text = "Given a x called a Number then x called a Number \
                resolve a f to get a Number by providing x";
    assert_eq!(
        parse_program(text),
        Err(semantic(SemanticKind::DuplicateParameter, Production::Arguments, 31, "x", "f"))
    );
}

#[test]
fn unknown_type_is_reported_at_its_declaration() {
    let text = "Suit is a Hearts\nHand has a Card called first";
    assert_eq!(
        parse_program(text),
        Err(semantic(
            SemanticKind::UnknownTypeReference,
            Production::TypeInstantiation,
            17,
            "Card",
            "Hand"
        ))
    );
}

#[test]
fn unknown_generic_argument_is_reported() {
    let text = "List is a Nil\nHand has a List of Card called cards";
    assert_eq!(
        parse_program(text),
        Err(semantic(
            SemanticKind::UnknownTypeReference,
            Production::TypeInstantiation,
            14,
            "Card",
            "Hand"
        ))
    );
}

#[test]
fn unknown_generic_parameter_of_a_declared_type_is_reported() {
    let text = "Suit is a Hearts\nList of T and Suit is a Nil";
    assert_eq!(
        parse_program(text),
        Err(semantic(
            SemanticKind::UnknownTypeReference,
            Production::TypeInstantiation,
            17,
            "T",
            "List"
        ))
    );
    let text = "Pair of Left and Right has a Left called a and a Wrong called b\n\
                Left is a L";
    assert_eq!(
        parse_program(text),
        Err(semantic(
            SemanticKind::UnknownTypeReference,
            Production::TypeInstantiation,
            0,
            "Right",
            "Pair"
        ))
    );
}

#[test]
fn generic_parameters_of_a_declared_type_are_bound() {
    let text = "List of Card and Number and List is a Nil or a Cons\nCard is a Ace";
    let book = parse_program(text).unwrap();
    let expected = Declaration::TypeDecl(Type {
        name: "List".to_string(),
        contents: TypeType::EnumDecl(vec!["Nil".to_string(), "Cons".to_string()]),
        generics: GenericBinding::Bound(vec![
            Binding { name: "Card".to_string(), ty: named("Card") },
            Binding { name: "Number".to_string(), ty: number() },
            Binding { name: "List".to_string(), ty: named("List") },
        ]),
    });
    assert_eq!(book.declarations[0], expected);
}

#[test]
fn unknown_return_type_is_reported() {
    let text = "Given a x called a Number resolve a f to get a Score by providing x";
    assert_eq!(
        parse_program(text),
        Err(semantic(
            SemanticKind::UnknownTypeReference,
            Production::TypeInstantiation,
            0,
            "Score",
            "f"
        ))
    );
}

#[test]
fn types_may_be_declared_after_their_use() {
    let text = "Hand has a Card called first and a List of Card called rest\n\
                Card is a Ace or a King\n\
                List of Card is a Nil";
    let book = parse_program(text).unwrap();
    let expected = Declaration::TypeDecl(Type {
        name: "Hand".to_string(),
        contents: TypeType::RecordDecl(vec![
            Binding { name: "first".to_string(), ty: named("Card") },
            Binding {
                name: "rest".to_string(),
                ty: Type {
                    name: "List".to_string(),
                    contents: TypeType::Declaration,
                    generics: GenericBinding::Bound(vec![Binding {
                        name: "Card".to_string(),
                        ty: named("Card"),
                    }]),
                },
            },
        ]),
        generics: GenericBinding::Bound(vec![]),
    });
    assert_eq!(book.declarations[0], expected);
}

#[test]
fn built_in_types_show_their_contents() {
    let text = "Rule has a Function called effect and a Number called cost";
    let book = parse_program(text).unwrap();
    let function = Type {
        name: "Function".to_string(),
        contents: TypeType::Function,
        generics: GenericBinding::Bound(vec![]),
    };
    let expected = Declaration::TypeDecl(Type {
        name: "Rule".to_string(),
        contents: TypeType::RecordDecl(vec![
            Binding { name: "effect".to_string(), ty: function },
            Binding { name: "cost".to_string(), ty: number() },
        ]),
        generics: GenericBinding::Bound(vec![]),
    });
    assert_eq!(book.declarations[0], expected);
}

#[test]
fn provisions_may_be_declared_after_their_use() {
    let text = "Given a x called a Number resolve a twice to get a Number by providing the total of x\n\
                Given a x called a Number resolve a total to get a Number by providing x";
    let book = parse_program(text).unwrap();
    let expected = ProvisionBodyStmt::ProvideStmt(Value::Invocation(
        "total".to_string(),
        vec!["x".to_string()],
        number(),
    ));
    assert_eq!(body_of(&book, 0), &expected);
    assert_eq!(body_of(&book, 1), &ProvisionBodyStmt::ProvideStmt(typed("x", number())));
}

#[test]
fn provision_name_comes_before_parameter_name() {
    let text = "Given a total called a Number resolve a total to get a Number \
                by providing the total";
    let book = parse_program(text).unwrap();
    let expected = ProvisionBodyStmt::ProvideStmt(Value::Invocation(
        "total".to_string(),
        vec![],
        number(),
    ));
    assert_eq!(body_of(&book, 0), &expected);
}

#[test]
fn projection_walks_through_records() {
    let text = "Card has a Number called rank\n\
                Player has a Card called best\n\
                Given a p called a Player resolve a top to get a Number \
                by providing the p of best of rank";
    let book = parse_program(text).unwrap();
    let expected = ProvisionBodyStmt::ProvideStmt(Value::Reference(
        vec![
            typed("p", named("Player")),
            typed("best", named("Card")),
            typed("rank", number()),
        ],
        Some(number()),
    ));
    assert_eq!(body_of(&book, 2), &expected);
}

#[test]
fn unknown_field_is_reported() {
    let text = "Card has a Number called rank\n\
                Given a c called a Card resolve a f to get a Number by providing the c of suit";
    assert_eq!(
        parse_program(text),
        Err(semantic(SemanticKind::UnknownField, Production::Value, 30, "suit", "f"))
    );
}

#[test]
fn unknown_head_is_reported() {
    let text = "Given a c called a Number resolve a f to get a Number by providing the d";
    assert_eq!(
        parse_program(text),
        Err(semantic(SemanticKind::UnknownField, Production::Value, 0, "d", "f"))
    );
}

#[test]
fn unknown_word_is_reported() {
    let text = "Given a c called a Number resolve a f to get a Number by providing d";
    assert_eq!(
        parse_program(text),
        Err(semantic(SemanticKind::UnknownField, Production::Value, 0, "d", "f"))
    );
}

#[test]
fn projection_through_a_number_is_not_a_record() {
    let text = "Given a c called a Number resolve a f to get a Number by providing the c of rank";
    assert_eq!(
        parse_program(text),
        Err(semantic(SemanticKind::NotARecord, Production::Value, 0, "Number", "f"))
    );
}

#[test]
fn projection_through_an_enum_is_not_a_record() {
    let text = "Suit is a Hearts or a Spades\n\
                Given a s called a Suit resolve a f to get a Number by providing the s of rank";
    assert_eq!(
        parse_program(text),
        Err(semantic(SemanticKind::NotARecord, Production::Value, 29, "Suit", "f"))
    );
}

#[test]
fn nested_reference_in_a_chain_names_no_field() {
    let text = "Card has a Number called rank\n\
                Given a c called a Card resolve a f to get a Number \
                by providing the c of the rank";
    assert_eq!(
        parse_program(text),
        Err(semantic(SemanticKind::UnknownField, Production::Value, 30, "rank", "f"))
    );
}

#[test]
fn words_get_their_types() {
    let text = "Suit is a Hearts or a Spades\n\
                Given a s called a Suit then n called a Number resolve a f to get a Number \
                by if s is Hearts and n is at least 10 then providing n else providing 0";
    let book = parse_program(text).unwrap();
    let expected = ProvisionBodyStmt::IfStmt(
        Matcher::And(vec![
            Matcher::Comparison(
                typed("s", named("Suit")),
                typed("Hearts", named("Suit")),
                Comparator::EQ,
            ),
            Matcher::Comparison(typed("n", number()), typed("10", number()), Comparator::GTE),
        ]),
        Box::new(ProvisionBodyStmt::ProvideStmt(typed("n", number()))),
        Box::new(ProvisionBodyStmt::ProvideStmt(typed("0", number()))),
    );
    assert_eq!(body_of(&book, 1), &expected);
}

#[test]
fn first_failing_value_is_reported() {
    let text = "Given a n called a Number resolve a f to get a Number \
                by if n is a or b is n then providing c else providing d";
    assert_eq!(
        parse_program(text),
        Err(semantic(SemanticKind::UnknownField, Production::Value, 0, "a", "f"))
    );
}

#[test]
fn types_are_bound_in_all_declarations_before_values_are_annotated() {
    let text = "Given a n called a Number resolve a f to get a Number by providing oops\n\
                Hand has a Card called first";
    assert_eq!(
        parse_program(text),
        Err(semantic(
            SemanticKind::UnknownTypeReference,
            Production::TypeInstantiation,
            72,
            "Card",
            "Hand"
        ))
    );
}

#[test]
fn resolving_again_changes_nothing() {
    let text = "Card has a Number called rank and a Suit called suit\n\
                Suit is a Hearts or a Spades\n\
                Given a c called a Card resolve a red to get a Number \
                by if the c of suit is Hearts then providing the c of rank else providing 0\n\
                Given a c called a Card resolve a twice to get a Number by providing the red of c";
    let book = parse_program(text).unwrap();
    let again = resolve_program(&book).unwrap();
    assert_eq!(again, book);
}

#[test]
fn resolution_of_a_hand_built_rule_book() {
    let raw = |name: &str| Type {
        name: name.to_string(),
        contents: TypeType::Declaration,
        generics: GenericBinding::Unbound(vec![]),
    };
    let total = Provision {
        name: "total".to_string(),
        args: vec![Binding { name: "x".to_string(), ty: raw("Number") }],
        body: ProvisionBodyStmt::ProvideStmt(Value::Literal("x".to_string(), None)),
        returns: raw("Number"),
    };
    let user = Provision {
        name: "user".to_string(),
        args: vec![Binding { name: "x".to_string(), ty: raw("Number") }],
        body: ProvisionBodyStmt::ProvideStmt(Value::Reference(
            vec![
                Value::Literal("total".to_string(), None),
                Value::Literal("x".to_string(), None),
            ],
            None,
        )),
        returns: raw("Number"),
    };
    let book = Program {
        declarations: vec![Declaration::ProvisionDecl(total), Declaration::ProvisionDecl(user)],
    };
    let done = resolve_program(&book).unwrap();
    let expected = ProvisionBodyStmt::ProvideStmt(Value::Invocation(
        "total".to_string(),
        vec!["x".to_string()],
        number(),
    ));
    assert_eq!(body_of(&done, 1), &expected);
}

#[test]
fn resolution_names_the_failing_declaration() {
    let raw = |name: &str| Type {
        name: name.to_string(),
        contents: TypeType::Declaration,
        generics: GenericBinding::Unbound(vec![]),
    };
    let fine = Type {
        name: "Suit".to_string(),
        contents: TypeType::EnumDecl(vec!["Hearts".to_string()]),
        generics: GenericBinding::Unbound(vec![]),
    };
    let broken = Type {
        name: "Hand".to_string(),
        contents: TypeType::RecordDecl(vec![
            Binding { name: "a".to_string(), ty: raw("Suit") },
            Binding { name: "b".to_string(), ty: raw("Card") },
        ]),
        generics: GenericBinding::Unbound(vec![]),
    };
    let book = Program {
        declarations: vec![Declaration::TypeDecl(fine), Declaration::TypeDecl(broken)],
    };
    let expected = ResolveError {
        kind: SemanticKind::UnknownTypeReference,
        identifier: "Card".to_string(),
        declaration: 1,
    };
    assert_eq!(resolve_program(&book), Err(expected));
}

#[test]
fn empty_reference_names_nothing() {
    let number_arg = Binding {
        name: "x".to_string(),
        ty: Type {
            name: "Number".to_string(),
            contents: TypeType::Declaration,
            generics: GenericBinding::Unbound(vec![]),
        },
    };
    let p = Provision {
        name: "f".to_string(),
        args: vec![number_arg],
        body: ProvisionBodyStmt::ProvideStmt(Value::Reference(vec![], None)),
        returns: number(),
    };
    let book = Program { declarations: vec![Declaration::ProvisionDecl(p)] };
    let expected = ResolveError {
        kind: SemanticKind::UnknownField,
        identifier: String::new(),
        declaration: 0,
    };
    assert_eq!(resolve_program(&book), Err(expected));
}

#[test]
fn repeated_variant_fails_the_whole_text() {
    let text = "Rank is a Two or a Three\nSuit is a Hearts or a Spades or a Hearts";
    assert_eq!(
        parse_program(text),
        Err(ParseError::Semantic(SemanticError {
            kind: SemanticKind::DuplicateField,
            production: Production::EnumDecl,
            offset: text.rfind("Hearts").unwrap(),
            identifier: "Hearts".to_string(),
            context: "Suit".to_string(),
        }))
    );
}
