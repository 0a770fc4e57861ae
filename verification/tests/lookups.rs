use rulebook::ast::{
    Binding, Comparator, Declaration, GenericBinding, Matcher, ProvisionBodyStmt, Type,
    TypeType, Value,
};
use rulebook::copy::{
    copy_bindings, copy_body, copy_matcher, copy_matchers, copy_optional, copy_texts, copy_type,
    copy_value, copy_values,
};
use rulebook::error::SemanticKind;
use rulebook::program::{parse_declarations, parse_program};
use rulebook::query::type_of;
use rulebook::resolve::{
    annotate_body, annotate_matcher, annotate_value, bind_all, bind_generics, bind_header,
    bind_in_contents, bind_in_declaration, bind_type_use,
    binding_position, builtin_contents, first_word, holds, is_digits, is_known,
    provision_position, reference_type, type_of_word, type_position, unknown_position,
    used_before, variant_position,
};

const BOOK: &str = "Suit is a Hearts or a Spades\n\
                    Card has a Number called rank and a Suit called suit\n\
                    Given a c called a Card resolve a value to get a Number \
                    by if the c of suit is Hearts then providing the c of rank else providing 0";

fn raw(name: &str) -> Type {
    Type {
        name: name.to_string(),
        contents: TypeType::Declaration,
        generics: GenericBinding::Unbound(vec![]),
    }
}

fn number() -> Type {
    Type {
        name: "Number".to_string(),
        contents: TypeType::Number,
        generics: GenericBinding::Bound(vec![]),
    }
}

fn named(name: &str) -> Type {
    Type {
        name: name.to_string(),
        contents: TypeType::Declaration,
        generics: GenericBinding::Bound(vec![]),
    }
}

fn s(text: &str) -> String {
    text.to_string()
}

#[test]
fn fields_are_found_by_name() {
    let book = parse_program(BOOK).unwrap();
    let card = book.type_named("Card").unwrap();
    assert_eq!(card.field("rank"), Some(&number()));
    assert_eq!(card.field("suit"), Some(&named("Suit")));
    assert_eq!(card.field("colour"), None);
    let suit = book.type_named("Suit").unwrap();
    assert_eq!(suit.field("Hearts"), None);
    assert!(book.type_named("value").is_none());
    assert!(book.type_named("Deck").is_none());
}

#[test]
fn parameters_are_found_by_name() {
    let book = parse_program(BOOK).unwrap();
    let value = book.provision_named("value").unwrap();
    assert_eq!(value.name, "value");
    assert_eq!(value.parameter("c"), Some(&named("Card")));
    assert_eq!(value.parameter("d"), None);
    assert!(book.provision_named("Card").is_none());
}

#[test]
fn first_binding_of_a_name_is_found() {
    let items = vec![
        Binding { name: s("a"), ty: raw("A") },
        Binding { name: s("b"), ty: raw("B") },
        Binding { name: s("a"), ty: raw("C") },
    ];
    assert_eq!(type_of(&items, "a"), Some(&raw("A")));
    assert_eq!(type_of(&items, "b"), Some(&raw("B")));
    assert_eq!(type_of(&items, "c"), None);
    assert_eq!(binding_position(&items, &s("a")), Some(0));
    assert_eq!(binding_position(&items, &s("b")), Some(1));
    assert_eq!(binding_position(&items, &s("z")), None);
}

#[test]
fn declarations_are_found_by_name() {
    let (raw_book, _) = parse_declarations(BOOK).unwrap();
    let decls = &raw_book.declarations;
    assert_eq!(type_position(decls, &s("Suit")), Some(0));
    assert_eq!(type_position(decls, &s("Card")), Some(1));
    assert_eq!(type_position(decls, &s("value")), None);
    assert_eq!(provision_position(decls, &s("value")), Some(2));
    assert_eq!(provision_position(decls, &s("Card")), None);
    assert_eq!(variant_position(decls, &s("Spades")), Some(0));
    assert_eq!(variant_position(decls, &s("rank")), None);
}

#[test]
fn built_in_and_declared_types_are_known() {
    let (raw_book, _) = parse_declarations(BOOK).unwrap();
    let decls = &raw_book.declarations;
    assert!(is_known(decls, &s("Number")));
    assert!(is_known(decls, &s("Function")));
    assert!(is_known(decls, &s("Card")));
    assert!(!is_known(decls, &s("Deck")));
    assert!(!is_known(decls, &s("number")));
    assert_eq!(builtin_contents(&s("Number")), Some(TypeType::Number));
    assert_eq!(builtin_contents(&s("Function")), Some(TypeType::Function));
    assert_eq!(builtin_contents(&s("Declaration")), None);
    assert_eq!(unknown_position(decls, &vec![s("Card"), s("Number")]), None);
    assert_eq!(unknown_position(decls, &vec![s("Card"), s("Deck"), s("Pile")]), Some(1));
}

#[test]
fn references_to_types_are_bound() {
    assert_eq!(reference_type(&s("Number")), number());
    assert_eq!(reference_type(&s("Card")), named("Card"));
    let bound = bind_generics(&vec![s("Number"), s("Card")]);
    let expected = vec![
        Binding { name: s("Number"), ty: number() },
        Binding { name: s("Card"), ty: named("Card") },
    ];
    assert_eq!(bound, expected);
}

#[test]
fn binding_a_type_use() {
    let (raw_book, _) = parse_declarations(BOOK).unwrap();
    let decls = &raw_book.declarations;
    assert_eq!(bind_type_use(decls, &raw("Card")), Ok(named("Card")));
    assert_eq!(bind_type_use(decls, &raw("Number")), Ok(number()));
    assert_eq!(
        bind_type_use(decls, &raw("Deck")),
        Err((SemanticKind::UnknownTypeReference, s("Deck")))
    );
    let generic = Type {
        name: s("Card"),
        contents: TypeType::Declaration,
        generics: GenericBinding::Unbound(vec![s("Suit"), s("Deck")]),
    };
    assert_eq!(
        bind_type_use(decls, &generic),
        Err((SemanticKind::UnknownTypeReference, s("Deck")))
    );
}

#[test]
fn a_bound_type_is_left_as_it_is() {
    let decls: Vec<Declaration> = vec![];
    let odd = Type {
        name: s("Nowhere"),
        contents: TypeType::EnumDecl(vec![s("A")]),
        generics: GenericBinding::Bound(vec![Binding { name: s("T"), ty: raw("Gone") }]),
    };
    assert_eq!(bind_type_use(&decls, &odd), Ok(copy_type(&odd)));
}

#[test]
fn binding_stops_at_the_first_unknown_type() {
    let (raw_book, _) = parse_declarations(BOOK).unwrap();
    let decls = &raw_book.declarations;
    let items = vec![
        Binding { name: s("a"), ty: raw("Card") },
        Binding { name: s("b"), ty: raw("Deck") },
        Binding { name: s("c"), ty: raw("Pile") },
    ];
    assert_eq!(bind_all(decls, &items), Err((SemanticKind::UnknownTypeReference, s("Deck"))));
    let fine = vec![Binding { name: s("a"), ty: raw("Card") }];
    assert_eq!(bind_all(decls, &fine), Ok(vec![Binding { name: s("a"), ty: named("Card") }]));
}

#[test]
fn numbers_are_runs_of_digits() {
    assert!(is_digits(&s("0")));
    assert!(is_digits(&s("0123456789")));
    assert!(!is_digits(&s("")));
    assert!(!is_digits(&s("12a")));
    assert!(!is_digits(&s("-1")));
    assert!(!is_digits(&s("1.5")));
    assert!(!is_digits(&s("\u{663}")));
    assert!(!is_digits(&s("1\u{e9}")));
}

#[test]
fn strings_are_found_in_lists() {
    let items = vec![s("a"), s("b")];
    assert!(holds(&items, &s("a")));
    assert!(holds(&items, &s("b")));
    assert!(!holds(&items, &s("c")));
    assert!(!holds(&vec![], &s("a")));
}

#[test]
fn a_word_is_typed_by_parameter_then_number_then_variant() {
    let book = parse_program(BOOK).unwrap();
    let decls = &book.declarations;
    let args = vec![
        Binding { name: s("c"), ty: named("Card") },
        Binding { name: s("7"), ty: named("Card") },
        Binding { name: s("Hearts"), ty: number() },
    ];
    assert_eq!(type_of_word(decls, &args, &s("c")), Some(named("Card")));
    assert_eq!(type_of_word(decls, &args, &s("7")), Some(named("Card")));
    assert_eq!(type_of_word(decls, &args, &s("8")), Some(number()));
    assert_eq!(type_of_word(decls, &args, &s("Hearts")), Some(number()));
    assert_eq!(type_of_word(decls, &args, &s("Spades")), Some(named("Suit")));
    assert_eq!(type_of_word(decls, &args, &s("Clubs")), None);
}

#[test]
fn leading_words() {
    let lit = |t: &str| Value::Literal(s(t), None);
    assert_eq!(first_word(&lit("a")), "a");
    assert_eq!(first_word(&Value::Invocation(s("f"), vec![s("x")], number())), "f");
    assert_eq!(first_word(&Value::Reference(vec![], None)), "");
    let nested = Value::Reference(vec![Value::Reference(vec![lit("deep"), lit("b")], None)], None);
    assert_eq!(first_word(&nested), "deep");
}

#[test]
fn resolved_values_are_left_as_they_are() {
    let book = parse_program(BOOK).unwrap();
    let decls = &book.declarations;
    let args: Vec<Binding> = vec![];
    let call = Value::Invocation(s("gone"), vec![s("x")], raw("Gone"));
    assert_eq!(annotate_value(decls, &args, &call), Ok(copy_value(&call)));
    let word = Value::Literal(s("gone"), Some(raw("Gone")));
    assert_eq!(annotate_value(decls, &args, &word), Ok(copy_value(&word)));
    let chain = Value::Reference(vec![Value::Literal(s("gone"), None)], Some(raw("Gone")));
    assert_eq!(annotate_value(decls, &args, &chain), Ok(copy_value(&chain)));
}

#[test]
fn a_chain_with_a_nested_reference_is_no_invocation() {
    let book = parse_program(BOOK).unwrap();
    let decls = &book.declarations;
    let args = vec![Binding { name: s("c"), ty: named("Card") }];
    let lit = |t: &str| Value::Literal(s(t), None);
    let chain = Value::Reference(
        vec![lit("value"), Value::Reference(vec![lit("c")], None)],
        None,
    );
    assert_eq!(
        annotate_value(decls, &args, &chain),
        Err((SemanticKind::UnknownField, s("value")))
    );
    let plain = Value::Reference(vec![lit("value"), lit("c")], None);
    assert_eq!(
        annotate_value(decls, &args, &plain),
        Ok(Value::Invocation(s("value"), vec![s("c")], number()))
    );
}

#[test]
fn matchers_and_bodies_are_resolved_in_reading_order() {
    let book = parse_program(BOOK).unwrap();
    let decls = &book.declarations;
    let args = vec![Binding { name: s("n"), ty: number() }];
    let lit = |t: &str| Value::Literal(s(t), None);
    let cmp = |l: &str, r: &str| Matcher::Comparison(lit(l), lit(r), Comparator::EQ);
    let m = Matcher::Or(vec![cmp("n", "1"), Matcher::Not(Box::new(cmp("n", "bad"))), cmp("worse", "n")]);
    assert_eq!(annotate_matcher(decls, &args, &m), Err((SemanticKind::UnknownField, s("bad"))));
    let b = ProvisionBodyStmt::IfStmt(
        cmp("n", "1"),
        Box::new(ProvisionBodyStmt::ProvideStmt(lit("first"))),
        Box::new(ProvisionBodyStmt::ProvideStmt(lit("second"))),
    );
    assert_eq!(annotate_body(decls, &args, &b), Err((SemanticKind::UnknownField, s("first"))));
    let typed = |t: &str| Value::Literal(s(t), Some(number()));
    let fine = Matcher::And(vec![cmp("n", "1"), cmp("2", "n")]);
    let expected = Matcher::And(vec![
        Matcher::Comparison(typed("n"), typed("1"), Comparator::EQ),
        Matcher::Comparison(typed("2"), typed("n"), Comparator::EQ),
    ]);
    assert_eq!(annotate_matcher(decls, &args, &fine), Ok(expected));
}

#[test]
fn copies_are_equal_to_what_they_copy() {
    let book = parse_program(BOOK).unwrap();
    for d in &book.declarations {
        match d {
            Declaration::TypeDecl(t) => {
                assert_eq!(&copy_type(t), t);
                if let TypeType::RecordDecl(fields) = &t.contents {
                    assert_eq!(&copy_bindings(fields), fields);
                }
                if let TypeType::EnumDecl(names) = &t.contents {
                    assert_eq!(&copy_texts(names), names);
                }
            }
            Declaration::ProvisionDecl(p) => {
                assert_eq!(&copy_body(&p.body), &p.body);
                assert_eq!(&copy_bindings(&p.args), &p.args);
                if let ProvisionBodyStmt::IfStmt(m, yes, _) = &p.body {
                    assert_eq!(&copy_matcher(m), m);
                    assert_eq!(copy_matchers(&vec![copy_matcher(m)]), vec![copy_matcher(m)]);
                    if let ProvisionBodyStmt::ProvideStmt(v) = &**yes {
                        assert_eq!(&copy_value(v), v);
                        assert_eq!(copy_values(&vec![copy_value(v)]), vec![copy_value(v)]);
                    }
                }
            }
        }
    }
    assert_eq!(copy_optional(&None), None);
    assert_eq!(copy_optional(&Some(number())), Some(number()));
}

#[test]
fn clones_are_equal_to_what_they_clone() {
    let book = parse_program(BOOK).unwrap();
    assert_eq!(book.clone(), book);
    for d in &book.declarations {
        assert_eq!(&d.clone(), d);
        match d {
            Declaration::TypeDecl(t) => {
                assert_eq!(&t.clone(), t);
                assert_eq!(t.contents.clone(), t.contents);
                assert_eq!(t.generics.clone(), t.generics);
            }
            Declaration::ProvisionDecl(p) => {
                assert_eq!(&p.clone(), p);
                assert_eq!(p.body.clone(), p.body);
                assert_eq!(p.args[0].clone(), p.args[0]);
            }
        }
    }
    let failed = parse_program("Pair has a Number called n and a Number called n").unwrap_err();
    assert_eq!(failed.clone(), failed);
    let failed = parse_program("Pair has").unwrap_err();
    assert_eq!(failed.clone(), failed);
    let lit = Value::Literal(s("x"), Some(number()));
    assert_eq!(lit.clone(), lit);
    let m = Matcher::Not(Box::new(Matcher::Comparison(lit.clone(), lit.clone(), Comparator::LT)));
    assert_eq!(m.clone(), m);
}

#[test]
fn generic_parameters_are_bound_or_rejected() {
    let (raw_book, _) = parse_declarations(BOOK).unwrap();
    let decls = &raw_book.declarations;
    assert_eq!(
        bind_header(decls, &GenericBinding::Unbound(vec![])),
        Ok(GenericBinding::Bound(vec![]))
    );
    assert_eq!(
        bind_header(decls, &GenericBinding::Unbound(vec![s("Suit"), s("Number")])),
        Ok(GenericBinding::Bound(vec![
            Binding { name: s("Suit"), ty: named("Suit") },
            Binding { name: s("Number"), ty: number() },
        ]))
    );
    assert_eq!(
        bind_header(decls, &GenericBinding::Unbound(vec![s("Suit"), s("Item"), s("Other")])),
        Err((SemanticKind::UnknownTypeReference, s("Item")))
    );
    let bound = GenericBinding::Bound(vec![Binding { name: s("T"), ty: raw("Gone") }]);
    assert_eq!(bind_header(decls, &bound), Ok(bound.clone()));
}

#[test]
fn contents_of_a_declared_type_are_bound() {
    let (raw_book, _) = parse_declarations(BOOK).unwrap();
    let decls = &raw_book.declarations;
    let record = TypeType::RecordDecl(vec![Binding { name: s("a"), ty: raw("Card") }]);
    assert_eq!(
        bind_in_contents(decls, &record),
        Ok(TypeType::RecordDecl(vec![Binding { name: s("a"), ty: named("Card") }]))
    );
    let broken = TypeType::RecordDecl(vec![Binding { name: s("a"), ty: raw("Deck") }]);
    assert_eq!(
        bind_in_contents(decls, &broken),
        Err((SemanticKind::UnknownTypeReference, s("Deck")))
    );
    let variants = TypeType::EnumDecl(vec![s("A"), s("B")]);
    assert_eq!(bind_in_contents(decls, &variants), Ok(variants.clone()));
    assert_eq!(bind_in_contents(decls, &TypeType::Number), Ok(TypeType::Number));
}

#[test]
fn a_declared_type_is_bound_header_first() {
    let (raw_book, _) = parse_declarations(BOOK).unwrap();
    let decls = &raw_book.declarations;
    let declared = |generics: Vec<String>, field: &str| {
        Declaration::TypeDecl(Type {
            name: s("Box"),
            contents: TypeType::RecordDecl(vec![Binding { name: s("inside"), ty: raw(field) }]),
            generics: GenericBinding::Unbound(generics),
        })
    };
    assert_eq!(
        bind_in_declaration(decls, &declared(vec![s("Item")], "Card")),
        Err((SemanticKind::UnknownTypeReference, s("Item")))
    );
    assert_eq!(
        bind_in_declaration(decls, &declared(vec![s("Item")], "Deck")),
        Err((SemanticKind::UnknownTypeReference, s("Item")))
    );
    assert_eq!(
        bind_in_declaration(decls, &declared(vec![s("Suit")], "Deck")),
        Err((SemanticKind::UnknownTypeReference, s("Deck")))
    );
    let expected = Declaration::TypeDecl(Type {
        name: s("Box"),
        contents: TypeType::RecordDecl(vec![Binding { name: s("inside"), ty: named("Card") }]),
        generics: GenericBinding::Bound(vec![Binding { name: s("Suit"), ty: named("Suit") }]),
    });
    assert_eq!(bind_in_declaration(decls, &declared(vec![s("Suit")], "Card")), Ok(expected));
}

#[test]
fn a_generic_parameter_written_twice_is_bound_once() {
    let bound = bind_generics(&vec![s("T"), s("Number"), s("T"), s("U"), s("Number")]);
    let expected = vec![
        Binding { name: s("T"), ty: named("T") },
        Binding { name: s("Number"), ty: number() },
        Binding { name: s("U"), ty: named("U") },
    ];
    assert_eq!(bound, expected);
    assert_eq!(bind_generics(&vec![]), vec![]);
    let book = parse_program("Pair of Number and Number is a Both").unwrap();
    let expected = Declaration::TypeDecl(Type {
        name: s("Pair"),
        contents: TypeType::EnumDecl(vec![s("Both")]),
        generics: GenericBinding::Bound(vec![Binding { name: s("Number"), ty: number() }]),
    });
    assert_eq!(book.declarations[0], expected);
}

#[test]
fn earlier_uses_of_a_name_are_found() {
    let names = vec![s("a"), s("b"), s("a"), s("c"), s("b")];
    assert!(!used_before(&names, 0));
    assert!(!used_before(&names, 1));
    assert!(used_before(&names, 2));
    assert!(!used_before(&names, 3));
    assert!(used_before(&names, 4));
    assert!(!used_before(&names, 5));
    assert!(!used_before(&names, usize::MAX));
}
