use rulebook::ast::{Binding, GenericBinding, Type, TypeType};
use rulebook::error::{
    Expected, ParseError, Production, SemanticError, SemanticKind, SyntaxError,
};
use rulebook::types::{
    first_duplicate, first_repeated, parse_enum, parse_field, parse_fields, parse_record,
    parse_type_decl, parse_type_instantiation, parse_variants, repeated,
};

fn unbound(name: &str, generics: &[&str]) -> Type {
    Type {
        name: name.to_string(),
        contents: TypeType::Declaration,
        generics: GenericBinding::Unbound(generics.iter().map(|g| g.to_string()).collect()),
    }
}

fn field(name: &str, ty: Type) -> Binding {
    Binding { name: name.to_string(), ty }
}

fn syntax(production: Production, expected: Expected, offset: usize) -> SyntaxError {
    SyntaxError { production, expected, offset }
}

#[test]
fn type_without_generics() {
    assert_eq!(parse_type_instantiation("Number", 0), Ok((unbound("Number", &[]), 6)));
    assert_eq!(parse_type_instantiation("Number called", 0), Ok((unbound("Number", &[]), 6)));
}

#[test]
fn type_with_one_generic() {
    assert_eq!(
        parse_type_instantiation("Container of Item", 0),
        Ok((unbound("Container", &["Item"]), 17))
    );
}

#[test]
fn type_with_several_generics() {
    let text = "Map of Key and Value and Extra has";
    assert_eq!(
        parse_type_instantiation(text, 0),
        Ok((unbound("Map", &["Key", "Value", "Extra"]), 30))
    );
}

#[test]
fn generic_separator_is_and_not_of() {
    assert_eq!(
        parse_type_instantiation("Map of Key of Value", 0),
        Ok((unbound("Map", &["Key"]), 10))
    );
}

#[test]
fn generic_separator_must_be_followed_by_a_name() {
    assert_eq!(
        parse_type_instantiation("Box of ", 0),
        Err(syntax(Production::TypeInstantiation, Expected::Word, 7))
    );
    assert_eq!(
        parse_type_instantiation("Box of A and ", 0),
        Err(syntax(Production::TypeInstantiation, Expected::Word, 13))
    );
    assert_eq!(
        parse_type_instantiation("Box of A and !", 0),
        Err(syntax(Production::TypeInstantiation, Expected::Word, 13))
    );
}

#[test]
fn type_needs_a_name() {
    assert_eq!(
        parse_type_instantiation(" Number", 0),
        Err(syntax(Production::TypeInstantiation, Expected::Word, 0))
    );
    assert_eq!(
        parse_type_instantiation("x", 4),
        Err(syntax(Production::TypeInstantiation, Expected::Word, 4))
    );
}

#[test]
fn enum_with_both_articles() {
    let text = "Ace or a King or an Eight";
    let expected = TypeType::EnumDecl(vec![
        "Ace".to_string(),
        "King".to_string(),
        "Eight".to_string(),
    ]);
    assert_eq!(parse_enum(text, 0), Ok((expected, text.len())));
}

#[test]
fn enum_of_one_variant() {
    assert_eq!(parse_enum("Only", 0), Ok((TypeType::EnumDecl(vec!["Only".to_string()]), 4)));
}

#[test]
fn enum_ends_where_no_separator_follows() {
    assert_eq!(
        parse_enum("Ace or King", 0),
        Ok((TypeType::EnumDecl(vec!["Ace".to_string()]), 3))
    );
    assert_eq!(
        parse_enum("Ace and a King", 0),
        Ok((TypeType::EnumDecl(vec!["Ace".to_string()]), 3))
    );
}

#[test]
fn enum_separator_must_be_followed_by_a_variant() {
    assert_eq!(
        parse_enum("Ace or a ", 0),
        Err(ParseError::Syntax(syntax(Production::EnumDecl, Expected::Word, 9)))
    );
    assert_eq!(
        parse_enum("Ace or a King or an", 0),
        Err(ParseError::Syntax(syntax(Production::EnumDecl, Expected::Word, 19)))
    );
}

#[test]
fn record_separator_must_be_followed_by_a_field() {
    assert_eq!(
        parse_record("A called a and a", 0),
        Err(ParseError::Syntax(syntax(Production::TypeInstantiation, Expected::Word, 16)))
    );
    assert_eq!(
        parse_record("A called a and an B", 0),
        Err(ParseError::Syntax(syntax(Production::RecordDecl, Expected::Called, 19)))
    );
    assert_eq!(
        parse_record("A called a and the", 0),
        Ok((TypeType::RecordDecl(vec![field("a", unbound("A", &[]))]), 10))
    );
}

#[test]
fn enum_needs_a_variant() {
    assert_eq!(
        parse_enum("", 0),
        Err(ParseError::Syntax(syntax(Production::EnumDecl, Expected::Word, 0)))
    );
}

#[test]
fn field_reports_the_place_of_its_name() {
    let text = "List of Item called items";
    assert_eq!(
        parse_field(text, 0),
        Ok((field("items", unbound("List", &["Item"])), 20, 25))
    );
}

#[test]
fn field_needs_called_and_a_name() {
    assert_eq!(
        parse_field("Number  count", 0),
        Err(syntax(Production::RecordDecl, Expected::Called, 8))
    );
    assert_eq!(
        parse_field("Number called  ", 0),
        Err(syntax(Production::RecordDecl, Expected::Word, 15))
    );
    assert_eq!(
        parse_field("Number", 0),
        Err(syntax(Production::RecordDecl, Expected::Called, 6))
    );
}

#[test]
fn record_with_both_articles() {
    let text = "Number called count and an Item called thing and a Number called total";
    let expected = TypeType::RecordDecl(vec![
        field("count", unbound("Number", &[])),
        field("thing", unbound("Item", &[])),
        field("total", unbound("Number", &[])),
    ]);
    assert_eq!(parse_record(text, 0), Ok((expected, text.len())));
}

#[test]
fn record_reports_the_first_repeated_name() {
    let text = "A called x and a B called y and a C called y and a D called x";
    let expected = ParseError::Semantic(SemanticError {
        kind: SemanticKind::DuplicateField,
        production: Production::RecordDecl,
        offset: 43,
        identifier: "y".to_string(),
        context: String::new(),
    });
    assert_eq!(&text[43..44], "y");
    assert_eq!(parse_record(text, 0), Err(expected));
}

#[test]
fn record_syntax_errors_come_first() {
    assert_eq!(
        parse_record("Number count", 0),
        Err(ParseError::Syntax(syntax(Production::RecordDecl, Expected::Called, 7)))
    );
}

#[test]
fn first_duplicate_finds_the_second_use() {
    let make = |names: &[&str]| -> Vec<Binding> {
        names.iter().map(|n| field(n, unbound("T", &[]))).collect()
    };
    assert_eq!(first_duplicate(&make(&[])), None);
    assert_eq!(first_duplicate(&make(&["a"])), None);
    assert_eq!(first_duplicate(&make(&["a", "b", "c"])), None);
    assert_eq!(first_duplicate(&make(&["a", "a"])), Some(1));
    assert_eq!(first_duplicate(&make(&["a", "b", "c", "b", "a"])), Some(3));
}

#[test]
fn type_decl_keeps_header_name_and_generics() {
    let text = "Deck of Card has a List of Card called cards";
    let expected = Type {
        name: "Deck".to_string(),
        contents: TypeType::RecordDecl(vec![field("cards", unbound("List", &["Card"]))]),
        generics: GenericBinding::Unbound(vec!["Card".to_string()]),
    };
    assert_eq!(parse_type_decl(text, 0), Ok((expected, text.len())));
}

#[test]
fn type_decl_with_each_keyword() {
    for (text, is_enum) in [
        ("T is a A", true),
        ("T is an A", true),
        ("T has a A called a", false),
        ("T has an A called a", false),
    ] {
        let (ty, end) = parse_type_decl(text, 0).unwrap();
        assert_eq!(end, text.len());
        assert_eq!(matches!(ty.contents, TypeType::EnumDecl(_)), is_enum);
        assert_eq!(matches!(ty.contents, TypeType::RecordDecl(_)), !is_enum);
    }
}

#[test]
fn type_decl_needs_is_or_has() {
    assert_eq!(
        parse_type_decl("Suit are Hearts", 0),
        Err(ParseError::Syntax(syntax(Production::TypeDecl, Expected::IsOrHas, 5)))
    );
    assert_eq!(
        parse_type_decl("Suit", 0),
        Err(ParseError::Syntax(syntax(Production::TypeDecl, Expected::IsOrHas, 4)))
    );
    assert_eq!(
        parse_type_decl("Suit is another", 0),
        Err(ParseError::Syntax(syntax(Production::TypeDecl, Expected::IsOrHas, 5)))
    );
}

#[test]
fn type_decl_needs_a_body() {
    assert_eq!(
        parse_type_decl("Suit is a", 0),
        Err(ParseError::Syntax(syntax(Production::EnumDecl, Expected::Word, 9)))
    );
    assert_eq!(
        parse_type_decl("Suit has a", 0),
        Err(ParseError::Syntax(syntax(Production::TypeInstantiation, Expected::Word, 10)))
    );
    assert_eq!(
        parse_type_decl("Suit has a  !", 0),
        Err(ParseError::Syntax(syntax(Production::TypeInstantiation, Expected::Word, 12)))
    );
}

#[test]
fn type_decl_names_the_record_in_a_duplicate() {
    let text = "  Hand has a Card called first and a Card called first";
    match parse_type_decl(text, 2) {
        Err(ParseError::Semantic(e)) => {
            assert_eq!(e.kind, SemanticKind::DuplicateField);
            assert_eq!(e.production, Production::RecordDecl);
            assert_eq!(e.identifier, "first");
            assert_eq!(e.context, "Hand");
            assert_eq!(e.offset, text.rfind("first").unwrap());
        }
        other => panic!("{:?}", other),
    }
}

#[test]
fn fields_come_with_the_places_of_their_names() {
    let text = "A called a and an Item of B called bb";
    let expected = vec![field("a", unbound("A", &[])), field("bb", unbound("Item", &["B"]))];
    assert_eq!(parse_fields(text, 0), Ok((expected, vec![9, 35], text.len())));
}

fn repeat(production: Production, offset: usize, identifier: &str, context: &str) -> ParseError {
    ParseError::Semantic(SemanticError {
        kind: SemanticKind::DuplicateField,
        production,
        offset,
        identifier: identifier.to_string(),
        context: context.to_string(),
    })
}

#[test]
fn variants_come_with_their_places() {
    let text = "Ace or a King  or an Eight";
    let names = vec!["Ace".to_string(), "King".to_string(), "Eight".to_string()];
    assert_eq!(parse_variants(text, 0), Ok((names, vec![0, 9, 21], text.len())));
    assert_eq!(parse_variants("!", 0), Err(syntax(Production::EnumDecl, Expected::Word, 0)));
    assert_eq!(
        parse_variants("Ace or an !", 0),
        Err(syntax(Production::EnumDecl, Expected::Word, 10))
    );
}

#[test]
fn repeated_variant_is_rejected() {
    assert_eq!(
        parse_enum("Ace or an Ace", 0),
        Err(repeat(Production::EnumDecl, 10, "Ace", ""))
    );
    let text = "Suit is a Hearts or a Hearts";
    assert_eq!(
        parse_type_decl(text, 0),
        Err(repeat(Production::EnumDecl, 22, "Hearts", "Suit"))
    );
}

#[test]
fn first_repeated_variant_is_reported() {
    let text = "A or a B or a C or a B or an A";
    assert_eq!(&text[21..22], "B");
    assert_eq!(parse_enum(text, 0), Err(repeat(Production::EnumDecl, 21, "B", "")));
}

#[test]
fn variants_that_differ_in_case_are_distinct() {
    let text = "Ace or an ace or an ACE";
    let expected = TypeType::EnumDecl(vec![
        "Ace".to_string(),
        "ace".to_string(),
        "ACE".to_string(),
    ]);
    assert_eq!(parse_enum(text, 0), Ok((expected, text.len())));
}

#[test]
fn syntax_errors_come_before_repeated_variants() {
    assert_eq!(
        parse_enum("Ace or an Ace or a", 0),
        Err(ParseError::Syntax(syntax(Production::EnumDecl, Expected::Word, 18)))
    );
}

#[test]
fn first_repeated_finds_the_second_use() {
    let make = |names: &[&str]| -> Vec<String> { names.iter().map(|n| n.to_string()).collect() };
    assert_eq!(first_repeated(&make(&[])), None);
    assert_eq!(first_repeated(&make(&["a"])), None);
    assert_eq!(first_repeated(&make(&["a", "b", "c"])), None);
    assert_eq!(first_repeated(&make(&["a", "a"])), Some(1));
    assert_eq!(first_repeated(&make(&["a", "b", "c", "b", "a"])), Some(3));
}

#[test]
fn a_repeat_is_reported_as_it_is_given() {
    let e = repeated(SemanticKind::DuplicateParameter, Production::Arguments, &"x".to_string(), 7);
    let expected = ParseError::Semantic(SemanticError {
        kind: SemanticKind::DuplicateParameter,
        production: Production::Arguments,
        offset: 7,
        identifier: "x".to_string(),
        context: String::new(),
    });
    assert_eq!(e, expected);
}
