//! Parsers for type declarations: type names with generic parameters,
//! enumerations and records.

use crate::ast::{
    Binding, bindings, BindingView, GenericBinding, lemma_type_views, texts, Type, TypeType,
};
use crate::error::{
    agrees, Expected, fault, ParseError, Production, SemanticError, SemanticKind, SyntaxError,
    SyntaxErrorView,
};
use crate::grammar::{
    distinct, duplicate, enum_decl, field, field_rest, first_repeat, first_repeat_from,
    generic_list, generic_rest, in_context, joined, lemma_joined, names_of, plain, record_decl,
    record_fields, type_decl, type_instantiation, unplaced, variant_rest, variants,
};
use crate::lexer::{
    gap, identifier, next_identifier, next_keyword, next_keyword2, skip_spaces, whitespace,
};
use crate::wellformed::{declaration_well_formed, lemma_distinct};
use vstd::prelude::*;
use vstd::string::StringSliceAdditionalSpecFns;

verus! {

/// Appending a string to a list appends its text to the list's texts.
pub proof fn lemma_texts_push(v: Seq<String>, x: String)
    ensures
        texts(v.push(x)) == texts(v).push(x@),
{
    assert(texts(v.push(x)) =~= texts(v).push(x@));
}

/// Reads the generic parameters of a type after its name, which ends at
/// `pos`: `("of" word ("and" word)*)?`.
fn parse_generics(text: &str, pos: usize) -> (r: Result<(Vec<String>, usize), SyntaxError>)
    requires
        pos <= text.spec_bytes().len(),
    ensures
        r matches Ok((names, q)) ==> generic_list(text.spec_bytes(), pos as int) == Ok::<
            (Seq<Seq<char>>, int),
            SyntaxErrorView,
        >((texts(names@), q as int)) && pos <= q <= text.spec_bytes().len(),
        r matches Err(e) ==> generic_list(text.spec_bytes(), pos as int) == Err::<
            (Seq<Seq<char>>, int),
            SyntaxErrorView,
        >(e@),
{
    let ghost s = text.spec_bytes();
    let mut names: Vec<String> = Vec::new();
    let after_of = match next_keyword(text, pos, "of") {
        Some(a) => a,
        None => {
            proof {
                assert(texts(names@) =~= Seq::<Seq<char>>::empty());
            }
            return Ok((names, pos));
        },
    };
    let (first, start) = match next_identifier(text, after_of) {
        Some(found) => found,
        None => {
            return Err(missing(text, after_of, Production::TypeInstantiation, Expected::Word));
        },
    };
    let ghost head = seq![first@];
    names.push(first);
    let mut end = start;
    proof {
        assert(texts(names@) =~= head);
    }
    loop
        invariant
            s == text.spec_bytes(),
            pos < end <= s.len(),
            generic_list(s, pos as int) == joined(head, generic_rest(s, start as int)),
            joined(head, generic_rest(s, start as int)) == joined(
                texts(names@),
                generic_rest(s, end as int),
            ),
        ensures
            pos < end <= s.len(),
            generic_list(s, pos as int) == joined(head, generic_rest(s, start as int)),
            joined(head, generic_rest(s, start as int)) == Ok::<
                (Seq<Seq<char>>, int),
                SyntaxErrorView,
            >((texts(names@), end as int)),
        decreases s.len() - end,
    {
        let after_and = match next_keyword(text, end, "and") {
            Some(a) => a,
            None => {
                proof {
                    lemma_joined(texts(names@), Seq::empty(), generic_rest(s, end as int), end as int);
                }
                break ;
            },
        };
        let (name, q) = match next_identifier(text, after_and) {
            Some(found) => found,
            None => {
                return Err(
                    missing(text, after_and, Production::TypeInstantiation, Expected::Word),
                );
            },
        };
        proof {
            lemma_texts_push(names@, name);
            lemma_joined(texts(names@), seq![name@], generic_rest(s, q as int), 0);
            assert(texts(names@).push(name@) =~= texts(names@) + seq![name@]);
        }
        names.push(name);
        end = q;
    }
    Ok((names, end))
}

/// Reads a type's name and generic parameters at `pos`:
/// `word ("of" word ("and" word)*)?`.
///
/// The type comes back known by name only, its generic parameters unbound.
pub fn parse_type_instantiation(text: &str, pos: usize) -> (r: Result<(Type, usize), SyntaxError>)
    ensures
        agrees(r, type_instantiation(text.spec_bytes(), pos as int)),
        r matches Ok((_, q)) ==> pos < q <= text.spec_bytes().len(),
{
    proof {
        reveal(type_instantiation);
    }
    let (name, q) = match identifier(text, pos) {
        Some(found) => found,
        None => {
            return Err(SyntaxError::new(Production::TypeInstantiation, Expected::Word, pos));
        },
    };
    match parse_generics(text, q) {
        Ok((names, end)) => Ok(
            (
                Type {
                    name,
                    contents: TypeType::Declaration,
                    generics: GenericBinding::Unbound(names),
                },
                end,
            ),
        ),
        Err(e) => Err(e),
    }
}

/// Consumes the whitespace at `pos`, or fails on behalf of the rule that
/// needs a token after it.
pub fn separated(text: &str, pos: usize, production: Production, expected: Expected) -> (r: Result<
    usize,
    SyntaxError,
>)
    ensures
        r matches Ok(g) ==> gap(text.spec_bytes(), pos as int) == Some(g as int) && pos < g
            <= text.spec_bytes().len(),
        r matches Err(e) ==> gap(text.spec_bytes(), pos as int) is None && e@ == fault(
            production,
            expected,
            pos as int,
        ),
{
    match whitespace(text, pos) {
        Some(g) => {
            proof {
                crate::lexer::lemma_gap(text.spec_bytes(), pos as int);
            }
            Ok(g)
        },
        None => Err(SyntaxError::new(production, expected, pos)),
    }
}

/// The failure of a rule that found no token after the whitespace at `pos`.
pub fn missing(text: &str, pos: usize, production: Production, expected: Expected) -> (e:
    SyntaxError)
    ensures
        e@ == fault(production, expected, skip_spaces(text.spec_bytes(), pos as int)),
{
    SyntaxError::new(production, expected, crate::lexer::past_spaces(text, pos))
}

/// The names of a list, each with the position recorded for it.
pub open spec fn placed_names(names: Seq<String>, at: Seq<usize>) -> Seq<(Seq<char>, int)> {
    Seq::new(names.len(), |i: int| (names[i]@, at[i] as int))
}

/// Reads the variants of an enumeration at `pos`:
/// `word (("or a" | "or an") word)*`. Returns the variants, their positions
/// and the position after them.
pub fn parse_variants(text: &str, pos: usize) -> (r: Result<
    (Vec<String>, Vec<usize>, usize),
    SyntaxError,
>)
    ensures
        r matches Ok((names, at, q)) ==> names@.len() == at@.len() && variants(
            text.spec_bytes(),
            pos as int,
        ) == Ok::<(Seq<(Seq<char>, int)>, int), SyntaxErrorView>(
            (placed_names(names@, at@), q as int),
        ) && pos < q <= text.spec_bytes().len(),
        r matches Err(e) ==> variants(text.spec_bytes(), pos as int) == Err::<
            (Seq<(Seq<char>, int)>, int),
            SyntaxErrorView,
        >(e@),
{
    let ghost s = text.spec_bytes();
    let (first, start) = match identifier(text, pos) {
        Some(found) => found,
        None => {
            return Err(SyntaxError::new(Production::EnumDecl, Expected::Word, pos));
        },
    };
    let mut names: Vec<String> = Vec::new();
    let mut at: Vec<usize> = Vec::new();
    let ghost head = seq![(first@, pos as int)];
    names.push(first);
    at.push(pos);
    let mut end = start;
    proof {
        assert(placed_names(names@, at@) =~= head);
    }
    loop
        invariant
            s == text.spec_bytes(),
            pos < end <= s.len(),
            names@.len() == at@.len(),
            variants(s, pos as int) == joined(head, variant_rest(s, start as int)),
            joined(head, variant_rest(s, start as int)) == joined(
                placed_names(names@, at@),
                variant_rest(s, end as int),
            ),
        ensures
            pos < end <= s.len(),
            names@.len() == at@.len(),
            variants(s, pos as int) == joined(head, variant_rest(s, start as int)),
            joined(head, variant_rest(s, start as int)) == Ok::<
                (Seq<(Seq<char>, int)>, int),
                SyntaxErrorView,
            >((placed_names(names@, at@), end as int)),
        decreases s.len() - end,
    {
        let after = match next_keyword2(text, end, "or a", "or an") {
            Some(a) => a,
            None => {
                proof {
                    lemma_joined(
                        placed_names(names@, at@),
                        Seq::empty(),
                        variant_rest(s, end as int),
                        end as int,
                    );
                }
                break ;
            },
        };
        let name_at = crate::lexer::past_spaces(text, after);
        let (name, q) = match next_identifier(text, after) {
            Some(found) => found,
            None => {
                return Err(SyntaxError::new(Production::EnumDecl, Expected::Word, name_at));
            },
        };
        proof {
            let item = (name@, name_at as int);
            lemma_joined(placed_names(names@, at@), seq![item], variant_rest(s, q as int), 0);
            assert(placed_names(names@.push(name), at@.push(name_at)) =~= placed_names(
                names@,
                at@,
            ) + seq![item]);
        }
        names.push(name);
        at.push(name_at);
        end = q;
    }
    Ok((names, at, end))
}

/// The index of the first string that repeats an earlier one.
pub fn first_repeated(names: &Vec<String>) -> (r: Option<usize>)
    ensures
        r matches Some(j) ==> first_repeat(texts(names@)) == Some(j as int) && j < names@.len(),
        r is None ==> first_repeat(texts(names@)) is None,
{
    let ghost all = texts(names@);
    let n = names.len();
    let mut j: usize = 0;
    while j < n
        invariant
            n == names@.len(),
            all == texts(names@),
            0 <= j <= n,
            first_repeat(all) == first_repeat_from(all, j as int),
        decreases n - j,
    {
        let mut i: usize = 0;
        while i < j
            invariant
                n == names@.len(),
                all == texts(names@),
                0 <= i <= j < n,
                first_repeat(all) == first_repeat_from(all, j as int),
                forall|k: int| 0 <= k < i ==> all[k] != all[j as int],
            decreases j - i,
        {
            if names[i] == names[j] {
                proof {
                    assert(all[i as int] == names@[i as int]@);
                    assert(all[j as int] == names@[j as int]@);
                    assert(all.subrange(0, j as int)[i as int] == all[j as int]);
                    assert(all.subrange(0, j as int).contains(all[j as int]));
                }
                return Some(j);
            }
            i += 1;
        }
        proof {
            let before = all.subrange(0, j as int);
            if before.contains(all[j as int]) {
                let k = choose|k: int| 0 <= k < before.len() && before[k] == all[j as int];
                assert(all[k] == all[j as int]);
            }
        }
        j += 1;
    }
    None
}

/// Reads an enumeration at `pos`: `word (("or a" | "or an") word)*`.
///
/// Fails with `DuplicateField`, for the rule `EnumDecl`, when two variants
/// share a name, so the variants of an enumeration that comes back have
/// distinct names, in the order in which they are written.
pub fn parse_enum(text: &str, pos: usize) -> (r: Result<(TypeType, usize), ParseError>)
    ensures
        agrees(r, enum_decl(text.spec_bytes(), pos as int)),
        r matches Ok((contents, q)) ==> pos < q <= text.spec_bytes().len() && (
        contents@ matches crate::ast::ContentsView::EnumDecl(names) && distinct(names)),
{
    proof {
        reveal(enum_decl);
    }
    let (names, at, end) = match parse_variants(text, pos) {
        Ok(found) => found,
        Err(e) => { return Err(ParseError::Syntax(e)); },
    };
    proof {
        assert(plain(placed_names(names@, at@)) =~= texts(names@));
    }
    match first_repeated(&names) {
        Some(j) => Err(
            repeated(SemanticKind::DuplicateField, Production::EnumDecl, &names[j], at[j]),
        ),
        None => {
            proof {
                lemma_distinct(texts(names@), 0);
            }
            Ok((TypeType::EnumDecl(names), end))
        },
    }
}

/// Reads a field at `pos`: `type_instantiation "called" word`. Returns the
/// field, the position of its name and the position after it.
pub fn parse_field(text: &str, pos: usize) -> (r: Result<(Binding, usize, usize), SyntaxError>)
    ensures
        r matches Ok((b, at, q)) ==> field(text.spec_bytes(), pos as int) == Ok::<
            ((crate::ast::BindingView, int), int),
            crate::error::SyntaxErrorView,
        >(((b@, at as int), q as int)) && pos < q <= text.spec_bytes().len(),
        r matches Err(e) ==> field(text.spec_bytes(), pos as int) == Err::<
            ((crate::ast::BindingView, int), int),
            crate::error::SyntaxErrorView,
        >(e@),
{
    proof {
        reveal(field);
    }
    let (ty, q) = match parse_type_instantiation(text, pos) {
        Ok(found) => found,
        Err(e) => { return Err(e); },
    };
    let after = match next_keyword(text, q, "called") {
        Some(a) => a,
        None => {
            return Err(missing(text, q, Production::RecordDecl, Expected::Called));
        },
    };
    let at = crate::lexer::past_spaces(text, after);
    match next_identifier(text, after) {
        Some((name, end)) => Ok((Binding { name, ty }, at, end)),
        None => Err(SyntaxError::new(Production::RecordDecl, Expected::Word, at)),
    }
}

/// The bindings of a list, each with the position recorded for it.
pub open spec fn placed(items: Seq<Binding>, at: Seq<usize>) -> Seq<(crate::ast::BindingView, int)> {
    Seq::new(items.len(), |i: int| (items[i]@, at[i] as int))
}

/// The index of the first binding whose name repeats an earlier one.
pub fn first_duplicate(items: &Vec<Binding>) -> (r: Option<usize>)
    ensures
        r matches Some(j) ==> first_repeat(names_of(bindings(items@))) == Some(j as int) && j
            < items@.len(),
        r is None ==> first_repeat(names_of(bindings(items@))) is None,
{
    let ghost names = names_of(bindings(items@));
    let n = items.len();
    let mut j: usize = 0;
    while j < n
        invariant
            n == items@.len(),
            names == names_of(bindings(items@)),
            0 <= j <= n,
            first_repeat(names) == first_repeat_from(names, j as int),
        decreases n - j,
    {
        let mut i: usize = 0;
        while i < j
            invariant
                n == items@.len(),
                names == names_of(bindings(items@)),
                0 <= i <= j < n,
                first_repeat(names) == first_repeat_from(names, j as int),
                forall|k: int| 0 <= k < i ==> names[k] != names[j as int],
            decreases j - i,
        {
            if items[i].name == items[j].name {
                proof {
                    assert(names[i as int] == items@[i as int].name@);
                    assert(names[j as int] == items@[j as int].name@);
                    assert(names.subrange(0, j as int)[i as int] == names[j as int]);
                    assert(names.subrange(0, j as int).contains(names[j as int]));
                }
                return Some(j);
            }
            i += 1;
        }
        proof {
            let before = names.subrange(0, j as int);
            if before.contains(names[j as int]) {
                let k = choose|k: int| 0 <= k < before.len() && before[k] == names[j as int];
                assert(names[k] == names[j as int]);
            }
        }
        j += 1;
    }
    None
}

/// The failure for the second use of `name`, which stands at `offset`.
pub fn repeated(kind: SemanticKind, production: Production, name: &String, offset: usize) -> (e:
    ParseError)
    ensures
        e@ == duplicate(kind, production, name@, offset as int),
{
    ParseError::Semantic(
        SemanticError {
            kind,
            production,
            offset,
            identifier: name.clone(),
            context: String::new(),
        },
    )
}

/// Reads the fields of a record at `pos`:
/// `field (("and a" | "and an") field)*`. Returns the fields, the positions
/// of their names and the position after them.
pub fn parse_fields(text: &str, pos: usize) -> (r: Result<
    (Vec<Binding>, Vec<usize>, usize),
    SyntaxError,
>)
    ensures
        r matches Ok((fields, at, q)) ==> fields@.len() == at@.len() && record_fields(
            text.spec_bytes(),
            pos as int,
        ) == Ok::<(Seq<(BindingView, int)>, int), SyntaxErrorView>(
            (placed(fields@, at@), q as int),
        ) && pos < q <= text.spec_bytes().len(),
        r matches Err(e) ==> record_fields(text.spec_bytes(), pos as int) == Err::<
            (Seq<(BindingView, int)>, int),
            SyntaxErrorView,
        >(e@),
{
    let ghost s = text.spec_bytes();
    let (first, first_at, start) = match parse_field(text, pos) {
        Ok(found) => found,
        Err(e) => { return Err(e); },
    };
    let mut fields: Vec<Binding> = Vec::new();
    let mut at: Vec<usize> = Vec::new();
    let ghost head = seq![(first@, first_at as int)];
    fields.push(first);
    at.push(first_at);
    let mut end = start;
    proof {
        assert(placed(fields@, at@) =~= head);
    }
    loop
        invariant
            s == text.spec_bytes(),
            pos < end <= s.len(),
            fields@.len() == at@.len(),
            record_fields(s, pos as int) == joined(head, field_rest(s, start as int)),
            joined(head, field_rest(s, start as int)) == joined(
                placed(fields@, at@),
                field_rest(s, end as int),
            ),
        ensures
            pos < end <= s.len(),
            fields@.len() == at@.len(),
            record_fields(s, pos as int) == joined(head, field_rest(s, start as int)),
            joined(head, field_rest(s, start as int)) == Ok::<
                (Seq<(BindingView, int)>, int),
                SyntaxErrorView,
            >((placed(fields@, at@), end as int)),
        decreases s.len() - end,
    {
        let after = match next_keyword2(text, end, "and a", "and an") {
            Some(a) => a,
            None => {
                proof {
                    lemma_joined(
                        placed(fields@, at@),
                        Seq::empty(),
                        field_rest(s, end as int),
                        end as int,
                    );
                }
                break ;
            },
        };
        let g = match separated(text, after, Production::TypeInstantiation, Expected::Word) {
            Ok(g) => g,
            Err(e) => { return Err(e); },
        };
        let (f, f_at, q) = match parse_field(text, g) {
            Ok(found) => found,
            Err(e) => { return Err(e); },
        };
        proof {
            let item = (f@, f_at as int);
            lemma_joined(placed(fields@, at@), seq![item], field_rest(s, q as int), 0);
            assert(placed(fields@.push(f), at@.push(f_at)) =~= placed(fields@, at@) + seq![item]);
        }
        fields.push(f);
        at.push(f_at);
        end = q;
    }
    Ok((fields, at, end))
}

/// Reads a record at `pos`: `field (("and a" | "and an") field)*`.
///
/// Fails with `DuplicateField` when two fields share a name, so the fields of
/// a record that comes back have distinct names.
pub fn parse_record(text: &str, pos: usize) -> (r: Result<(TypeType, usize), ParseError>)
    ensures
        agrees(r, record_decl(text.spec_bytes(), pos as int)),
        r matches Ok((contents, q)) ==> pos < q <= text.spec_bytes().len() && (
        contents@ matches crate::ast::ContentsView::RecordDecl(fields) && distinct(
            names_of(fields),
        )),
{
    proof {
        reveal(record_decl);
    }
    let (fields, at, end) = match parse_fields(text, pos) {
        Ok(found) => found,
        Err(e) => { return Err(ParseError::Syntax(e)); },
    };
    proof {
        assert(unplaced(placed(fields@, at@)) =~= bindings(fields@));
        lemma_type_views(fields);
    }
    match first_duplicate(&fields) {
        Some(j) => Err(
            repeated(
                SemanticKind::DuplicateField,
                Production::RecordDecl,
                &fields[j].name,
                at[j],
            ),
        ),
        None => {
            proof {
                lemma_distinct(names_of(bindings(fields@)), 0);
            }
            Ok((TypeType::RecordDecl(fields), end))
        },
    }
}

/// The same error, said to lie in the declaration called `name`.
pub fn with_context(e: ParseError, name: &String) -> (r: ParseError)
    ensures
        r@ == in_context(e@, name@),
{
    match e {
        ParseError::Syntax(e) => ParseError::Syntax(e),
        ParseError::Semantic(e) => ParseError::Semantic(
            SemanticError {
                kind: e.kind,
                production: e.production,
                offset: e.offset,
                identifier: e.identifier,
                context: name.clone(),
            },
        ),
    }
}

/// Reads a type declaration at `pos`: a type's name and generic parameters,
/// then `is a` or `is an` and an enumeration, or `has a` or `has an` and a
/// record.
///
/// The declared type has the name and the generic parameters of the header
/// and the contents of the body: an enumeration with distinct variants or a
/// record with distinct field names. A repeated name fails with
/// `DuplicateField`, at the second use of the name.
pub fn parse_type_decl(text: &str, pos: usize) -> (r: Result<(Type, usize), ParseError>)
    ensures
        agrees(r, type_decl(text.spec_bytes(), pos as int)),
        r matches Ok((t, q)) ==> pos < q <= text.spec_bytes().len() && declaration_well_formed(
            crate::ast::DeclarationView::TypeDecl(t@),
        ) && (t@.contents is EnumDecl || t@.contents is RecordDecl),
{
    proof {
        reveal(type_decl);
    }
    let (head, q) = match parse_type_instantiation(text, pos) {
        Ok(found) => found,
        Err(e) => { return Err(ParseError::Syntax(e)); },
    };
    if let Some(a) = next_keyword2(text, q, "is a", "is an") {
        let g = match separated(text, a, Production::EnumDecl, Expected::Word) {
            Ok(g) => g,
            Err(e) => { return Err(ParseError::Syntax(e)); },
        };
        match parse_enum(text, g) {
            Ok((contents, end)) => Ok(
                (Type { name: head.name, contents, generics: head.generics }, end),
            ),
            Err(e) => Err(with_context(e, &head.name)),
        }
    } else if let Some(a) = next_keyword2(text, q, "has a", "has an") {
        let g = match separated(text, a, Production::TypeInstantiation, Expected::Word) {
            Ok(g) => g,
            Err(e) => { return Err(ParseError::Syntax(e)); },
        };
        match parse_record(text, g) {
            Ok((contents, end)) => Ok(
                (Type { name: head.name, contents, generics: head.generics }, end),
            ),
            Err(e) => Err(with_context(e, &head.name)),
        }
    } else {
        Err(ParseError::Syntax(missing(text, q, Production::TypeDecl, Expected::IsOrHas)))
    }
}

} // verus!
