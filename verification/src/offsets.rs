//! Every failure is reported at a position of the text: at or after the
//! position at which the failing rule started, and at or before the end.

use crate::ast::{BindingView, DeclarationView};
use crate::error::{Expected, offset_of, ParseErrorView, SyntaxErrorView};
use crate::grammar::{
    and_rest, argument, argument_rest, arguments, body, branch_at, by_body, chain_rest, comparator,
    comparison, condition, declaration, declarations_after, disjunction, enum_decl, field,
    field_rest, generic_list, generic_rest, header, lemma_argument, lemma_arguments, lemma_body,
    lemma_branch_at, lemma_comparator, lemma_condition, lemma_declaration, lemma_disjunction,
    lemma_field, lemma_header, lemma_negation, lemma_type_instantiation, lemma_value, listed,
    matcher, negation, or_rest, program, provided, provision, record_decl, record_fields,
    rule_book, type_decl, type_instantiation, value, variant_rest,
};
use crate::lexer::{
    gap, lemma_gap, lemma_skip_spaces, lemma_spaced_tag, lemma_spaced_tag2, lemma_spaced_word,
    lemma_tag2_at, lemma_word, skip_spaces, spaced_tag, spaced_tag2, spaced_word, tag2_at, tag_at,
    word,
};
use crate::resolution::{annotated_declarations, bind_program, bound_declarations, resolve};
use crate::resolved::lemma_gather;
use vstd::prelude::*;
use vstd::string::StringSliceAdditionalSpecFns;

verus! {

/// The failure of a rule that started at `p` lies between `p` and the end of
/// the text.
pub open spec fn failure_within<T>(r: Result<T, SyntaxErrorView>, s: Seq<u8>, p: int) -> bool {
    r matches Err(e) ==> p <= e.offset <= s.len()
}

/// The error of a rule that started at `p` lies between `p` and the end of
/// the text.
pub open spec fn error_within<T>(r: Result<T, ParseErrorView>, s: Seq<u8>, p: int) -> bool {
    r matches Err(e) ==> p <= offset_of(e) <= s.len()
}

/// Every position recorded in the list lies between `p` and `e`.
pub open spec fn placed_within<T>(items: Seq<(T, int)>, p: int, e: int) -> bool {
    forall|i: int| 0 <= i < items.len() ==> p <= (#[trigger] items[i]).1 <= e
}

/// The generic parameters of a type fail inside the text.
pub proof fn lemma_generic_rest_within(s: Seq<u8>, p: int)
    requires
        0 <= p <= s.len(),
    ensures
        failure_within(generic_rest(s, p), s, p),
        failure_within(generic_list(s, p), s, p),
    decreases s.len() - p,
{
    lemma_skip_spaces(s, p);
    lemma_spaced_tag(s, p, "and".spec_bytes());
    match spaced_tag(s, p, "and".spec_bytes()) {
        Some(a) => {
            lemma_skip_spaces(s, a);
            lemma_spaced_word(s, a);
            match spaced_word(s, a) {
                Some((_, q)) => lemma_generic_rest_within(s, q),
                None => {},
            }
        },
        None => {},
    }
    lemma_spaced_tag(s, p, "of".spec_bytes());
    match spaced_tag(s, p, "of".spec_bytes()) {
        Some(a) => {
            lemma_skip_spaces(s, a);
            lemma_spaced_word(s, a);
            match spaced_word(s, a) {
                Some((_, q)) => lemma_generic_rest_within(s, q),
                None => {},
            }
        },
        None => {},
    }
}

/// A type instantiation fails inside the text.
pub proof fn lemma_type_instantiation_within(s: Seq<u8>, p: int)
    requires
        0 <= p <= s.len(),
    ensures
        failure_within(type_instantiation(s, p), s, p),
{
    reveal(type_instantiation);
    lemma_word(s, p);
    match word(s, p) {
        Some((_, q)) => lemma_generic_rest_within(s, q),
        None => {},
    }
}

/// The further variants of an enumeration fail inside the text, and they
/// stand inside it.
pub proof fn lemma_variant_rest_within(s: Seq<u8>, p: int)
    requires
        0 <= p <= s.len(),
    ensures
        failure_within(variant_rest(s, p), s, p),
        variant_rest(s, p) matches Ok((items, e)) ==> p <= e <= s.len() && placed_within(
            items,
            p,
            s.len() as int,
        ),
    decreases s.len() - p,
{
    lemma_spaced_tag2(s, p, "or a".spec_bytes(), "or an".spec_bytes());
    match spaced_tag2(s, p, "or a".spec_bytes(), "or an".spec_bytes()) {
        Some(a) => {
            lemma_skip_spaces(s, a);
            lemma_spaced_word(s, a);
            match spaced_word(s, a) {
                Some((name, q)) => {
                    lemma_variant_rest_within(s, q);
                    match variant_rest(s, q) {
                        Ok((rest, _)) => {
                            let all = seq![(name, skip_spaces(s, a))] + rest;
                            assert forall|i: int| 0 <= i < all.len() implies p <= (
                            #[trigger] all[i]).1 <= s.len() by {
                                if i > 0 {
                                    assert(all[i] == rest[i - 1]);
                                }
                            }
                        },
                        Err(_) => {},
                    }
                },
                None => {},
            }
        },
        None => {
            assert(placed_within(Seq::<(Seq<char>, int)>::empty(), p, s.len() as int));
        },
    }
}

/// An enumeration fails inside the text, also where a name is repeated.
pub proof fn lemma_enum_decl_within(s: Seq<u8>, p: int)
    requires
        0 <= p <= s.len(),
    ensures
        error_within(enum_decl(s, p), s, p),
{
    reveal(enum_decl);
    lemma_word(s, p);
    match word(s, p) {
        Some((first, q)) => {
            lemma_variant_rest_within(s, q);
            match variant_rest(s, q) {
                Ok((rest, _)) => {
                    let all = seq![(first, p)] + rest;
                    assert forall|i: int| 0 <= i < all.len() implies p <= (#[trigger] all[i]).1
                        <= s.len() by {
                        if i > 0 {
                            assert(all[i] == rest[i - 1]);
                        }
                    }
                    lemma_first_repeat(crate::grammar::plain(all), 0);
                },
                Err(_) => {},
            }
        },
        None => {},
    }
}

/// A field fails inside the text, and its name stands inside the field.
pub proof fn lemma_field_within(s: Seq<u8>, p: int)
    requires
        0 <= p <= s.len(),
    ensures
        failure_within(field(s, p), s, p),
        field(s, p) matches Ok(((_, at), q)) ==> p <= at <= q <= s.len(),
{
    reveal(field);
    lemma_type_instantiation_within(s, p);
    lemma_type_instantiation(s, p);
    match type_instantiation(s, p) {
        Ok((_, q)) => {
            lemma_skip_spaces(s, q);
            lemma_spaced_tag(s, q, "called".spec_bytes());
            match spaced_tag(s, q, "called".spec_bytes()) {
                Some(a) => {
                    lemma_skip_spaces(s, a);
                    lemma_spaced_word(s, a);
                },
                None => {},
            }
        },
        Err(_) => {},
    }
}

/// The further fields of a record fail inside the text, and their names
/// stand inside it.
pub proof fn lemma_field_rest_within(s: Seq<u8>, p: int)
    requires
        0 <= p <= s.len(),
    ensures
        failure_within(field_rest(s, p), s, p),
        field_rest(s, p) matches Ok((items, e)) ==> p <= e <= s.len() && placed_within(
            items,
            p,
            s.len() as int,
        ),
    decreases s.len() - p,
{
    lemma_spaced_tag2(s, p, "and a".spec_bytes(), "and an".spec_bytes());
    match spaced_tag2(s, p, "and a".spec_bytes(), "and an".spec_bytes()) {
        Some(a) => {
            lemma_gap(s, a);
            match gap(s, a) {
                Some(g) => {
                    lemma_field_within(s, g);
                    lemma_field(s, g);
                    match field(s, g) {
                        Ok((f, q)) => {
                            lemma_field_rest_within(s, q);
                            match field_rest(s, q) {
                                Ok((rest, _)) => {
                                    let all = seq![f] + rest;
                                    assert forall|i: int| 0 <= i < all.len() implies p <= (
                                    #[trigger] all[i]).1 <= s.len() by {
                                        if i > 0 {
                                            assert(all[i] == rest[i - 1]);
                                        }
                                    }
                                },
                                Err(_) => {},
                            }
                        },
                        Err(_) => {},
                    }
                },
                None => {},
            }
        },
        None => {
            assert(placed_within(Seq::<(BindingView, int)>::empty(), p, s.len() as int));
        },
    }
}

/// The fields of a record fail inside the text, and their names stand inside
/// it.
pub proof fn lemma_record_fields_within(s: Seq<u8>, p: int)
    requires
        0 <= p <= s.len(),
    ensures
        failure_within(record_fields(s, p), s, p),
        record_fields(s, p) matches Ok((items, e)) ==> p <= e <= s.len() && placed_within(
            items,
            p,
            s.len() as int,
        ),
{
    lemma_field_within(s, p);
    lemma_field(s, p);
    match field(s, p) {
        Ok((f, q)) => {
            lemma_field_rest_within(s, q);
            match field_rest(s, q) {
                Ok((rest, _)) => {
                    let all = seq![f] + rest;
                    assert forall|i: int| 0 <= i < all.len() implies p <= (#[trigger] all[i]).1
                        <= s.len() by {
                        if i > 0 {
                            assert(all[i] == rest[i - 1]);
                        }
                    }
                },
                Err(_) => {},
            }
        },
        Err(_) => {},
    }
}

/// `first_repeat` gives an index of the list.
pub proof fn lemma_first_repeat(names: Seq<Seq<char>>, from: int)
    requires
        0 <= from,
    ensures
        crate::grammar::first_repeat_from(names, from) matches Some(j) ==> from <= j < names.len(),
    decreases names.len() - from,
{
    if from < names.len() && !names.subrange(0, from).contains(names[from]) {
        lemma_first_repeat(names, from + 1);
    }
}

/// A record fails inside the text, also where a name is repeated.
pub proof fn lemma_record_decl_within(s: Seq<u8>, p: int)
    requires
        0 <= p <= s.len(),
    ensures
        error_within(record_decl(s, p), s, p),
{
    reveal(record_decl);
    lemma_record_fields_within(s, p);
    match record_fields(s, p) {
        Ok((fields, _)) => {
            lemma_first_repeat(crate::grammar::names_of(crate::grammar::unplaced(fields)), 0);
        },
        Err(_) => {},
    }
}

/// A type declaration fails inside the text.
pub proof fn lemma_type_decl_within(s: Seq<u8>, p: int)
    requires
        0 <= p <= s.len(),
    ensures
        error_within(type_decl(s, p), s, p),
{
    reveal(type_decl);
    lemma_type_instantiation_within(s, p);
    lemma_type_instantiation(s, p);
    match type_instantiation(s, p) {
        Ok((_, q)) => {
            lemma_skip_spaces(s, q);
            lemma_spaced_tag2(s, q, "is a".spec_bytes(), "is an".spec_bytes());
            lemma_spaced_tag2(s, q, "has a".spec_bytes(), "has an".spec_bytes());
            match spaced_tag2(s, q, "is a".spec_bytes(), "is an".spec_bytes()) {
                Some(a) => {
                    lemma_gap(s, a);
                    match gap(s, a) {
                        Some(g) => lemma_enum_decl_within(s, g),
                        None => {},
                    }
                },
                None => match spaced_tag2(s, q, "has a".spec_bytes(), "has an".spec_bytes()) {
                    Some(a) => {
                        lemma_gap(s, a);
                        match gap(s, a) {
                            Some(g) => lemma_record_decl_within(s, g),
                            None => {},
                        }
                    },
                    None => {},
                },
            }
        },
        Err(_) => {},
    }
}

/// A value fails inside the text.
pub proof fn lemma_value_within(s: Seq<u8>, p: int)
    requires
        0 <= p <= s.len(),
    ensures
        failure_within(value(s, p), s, p),
    decreases s.len() - p, 1nat,
{
    match tag_at(s, p, "the".spec_bytes()) {
        Some(a) => {
            lemma_gap(s, a);
            match gap(s, a) {
                Some(g) => {
                    lemma_value(s, g);
                    match value(s, g) {
                        Ok((_, q)) => lemma_chain_rest_within(s, q),
                        Err(_) => {},
                    }
                },
                None => {},
            }
        },
        None => {},
    }
}

/// The further items of a chain fail inside the text.
pub proof fn lemma_chain_rest_within(s: Seq<u8>, p: int)
    requires
        0 <= p <= s.len(),
    ensures
        failure_within(chain_rest(s, p), s, p),
    decreases s.len() - p, 0nat,
{
    lemma_spaced_tag2(s, p, "then".spec_bytes(), "of".spec_bytes());
    match spaced_tag2(s, p, "then".spec_bytes(), "of".spec_bytes()) {
        Some(a) => {
            lemma_gap(s, a);
            match gap(s, a) {
                Some(g) => {
                    lemma_value(s, g);
                    lemma_value_within(s, g);
                    match value(s, g) {
                        Ok((_, q)) => lemma_chain_rest_within(s, q),
                        Err(_) => {},
                    }
                },
                None => {},
            }
        },
        None => {},
    }
}

/// A comparison fails inside the text.
pub proof fn lemma_comparison_within(s: Seq<u8>, p: int)
    requires
        0 <= p <= s.len(),
    ensures
        failure_within(comparison(s, p), s, p),
{
    reveal(comparison);
    lemma_value_within(s, p);
    lemma_value(s, p);
    match value(s, p) {
        Ok((_, q)) => {
            lemma_skip_spaces(s, q);
            lemma_comparator(s, q);
            match comparator(s, q) {
                Some((_, a)) => {
                    lemma_gap(s, a);
                    match gap(s, a) {
                        Some(g) => lemma_value_within(s, g),
                        None => {},
                    }
                },
                None => {},
            }
        },
        Err(_) => {},
    }
}

/// A comparison, negated or not, fails inside the text.
pub proof fn lemma_negation_within(s: Seq<u8>, p: int)
    requires
        0 <= p <= s.len(),
    ensures
        failure_within(negation(s, p), s, p),
{
    reveal(negation);
    lemma_comparison_within(s, p);
    match tag_at(s, p, "not".spec_bytes()) {
        Some(a) => {
            lemma_gap(s, a);
            match gap(s, a) {
                Some(g) => lemma_comparison_within(s, g),
                None => {},
            }
        },
        None => {},
    }
}

/// The further alternatives of a disjunction fail inside the text.
pub proof fn lemma_or_rest_within(s: Seq<u8>, p: int)
    requires
        0 <= p <= s.len(),
    ensures
        failure_within(or_rest(s, p), s, p),
    decreases s.len() - p,
{
    lemma_spaced_tag(s, p, "or".spec_bytes());
    match spaced_tag(s, p, "or".spec_bytes()) {
        Some(a) => {
            lemma_gap(s, a);
            match gap(s, a) {
                Some(g) => {
                    lemma_negation_within(s, g);
                    lemma_negation(s, g);
                    match negation(s, g) {
                        Ok((_, q)) => lemma_or_rest_within(s, q),
                        Err(_) => {},
                    }
                },
                None => {},
            }
        },
        None => {},
    }
}

/// A disjunction fails inside the text.
pub proof fn lemma_disjunction_within(s: Seq<u8>, p: int)
    requires
        0 <= p <= s.len(),
    ensures
        failure_within(disjunction(s, p), s, p),
{
    reveal(disjunction);
    lemma_negation_within(s, p);
    lemma_negation(s, p);
    match negation(s, p) {
        Ok((_, q)) => lemma_or_rest_within(s, q),
        Err(_) => {},
    }
}

/// The further parts of a conjunction fail inside the text.
pub proof fn lemma_and_rest_within(s: Seq<u8>, p: int)
    requires
        0 <= p <= s.len(),
    ensures
        failure_within(and_rest(s, p), s, p),
    decreases s.len() - p,
{
    lemma_spaced_tag(s, p, "and".spec_bytes());
    match spaced_tag(s, p, "and".spec_bytes()) {
        Some(a) => {
            lemma_gap(s, a);
            match gap(s, a) {
                Some(g) => {
                    lemma_disjunction_within(s, g);
                    lemma_disjunction(s, g);
                    match disjunction(s, g) {
                        Ok((_, q)) => lemma_and_rest_within(s, q),
                        Err(_) => {},
                    }
                },
                None => {},
            }
        },
        None => {},
    }
}

/// A matcher fails inside the text.
pub proof fn lemma_matcher_within(s: Seq<u8>, p: int)
    requires
        0 <= p <= s.len(),
    ensures
        failure_within(matcher(s, p), s, p),
{
    reveal(matcher);
    lemma_disjunction_within(s, p);
    lemma_disjunction(s, p);
    match disjunction(s, p) {
        Ok((_, q)) => lemma_and_rest_within(s, q),
        Err(_) => {},
    }
}

/// A parameter fails inside the text, and its name stands inside it.
pub proof fn lemma_argument_within(s: Seq<u8>, p: int)
    requires
        0 <= p <= s.len(),
    ensures
        failure_within(argument(s, p), s, p),
        argument(s, p) matches Ok(((_, at), q)) ==> p <= at <= q <= s.len(),
{
    reveal(argument);
    lemma_argument(s, p);
    lemma_word(s, p);
    match word(s, p) {
        Some((_, q)) => {
            lemma_skip_spaces(s, q);
            lemma_spaced_tag2(s, q, "called a".spec_bytes(), "called an".spec_bytes());
            match spaced_tag2(s, q, "called a".spec_bytes(), "called an".spec_bytes()) {
                Some(a) => {
                    lemma_gap(s, a);
                    match gap(s, a) {
                        Some(g) => lemma_type_instantiation_within(s, g),
                        None => {},
                    }
                },
                None => {},
            }
        },
        None => {},
    }
}

/// The further parameters fail inside the text, and their names stand inside
/// it.
pub proof fn lemma_argument_rest_within(s: Seq<u8>, p: int)
    requires
        0 <= p <= s.len(),
    ensures
        failure_within(argument_rest(s, p), s, p),
        argument_rest(s, p) matches Ok((items, e)) ==> p <= e <= s.len() && placed_within(
            items,
            p,
            s.len() as int,
        ),
    decreases s.len() - p,
{
    lemma_spaced_tag(s, p, "then".spec_bytes());
    match spaced_tag(s, p, "then".spec_bytes()) {
        Some(a) => {
            lemma_gap(s, a);
            match gap(s, a) {
                Some(g) => {
                    lemma_argument_within(s, g);
                    lemma_argument(s, g);
                    match argument(s, g) {
                        Ok((item, q)) => {
                            lemma_argument_rest_within(s, q);
                            match argument_rest(s, q) {
                                Ok((rest, _)) => {
                                    let all = seq![item] + rest;
                                    assert forall|i: int| 0 <= i < all.len() implies p <= (
                                    #[trigger] all[i]).1 <= s.len() by {
                                        if i > 0 {
                                            assert(all[i] == rest[i - 1]);
                                        }
                                    }
                                },
                                Err(_) => {},
                            }
                        },
                        Err(_) => {},
                    }
                },
                None => {},
            }
        },
        None => {
            assert(placed_within(Seq::<(BindingView, int)>::empty(), p, s.len() as int));
        },
    }
}

/// The parameters fail inside the text, and their names stand inside it.
pub proof fn lemma_arguments_within(s: Seq<u8>, p: int)
    requires
        0 <= p <= s.len(),
    ensures
        failure_within(arguments(s, p), s, p),
        arguments(s, p) matches Ok((items, e)) ==> p <= e <= s.len() && placed_within(
            items,
            p,
            s.len() as int,
        ),
{
    reveal(arguments);
    lemma_tag2_at(s, p, "Given a".spec_bytes(), "Given an".spec_bytes());
    match tag2_at(s, p, "Given a".spec_bytes(), "Given an".spec_bytes()) {
        Some(a) => {
            lemma_gap(s, a);
            match gap(s, a) {
                Some(g) => {
                    lemma_argument_within(s, g);
                    lemma_argument(s, g);
                    match argument(s, g) {
                        Ok((first, q)) => {
                            lemma_argument_rest_within(s, q);
                            match argument_rest(s, q) {
                                Ok((rest, _)) => {
                                    let all = seq![first] + rest;
                                    assert forall|i: int| 0 <= i < all.len() implies p <= (
                                    #[trigger] all[i]).1 <= s.len() by {
                                        if i > 0 {
                                            assert(all[i] == rest[i - 1]);
                                        }
                                    }
                                },
                                Err(_) => {},
                            }
                        },
                        Err(_) => {},
                    }
                },
                None => {},
            }
        },
        None => {},
    }
}

/// A header fails inside the text.
pub proof fn lemma_header_within(s: Seq<u8>, p: int)
    requires
        0 <= p <= s.len(),
    ensures
        failure_within(header(s, p), s, p),
{
    reveal(header);
    lemma_tag2_at(s, p, "resolve a".spec_bytes(), "resolve an".spec_bytes());
    match tag2_at(s, p, "resolve a".spec_bytes(), "resolve an".spec_bytes()) {
        Some(a) => {
            lemma_skip_spaces(s, a);
            lemma_spaced_word(s, a);
            match spaced_word(s, a) {
                Some((_, q)) => {
                    lemma_skip_spaces(s, q);
                    lemma_spaced_tag2(s, q, "to get a".spec_bytes(), "to get an".spec_bytes());
                    match spaced_tag2(s, q, "to get a".spec_bytes(), "to get an".spec_bytes()) {
                        Some(b) => {
                            lemma_gap(s, b);
                            match gap(s, b) {
                                Some(g) => lemma_type_instantiation_within(s, g),
                                None => {},
                            }
                        },
                        None => {},
                    }
                },
                None => {},
            }
        },
        None => {},
    }
}

/// The start of a branch fails inside the text.
pub proof fn lemma_branch_at_within(s: Seq<u8>, p: int, tag: Seq<u8>, expected: Expected)
    requires
        0 <= p <= s.len(),
    ensures
        failure_within(branch_at(s, p, tag, expected), s, p),
{
    lemma_skip_spaces(s, p);
    lemma_spaced_tag(s, p, tag);
}

/// A body fails inside the text.
pub proof fn lemma_body_within(s: Seq<u8>, p: int)
    requires
        0 <= p <= s.len(),
    ensures
        failure_within(body(s, p), s, p),
    decreases s.len() - p,
{
    reveal(condition);
    reveal(provided);
    match tag_at(s, p, "if".spec_bytes()) {
        Some(a) => {
            lemma_gap(s, a);
            match gap(s, a) {
                Some(g) => lemma_matcher_within(s, g),
                None => {},
            }
            lemma_condition(s, a);
            match condition(s, a) {
                Ok((_, q)) => {
                    lemma_branch_at_within(s, q, "then".spec_bytes(), Expected::Then);
                    lemma_branch_at(s, q, "then".spec_bytes(), Expected::Then);
                    match branch_at(s, q, "then".spec_bytes(), Expected::Then) {
                        Ok(yes_at) => {
                            lemma_body_within(s, yes_at);
                            lemma_body(s, yes_at);
                            match body(s, yes_at) {
                                Ok((_, r)) => {
                                    lemma_branch_at_within(
                                        s,
                                        r,
                                        "else".spec_bytes(),
                                        Expected::Else,
                                    );
                                    lemma_branch_at(s, r, "else".spec_bytes(), Expected::Else);
                                    match branch_at(s, r, "else".spec_bytes(), Expected::Else) {
                                        Ok(no_at) => lemma_body_within(s, no_at),
                                        Err(_) => {},
                                    }
                                },
                                Err(_) => {},
                            }
                        },
                        Err(_) => {},
                    }
                },
                Err(_) => {},
            }
        },
        None => match tag_at(s, p, "providing".spec_bytes()) {
            Some(a) => {
                lemma_gap(s, a);
                match gap(s, a) {
                    Some(g) => lemma_value_within(s, g),
                    None => {},
                }
            },
            None => {},
        },
    }
}

/// A provision fails inside the text, also where a name is repeated.
pub proof fn lemma_provision_within(s: Seq<u8>, p: int)
    requires
        0 <= p <= s.len(),
    ensures
        error_within(provision(s, p), s, p),
{
    reveal(provision);
    reveal(by_body);
    lemma_arguments_within(s, p);
    lemma_arguments(s, p);
    match arguments(s, p) {
        Ok((args, q)) => {
            lemma_gap(s, q);
            match gap(s, q) {
                Some(g) => {
                    lemma_header_within(s, g);
                    lemma_header(s, g);
                    match header(s, g) {
                        Ok((_, r)) => {
                            lemma_skip_spaces(s, r);
                            lemma_spaced_tag(s, r, "by".spec_bytes());
                            match spaced_tag(s, r, "by".spec_bytes()) {
                                Some(b) => {
                                    lemma_gap(s, b);
                                    match gap(s, b) {
                                        Some(body_at) => {
                                            lemma_body_within(s, body_at);
                                            lemma_first_repeat(
                                                crate::grammar::names_of(
                                                    crate::grammar::unplaced(args),
                                                ),
                                                0,
                                            );
                                        },
                                        None => {},
                                    }
                                },
                                None => {},
                            }
                        },
                        Err(_) => {},
                    }
                },
                None => {},
            }
        },
        Err(_) => {},
    }
}

/// A declaration fails inside the text.
pub proof fn lemma_declaration_within(s: Seq<u8>, p: int)
    requires
        0 <= p <= s.len(),
    ensures
        error_within(declaration(s, p), s, p),
{
    reveal(declaration);
    lemma_provision_within(s, p);
    lemma_type_decl_within(s, p);
}

/// The declarations that follow one fail inside the text, and each starts
/// inside it.
pub proof fn lemma_declarations_after_within(s: Seq<u8>, p: int)
    requires
        0 <= p <= s.len(),
    ensures
        error_within(declarations_after(s, p), s, p),
        declarations_after(s, p) matches Ok(items) ==> placed_within(items, p, s.len() as int),
    decreases s.len() - p,
{
    lemma_gap(s, p);
    match gap(s, p) {
        Some(g) => {
            if g != s.len() {
                lemma_declaration_within(s, g);
                lemma_declaration(s, g);
                match declaration(s, g) {
                    Ok((item, q)) => {
                        lemma_declarations_after_within(s, q);
                        match declarations_after(s, q) {
                            Ok(rest) => {
                                let all = seq![(item, g)] + rest;
                                assert forall|i: int| 0 <= i < all.len() implies p <= (
                                #[trigger] all[i]).1 <= s.len() by {
                                    if i > 0 {
                                        assert(all[i] == rest[i - 1]);
                                    }
                                }
                            },
                            Err(_) => {},
                        }
                    },
                    Err(_) => {},
                }
            } else {
                assert(placed_within(Seq::<(DeclarationView, int)>::empty(), p, s.len() as int));
            }
        },
        None => {
            assert(placed_within(Seq::<(DeclarationView, int)>::empty(), p, s.len() as int));
        },
    }
}

/// The declarations of a text fail inside the text, and each starts inside
/// it.
pub proof fn lemma_program_within(s: Seq<u8>)
    ensures
        error_within(program(s), s, 0),
        program(s) matches Ok(items) ==> placed_within(items, 0, s.len() as int),
{
    lemma_skip_spaces(s, 0);
    let start = skip_spaces(s, 0);
    if start != s.len() {
        lemma_declaration_within(s, start);
        lemma_declaration(s, start);
        match declaration(s, start) {
            Ok((item, q)) => {
                lemma_declarations_after_within(s, q);
                match declarations_after(s, q) {
                    Ok(rest) => {
                        let all = seq![(item, start)] + rest;
                        assert forall|i: int| 0 <= i < all.len() implies 0 <= (#[trigger] all[i]).1
                            <= s.len() by {
                            if i > 0 {
                                assert(all[i] == rest[i - 1]);
                            }
                        }
                    },
                    Err(_) => {},
                }
            },
            Err(_) => {},
        }
    } else {
        assert(placed_within(Seq::<(DeclarationView, int)>::empty(), 0, s.len() as int));
    }
}

/// Whatever makes a text fail is reported at a position of the text.
pub proof fn lemma_error_in_text(s: Seq<u8>)
    ensures
        rule_book(s) matches Err(e) ==> 0 <= offset_of(e) <= s.len(),
{
    lemma_program_within(s);
    match program(s) {
        Ok(items) => {
            let decls = listed(items);
            match bind_program(decls) {
                Ok(typed) => {
                    lemma_gather(bound_declarations(decls));
                    lemma_gather(annotated_declarations(typed));
                    match resolve(decls) {
                        Err(e) => {
                            assert(0 <= e.declaration < items.len());
                        },
                        Ok(_) => {},
                    }
                },
                Err(e) => {
                    lemma_gather(bound_declarations(decls));
                    assert(0 <= e.declaration < items.len());
                },
            }
        },
        Err(_) => {},
    }
}

} // verus!
