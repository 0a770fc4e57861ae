//! What holds of a parsed rule book before resolution: the generic
//! parameters of every type, declared or used, are unbound, every use of a
//! type is known by name only, and no value carries a type.

use crate::ast::{
    BindingView, BodyView, ContentsView, DeclarationView, MatcherView, TypeView, ValueView,
};
use crate::grammar::{
    and_rest, argument, argument_rest, arguments, body, branch_at, by_body, chain_rest, comparison,
    condition, declaration, declarations_after, disjunction, enum_decl, field, field_rest, header,
    lemma_argument, lemma_body, lemma_branch_at, lemma_condition, lemma_declaration,
    lemma_disjunction, lemma_field, lemma_negation, lemma_value, listed, matcher, negation,
    or_rest, program, provided, provision, record_decl, type_decl, type_instantiation, unplaced,
    value,
};
use crate::lexer::{
    gap, lemma_gap, lemma_spaced_tag, lemma_spaced_tag2, spaced_tag, spaced_tag2, tag_at,
};
use crate::error::Expected;
use vstd::prelude::*;
use vstd::string::StringSliceAdditionalSpecFns;

verus! {

/// The type is known by name only and its generic parameters are unbound.
pub open spec fn type_bare(t: TypeView) -> bool {
    t.contents is Declaration && t.generics is Unbound
}

/// The type of every binding is bare.
pub open spec fn bindings_bare(items: Seq<BindingView>) -> bool {
    forall|i: int| 0 <= i < items.len() ==> type_bare(#[trigger] items[i].ty)
}

/// The value is a word or a reference, and neither it nor any value in its
/// chain carries a type.
pub open spec fn value_bare(v: ValueView) -> bool
    decreases v,
{
    match v {
        ValueView::Literal(_, ty) => ty is None,
        ValueView::Reference(chain, ty) => ty is None && forall|i: int|
            0 <= i < chain.len() ==> value_bare(#[trigger] chain[i]),
        ValueView::Invocation(_, _, _) => false,
    }
}

/// No value in the matcher carries a type.
pub open spec fn matcher_bare(m: MatcherView) -> bool
    decreases m,
{
    match m {
        MatcherView::And(items) => forall|i: int|
            0 <= i < items.len() ==> matcher_bare(#[trigger] items[i]),
        MatcherView::Or(items) => forall|i: int|
            0 <= i < items.len() ==> matcher_bare(#[trigger] items[i]),
        MatcherView::Not(inner) => matcher_bare(*inner),
        MatcherView::Comparison(lhs, rhs, _) => value_bare(lhs) && value_bare(rhs),
    }
}

/// No value in the body carries a type.
pub open spec fn body_bare(b: BodyView) -> bool
    decreases b,
{
    match b {
        BodyView::IfStmt(test, yes, no) => matcher_bare(test) && body_bare(*yes) && body_bare(*no),
        BodyView::ProvideStmt(value) => value_bare(value),
    }
}

/// The declaration is as the grammar gives it: a declared type has unbound
/// generic parameters and is an enumeration or a record with bare field
/// types; a provision has bare parameter and return types and a bare body.
pub open spec fn declaration_bare(d: DeclarationView) -> bool {
    match d {
        DeclarationView::TypeDecl(t) => t.generics is Unbound && match t.contents {
            ContentsView::RecordDecl(fields) => bindings_bare(fields),
            ContentsView::EnumDecl(_) => true,
            _ => false,
        },
        DeclarationView::ProvisionDecl(p) => bindings_bare(p.args) && type_bare(p.returns)
            && body_bare(p.body),
    }
}

/// Every declaration of the rule book is bare.
pub open spec fn is_bare(decls: Seq<DeclarationView>) -> bool {
    forall|i: int| 0 <= i < decls.len() ==> declaration_bare(#[trigger] decls[i])
}

/// The further fields of a record have bare types.
pub proof fn lemma_field_rest_bare(s: Seq<u8>, p: int)
    ensures
        field_rest(s, p) matches Ok((items, _)) ==> bindings_bare(unplaced(items)),
    decreases s.len() - p,
{
    reveal(field);
    reveal(type_instantiation);
    match spaced_tag2(s, p, "and a".spec_bytes(), "and an".spec_bytes()) {
        Some(a) => match gap(s, a) {
            Some(g) => match field(s, g) {
                Ok((f, q)) => {
                    lemma_spaced_tag2(s, p, "and a".spec_bytes(), "and an".spec_bytes());
                    lemma_gap(s, a);
                    lemma_field(s, g);
                    lemma_field_rest_bare(s, q);
                    match field_rest(s, q) {
                        Ok((rest, _)) => {
                            let all = unplaced(seq![f] + rest);
                            assert forall|i: int| 0 <= i < all.len() implies type_bare(
                                #[trigger] all[i].ty,
                            ) by {
                                if i > 0 {
                                    assert(all[i] == unplaced(rest)[i - 1]);
                                }
                            }
                        },
                        Err(_) => {},
                    }
                },
                Err(_) => {},
            },
            None => {},
        },
        None => {},
    }
}

/// The fields of a record have bare types.
pub proof fn lemma_record_bare(s: Seq<u8>, p: int)
    ensures
        record_decl(s, p) matches Ok((contents, _)) ==> (contents matches ContentsView::RecordDecl(
            fields,
        ) && bindings_bare(fields)),
{
    reveal(record_decl);
    reveal(field);
    reveal(type_instantiation);
    match field(s, p) {
        Ok((f, q)) => {
            lemma_field_rest_bare(s, q);
            match field_rest(s, q) {
                Ok((rest, _)) => {
                    let all = unplaced(seq![f] + rest);
                    assert forall|i: int| 0 <= i < all.len() implies type_bare(
                        #[trigger] all[i].ty,
                    ) by {
                        if i > 0 {
                            assert(all[i] == unplaced(rest)[i - 1]);
                        }
                    }
                },
                Err(_) => {},
            }
        },
        Err(_) => {},
    }
}

/// The further parameters of a provision have bare types.
pub proof fn lemma_argument_rest_bare(s: Seq<u8>, p: int)
    ensures
        argument_rest(s, p) matches Ok((items, _)) ==> bindings_bare(unplaced(items)),
    decreases s.len() - p,
{
    reveal(argument);
    reveal(type_instantiation);
    match spaced_tag(s, p, "then".spec_bytes()) {
        Some(a) => match gap(s, a) {
            Some(g) => match argument(s, g) {
                Ok((item, q)) => {
                    lemma_spaced_tag(s, p, "then".spec_bytes());
                    lemma_gap(s, a);
                    lemma_argument(s, g);
                    lemma_argument_rest_bare(s, q);
                    match argument_rest(s, q) {
                        Ok((rest, _)) => {
                            let all = unplaced(seq![item] + rest);
                            assert forall|i: int| 0 <= i < all.len() implies type_bare(
                                #[trigger] all[i].ty,
                            ) by {
                                if i > 0 {
                                    assert(all[i] == unplaced(rest)[i - 1]);
                                }
                            }
                        },
                        Err(_) => {},
                    }
                },
                Err(_) => {},
            },
            None => {},
        },
        None => {},
    }
}

/// The parameters of a provision have bare types.
pub proof fn lemma_arguments_bare(s: Seq<u8>, p: int)
    ensures
        arguments(s, p) matches Ok((args, _)) ==> bindings_bare(unplaced(args)),
{
    reveal(arguments);
    reveal(argument);
    reveal(type_instantiation);
    match arguments(s, p) {
        Ok((args, _)) => {
            let a = crate::lexer::tag2_at(s, p, "Given a".spec_bytes(), "Given an".spec_bytes())->0;
            let g = gap(s, a)->0;
            let (first, q) = argument(s, g)->Ok_0;
            lemma_argument_rest_bare(s, q);
            let (rest, _) = argument_rest(s, q)->Ok_0;
            let all = unplaced(args);
            assert forall|i: int| 0 <= i < all.len() implies type_bare(#[trigger] all[i].ty) by {
                if i > 0 {
                    assert(all[i] == unplaced(rest)[i - 1]);
                }
            }
        },
        Err(_) => {},
    }
}

/// What `value` reads is bare, down to the items of a chain.
pub proof fn lemma_value_bare(s: Seq<u8>, p: int)
    ensures
        value(s, p) matches Ok((v, _)) ==> value_bare(v),
    decreases s.len() - p, 1nat,
{
    match tag_at(s, p, "the".spec_bytes()) {
        Some(a) => {
            lemma_gap(s, a);
            match gap(s, a) {
                Some(g) => {
                    lemma_value(s, g);
                    lemma_value_bare(s, g);
                    match value(s, g) {
                        Ok((first, q)) => {
                            lemma_chain_rest_bare(s, q);
                            match chain_rest(s, q) {
                                Ok((rest, _)) => {
                                    let chain = seq![first] + rest;
                                    assert forall|i: int| 0 <= i < chain.len() implies value_bare(
                                        #[trigger] chain[i],
                                    ) by {
                                        if i > 0 {
                                            assert(chain[i] == rest[i - 1]);
                                        }
                                    }
                                },
                                Err(_) => {},
                            }
                        },
                        Err(_) => {},
                    }
                },
                None => {},
            }
        },
        None => {},
    }
}

/// The further items of a chain are bare.
pub proof fn lemma_chain_rest_bare(s: Seq<u8>, p: int)
    requires
        0 <= p <= s.len(),
    ensures
        chain_rest(s, p) matches Ok((items, _)) ==> forall|i: int|
            0 <= i < items.len() ==> value_bare(#[trigger] items[i]),
    decreases s.len() - p, 0nat,
{
    lemma_spaced_tag2(s, p, "then".spec_bytes(), "of".spec_bytes());
    match spaced_tag2(s, p, "then".spec_bytes(), "of".spec_bytes()) {
        Some(a) => {
            lemma_gap(s, a);
            match gap(s, a) {
                Some(g) => {
                    lemma_value(s, g);
                    lemma_value_bare(s, g);
                    match value(s, g) {
                        Ok((item, q)) => {
                            lemma_chain_rest_bare(s, q);
                            match chain_rest(s, q) {
                                Ok((rest, _)) => {
                                    let all = seq![item] + rest;
                                    assert forall|i: int| 0 <= i < all.len() implies value_bare(
                                        #[trigger] all[i],
                                    ) by {
                                        if i > 0 {
                                            assert(all[i] == rest[i - 1]);
                                        }
                                    }
                                },
                                Err(_) => {},
                            }
                        },
                        Err(_) => {},
                    }
                },
                None => {},
            }
        },
        None => {},
    }
}

/// What the matcher rules read is bare.
pub proof fn lemma_negation_bare(s: Seq<u8>, p: int)
    ensures
        comparison(s, p) matches Ok((m, _)) ==> matcher_bare(m),
        negation(s, p) matches Ok((m, _)) ==> matcher_bare(m),
{
    reveal(negation);
    lemma_comparison_bare(s, p);
    match tag_at(s, p, "not".spec_bytes()) {
        Some(a) => match gap(s, a) {
            Some(g) => lemma_comparison_bare(s, g),
            None => {},
        },
        None => {},
    }
}

/// What `comparison` reads is bare.
pub proof fn lemma_comparison_bare(s: Seq<u8>, p: int)
    ensures
        comparison(s, p) matches Ok((m, _)) ==> matcher_bare(m),
{
    reveal(comparison);
    lemma_value_bare(s, p);
    match value(s, p) {
        Ok((_, q)) => match crate::grammar::comparator(s, q) {
            Some((_, a)) => match gap(s, a) {
                Some(g) => lemma_value_bare(s, g),
                None => {},
            },
            None => {},
        },
        Err(_) => {},
    }
}

/// The further alternatives of a disjunction are bare.
pub proof fn lemma_or_rest_bare(s: Seq<u8>, p: int)
    ensures
        or_rest(s, p) matches Ok((items, _)) ==> forall|i: int|
            0 <= i < items.len() ==> matcher_bare(#[trigger] items[i]),
    decreases s.len() - p,
{
    match spaced_tag(s, p, "or".spec_bytes()) {
        Some(a) => match gap(s, a) {
            Some(g) => match negation(s, g) {
                Ok((item, q)) => {
                    lemma_spaced_tag(s, p, "or".spec_bytes());
                    lemma_gap(s, a);
                    lemma_negation(s, g);
                    lemma_negation_bare(s, g);
                    lemma_or_rest_bare(s, q);
                    match or_rest(s, q) {
                        Ok((rest, _)) => {
                            let all = seq![item] + rest;
                            assert forall|i: int| 0 <= i < all.len() implies matcher_bare(
                                #[trigger] all[i],
                            ) by {
                                if i > 0 {
                                    assert(all[i] == rest[i - 1]);
                                }
                            }
                        },
                        Err(_) => {},
                    }
                },
                Err(_) => {},
            },
            None => {},
        },
        None => {},
    }
}

/// What `disjunction` reads is bare.
pub proof fn lemma_disjunction_bare(s: Seq<u8>, p: int)
    ensures
        disjunction(s, p) matches Ok((m, _)) ==> matcher_bare(m),
{
    reveal(disjunction);
    match negation(s, p) {
        Ok((first, q)) => {
            lemma_negation_bare(s, p);
            lemma_or_rest_bare(s, q);
            match or_rest(s, q) {
                Ok((rest, _)) => {
                    let items = seq![first] + rest;
                    assert forall|i: int| 0 <= i < items.len() implies matcher_bare(
                        #[trigger] items[i],
                    ) by {
                        if i > 0 {
                            assert(items[i] == rest[i - 1]);
                        }
                    }
                },
                Err(_) => {},
            }
        },
        Err(_) => {},
    }
}

/// The further parts of a conjunction are bare.
pub proof fn lemma_and_rest_bare(s: Seq<u8>, p: int)
    ensures
        and_rest(s, p) matches Ok((items, _)) ==> forall|i: int|
            0 <= i < items.len() ==> matcher_bare(#[trigger] items[i]),
    decreases s.len() - p,
{
    match spaced_tag(s, p, "and".spec_bytes()) {
        Some(a) => match gap(s, a) {
            Some(g) => match disjunction(s, g) {
                Ok((item, q)) => {
                    lemma_spaced_tag(s, p, "and".spec_bytes());
                    lemma_gap(s, a);
                    lemma_disjunction(s, g);
                    lemma_disjunction_bare(s, g);
                    lemma_and_rest_bare(s, q);
                    match and_rest(s, q) {
                        Ok((rest, _)) => {
                            let all = seq![item] + rest;
                            assert forall|i: int| 0 <= i < all.len() implies matcher_bare(
                                #[trigger] all[i],
                            ) by {
                                if i > 0 {
                                    assert(all[i] == rest[i - 1]);
                                }
                            }
                        },
                        Err(_) => {},
                    }
                },
                Err(_) => {},
            },
            None => {},
        },
        None => {},
    }
}

/// What `matcher` reads is bare.
pub proof fn lemma_matcher_bare(s: Seq<u8>, p: int)
    ensures
        matcher(s, p) matches Ok((m, _)) ==> matcher_bare(m),
{
    reveal(matcher);
    match disjunction(s, p) {
        Ok((first, q)) => {
            lemma_disjunction_bare(s, p);
            lemma_and_rest_bare(s, q);
            match and_rest(s, q) {
                Ok((rest, _)) => {
                    let items = seq![first] + rest;
                    assert forall|i: int| 0 <= i < items.len() implies matcher_bare(
                        #[trigger] items[i],
                    ) by {
                        if i > 0 {
                            assert(items[i] == rest[i - 1]);
                        }
                    }
                },
                Err(_) => {},
            }
        },
        Err(_) => {},
    }
}

/// What `body` reads is bare.
pub proof fn lemma_body_bare(s: Seq<u8>, p: int)
    ensures
        body(s, p) matches Ok((b, _)) ==> body_bare(b),
    decreases s.len() - p,
{
    reveal(condition);
    reveal(provided);
    match tag_at(s, p, "if".spec_bytes()) {
        Some(a) => {
            lemma_condition(s, a);
            match condition(s, a) {
                Ok((_, q)) => {
                    match gap(s, a) {
                        Some(g) => lemma_matcher_bare(s, g),
                        None => {},
                    }
                    lemma_branch_at(s, q, "then".spec_bytes(), Expected::Then);
                    match branch_at(s, q, "then".spec_bytes(), Expected::Then) {
                        Ok(yes_at) => {
                            lemma_body(s, yes_at);
                            lemma_body_bare(s, yes_at);
                            match body(s, yes_at) {
                                Ok((_, r)) => {
                                    lemma_branch_at(s, r, "else".spec_bytes(), Expected::Else);
                                    match branch_at(s, r, "else".spec_bytes(), Expected::Else) {
                                        Ok(no_at) => lemma_body_bare(s, no_at),
                                        Err(_) => {},
                                    }
                                },
                                Err(_) => {},
                            }
                        },
                        Err(_) => {},
                    }
                },
                Err(_) => {},
            }
        },
        None => match tag_at(s, p, "providing".spec_bytes()) {
            Some(a) => match gap(s, a) {
                Some(g) => lemma_value_bare(s, g),
                None => {},
            },
            None => {},
        },
    }
}

/// What `declaration` reads is bare.
pub proof fn lemma_declaration_bare(s: Seq<u8>, p: int)
    ensures
        declaration(s, p) matches Ok((d, _)) ==> declaration_bare(d),
{
    reveal(declaration);
    reveal(provision);
    reveal(by_body);
    reveal(header);
    reveal(type_decl);
    reveal(enum_decl);
    reveal(type_instantiation);
    match provision(s, p) {
        Ok((item, _)) => {
            lemma_arguments_bare(s, p);
            let (args, q) = arguments(s, p)->Ok_0;
            let g = gap(s, q)->0;
            let (_, r) = header(s, g)->Ok_0;
            let b = spaced_tag(s, r, "by".spec_bytes())->0;
            let body_at = gap(s, b)->0;
            lemma_body_bare(s, body_at);
        },
        Err(_) => {
            match type_decl(s, p) {
                Ok((item, _)) => {
                    let (head, q) = type_instantiation(s, p)->Ok_0;
                    match spaced_tag2(s, q, "is a".spec_bytes(), "is an".spec_bytes()) {
                        Some(a) => {},
                        None => {
                            let a = spaced_tag2(
                                s,
                                q,
                                "has a".spec_bytes(),
                                "has an".spec_bytes(),
                            )->0;
                            let g = gap(s, a)->0;
                            lemma_record_bare(s, g);
                        },
                    }
                },
                Err(_) => {},
            }
        },
    }
}

/// The declarations that follow one are bare.
pub proof fn lemma_declarations_after_bare(s: Seq<u8>, p: int)
    ensures
        declarations_after(s, p) matches Ok(items) ==> is_bare(listed(items)),
    decreases s.len() - p,
{
    match gap(s, p) {
        Some(g) => {
            if g != s.len() {
                match declaration(s, g) {
                    Ok((item, q)) => {
                        lemma_gap(s, p);
                        lemma_declaration(s, g);
                        lemma_declaration_bare(s, g);
                        lemma_declarations_after_bare(s, q);
                        match declarations_after(s, q) {
                            Ok(rest) => {
                                let all = listed(seq![(item, g)] + rest);
                                assert forall|i: int| 0 <= i < all.len() implies declaration_bare(
                                    #[trigger] all[i],
                                ) by {
                                    if i > 0 {
                                        assert(all[i] == listed(rest)[i - 1]);
                                    }
                                }
                            },
                            Err(_) => {},
                        }
                    },
                    Err(_) => {},
                }
            }
        },
        None => {},
    }
}

/// Every declaration that the grammar reads is bare.
pub proof fn lemma_program_bare(s: Seq<u8>)
    ensures
        program(s) matches Ok(items) ==> is_bare(listed(items)),
{
    let start = crate::lexer::skip_spaces(s, 0);
    if start != s.len() {
        match declaration(s, start) {
            Ok((item, q)) => {
                lemma_declaration_bare(s, start);
                lemma_declarations_after_bare(s, q);
                match declarations_after(s, q) {
                    Ok(rest) => {
                        let all = listed(seq![(item, start)] + rest);
                        assert forall|i: int| 0 <= i < all.len() implies declaration_bare(
                            #[trigger] all[i],
                        ) by {
                            if i > 0 {
                                assert(all[i] == listed(rest)[i - 1]);
                            }
                        }
                    },
                    Err(_) => {},
                }
            },
            Err(_) => {},
        }
    }
}

} // verus!
