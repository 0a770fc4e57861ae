//! Laws of the grammar and of resolution, proved from their definitions.

use crate::ast::{
    BindingView, BodyView, Comparator, DeclarationView, MatcherView, Program, ValueView,
};
use crate::error::{ParseError, SyntaxErrorView};
use crate::resolution::{
    all_literals, argument_words, binding_index, Issue, provision_index, record_fields_of,
    resolve_body, resolve_value,
};
use crate::grammar::{
    and_rest, comparator, comparison, disjunction, matcher, negation, or_rest, rule_book,
};
use crate::lexer::{
    gap, is_alnum, is_space, lemma_gap, lemma_spaced_tag, skip_spaces, spaced_tag, tag_at,
    word_end,
};
use crate::program::outcome;
use vstd::prelude::*;
use vstd::string::StringSliceAdditionalSpecFns;

verus! {

/// Parsing the same text twice gives equal trees: whatever two runs of
/// `parse_program` on one text return, both are the rule book that the text
/// stands for, equal in model, or both the same error.
pub proof fn lemma_parse_deterministic(
    first_text: &str,
    second_text: &str,
    first: Result<Program, ParseError>,
    second: Result<Program, ParseError>,
)
    requires
        first_text@ == second_text@,
        outcome(first) == rule_book(first_text.spec_bytes()),
        outcome(second) == rule_book(second_text.spec_bytes()),
    ensures
        outcome(first) == outcome(second),
{
}

/// A comparison.
pub open spec fn is_comparison(m: MatcherView) -> bool {
    m is Comparison
}

/// A comparison, or the negation of one.
pub open spec fn is_negation(m: MatcherView) -> bool {
    is_comparison(m) || (m matches MatcherView::Not(inner) && is_comparison(*inner))
}

/// A comparison or negation, or a disjunction of two or more of them.
pub open spec fn is_disjunction(m: MatcherView) -> bool {
    is_negation(m) || (m matches MatcherView::Or(items) && items.len() >= 2 && forall|i: int|
        0 <= i < items.len() ==> is_negation(#[trigger] items[i]))
}

/// The shape of every matcher that the grammar gives: at most a conjunction
/// of disjunctions of comparisons, each negated or not. A conjunction and a
/// disjunction have two items or more, and neither holds one of its own
/// kind.
pub open spec fn is_layered(m: MatcherView) -> bool {
    is_disjunction(m) || (m matches MatcherView::And(items) && items.len() >= 2 && forall|i: int|
        0 <= i < items.len() ==> is_disjunction(#[trigger] items[i]))
}

/// What `negation` reads is a comparison, negated or not.
pub proof fn lemma_negation_shape(s: Seq<u8>, p: int)
    ensures
        comparison(s, p) matches Ok((m, _)) ==> is_comparison(m),
        negation(s, p) matches Ok((m, _)) ==> is_negation(m),
{
    reveal(negation);
    reveal(comparison);
    match tag_at(s, p, "not".spec_bytes()) {
        Some(a) => match gap(s, a) {
            Some(g) => {
                assert(comparison(s, g) matches Ok((m, _)) ==> is_comparison(m));
            },
            None => {},
        },
        None => {},
    }
}

/// The further alternatives of a disjunction are comparisons, negated or not.
pub proof fn lemma_or_rest_shape(s: Seq<u8>, p: int)
    ensures
        or_rest(s, p) matches Ok((items, _)) ==> forall|i: int|
            0 <= i < items.len() ==> is_negation(#[trigger] items[i]),
    decreases s.len() - p,
{
    match spaced_tag(s, p, "or".spec_bytes()) {
        Some(a) => match gap(s, a) {
            Some(g) => match negation(s, g) {
                Ok((item, q)) => {
                    lemma_spaced_tag(s, p, "or".spec_bytes());
                    lemma_gap(s, a);
                    crate::grammar::lemma_negation(s, g);
                    lemma_negation_shape(s, g);
                    lemma_or_rest_shape(s, q);
                    match or_rest(s, q) {
                        Ok((rest, _)) => {
                            let all = seq![item] + rest;
                            assert forall|i: int| 0 <= i < all.len() implies is_negation(
                                #[trigger] all[i],
                            ) by {
                                if i > 0 {
                                    assert(all[i] == rest[i - 1]);
                                }
                            }
                        },
                        Err(_) => {},
                    }
                },
                Err(_) => {},
            },
            None => {},
        },
        None => {},
    }
}

/// What `disjunction` reads is a disjunction.
pub proof fn lemma_disjunction_shape(s: Seq<u8>, p: int)
    ensures
        disjunction(s, p) matches Ok((m, _)) ==> is_disjunction(m),
{
    reveal(disjunction);
    match negation(s, p) {
        Ok((first, q)) => {
            lemma_negation_shape(s, p);
            lemma_or_rest_shape(s, q);
            match or_rest(s, q) {
                Ok((rest, _)) => {
                    let items = seq![first] + rest;
                    assert forall|i: int| 0 <= i < items.len() implies is_negation(
                        #[trigger] items[i],
                    ) by {
                        if i > 0 {
                            assert(items[i] == rest[i - 1]);
                        }
                    }
                },
                Err(_) => {},
            }
        },
        Err(_) => {},
    }
}

/// The further parts of a conjunction are disjunctions.
pub proof fn lemma_and_rest_shape(s: Seq<u8>, p: int)
    ensures
        and_rest(s, p) matches Ok((items, _)) ==> forall|i: int|
            0 <= i < items.len() ==> is_disjunction(#[trigger] items[i]),
    decreases s.len() - p,
{
    match spaced_tag(s, p, "and".spec_bytes()) {
        Some(a) => match gap(s, a) {
            Some(g) => match disjunction(s, g) {
                Ok((item, q)) => {
                    lemma_spaced_tag(s, p, "and".spec_bytes());
                    lemma_gap(s, a);
                    crate::grammar::lemma_disjunction(s, g);
                    lemma_disjunction_shape(s, g);
                    lemma_and_rest_shape(s, q);
                    match and_rest(s, q) {
                        Ok((rest, _)) => {
                            let all = seq![item] + rest;
                            assert forall|i: int| 0 <= i < all.len() implies is_disjunction(
                                #[trigger] all[i],
                            ) by {
                                if i > 0 {
                                    assert(all[i] == rest[i - 1]);
                                }
                            }
                        },
                        Err(_) => {},
                    }
                },
                Err(_) => {},
            },
            None => {},
        },
        None => {},
    }
}

/// Every matcher that the grammar reads has at most three layers: `and`
/// outermost, `or` inside it, and comparisons, negated or not, innermost.
pub proof fn lemma_matcher_layered(s: Seq<u8>, p: int)
    ensures
        matcher(s, p) matches Ok((m, _)) ==> is_layered(m),
{
    reveal(matcher);
    match disjunction(s, p) {
        Ok((first, q)) => {
            lemma_disjunction_shape(s, p);
            lemma_and_rest_shape(s, q);
            match and_rest(s, q) {
                Ok((rest, _)) => {
                    let items = seq![first] + rest;
                    assert forall|i: int| 0 <= i < items.len() implies is_disjunction(
                        #[trigger] items[i],
                    ) by {
                        if i > 0 {
                            assert(items[i] == rest[i - 1]);
                        }
                    }
                },
                Err(_) => {},
            }
        },
        Err(_) => {},
    }
}

/// `and` binds weaker than `or`: a text of the shape `A or B and C`, where
/// `A` and `B` are comparisons, negated or not, no further `or` follows `B`,
/// `C` is a disjunction and no further `and` follows it, reads as the
/// conjunction of the disjunction of `A` and `B` with `C`.
pub proof fn lemma_and_outermost(
    s: Seq<u8>,
    p: int,
    a: MatcherView,
    b: MatcherView,
    c: MatcherView,
    after_a: int,
    b_at: int,
    after_b: int,
    c_at: int,
    after_c: int,
)
    requires
        negation(s, p) == Ok::<(MatcherView, int), SyntaxErrorView>((a, after_a)),
        spaced_tag(s, after_a, "or".spec_bytes()) matches Some(t) && gap(s, t) == Some(b_at),
        negation(s, b_at) == Ok::<(MatcherView, int), SyntaxErrorView>((b, after_b)),
        spaced_tag(s, after_b, "or".spec_bytes()) is None,
        spaced_tag(s, after_b, "and".spec_bytes()) matches Some(t) && gap(s, t) == Some(c_at),
        disjunction(s, c_at) == Ok::<(MatcherView, int), SyntaxErrorView>((c, after_c)),
        spaced_tag(s, after_c, "and".spec_bytes()) is None,
    ensures
        matcher(s, p) == Ok::<(MatcherView, int), SyntaxErrorView>(
            (MatcherView::And(seq![MatcherView::Or(seq![a, b]), c]), after_c),
        ),
{
    assert(seq![MatcherView::Or(seq![a, b])] + seq![c] =~= seq![MatcherView::Or(seq![a, b]), c]);
    reveal(disjunction);
    reveal(matcher);
    assert(or_rest(s, after_b) == Ok::<(Seq<MatcherView>, int), SyntaxErrorView>(
        (Seq::empty(), after_b),
    ));
    assert(seq![b] + Seq::<MatcherView>::empty() =~= seq![b]);
    assert(or_rest(s, after_a) == Ok::<(Seq<MatcherView>, int), SyntaxErrorView>(
        (seq![b], after_b),
    ));
    assert(seq![a] + seq![b] =~= seq![a, b]);
    assert(disjunction(s, p) == Ok::<(MatcherView, int), SyntaxErrorView>(
        (MatcherView::Or(seq![a, b]), after_b),
    ));
    assert(and_rest(s, after_c) == Ok::<(Seq<MatcherView>, int), SyntaxErrorView>(
        (Seq::empty(), after_c),
    ));
    assert(seq![c] + Seq::<MatcherView>::empty() =~= seq![c]);
    assert(and_rest(s, after_b) == Ok::<(Seq<MatcherView>, int), SyntaxErrorView>(
        (seq![c], after_c),
    ));
}

/// The longest comparator wins: where `is at least` stands, the comparator
/// is `GTE` and ends after the whole tag; and the comparator is `EQ` only
/// where none of the five longer tags stands.
pub proof fn lemma_longest_comparator_first(s: Seq<u8>, p: int)
    ensures
        spaced_tag(s, p, "is at least".spec_bytes()) matches Some(q) ==> comparator(s, p) == Some(
            (Comparator::GTE, q),
        ),
        comparator(s, p) matches Some((how, _)) && how == Comparator::EQ ==> {
            &&& spaced_tag(s, p, "is at least".spec_bytes()) is None
            &&& spaced_tag(s, p, "is bigger than".spec_bytes()) is None
            &&& spaced_tag(s, p, "is at most".spec_bytes()) is None
            &&& spaced_tag(s, p, "is smaller than".spec_bytes()) is None
            &&& spaced_tag(s, p, "is not".spec_bytes()) is None
        },
{
}

/// A reference to a parameter stays a reference: where `name` names a
/// parameter and no provision, `the name` resolves to the reference, it and
/// its one item annotated with the type of the parameter, and not to an
/// invocation.
pub proof fn lemma_parameter_reference(
    decls: Seq<DeclarationView>,
    args: Seq<BindingView>,
    name: Seq<char>,
    k: int,
)
    requires
        provision_index(decls, name, 0) is None,
        binding_index(args, name, 0) == Some(k),
    ensures
        resolve_value(
            decls,
            args,
            ValueView::Reference(seq![ValueView::Literal(name, None)], None),
        ) == Ok::<ValueView, Issue>(
            ValueView::Reference(
                seq![ValueView::Literal(name, Some(args[k].ty))],
                Some(args[k].ty),
            ),
        ),
{
    let chain = seq![ValueView::Literal(name, None)];
    let first = seq![ValueView::Literal(name, Some(args[k].ty))];
    assert(all_literals(chain));
    assert(first + Seq::<ValueView>::empty() =~= first);
}

/// The body that provides a reference to a parameter resolves to the body
/// that provides that reference, annotated with the type of the parameter.
pub proof fn lemma_provided_parameter(
    decls: Seq<DeclarationView>,
    args: Seq<BindingView>,
    name: Seq<char>,
    k: int,
)
    requires
        provision_index(decls, name, 0) is None,
        binding_index(args, name, 0) == Some(k),
    ensures
        resolve_body(
            decls,
            args,
            BodyView::ProvideStmt(ValueView::Reference(seq![ValueView::Literal(name, None)], None)),
        ) == Ok::<BodyView, Issue>(
            BodyView::ProvideStmt(
                ValueView::Reference(
                    seq![ValueView::Literal(name, Some(args[k].ty))],
                    Some(args[k].ty),
                ),
            ),
        ),
{
    lemma_parameter_reference(decls, args, name, k);
}

/// A provision comes before a parameter or field: a reference whose chain is
/// made of single words, the first of which names a provision, resolves to
/// the invocation of that provision, with the further words as arguments
/// and the return type of the provision.
pub proof fn lemma_provision_reference(
    decls: Seq<DeclarationView>,
    args: Seq<BindingView>,
    chain: Seq<ValueView>,
    i: int,
)
    requires
        chain.len() > 0,
        all_literals(chain),
        provision_index(decls, chain[0]->Literal_0, 0) == Some(i),
    ensures
        resolve_value(decls, args, ValueView::Reference(chain, None)) == Ok::<ValueView, Issue>(
            ValueView::Invocation(
                chain[0]->Literal_0,
                argument_words(chain),
                decls[i]->ProvisionDecl_0.returns,
            ),
        ),
{
}

/// A reference to a field of a parameter is a projection: where `name` names
/// a parameter and no provision, and `field` names a field of the record
/// type of that parameter, `the name of field` resolves to the reference
/// whose items carry the types of the parameter and of the field, and which
/// itself carries the type of the field.
pub proof fn lemma_field_reference(
    decls: Seq<DeclarationView>,
    args: Seq<BindingView>,
    name: Seq<char>,
    field: Seq<char>,
    k: int,
    fields: Seq<BindingView>,
    j: int,
)
    requires
        provision_index(decls, name, 0) is None,
        binding_index(args, name, 0) == Some(k),
        record_fields_of(decls, args[k].ty.name) == Some(fields),
        binding_index(fields, field, 0) == Some(j),
    ensures
        resolve_value(
            decls,
            args,
            ValueView::Reference(
                seq![ValueView::Literal(name, None), ValueView::Literal(field, None)],
                None,
            ),
        ) == Ok::<ValueView, Issue>(
            ValueView::Reference(
                seq![
                    ValueView::Literal(name, Some(args[k].ty)),
                    ValueView::Literal(field, Some(fields[j].ty)),
                ],
                Some(fields[j].ty),
            ),
        ),
{
    let chain = seq![ValueView::Literal(name, None), ValueView::Literal(field, None)];
    let first = ValueView::Literal(name, Some(args[k].ty));
    let second = ValueView::Literal(field, Some(fields[j].ty));
    assert(all_literals(chain));
    reveal_with_fuel(crate::resolution::project, 3);
    assert(seq![second] + Seq::<ValueView>::empty() =~= seq![second]);
    assert(seq![first] + seq![second] =~= seq![first, second]);
}

/// The bytes of an ASCII string literal are its characters.
proof fn lemma_literal_bytes(t: &str)
    requires
        vstd::string::is_ascii(t),
    ensures
        t.spec_bytes() =~= Seq::new(t@.len(), |i: int| t@[i] as u8),
{
    vstd::string::is_ascii_spec_bytes(t);
}

/// What reads as a comparison, negated or not, or as a disjunction, starts
/// with a byte that is no whitespace.
pub proof fn lemma_starts_with_a_word(s: Seq<u8>, p: int)
    ensures
        negation(s, p) is Ok || disjunction(s, p) is Ok ==> 0 <= p < s.len() && !is_space(s[p]),
{
    reveal(disjunction);
    reveal(negation);
    reveal(comparison);
    reveal_strlit("not");
    reveal_strlit("the");
    lemma_literal_bytes("not");
    lemma_literal_bytes("the");
    let not = "not".spec_bytes();
    let the = "the".spec_bytes();
    if tag_at(s, p, not) is Some {
        assert(s.subrange(p, p + 3)[0] == not[0]);
    }
    if tag_at(s, p, the) is Some {
        assert(s.subrange(p, p + 3)[0] == the[0]);
    }
    crate::lexer::lemma_word(s, p);
    if crate::lexer::word(s, p) is Some {
        crate::lexer::lemma_word_end(s, p);
        assert(is_alnum(s[p]));
    }
}

/// `and` binds weaker than `or`, in a text: where three texts are joined by
/// ` or ` and ` and `, and the first two read in place as comparisons,
/// negated or not, and the third reads in place, up to the end, as a
/// disjunction, the whole reads as the conjunction of the disjunction of
/// the first two with the third. The parts must read in place: a part that
/// ends in the word `the` reads otherwise once a word follows it.
pub proof fn lemma_and_outermost_in_text(
    first: Seq<u8>,
    second: Seq<u8>,
    third: Seq<u8>,
    a: MatcherView,
    b: MatcherView,
    c: MatcherView,
)
    requires
        negation(joined_by_or_and(first, second, third), 0) == Ok::<
            (MatcherView, int),
            SyntaxErrorView,
        >((a, first.len() as int)),
        negation(joined_by_or_and(first, second, third), (first.len() + 4) as int) == Ok::<
            (MatcherView, int),
            SyntaxErrorView,
        >((b, (first.len() + 4 + second.len()) as int)),
        disjunction(
            joined_by_or_and(first, second, third),
            (first.len() + second.len() + 9) as int,
        )
            == Ok::<(MatcherView, int), SyntaxErrorView>(
            (c, joined_by_or_and(first, second, third).len() as int),
        ),
    ensures
        matcher(joined_by_or_and(first, second, third), 0) == Ok::<
            (MatcherView, int),
            SyntaxErrorView,
        >(
            (
                MatcherView::And(seq![MatcherView::Or(seq![a, b]), c]),
                joined_by_or_and(first, second, third).len() as int,
            ),
        ),
{
    let s = joined_by_or_and(first, second, third);
    let n = first.len() as int;
    let m = second.len() as int;
    reveal_strlit(" or ");
    reveal_strlit(" and ");
    reveal_strlit("or");
    reveal_strlit("and");
    lemma_literal_bytes(" or ");
    lemma_literal_bytes(" and ");
    lemma_literal_bytes("or");
    lemma_literal_bytes("and");
    let or = "or".spec_bytes();
    let and = "and".spec_bytes();
    let b_at = n + 4;
    let after_b = n + 4 + m;
    let c_at = n + m + 9;
    assert(s.len() == n + m + 9 + third.len());
    assert(s[n] == 32 && s[n + 1] == 111 && s[n + 2] == 114 && s[n + 3] == 32);
    assert(s[after_b] == 32 && s[after_b + 1] == 97 && s[after_b + 2] == 110 && s[after_b + 3]
        == 100 && s[after_b + 4] == 32);
    lemma_starts_with_a_word(s, b_at);
    lemma_starts_with_a_word(s, c_at);
    reveal_with_fuel(skip_spaces, 3);
    reveal_with_fuel(word_end, 2);
    assert(skip_spaces(s, n) == n + 1);
    assert(s.subrange(n + 1, n + 3) =~= or);
    assert(spaced_tag(s, n, or) == Some(n + 3));
    assert(skip_spaces(s, n + 3) == b_at);
    assert(gap(s, n + 3) == Some(b_at));
    assert(skip_spaces(s, after_b) == after_b + 1);
    assert(s.subrange(after_b + 1, after_b + 3)[0] == s[after_b + 1]);
    assert(spaced_tag(s, after_b, or) is None);
    assert(s.subrange(after_b + 1, after_b + 4) =~= and);
    assert(spaced_tag(s, after_b, and) == Some(after_b + 4));
    assert(skip_spaces(s, after_b + 4) == c_at);
    assert(gap(s, after_b + 4) == Some(c_at));
    assert(skip_spaces(s, s.len() as int) == s.len());
    assert(spaced_tag(s, s.len() as int, and) is None);
    lemma_and_outermost(s, 0, a, b, c, n, b_at, after_b, c_at, s.len() as int);
}

/// Three texts joined by ` or ` and ` and `.
pub open spec fn joined_by_or_and(first: Seq<u8>, second: Seq<u8>, third: Seq<u8>) -> Seq<u8> {
    first + " or ".spec_bytes() + second + " and ".spec_bytes() + third
}

} // verus!
