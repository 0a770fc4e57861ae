//! A rule book that was parsed and then resolved is resolved all the way
//! down: no unbound type and no value without a type is left in it.

use crate::ast::{
    BindingView, BodyView, ContentsView, DeclarationView, GenericsView, MatcherView, TypeView,
    ValueView,
};
use crate::bare::{
    bindings_bare, body_bare, declaration_bare, is_bare, lemma_program_bare, matcher_bare,
    type_bare, value_bare,
};

use crate::grammar::{distinct, listed, names_of, program, rule_book};
use crate::resolution::{
    annotate_program, annotated_declarations, bind_bindings, bind_declaration, bind_parameters,
    bind_program, bind_type, binding_index, bound_bindings, bound_declarations, bound_to, collect,
    declares_provision, declares_type, first_uses, invoked, Issue, project, provision_index,
    record_fields_of, reference_to, resolve, resolve_body, resolve_matcher, resolve_value,
    resolved_matchers, type_index,
};
use crate::resolved::{lemma_collect, lemma_gather};
use vstd::prelude::*;

verus! {

/// Every generic binding in the type is bound and binds each name once,
/// down to the types of its fields and of its generic parameters.
pub open spec fn type_complete(t: TypeView) -> bool
    decreases t,
{
    &&& t.generics matches GenericsView::Bound(items) && distinct(names_of(items)) && forall|
        i: int,
    | 0 <= i < items.len() ==> type_complete((#[trigger] items[i]).ty)
    &&& t.contents matches ContentsView::RecordDecl(fields) ==> forall|i: int|
        0 <= i < fields.len() ==> type_complete((#[trigger] fields[i]).ty)
}

/// The type of every binding is complete.
pub open spec fn bindings_complete(items: Seq<BindingView>) -> bool {
    forall|i: int| 0 <= i < items.len() ==> type_complete((#[trigger] items[i]).ty)
}

/// The value and every value in it carry a complete type.
pub open spec fn value_complete(v: ValueView) -> bool
    decreases v,
{
    match v {
        ValueView::Invocation(_, _, ty) => type_complete(ty),
        ValueView::Literal(_, Some(ty)) => type_complete(ty),
        ValueView::Literal(_, None) => false,
        ValueView::Reference(chain, Some(ty)) => type_complete(ty) && forall|i: int|
            0 <= i < chain.len() ==> value_complete(#[trigger] chain[i]),
        ValueView::Reference(_, None) => false,
    }
}

/// Every value in the matcher is complete.
pub open spec fn matcher_complete(m: MatcherView) -> bool
    decreases m,
{
    match m {
        MatcherView::And(items) => forall|i: int|
            0 <= i < items.len() ==> matcher_complete(#[trigger] items[i]),
        MatcherView::Or(items) => forall|i: int|
            0 <= i < items.len() ==> matcher_complete(#[trigger] items[i]),
        MatcherView::Not(inner) => matcher_complete(*inner),
        MatcherView::Comparison(lhs, rhs, _) => value_complete(lhs) && value_complete(rhs),
    }
}

/// Every value in the body is complete.
pub open spec fn body_complete(b: BodyView) -> bool
    decreases b,
{
    match b {
        BodyView::IfStmt(test, yes, no) => matcher_complete(test) && body_complete(*yes)
            && body_complete(*no),
        BodyView::ProvideStmt(value) => value_complete(value),
    }
}

/// Every type in the declaration is complete: a declared type itself, with
/// its generic parameters and the types of its fields, and the types of a
/// provision's parameters and result.
pub open spec fn types_complete(d: DeclarationView) -> bool {
    match d {
        DeclarationView::TypeDecl(t) => type_complete(t),
        DeclarationView::ProvisionDecl(p) => bindings_complete(p.args) && type_complete(p.returns),
    }
}

/// Every type and every value in the declaration is complete.
pub open spec fn declaration_complete(d: DeclarationView) -> bool {
    types_complete(d) && (d matches DeclarationView::ProvisionDecl(p) ==> body_complete(p.body))
}

/// Every type in the rule book is complete.
pub open spec fn all_types_complete(decls: Seq<DeclarationView>) -> bool {
    forall|i: int| 0 <= i < decls.len() ==> types_complete(#[trigger] decls[i])
}

/// The rule book is fully resolved.
pub open spec fn is_complete(decls: Seq<DeclarationView>) -> bool {
    forall|i: int| 0 <= i < decls.len() ==> declaration_complete(#[trigger] decls[i])
}

/// A bound use of a type by its name is complete.
pub proof fn lemma_reference_complete(name: Seq<char>)
    ensures
        type_complete(reference_to(name)),
{
}

/// Every name of `first_uses` stands among the first `upto` names, and no
/// name stands in it twice.
pub proof fn lemma_first_uses(names: Seq<Seq<char>>, upto: int)
    requires
        0 <= upto <= names.len(),
    ensures
        forall|i: int|
            0 <= i < first_uses(names, upto).len() ==> names.subrange(0, upto).contains(
                #[trigger] first_uses(names, upto)[i],
            ),
        distinct(first_uses(names, upto)),
    decreases upto,
{
    if upto > 0 {
        lemma_first_uses(names, upto - 1);
        let before = first_uses(names, upto - 1);
        let all = first_uses(names, upto);
        assert forall|i: int| 0 <= i < all.len() implies names.subrange(0, upto).contains(
            #[trigger] all[i],
        ) by {
            if i < before.len() {
                assert(all[i] == before[i]);
                let earlier = names.subrange(0, upto - 1);
                let k = choose|k: int| 0 <= k < earlier.len() && earlier[k] == before[i];
                assert(names.subrange(0, upto)[k] == all[i]);
            } else {
                assert(names.subrange(0, upto)[upto - 1] == all[i]);
            }
        }
        assert forall|i: int, j: int| 0 <= i < j < all.len() implies all[i] != all[j] by {
            if j >= before.len() {
                assert(all[i] == before[i]);
                assert(names.subrange(0, upto - 1).contains(before[i]));
            } else {
                assert(all[i] == before[i] && all[j] == before[j]);
            }
        }
    }
}

/// The generic parameters, bound, are complete: each name stands once and
/// is bound to a complete type.
pub proof fn lemma_bound_to_complete(names: Seq<Seq<char>>)
    ensures
        distinct(names_of(bound_to(names))),
        bindings_complete(bound_to(names)),
{
    lemma_first_uses(names, names.len() as int);
    let once = first_uses(names, names.len() as int);
    let items = bound_to(names);
    assert(names_of(items) =~= once);
    assert forall|i: int| 0 <= i < items.len() implies type_complete((#[trigger] items[i]).ty) by {
        lemma_reference_complete(once[i]);
    }
}

/// Binding a bare type gives a complete one.
pub proof fn lemma_bind_type_complete(decls: Seq<DeclarationView>, t: TypeView)
    requires
        type_bare(t),
    ensures
        bind_type(decls, t) matches Ok(bound) ==> type_complete(bound),
{
    match bind_type(decls, t) {
        Ok(bound) => {
            let names = t.generics->Unbound_0;
            let items = bound_to(names);
            assert(bound.generics == GenericsView::Bound(items));
            lemma_bound_to_complete(names);
            lemma_reference_complete(t.name);
        },
        Err(_) => {},
    }
}

/// Binding bare bindings gives complete ones.
pub proof fn lemma_bind_bindings_complete(decls: Seq<DeclarationView>, items: Seq<BindingView>)
    requires
        bindings_bare(items),
    ensures
        bind_bindings(decls, items) matches Ok(bound) ==> bindings_complete(bound),
{
    let results = bound_bindings(decls, items);
    lemma_collect(results);
    match bind_bindings(decls, items) {
        Ok(bound) => {
            assert forall|i: int| 0 <= i < bound.len() implies type_complete(
                (#[trigger] bound[i]).ty,
            ) by {
                assert(results[i] == Ok::<BindingView, Issue>(bound[i]));
                assert(type_bare(items[i].ty));
                lemma_bind_type_complete(decls, items[i].ty);
            }
        },
        Err(_) => {},
    }
}

/// Binding unbound generic parameters gives complete ones.
pub proof fn lemma_bind_parameters_complete(decls: Seq<DeclarationView>, g: GenericsView)
    requires
        g is Unbound,
    ensures
        bind_parameters(decls, g) matches Ok(bound) ==> (bound matches GenericsView::Bound(items)
            && distinct(names_of(items)) && bindings_complete(items)),
{
    lemma_bound_to_complete(g->Unbound_0);
}

/// Binding a bare declaration makes its types complete and keeps its body.
pub proof fn lemma_bind_declaration_complete(decls: Seq<DeclarationView>, d: DeclarationView)
    requires
        declaration_bare(d),
    ensures
        bind_declaration(decls, d) matches Ok(bound) ==> types_complete(bound) && (
        bound matches DeclarationView::ProvisionDecl(p) ==> body_bare(p.body)),
{
    match d {
        DeclarationView::TypeDecl(t) => {
            lemma_bind_parameters_complete(decls, t.generics);
            match t.contents {
                ContentsView::RecordDecl(fields) => {
                    lemma_bind_bindings_complete(decls, fields);
                },
                _ => {},
            }
        },
        DeclarationView::ProvisionDecl(p) => {
            lemma_bind_bindings_complete(decls, p.args);
            lemma_bind_type_complete(decls, p.returns);
        },
    }
}

/// `type_index` gives the index of a declaration of a type of that name.
pub proof fn lemma_type_index(decls: Seq<DeclarationView>, name: Seq<char>, from: int)
    requires
        0 <= from,
    ensures
        type_index(decls, name, from) matches Some(i) ==> from <= i < decls.len() && declares_type(
            decls[i],
            name,
        ),
    decreases decls.len() - from,
{
    if from < decls.len() && !declares_type(decls[from], name) {
        lemma_type_index(decls, name, from + 1);
    }
}

/// `provision_index` gives the index of a declaration of a provision of that
/// name.
pub proof fn lemma_provision_index(decls: Seq<DeclarationView>, name: Seq<char>, from: int)
    requires
        0 <= from,
    ensures
        provision_index(decls, name, from) matches Some(i) ==> from <= i < decls.len()
            && declares_provision(decls[i], name),
    decreases decls.len() - from,
{
    if from < decls.len() && !declares_provision(decls[from], name) {
        lemma_provision_index(decls, name, from + 1);
    }
}

/// `binding_index` gives the index of a binding of that name.
pub proof fn lemma_binding_index(items: Seq<BindingView>, name: Seq<char>, from: int)
    requires
        0 <= from,
    ensures
        binding_index(items, name, from) matches Some(i) ==> from <= i < items.len()
            && items[i].name == name,
    decreases items.len() - from,
{
    if from < items.len() && items[from].name != name {
        lemma_binding_index(items, name, from + 1);
    }
}

/// A walk along a chain from a complete type, in a rule book whose types are
/// complete, gives complete items and ends at a complete type.
pub proof fn lemma_project_complete(
    decls: Seq<DeclarationView>,
    chain: Seq<ValueView>,
    from: int,
    current: TypeView,
)
    requires
        all_types_complete(decls),
        type_complete(current),
        0 <= from,
    ensures
        project(decls, chain, from, current) matches Ok((items, last)) ==> type_complete(last)
            && forall|i: int| 0 <= i < items.len() ==> value_complete(#[trigger] items[i]),
    decreases chain.len() - from,
{
    if from < chain.len() {
        match chain[from] {
            ValueView::Literal(name, _) => {
                lemma_type_index(decls, current.name, 0);
                match record_fields_of(decls, current.name) {
                    Some(fields) => {
                        let at = type_index(decls, current.name, 0)->0;
                        assert(types_complete(decls[at]));
                        lemma_binding_index(fields, name, 0);
                        match binding_index(fields, name, 0) {
                            Some(k) => {
                                assert(type_complete(fields[k].ty));
                                lemma_project_complete(decls, chain, from + 1, fields[k].ty);
                                let step = ValueView::Literal(name, Some(fields[k].ty));
                                match project(decls, chain, from + 1, fields[k].ty) {
                                    Ok((rest, last)) => {
                                        let items = seq![step] + rest;
                                        assert forall|i: int|
                                            0 <= i < items.len() implies value_complete(
                                            #[trigger] items[i],
                                        ) by {
                                            if i > 0 {
                                                assert(items[i] == rest[i - 1]);
                                            }
                                        }
                                    },
                                    Err(_) => {},
                                }
                            },
                            None => {},
                        }
                    },
                    None => {},
                }
            },
            _ => {},
        }
    }
}

/// Resolving a bare value, in a rule book whose types are complete, gives a
/// complete one.
pub proof fn lemma_resolve_value_complete(
    decls: Seq<DeclarationView>,
    args: Seq<BindingView>,
    v: ValueView,
)
    requires
        all_types_complete(decls),
        bindings_complete(args),
        value_bare(v),
    ensures
        resolve_value(decls, args, v) matches Ok(done) ==> value_complete(done),
{
    match v {
        ValueView::Literal(text, _) => {
            lemma_binding_index(args, text, 0);
            lemma_reference_complete("Number"@);
            match crate::resolution::variant_index(decls, text, 0) {
                Some(i) => lemma_reference_complete(decls[i]->TypeDecl_0.name),
                None => {},
            }
        },
        ValueView::Reference(chain, _) => {
            match invoked(decls, chain) {
                Some(i) => {
                    lemma_provision_index(decls, chain[0]->Literal_0, 0);
                    assert(types_complete(decls[i]));
                },
                None => {
                    if chain.len() > 0 {
                        match chain[0] {
                            ValueView::Literal(head, _) => {
                                lemma_binding_index(args, head, 0);
                                match binding_index(args, head, 0) {
                                    Some(k) => {
                                        assert(type_complete(args[k].ty));
                                        lemma_project_complete(decls, chain, 1, args[k].ty);
                                        let first = ValueView::Literal(head, Some(args[k].ty));
                                        match project(decls, chain, 1, args[k].ty) {
                                            Ok((rest, last)) => {
                                                let items = seq![first] + rest;
                                                assert forall|i: int|
                                                    0 <= i < items.len() implies value_complete(
                                                    #[trigger] items[i],
                                                ) by {
                                                    if i > 0 {
                                                        assert(items[i] == rest[i - 1]);
                                                    }
                                                }
                                            },
                                            Err(_) => {},
                                        }
                                    },
                                    None => {},
                                }
                            },
                            _ => {},
                        }
                    }
                },
            }
        },
        ValueView::Invocation(_, _, _) => {},
    }
}

/// Resolving a bare matcher, in a rule book whose types are complete, gives
/// a complete one.
pub proof fn lemma_resolve_matcher_complete(
    decls: Seq<DeclarationView>,
    args: Seq<BindingView>,
    m: MatcherView,
)
    requires
        all_types_complete(decls),
        bindings_complete(args),
        matcher_bare(m),
    ensures
        resolve_matcher(decls, args, m) matches Ok(done) ==> matcher_complete(done),
    decreases m,
{
    match m {
        MatcherView::And(items) => {
            lemma_resolve_matchers_complete(decls, args, items);
        },
        MatcherView::Or(items) => {
            lemma_resolve_matchers_complete(decls, args, items);
        },
        MatcherView::Not(inner) => {
            lemma_resolve_matcher_complete(decls, args, *inner);
        },
        MatcherView::Comparison(lhs, rhs, _) => {
            lemma_resolve_value_complete(decls, args, lhs);
            lemma_resolve_value_complete(decls, args, rhs);
        },
    }
}

/// Resolving bare matchers, in a rule book whose types are complete, gives
/// complete ones.
pub proof fn lemma_resolve_matchers_complete(
    decls: Seq<DeclarationView>,
    args: Seq<BindingView>,
    items: Seq<MatcherView>,
)
    requires
        all_types_complete(decls),
        bindings_complete(args),
        forall|i: int| 0 <= i < items.len() ==> matcher_bare(#[trigger] items[i]),
    ensures
        collect(resolved_matchers(decls, args, items)) matches Ok(done) ==> forall|i: int|
            0 <= i < done.len() ==> matcher_complete(#[trigger] done[i]),
    decreases items,
{
    let results = resolved_matchers(decls, args, items);
    lemma_collect(results);
    match collect(results) {
        Ok(done) => {
            assert forall|i: int| 0 <= i < done.len() implies matcher_complete(
                #[trigger] done[i],
            ) by {
                assert(results[i] == Ok::<MatcherView, Issue>(done[i]));
                assert(results[i] == resolve_matcher(decls, args, items[i]));
                assert(matcher_bare(items[i]));
                lemma_resolve_matcher_complete(decls, args, items[i]);
            }
        },
        Err(_) => {},
    }
}

/// Resolving a bare body, in a rule book whose types are complete, gives a
/// complete one.
pub proof fn lemma_resolve_body_complete(
    decls: Seq<DeclarationView>,
    args: Seq<BindingView>,
    b: BodyView,
)
    requires
        all_types_complete(decls),
        bindings_complete(args),
        body_bare(b),
    ensures
        resolve_body(decls, args, b) matches Ok(done) ==> body_complete(done),
    decreases b,
{
    match b {
        BodyView::IfStmt(test, yes, no) => {
            lemma_resolve_matcher_complete(decls, args, test);
            lemma_resolve_body_complete(decls, args, *yes);
            lemma_resolve_body_complete(decls, args, *no);
        },
        BodyView::ProvideStmt(value) => {
            lemma_resolve_value_complete(decls, args, value);
        },
    }
}

/// Resolving a bare rule book gives a fully resolved one.
pub proof fn lemma_resolve_complete(decls: Seq<DeclarationView>)
    requires
        is_bare(decls),
    ensures
        resolve(decls) matches Ok(done) ==> is_complete(done),
{
    match bind_program(decls) {
        Ok(typed) => {
            let first = bound_declarations(decls);
            lemma_gather(first);
            assert forall|i: int| 0 <= i < typed.len() implies types_complete(
                #[trigger] typed[i],
            ) && (typed[i] matches DeclarationView::ProvisionDecl(p) ==> body_bare(p.body)) by {
                assert(first[i] == Ok::<DeclarationView, Issue>(typed[i]));
                assert(declaration_bare(decls[i]));
                lemma_bind_declaration_complete(decls, decls[i]);
            }
            let second = annotated_declarations(typed);
            lemma_gather(second);
            match annotate_program(typed) {
                Ok(done) => {
                    assert forall|i: int| 0 <= i < done.len() implies declaration_complete(
                        #[trigger] done[i],
                    ) by {
                        assert(second[i] == Ok::<DeclarationView, Issue>(done[i]));
                        assert(types_complete(typed[i]));
                        match typed[i] {
                            DeclarationView::ProvisionDecl(p) => {
                                lemma_resolve_body_complete(typed, p.args, p.body);
                            },
                            DeclarationView::TypeDecl(_) => {},
                        }
                    }
                },
                Err(_) => {},
            }
        },
        Err(_) => {},
    }
}

/// The rule book that a text stands for is fully resolved.
pub proof fn lemma_rule_book_complete(s: Seq<u8>)
    ensures
        rule_book(s) matches Ok(book) ==> is_complete(book),
{
    lemma_program_bare(s);
    match program(s) {
        Ok(items) => lemma_resolve_complete(listed(items)),
        Err(_) => {},
    }
}

} // verus!
