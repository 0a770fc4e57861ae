//! What holds of a resolved rule book, and why resolving it again changes
//! nothing.

use crate::ast::{
    BindingView, BodyView, DeclarationView, GenericsView, MatcherView, TypeView, ValueView,
};
use crate::error::ResolveErrorView;
use crate::resolution::{
    annotate_declaration, annotate_program, annotated_declarations, bind_bindings,
    bind_declaration, bind_program, bind_type, bound_bindings, bound_declarations, collect,
    first_failure, first_unknown, gather, Issue, known, resolve, resolve_body, resolve_matcher,
    resolve_value, resolved_matchers,
};
use vstd::prelude::*;

verus! {

/// The generic parameters of the type are bound. Only the type itself is
/// looked at, not the types it is bound to: resolution leaves a bound type as
/// it is. `complete::type_complete` looks at those too.
pub open spec fn type_bound(t: TypeView) -> bool {
    t.generics is Bound
}

/// The type of every binding is bound.
pub open spec fn bindings_bound(items: Seq<BindingView>) -> bool {
    forall|i: int| 0 <= i < items.len() ==> type_bound(#[trigger] items[i].ty)
}

/// The value carries its type: it is an invocation, or it is annotated. Of a
/// reference only the reference itself is looked at, not the items of its
/// chain: resolution leaves an annotated reference as it is.
/// `complete::value_complete` looks at every item too.
pub open spec fn value_annotated(v: ValueView) -> bool {
    match v {
        ValueView::Invocation(_, _, _) => true,
        ValueView::Literal(_, ty) => ty is Some,
        ValueView::Reference(_, ty) => ty is Some,
    }
}

/// Each of the two values of every comparison in the matcher carries its
/// type.
pub open spec fn matcher_annotated(m: MatcherView) -> bool
    decreases m,
{
    match m {
        MatcherView::And(items) => forall|i: int|
            0 <= i < items.len() ==> matcher_annotated(#[trigger] items[i]),
        MatcherView::Or(items) => forall|i: int|
            0 <= i < items.len() ==> matcher_annotated(#[trigger] items[i]),
        MatcherView::Not(inner) => matcher_annotated(*inner),
        MatcherView::Comparison(lhs, rhs, _) => value_annotated(lhs) && value_annotated(rhs),
    }
}

/// Every value that the body provides or compares carries its type.
pub open spec fn body_annotated(b: BodyView) -> bool
    decreases b,
{
    match b {
        BodyView::IfStmt(test, yes, no) => matcher_annotated(test) && body_annotated(*yes)
            && body_annotated(*no),
        BodyView::ProvideStmt(value) => value_annotated(value),
    }
}

/// Every type in the declaration is bound: a declared type itself and the
/// types of its fields, and the types of a provision's parameters and
/// result.
pub open spec fn declaration_bound(d: DeclarationView) -> bool {
    match d {
        DeclarationView::TypeDecl(t) => type_bound(t) && (
        t.contents matches crate::ast::ContentsView::RecordDecl(fields) ==> bindings_bound(fields)),
        DeclarationView::ProvisionDecl(p) => bindings_bound(p.args) && type_bound(p.returns),
    }
}

/// The declaration is resolved: every type in it is bound and every value in
/// it carries its type.
pub open spec fn declaration_resolved(d: DeclarationView) -> bool {
    declaration_bound(d) && (d matches DeclarationView::ProvisionDecl(p) ==> body_annotated(
        p.body,
    ))
}

/// Every declaration of the rule book is resolved.
pub open spec fn is_resolved(decls: Seq<DeclarationView>) -> bool {
    forall|i: int| 0 <= i < decls.len() ==> declaration_resolved(#[trigger] decls[i])
}

/// `first_failure` gives the least index of a failure at or after `from`.
pub proof fn lemma_first_failure<T, E>(results: Seq<Result<T, E>>, from: int)
    requires
        0 <= from,
    ensures
        first_failure(results, from) matches Some(j) ==> from <= j < results.len()
            && results[j] is Err,
        first_failure(results, from) is None ==> forall|i: int|
            from <= i < results.len() ==> (#[trigger] results[i]) is Ok,
    decreases results.len() - from,
{
    if from < results.len() && results[from] is Ok {
        lemma_first_failure(results, from + 1);
    }
}

/// Where no result is a failure, there is no first failure.
pub proof fn lemma_no_failure<T, E>(results: Seq<Result<T, E>>, from: int)
    requires
        0 <= from,
        forall|i: int| from <= i < results.len() ==> (#[trigger] results[i]) is Ok,
    ensures
        first_failure(results, from) is None,
    decreases results.len() - from,
{
    if from < results.len() {
        lemma_no_failure(results, from + 1);
    }
}

/// A bound type is a bound type after binding, and binding gives only bound
/// types.
pub proof fn lemma_bind_type(decls: Seq<DeclarationView>, t: TypeView)
    ensures
        bind_type(decls, t) matches Ok(bound) ==> type_bound(bound),
        type_bound(t) ==> bind_type(decls, t) == Ok::<TypeView, Issue>(t),
{
}

/// Binding gives only bound bindings, and leaves bound bindings as they are.
pub proof fn lemma_bind_bindings(decls: Seq<DeclarationView>, items: Seq<BindingView>)
    ensures
        bind_bindings(decls, items) matches Ok(bound) ==> bindings_bound(bound),
        bindings_bound(items) ==> bind_bindings(decls, items) == Ok::<Seq<BindingView>, Issue>(
            items,
        ),
{
    let results = bound_bindings(decls, items);
    lemma_first_failure(results, 0);
    match bind_bindings(decls, items) {
        Ok(bound) => {
            assert forall|i: int| 0 <= i < bound.len() implies type_bound(
                #[trigger] bound[i].ty,
            ) by {
                assert(results[i] is Ok);
                lemma_bind_type(decls, items[i].ty);
            }
        },
        Err(_) => {},
    }
    if bindings_bound(items) {
        assert forall|i: int| 0 <= i < results.len() implies (#[trigger] results[i]) == Ok::<
            BindingView,
            Issue,
        >(items[i]) by {
            assert(type_bound(items[i].ty));
            lemma_bind_type(decls, items[i].ty);
        }
        lemma_no_failure(results, 0);
        assert(Seq::new(results.len(), |i: int| results[i]->Ok_0) =~= items);
    }
}

/// Binding gives only bound declarations, and leaves bound declarations as
/// they are.
pub proof fn lemma_bind_declaration(decls: Seq<DeclarationView>, d: DeclarationView)
    ensures
        bind_declaration(decls, d) matches Ok(bound) ==> declaration_bound(bound) && (
        bound matches DeclarationView::ProvisionDecl(q) ==> d matches DeclarationView::ProvisionDecl(
            p,
        ) && q.body == p.body),
        declaration_bound(d) ==> bind_declaration(decls, d) == Ok::<DeclarationView, Issue>(d),
{
    match d {
        DeclarationView::TypeDecl(t) => match t.contents {
            crate::ast::ContentsView::RecordDecl(fields) => {
                lemma_bind_bindings(decls, fields);
            },
            _ => {},
        },
        DeclarationView::ProvisionDecl(p) => {
            lemma_bind_bindings(decls, p.args);
            lemma_bind_type(decls, p.returns);
        },
    }
}

/// A value that resolution gives carries its type, and a value that carries
/// its type is left as it is.
pub proof fn lemma_resolve_value(
    decls: Seq<DeclarationView>,
    args: Seq<BindingView>,
    v: ValueView,
)
    ensures
        resolve_value(decls, args, v) matches Ok(done) ==> value_annotated(done),
        value_annotated(v) ==> resolve_value(decls, args, v) == Ok::<ValueView, Issue>(v),
{
}

/// `collect` gives as many items as there are results, each the success of
/// its result.
pub proof fn lemma_collect<T, E>(results: Seq<Result<T, E>>)
    ensures
        collect(results) matches Ok(items) ==> items.len() == results.len() && forall|i: int|
            0 <= i < results.len() ==> (#[trigger] results[i]) == Ok::<T, E>(items[i]),
{
    lemma_first_failure(results, 0);
}

/// A matcher that resolution gives is annotated, and an annotated matcher is
/// left as it is.
pub proof fn lemma_resolve_matcher(
    decls: Seq<DeclarationView>,
    args: Seq<BindingView>,
    m: MatcherView,
)
    ensures
        resolve_matcher(decls, args, m) matches Ok(done) ==> matcher_annotated(done),
        matcher_annotated(m) ==> resolve_matcher(decls, args, m) == Ok::<MatcherView, Issue>(m),
    decreases m,
{
    match m {
        MatcherView::And(items) => {
            lemma_resolve_matchers(decls, args, items);
        },
        MatcherView::Or(items) => {
            lemma_resolve_matchers(decls, args, items);
        },
        MatcherView::Not(inner) => {
            lemma_resolve_matcher(decls, args, *inner);
        },
        MatcherView::Comparison(lhs, rhs, _) => {
            lemma_resolve_value(decls, args, lhs);
            lemma_resolve_value(decls, args, rhs);
        },
    }
}

/// The matchers that resolution gives for a list are annotated, and a list
/// of annotated matchers is left as it is.
pub proof fn lemma_resolve_matchers(
    decls: Seq<DeclarationView>,
    args: Seq<BindingView>,
    items: Seq<MatcherView>,
)
    ensures
        collect(resolved_matchers(decls, args, items)) matches Ok(done) ==> forall|i: int|
            0 <= i < done.len() ==> matcher_annotated(#[trigger] done[i]),
        (forall|i: int| 0 <= i < items.len() ==> matcher_annotated(#[trigger] items[i]))
            ==> collect(resolved_matchers(decls, args, items)) == Ok::<Seq<MatcherView>, Issue>(
            items,
        ),
    decreases items,
{
    let results = resolved_matchers(decls, args, items);
    lemma_collect(results);
    assert forall|i: int| 0 <= i < items.len() implies (resolve_matcher(
        decls,
        args,
        #[trigger] items[i],
    ) matches Ok(done) ==> matcher_annotated(done)) && (matcher_annotated(items[i])
        ==> resolve_matcher(decls, args, items[i]) == Ok::<MatcherView, Issue>(items[i])) by {
        lemma_resolve_matcher(decls, args, items[i]);
    }
    match collect(results) {
        Ok(done) => {
            assert forall|i: int| 0 <= i < done.len() implies matcher_annotated(
                #[trigger] done[i],
            ) by {
                assert(results[i] == Ok::<MatcherView, Issue>(done[i]));
                assert(results[i] == resolve_matcher(decls, args, items[i]));
            }
        },
        Err(_) => {},
    }
    if forall|i: int| 0 <= i < items.len() ==> matcher_annotated(#[trigger] items[i]) {
        assert forall|i: int| 0 <= i < results.len() implies (#[trigger] results[i]) is Ok by {
            assert(matcher_annotated(items[i]));
            assert(results[i] == resolve_matcher(decls, args, items[i]));
        }
        lemma_no_failure(results, 0);
        assert(Seq::new(results.len(), |i: int| results[i]->Ok_0) =~= items) by {
            assert forall|i: int| 0 <= i < results.len() implies results[i]->Ok_0 == items[i] by {
                assert(matcher_annotated(items[i]));
                assert(results[i] == resolve_matcher(decls, args, items[i]));
            }
        }
    }
}

/// A body that resolution gives is annotated, and an annotated body is left
/// as it is.
pub proof fn lemma_resolve_body(decls: Seq<DeclarationView>, args: Seq<BindingView>, b: BodyView)
    ensures
        resolve_body(decls, args, b) matches Ok(done) ==> body_annotated(done),
        body_annotated(b) ==> resolve_body(decls, args, b) == Ok::<BodyView, Issue>(b),
    decreases b,
{
    match b {
        BodyView::IfStmt(test, yes, no) => {
            lemma_resolve_matcher(decls, args, test);
            lemma_resolve_body(decls, args, *yes);
            lemma_resolve_body(decls, args, *no);
        },
        BodyView::ProvideStmt(value) => {
            lemma_resolve_value(decls, args, value);
        },
    }
}

/// Annotating keeps the types of a declaration and gives an annotated body;
/// it leaves a resolved declaration as it is.
pub proof fn lemma_annotate_declaration(decls: Seq<DeclarationView>, d: DeclarationView)
    ensures
        annotate_declaration(decls, d) matches Ok(done) ==> (declaration_bound(d)
            ==> declaration_resolved(done)),
        declaration_resolved(d) ==> annotate_declaration(decls, d) == Ok::<
            DeclarationView,
            Issue,
        >(d),
{
    match d {
        DeclarationView::TypeDecl(_) => {},
        DeclarationView::ProvisionDecl(p) => {
            lemma_resolve_body(decls, p.args, p.body);
        },
    }
}

/// `gather` gives as many declarations as there are results, each the success
/// of its result.
pub proof fn lemma_gather(results: Seq<Result<DeclarationView, Issue>>)
    ensures
        gather(results) matches Ok(items) ==> items.len() == results.len() && forall|i: int|
            0 <= i < results.len() ==> (#[trigger] results[i]) == Ok::<DeclarationView, Issue>(
                items[i],
            ),
        gather(results) matches Err(e) ==> 0 <= e.declaration < results.len(),
{
    lemma_first_failure(results, 0);
}

/// After resolution every type is bound and every value carries its
/// type.
pub proof fn lemma_resolve_resolves(decls: Seq<DeclarationView>)
    ensures
        resolve(decls) matches Ok(done) ==> is_resolved(done) && done.len() == decls.len(),
{
    match bind_program(decls) {
        Ok(typed) => {
            let first = bound_declarations(decls);
            lemma_gather(first);
            let second = annotated_declarations(typed);
            lemma_gather(second);
            match annotate_program(typed) {
                Ok(done) => {
                    assert forall|i: int| 0 <= i < done.len() implies declaration_resolved(
                        #[trigger] done[i],
                    ) by {
                        assert(first[i] == Ok::<DeclarationView, Issue>(typed[i]));
                        lemma_bind_declaration(decls, decls[i]);
                        assert(second[i] == Ok::<DeclarationView, Issue>(done[i]));
                        lemma_annotate_declaration(typed, typed[i]);
                    }
                },
                Err(_) => {},
            }
        },
        Err(_) => {},
    }
}

/// Resolving a resolved rule book changes nothing.
pub proof fn lemma_resolved_is_fixed(decls: Seq<DeclarationView>)
    requires
        is_resolved(decls),
    ensures
        resolve(decls) == Ok::<Seq<DeclarationView>, ResolveErrorView>(decls),
{
    let first = bound_declarations(decls);
    assert forall|i: int| 0 <= i < first.len() implies (#[trigger] first[i]) == Ok::<
        DeclarationView,
        Issue,
    >(decls[i]) by {
        assert(declaration_resolved(decls[i]));
        lemma_bind_declaration(decls, decls[i]);
    }
    lemma_no_failure(first, 0);
    assert(Seq::new(first.len(), |i: int| first[i]->Ok_0) =~= decls);
    let second = annotated_declarations(decls);
    assert forall|i: int| 0 <= i < second.len() implies (#[trigger] second[i]) == Ok::<
        DeclarationView,
        Issue,
    >(decls[i]) by {
        assert(declaration_resolved(decls[i]));
        lemma_annotate_declaration(decls, decls[i]);
    }
    lemma_no_failure(second, 0);
    assert(Seq::new(second.len(), |i: int| second[i]->Ok_0) =~= decls);
}

/// Resolution is idempotent: the rule book that resolution gives is resolved
/// to itself.
pub proof fn lemma_resolve_idempotent(decls: Seq<DeclarationView>)
    ensures
        resolve(decls) matches Ok(done) ==> resolve(done) == Ok::<
            Seq<DeclarationView>,
            ResolveErrorView,
        >(done),
{
    lemma_resolve_resolves(decls);
    match resolve(decls) {
        Ok(done) => lemma_resolved_is_fixed(done),
        Err(_) => {},
    }
}

/// Where a name at or after `from` is no known type, there is a first such
/// name.
pub proof fn lemma_some_unknown(
    decls: Seq<DeclarationView>,
    names: Seq<Seq<char>>,
    from: int,
    j: int,
)
    requires
        0 <= from <= j < names.len(),
        !known(decls, names[j]),
    ensures
        first_unknown(decls, names, from) is Some,
    decreases j - from,
{
    if from < j && known(decls, names[from]) {
        lemma_some_unknown(decls, names, from + 1, j);
    }
}

/// Where a result is a failure, there is a first failure.
pub proof fn lemma_some_failure<T, E>(results: Seq<Result<T, E>>, from: int, i: int)
    requires
        0 <= from <= i < results.len(),
        results[i] is Err,
    ensures
        first_failure(results, from) is Some,
    decreases i - from,
{
    if from < i && results[from] is Ok {
        lemma_some_failure(results, from + 1, i);
    }
}

/// No type is declared by being named as a generic parameter: a rule book in
/// which a declared type has an unbound generic parameter that names no
/// known type does not resolve.
pub proof fn lemma_unknown_parameter_fails(decls: Seq<DeclarationView>, i: int, j: int)
    requires
        0 <= i < decls.len(),
        decls[i] matches DeclarationView::TypeDecl(t) && (t.generics matches GenericsView::Unbound(
            names,
        ) && 0 <= j < names.len() && !known(decls, names[j])),
    ensures
        resolve(decls) is Err,
{
    let names = decls[i]->TypeDecl_0.generics->Unbound_0;
    lemma_some_unknown(decls, names, 0, j);
    let results = bound_declarations(decls);
    assert(results[i] is Err);
    lemma_some_failure(results, 0, i);
}

} // verus!
