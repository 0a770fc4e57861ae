//! What the resolution pass computes, stated over the models of the trees.
//!
//! Resolution sees all declarations at once. It first binds the generic
//! parameters of every type, of a declared type as of a use of one (the type
//! of a field, of a parameter, a return type), and then annotates every value
//! in a provision body with its type, turning a reference whose head names a
//! provision into an invocation.
//!
//! Every generic parameter must name a known type, in the header of a type
//! declaration too: there is no type that is declared by being named as a
//! parameter. A type that is bound, and a value that is annotated, are left as
//! they are, so resolving a resolved rule book changes nothing.
//!
//! Two things are chosen here. A bound type refers to a declared type by its
//! name: it holds the name, and `Declaration` as its contents, not a copy of
//! the declared contents, which would not end for a type that names itself
//! in one of its fields. Only a built-in type shows its contents. And bound
//! generic parameters are a mapping from names: a name that is written twice
//! is bound once.
//!
//! Where a name could be read in two ways, the order is fixed: a built-in type
//! comes before a declared one of the same name, the first declaration of a
//! name before a later one, and a provision before a parameter or field.

use crate::ast::{
    BindingView, BodyView, ContentsView, DeclarationView, GenericsView, MatcherView, ProvisionView,
    TypeView, ValueView,
};
use crate::error::{ResolveErrorView, SemanticKind};
use vstd::prelude::*;

verus! {

/// Why a node cannot be resolved: the kind of failure and the offending name.
pub type Issue = (SemanticKind, Seq<char>);

/// The contents of a built-in type, if `name` is one.
pub open spec fn builtin(name: Seq<char>) -> Option<ContentsView> {
    if name == "Number"@ {
        Some(ContentsView::Number)
    } else if name == "Function"@ {
        Some(ContentsView::Function)
    } else {
        None
    }
}

/// Whether the declaration declares a type called `name`.
pub open spec fn declares_type(d: DeclarationView, name: Seq<char>) -> bool {
    d matches DeclarationView::TypeDecl(t) && t.name == name
}

/// Whether the declaration declares a provision called `name`.
pub open spec fn declares_provision(d: DeclarationView, name: Seq<char>) -> bool {
    d matches DeclarationView::ProvisionDecl(p) && p.name == name
}

/// Whether the declaration declares an enumeration with a variant `name`.
pub open spec fn declares_variant(d: DeclarationView, name: Seq<char>) -> bool {
    d matches DeclarationView::TypeDecl(t) && (t.contents matches ContentsView::EnumDecl(variants)
        && variants.contains(name))
}

/// The first declaration at or after `from` of a type called `name`.
pub open spec fn type_index(decls: Seq<DeclarationView>, name: Seq<char>, from: int) -> Option<int>
    decreases decls.len() - from,
{
    if from < 0 || from >= decls.len() {
        None
    } else if declares_type(decls[from], name) {
        Some(from)
    } else {
        type_index(decls, name, from + 1)
    }
}

/// The first declaration at or after `from` of a provision called `name`.
pub open spec fn provision_index(decls: Seq<DeclarationView>, name: Seq<char>, from: int) -> Option<
    int,
>
    decreases decls.len() - from,
{
    if from < 0 || from >= decls.len() {
        None
    } else if declares_provision(decls[from], name) {
        Some(from)
    } else {
        provision_index(decls, name, from + 1)
    }
}

/// The first declaration at or after `from` of an enumeration with a variant
/// `name`.
pub open spec fn variant_index(decls: Seq<DeclarationView>, name: Seq<char>, from: int) -> Option<
    int,
>
    decreases decls.len() - from,
{
    if from < 0 || from >= decls.len() {
        None
    } else if declares_variant(decls[from], name) {
        Some(from)
    } else {
        variant_index(decls, name, from + 1)
    }
}

/// The first binding at or after `from` that is called `name`.
pub open spec fn binding_index(items: Seq<BindingView>, name: Seq<char>, from: int) -> Option<int>
    decreases items.len() - from,
{
    if from < 0 || from >= items.len() {
        None
    } else if items[from].name == name {
        Some(from)
    } else {
        binding_index(items, name, from + 1)
    }
}

/// Whether `name` is a built-in type or the name of a declared type.
pub open spec fn known(decls: Seq<DeclarationView>, name: Seq<char>) -> bool {
    builtin(name) is Some || type_index(decls, name, 0) is Some
}

/// The first name at or after `from` that is no known type.
pub open spec fn first_unknown(decls: Seq<DeclarationView>, names: Seq<Seq<char>>, from: int)
    -> Option<int>
    decreases names.len() - from,
{
    if from < 0 || from >= names.len() {
        None
    } else if !known(decls, names[from]) {
        Some(from)
    } else {
        first_unknown(decls, names, from + 1)
    }
}

/// A bound use of the type called `name`, without generic parameters. A
/// built-in type shows its contents; a declared type is known by its name.
pub open spec fn reference_to(name: Seq<char>) -> TypeView {
    TypeView {
        name,
        contents: match builtin(name) {
            Some(contents) => contents,
            None => ContentsView::Declaration,
        },
        generics: GenericsView::Bound(Seq::empty()),
    }
}

/// The first `upto` names without those that repeat an earlier one, in the
/// order in which they are written.
pub open spec fn first_uses(names: Seq<Seq<char>>, upto: int) -> Seq<Seq<char>>
    decreases upto,
{
    if upto <= 0 || upto > names.len() {
        Seq::empty()
    } else if names.subrange(0, upto - 1).contains(names[upto - 1]) {
        first_uses(names, upto - 1)
    } else {
        first_uses(names, upto - 1).push(names[upto - 1])
    }
}

/// Each of the names bound to the type of that name.
pub open spec fn references_to(names: Seq<Seq<char>>) -> Seq<BindingView> {
    Seq::new(names.len(), |i: int| BindingView { name: names[i], ty: reference_to(names[i]) })
}

/// The generic parameters as a mapping: each name, once, bound to the type
/// of that name. A name that is written twice is bound where it is written
/// first.
pub open spec fn bound_to(names: Seq<Seq<char>>) -> Seq<BindingView> {
    references_to(first_uses(names, names.len() as int))
}

/// Generic parameters, bound. Bound ones stay as they are. Of unbound ones
/// each must name a known type; the first that does not is the offending one.
pub open spec fn bind_parameters(decls: Seq<DeclarationView>, g: GenericsView) -> Result<
    GenericsView,
    Issue,
> {
    match g {
        GenericsView::Bound(_) => Ok(g),
        GenericsView::Unbound(names) => match first_unknown(decls, names, 0) {
            Some(j) => Err((SemanticKind::UnknownTypeReference, names[j])),
            None => Ok(GenericsView::Bound(bound_to(names))),
        },
    }
}

/// A use of a type, bound. A bound use stays as it is. An unbound one must
/// name a known type, and so must each of its generic parameters; the first
/// name that does not is the offending one.
pub open spec fn bind_type(decls: Seq<DeclarationView>, t: TypeView) -> Result<TypeView, Issue> {
    match t.generics {
        GenericsView::Bound(_) => Ok(t),
        GenericsView::Unbound(_) => if !known(decls, t.name) {
            Err((SemanticKind::UnknownTypeReference, t.name))
        } else {
            match bind_parameters(decls, t.generics) {
                Err(e) => Err(e),
                Ok(generics) => Ok(
                    TypeView { name: t.name, contents: reference_to(t.name).contents, generics },
                ),
            }
        },
    }
}

/// The first result at or after `from` that is a failure.
pub open spec fn first_failure<T, E>(results: Seq<Result<T, E>>, from: int) -> Option<int>
    decreases results.len() - from,
{
    if from < 0 || from >= results.len() {
        None
    } else if results[from] is Err {
        Some(from)
    } else {
        first_failure(results, from + 1)
    }
}

/// All the results if none is a failure, the first failure otherwise.
pub open spec fn collect<T, E>(results: Seq<Result<T, E>>) -> Result<Seq<T>, E> {
    match first_failure(results, 0) {
        Some(j) => Err(results[j]->Err_0),
        None => Ok(Seq::new(results.len(), |i: int| results[i]->Ok_0)),
    }
}

/// A binding with its type bound.
pub open spec fn bind_binding(decls: Seq<DeclarationView>, b: BindingView) -> Result<
    BindingView,
    Issue,
> {
    match bind_type(decls, b.ty) {
        Ok(ty) => Ok(BindingView { name: b.name, ty }),
        Err(e) => Err(e),
    }
}

/// What binding gives for each of the bindings.
pub open spec fn bound_bindings(decls: Seq<DeclarationView>, items: Seq<BindingView>) -> Seq<
    Result<BindingView, Issue>,
> {
    Seq::new(items.len(), |i: int| bind_binding(decls, items[i]))
}

/// The bindings with their types bound; the first that cannot be bound gives
/// the failure.
pub open spec fn bind_bindings(decls: Seq<DeclarationView>, items: Seq<BindingView>) -> Result<
    Seq<BindingView>,
    Issue,
> {
    collect(bound_bindings(decls, items))
}

/// The contents of a declared type with every use of a type in them bound:
/// the types of a record's fields.
pub open spec fn bind_contents(decls: Seq<DeclarationView>, c: ContentsView) -> Result<
    ContentsView,
    Issue,
> {
    match c {
        ContentsView::RecordDecl(fields) => match bind_bindings(decls, fields) {
            Ok(bound) => Ok(ContentsView::RecordDecl(bound)),
            Err(e) => Err(e),
        },
        _ => Ok(c),
    }
}

/// A declaration with every type in it bound. Of a declared type, its own
/// generic parameters are bound by the rule for those of a use, and then the
/// types of its fields. Of a provision, the types of its parameters and then
/// of its result.
pub open spec fn bind_declaration(decls: Seq<DeclarationView>, d: DeclarationView) -> Result<
    DeclarationView,
    Issue,
> {
    match d {
        DeclarationView::TypeDecl(t) => match bind_parameters(decls, t.generics) {
            Err(e) => Err(e),
            Ok(generics) => match bind_contents(decls, t.contents) {
                Err(e) => Err(e),
                Ok(contents) => Ok(
                    DeclarationView::TypeDecl(TypeView { name: t.name, contents, generics }),
                ),
            },
        },
        DeclarationView::ProvisionDecl(p) => match bind_bindings(decls, p.args) {
            Err(e) => Err(e),
            Ok(args) => match bind_type(decls, p.returns) {
                Err(e) => Err(e),
                Ok(ty) => Ok(
                    DeclarationView::ProvisionDecl(
                        ProvisionView { name: p.name, args, body: p.body, returns: ty },
                    ),
                ),
            },
        },
    }
}

/// Whether the text is a number: one or more decimal digits.
pub open spec fn is_number(text: Seq<char>) -> bool {
    text.len() > 0 && forall|i: int| 0 <= i < text.len() ==> '0' <= #[trigger] text[i] <= '9'
}

/// The type of a single word in a provision with the parameters `args`: the
/// type of the parameter of that name; else the number type, for a number;
/// else the first enumeration that has a variant of that name.
pub open spec fn literal_type(
    decls: Seq<DeclarationView>,
    args: Seq<BindingView>,
    text: Seq<char>,
) -> Option<TypeView> {
    if let Some(k) = binding_index(args, text, 0) {
        Some(args[k].ty)
    } else if is_number(text) {
        Some(reference_to("Number"@))
    } else if let Some(i) = variant_index(decls, text, 0) {
        Some(reference_to(decls[i]->TypeDecl_0.name))
    } else {
        None
    }
}

/// The word that a value starts with.
pub open spec fn leading_word(v: ValueView) -> Seq<char>
    decreases v,
{
    match v {
        ValueView::Literal(text, _) => text,
        ValueView::Invocation(name, _, _) => name,
        ValueView::Reference(chain, _) => if chain.len() > 0 {
            leading_word(chain[0])
        } else {
            Seq::empty()
        },
    }
}

/// Whether every value of the chain is a single word.
pub open spec fn all_literals(chain: Seq<ValueView>) -> bool {
    forall|i: int| 0 <= i < chain.len() ==> (#[trigger] chain[i]) is Literal
}

/// The words of a chain of single words, from the second on.
pub open spec fn argument_words(chain: Seq<ValueView>) -> Seq<Seq<char>> {
    Seq::new((chain.len() - 1) as nat, |i: int| chain[i + 1]->Literal_0)
}

/// The provision that a chain invokes: the chain is made of single words and
/// the first of them names a provision.
pub open spec fn invoked(decls: Seq<DeclarationView>, chain: Seq<ValueView>) -> Option<int> {
    if chain.len() > 0 && all_literals(chain) {
        provision_index(decls, chain[0]->Literal_0, 0)
    } else {
        None
    }
}

/// The fields of the record type called `name`: those of its first
/// declaration, if that is a record. A built-in type has none.
pub open spec fn record_fields_of(decls: Seq<DeclarationView>, name: Seq<char>) -> Option<
    Seq<BindingView>,
> {
    if builtin(name) is Some {
        None
    } else {
        match type_index(decls, name, 0) {
            Some(i) => match decls[i]->TypeDecl_0.contents {
                ContentsView::RecordDecl(fields) => Some(fields),
                _ => None,
            },
            None => None,
        }
    }
}

/// The items found so far before those that follow, if they can be resolved.
pub open spec fn extend<T, L>(found: Seq<T>, rest: Result<(Seq<T>, L), Issue>) -> Result<
    (Seq<T>, L),
    Issue,
> {
    match rest {
        Ok((items, last)) => Ok((found + items, last)),
        Err(e) => Err(e),
    }
}

/// Walks the chain from index `from` as field accesses, starting at a value
/// of type `current`: each item must be a single word that names a field of
/// the record type reached so far. Gives the items, each annotated with the
/// type of its field, and the type reached at the end.
pub open spec fn project(
    decls: Seq<DeclarationView>,
    chain: Seq<ValueView>,
    from: int,
    current: TypeView,
) -> Result<(Seq<ValueView>, TypeView), Issue>
    decreases chain.len() - from,
{
    if from < 0 || from >= chain.len() {
        Ok((Seq::empty(), current))
    } else {
        match chain[from] {
            ValueView::Literal(name, _) => match record_fields_of(decls, current.name) {
                None => Err((SemanticKind::NotARecord, current.name)),
                Some(fields) => match binding_index(fields, name, 0) {
                    None => Err((SemanticKind::UnknownField, name)),
                    Some(k) => extend(
                        seq![ValueView::Literal(name, Some(fields[k].ty))],
                        project(decls, chain, from + 1, fields[k].ty),
                    ),
                },
            },
            other => Err((SemanticKind::UnknownField, leading_word(other))),
        }
    }
}

/// A reference chain read as field accesses on a parameter: the first item
/// must be a single word that names a parameter.
pub open spec fn projection(
    decls: Seq<DeclarationView>,
    args: Seq<BindingView>,
    chain: Seq<ValueView>,
) -> Result<ValueView, Issue> {
    if chain.len() == 0 {
        Err((SemanticKind::UnknownField, Seq::empty()))
    } else {
        match chain[0] {
            ValueView::Literal(head, _) => match binding_index(args, head, 0) {
                None => Err((SemanticKind::UnknownField, head)),
                Some(k) => match extend(
                    seq![ValueView::Literal(head, Some(args[k].ty))],
                    project(decls, chain, 1, args[k].ty),
                ) {
                    Ok((items, last)) => Ok(ValueView::Reference(items, Some(last))),
                    Err(e) => Err(e),
                },
            },
            other => Err((SemanticKind::UnknownField, leading_word(other))),
        }
    }
}

/// A value of a provision with the parameters `args`, resolved.
///
/// An invocation and an annotated value stay as they are. A single word gets
/// its type. A reference whose chain invokes a provision becomes the
/// invocation of that provision, with the rest of the chain as arguments and
/// the provision's return type; any other reference is read as field accesses
/// on a parameter.
pub open spec fn resolve_value(
    decls: Seq<DeclarationView>,
    args: Seq<BindingView>,
    v: ValueView,
) -> Result<ValueView, Issue> {
    match v {
        ValueView::Invocation(_, _, _) => Ok(v),
        ValueView::Literal(_, Some(_)) => Ok(v),
        ValueView::Reference(_, Some(_)) => Ok(v),
        ValueView::Literal(text, None) => match literal_type(decls, args, text) {
            Some(ty) => Ok(ValueView::Literal(text, Some(ty))),
            None => Err((SemanticKind::UnknownField, text)),
        },
        ValueView::Reference(chain, None) => match invoked(decls, chain) {
            Some(i) => Ok(
                ValueView::Invocation(
                    chain[0]->Literal_0,
                    argument_words(chain),
                    decls[i]->ProvisionDecl_0.returns,
                ),
            ),
            None => projection(decls, args, chain),
        },
    }
}

/// What resolution gives for each of the matchers.
pub open spec fn resolved_matchers(
    decls: Seq<DeclarationView>,
    args: Seq<BindingView>,
    items: Seq<MatcherView>,
) -> Seq<Result<MatcherView, Issue>>
    decreases items, 0nat,
{
    Seq::new(
        items.len(),
        |i: int|
            if 0 <= i < items.len() {
                resolve_matcher(decls, args, items[i])
            } else {
                arbitrary()
            },
    )
}

/// A matcher with every value in it resolved; the first value that cannot be
/// resolved, in reading order, gives the failure.
pub open spec fn resolve_matcher(
    decls: Seq<DeclarationView>,
    args: Seq<BindingView>,
    m: MatcherView,
) -> Result<MatcherView, Issue>
    decreases m, 1nat,
{
    match m {
        MatcherView::And(items) => match collect(resolved_matchers(decls, args, items)) {
            Ok(resolved) => Ok(MatcherView::And(resolved)),
            Err(e) => Err(e),
        },
        MatcherView::Or(items) => match collect(resolved_matchers(decls, args, items)) {
            Ok(resolved) => Ok(MatcherView::Or(resolved)),
            Err(e) => Err(e),
        },
        MatcherView::Not(inner) => match resolve_matcher(decls, args, *inner) {
            Ok(resolved) => Ok(MatcherView::Not(Box::new(resolved))),
            Err(e) => Err(e),
        },
        MatcherView::Comparison(lhs, rhs, how) => match resolve_value(decls, args, lhs) {
            Err(e) => Err(e),
            Ok(left) => match resolve_value(decls, args, rhs) {
                Err(e) => Err(e),
                Ok(right) => Ok(MatcherView::Comparison(left, right, how)),
            },
        },
    }
}

/// A provision body with every value in it resolved.
pub open spec fn resolve_body(
    decls: Seq<DeclarationView>,
    args: Seq<BindingView>,
    b: BodyView,
) -> Result<BodyView, Issue>
    decreases b,
{
    match b {
        BodyView::IfStmt(test, yes, no) => match resolve_matcher(decls, args, test) {
            Err(e) => Err(e),
            Ok(test) => match resolve_body(decls, args, *yes) {
                Err(e) => Err(e),
                Ok(yes) => match resolve_body(decls, args, *no) {
                    Err(e) => Err(e),
                    Ok(no) => Ok(BodyView::IfStmt(test, Box::new(yes), Box::new(no))),
                },
            },
        },
        BodyView::ProvideStmt(value) => match resolve_value(decls, args, value) {
            Ok(value) => Ok(BodyView::ProvideStmt(value)),
            Err(e) => Err(e),
        },
    }
}

/// A declaration with the values of its body resolved; a type declaration
/// has none.
pub open spec fn annotate_declaration(decls: Seq<DeclarationView>, d: DeclarationView) -> Result<
    DeclarationView,
    Issue,
> {
    match d {
        DeclarationView::TypeDecl(_) => Ok(d),
        DeclarationView::ProvisionDecl(p) => match resolve_body(decls, p.args, p.body) {
            Ok(body) => Ok(
                DeclarationView::ProvisionDecl(
                    ProvisionView { name: p.name, args: p.args, body, returns: p.returns },
                ),
            ),
            Err(e) => Err(e),
        },
    }
}

/// All the declarations if none failed; otherwise the first failure, with the
/// index of its declaration.
pub open spec fn gather(results: Seq<Result<DeclarationView, Issue>>) -> Result<
    Seq<DeclarationView>,
    ResolveErrorView,
> {
    match first_failure(results, 0) {
        Some(j) => Err(
            ResolveErrorView {
                kind: results[j]->Err_0.0,
                identifier: results[j]->Err_0.1,
                declaration: j,
            },
        ),
        None => Ok(Seq::new(results.len(), |i: int| results[i]->Ok_0)),
    }
}

/// What binding gives for each declaration of the rule book.
pub open spec fn bound_declarations(decls: Seq<DeclarationView>) -> Seq<
    Result<DeclarationView, Issue>,
> {
    Seq::new(decls.len(), |i: int| bind_declaration(decls, decls[i]))
}

/// What annotating gives for each declaration of the rule book.
pub open spec fn annotated_declarations(decls: Seq<DeclarationView>) -> Seq<
    Result<DeclarationView, Issue>,
> {
    Seq::new(decls.len(), |i: int| annotate_declaration(decls, decls[i]))
}

/// The rule book with every type bound.
pub open spec fn bind_program(decls: Seq<DeclarationView>) -> Result<
    Seq<DeclarationView>,
    ResolveErrorView,
> {
    gather(bound_declarations(decls))
}

/// The rule book with every value annotated.
pub open spec fn annotate_program(decls: Seq<DeclarationView>) -> Result<
    Seq<DeclarationView>,
    ResolveErrorView,
> {
    gather(annotated_declarations(decls))
}

/// The resolved rule book: types are bound first, in all declarations, and
/// values are annotated then, so that a value sees bound types only. The
/// first declaration that fails gives the failure; a rule book is never
/// resolved in part.
pub open spec fn resolve(decls: Seq<DeclarationView>) -> Result<
    Seq<DeclarationView>,
    ResolveErrorView,
> {
    match bind_program(decls) {
        Err(e) => Err(e),
        Ok(typed) => annotate_program(typed),
    }
}

} // verus!
