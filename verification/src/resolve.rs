//! The resolution pass: binds the types and annotates the values of
//! a parsed rule book.

use crate::ast::{
    Binding, bindings, BindingView, Declaration, declarations, DeclarationView, GenericBinding,
    lemma_matcher_views, lemma_reference_view, lemma_type_views, Matcher, matchers, MatcherView,
    optional, Program, Provision, ProvisionBodyStmt, texts, Type, TypeType, TypeView, Value,
    values, ValueView,
};
use crate::copy::{copy_bindings, copy_body, copy_type, copy_value};
use crate::error::{ResolveError, ResolveErrorView, SemanticKind};
use crate::bare::is_bare;
use crate::complete::{is_complete, lemma_resolve_complete};
use crate::resolved::{is_resolved, lemma_resolve_resolves, lemma_resolved_is_fixed};
use crate::wellformed::{lemma_resolve_keeps_well_formed, well_formed};
use crate::resolution::{
    all_literals, annotate_declaration, annotate_program, annotated_declarations, argument_words,
    bind_bindings, bind_contents, bind_declaration, bind_parameters, bind_program, bind_type,
    binding_index, bound_bindings, bound_declarations, bound_to, builtin, collect, extend,
    first_failure, first_unknown, first_uses, is_number, Issue, known, leading_word, literal_type,
    project, projection, provision_index, record_fields_of, reference_to, references_to, resolve,
    resolve_body, resolve_matcher, resolve_value, resolved_matchers, type_index, variant_index,
};
use vstd::prelude::*;
use vstd::string::StringExecFns;

verus! {

/// The model of a failure to resolve a node.
pub open spec fn issue(e: (SemanticKind, String)) -> Issue {
    (e.0, e.1@)
}

/// A result of resolving a node agrees with what resolution gives for it.
pub open spec fn settles<T: View>(r: Result<T, (SemanticKind, String)>, m: Result<T::V, Issue>)
    -> bool {
    match r {
        Ok(x) => m == Ok::<T::V, Issue>(x@),
        Err(e) => m == Err::<T::V, Issue>(issue(e)),
    }
}

/// The contents of a built-in type, if `name` is one.
pub fn builtin_contents(name: &String) -> (r: Option<TypeType>)
    ensures
        r matches Some(c) ==> builtin(name@) == Some(c@),
        r is None ==> builtin(name@) is None,
{
    let number = String::from_str("Number");
    let function = String::from_str("Function");
    if *name == number {
        Some(TypeType::Number)
    } else if *name == function {
        Some(TypeType::Function)
    } else {
        None
    }
}

/// The index of the first declaration of a type called `name`.
pub fn type_position(decls: &Vec<Declaration>, name: &String) -> (r: Option<usize>)
    ensures
        r matches Some(i) ==> type_index(declarations(decls@), name@, 0) == Some(i as int) && i
            < decls@.len() && decls@[i as int] is TypeDecl,
        r is None ==> type_index(declarations(decls@), name@, 0) is None,
{
    let ghost d = declarations(decls@);
    let mut i: usize = 0;
    while i < decls.len()
        invariant
            d == declarations(decls@),
            0 <= i <= decls@.len(),
            type_index(d, name@, 0) == type_index(d, name@, i as int),
        decreases decls@.len() - i,
    {
        let hit = match &decls[i] {
            Declaration::TypeDecl(t) => t.name == *name,
            Declaration::ProvisionDecl(_) => false,
        };
        if hit {
            return Some(i);
        }
        i += 1;
    }
    None
}

/// The index of the first declaration of a provision called `name`.
pub fn provision_position(decls: &Vec<Declaration>, name: &String) -> (r: Option<usize>)
    ensures
        r matches Some(i) ==> provision_index(declarations(decls@), name@, 0) == Some(i as int)
            && i < decls@.len() && decls@[i as int] is ProvisionDecl,
        r is None ==> provision_index(declarations(decls@), name@, 0) is None,
{
    let ghost d = declarations(decls@);
    let mut i: usize = 0;
    while i < decls.len()
        invariant
            d == declarations(decls@),
            0 <= i <= decls@.len(),
            provision_index(d, name@, 0) == provision_index(d, name@, i as int),
        decreases decls@.len() - i,
    {
        let hit = match &decls[i] {
            Declaration::TypeDecl(_) => false,
            Declaration::ProvisionDecl(p) => p.name == *name,
        };
        if hit {
            return Some(i);
        }
        i += 1;
    }
    None
}

/// The index of the first binding called `name`.
pub fn binding_position(items: &Vec<Binding>, name: &String) -> (r: Option<usize>)
    ensures
        r matches Some(i) ==> binding_index(bindings(items@), name@, 0) == Some(i as int) && i
            < items@.len(),
        r is None ==> binding_index(bindings(items@), name@, 0) is None,
{
    let ghost b = bindings(items@);
    let mut i: usize = 0;
    while i < items.len()
        invariant
            b == bindings(items@),
            0 <= i <= items@.len(),
            binding_index(b, name@, 0) == binding_index(b, name@, i as int),
        decreases items@.len() - i,
    {
        if items[i].name == *name {
            return Some(i);
        }
        i += 1;
    }
    None
}

/// Whether `name` is a built-in type or the name of a declared type.
pub fn is_known(decls: &Vec<Declaration>, name: &String) -> (r: bool)
    ensures
        r == known(declarations(decls@), name@),
{
    builtin_contents(name).is_some() || type_position(decls, name).is_some()
}

/// The index of the first name that is no known type.
pub fn unknown_position(decls: &Vec<Declaration>, names: &Vec<String>) -> (r: Option<usize>)
    ensures
        r matches Some(j) ==> first_unknown(declarations(decls@), texts(names@), 0) == Some(
            j as int,
        ) && j < names@.len(),
        r is None ==> first_unknown(declarations(decls@), texts(names@), 0) is None,
{
    let ghost d = declarations(decls@);
    let ghost t = texts(names@);
    let mut j: usize = 0;
    while j < names.len()
        invariant
            d == declarations(decls@),
            t == texts(names@),
            0 <= j <= names@.len(),
            first_unknown(d, t, 0) == first_unknown(d, t, j as int),
        decreases names@.len() - j,
    {
        if !is_known(decls, &names[j]) {
            return Some(j);
        }
        j += 1;
    }
    None
}

/// A bound use of the type called `name`, without generic parameters.
pub fn reference_type(name: &String) -> (r: Type)
    ensures
        r@ == reference_to(name@),
{
    let contents = match builtin_contents(name) {
        Some(c) => c,
        None => TypeType::Declaration,
    };
    let none: Vec<Binding> = Vec::new();
    proof {
        lemma_type_views(none);
        assert(bindings(none@) =~= Seq::<BindingView>::empty());
    }
    Type { name: name.clone(), contents, generics: GenericBinding::Bound(none) }
}

/// Whether the name at `upto` also stands before it in the list.
pub fn used_before(names: &Vec<String>, upto: usize) -> (r: bool)
    ensures
        upto < names@.len() ==> r == texts(names@).subrange(0, upto as int).contains(
            texts(names@)[upto as int],
        ),
        upto >= names@.len() ==> !r,
{
    if upto >= names.len() {
        return false;
    }
    let ghost all = texts(names@);
    let mut i: usize = 0;
    while i < upto
        invariant
            upto < names@.len(),
            all == texts(names@),
            0 <= i <= upto,
            forall|k: int| 0 <= k < i ==> all[k] != all[upto as int],
        decreases upto - i,
    {
        if names[i] == names[upto] {
            proof {
                assert(all.subrange(0, upto as int)[i as int] == all[upto as int]);
            }
            return true;
        }
        i += 1;
    }
    proof {
        let before = all.subrange(0, upto as int);
        if before.contains(all[upto as int]) {
            let k = choose|k: int| 0 <= k < before.len() && before[k] == all[upto as int];
            assert(all[k] == all[upto as int]);
        }
    }
    false
}

/// The generic parameters as a mapping: each name, once, bound to the type
/// of that name.
pub fn bind_generics(names: &Vec<String>) -> (r: Vec<Binding>)
    ensures
        bindings(r@) == bound_to(texts(names@)),
{
    let ghost all = texts(names@);
    let mut out: Vec<Binding> = Vec::new();
    let mut i: usize = 0;
    proof {
        assert(bindings(out@) =~= references_to(first_uses(all, 0)));
    }
    while i < names.len()
        invariant
            all == texts(names@),
            0 <= i <= names@.len(),
            bindings(out@) == references_to(first_uses(all, i as int)),
        decreases names@.len() - i,
    {
        if !used_before(names, i) {
            let item = Binding { name: names[i].clone(), ty: reference_type(&names[i]) };
            proof {
                let before = first_uses(all, i as int);
                assert(all[i as int] == names@[i as int]@);
                assert(first_uses(all, i + 1) == before.push(all[i as int]));
                let wanted = references_to(before.push(all[i as int]));
                let got = bindings(out@.push(item));
                assert(bindings(out@).len() == before.len());
                assert forall|k: int| 0 <= k < got.len() implies got[k] == wanted[k] by {
                    if k < before.len() {
                        assert(got[k] == bindings(out@)[k]);
                        assert(wanted[k] == references_to(before)[k]);
                    }
                }
                assert(got =~= wanted);
            }
            out.push(item);
        }
        i += 1;
    }
    out
}

/// Binds generic parameters. Bound ones are copied as they are. Of unbound
/// ones each must name a known type; it fails with `UnknownTypeReference` on
/// the first that does not.
pub fn bind_header(decls: &Vec<Declaration>, g: &GenericBinding) -> (r: Result<
    GenericBinding,
    (SemanticKind, String),
>)
    ensures
        settles(r, bind_parameters(declarations(decls@), g@)),
{
    match g {
        GenericBinding::Bound(items) => {
            let copied = copy_bindings(items);
            proof {
                lemma_type_views(*items);
                lemma_type_views(copied);
            }
            Ok(GenericBinding::Bound(copied))
        },
        GenericBinding::Unbound(names) => match unknown_position(decls, names) {
            Some(j) => Err((SemanticKind::UnknownTypeReference, names[j].clone())),
            None => {
                let bound = bind_generics(names);
                proof {
                    lemma_type_views(bound);
                }
                Ok(GenericBinding::Bound(bound))
            },
        },
    }
}

/// Binds a use of a type. A bound use is copied as it is. An unbound one must
/// name a known type, and so must each of its generic parameters; it fails
/// with `UnknownTypeReference` on the first name that does not.
pub fn bind_type_use(decls: &Vec<Declaration>, t: &Type) -> (r: Result<Type, (SemanticKind, String)>)
    ensures
        settles(r, bind_type(declarations(decls@), t@)),
{
    match &t.generics {
        GenericBinding::Bound(_) => Ok(copy_type(t)),
        GenericBinding::Unbound(_) => {
            if !is_known(decls, &t.name) {
                return Err((SemanticKind::UnknownTypeReference, t.name.clone()));
            }
            match bind_header(decls, &t.generics) {
                Err(e) => Err(e),
                Ok(generics) => {
                    let named = reference_type(&t.name);
                    Ok(Type { name: t.name.clone(), contents: named.contents, generics })
                },
            }
        },
    }
}

/// Binds the types of the bindings; fails on the first that cannot be bound.
pub fn bind_all(decls: &Vec<Declaration>, items: &Vec<Binding>) -> (r: Result<
    Vec<Binding>,
    (SemanticKind, String),
>)
    ensures
        r matches Ok(out) ==> bind_bindings(declarations(decls@), bindings(items@)) == Ok::<
            Seq<BindingView>,
            Issue,
        >(bindings(out@)),
        r matches Err(e) ==> bind_bindings(declarations(decls@), bindings(items@)) == Err::<
            Seq<BindingView>,
            Issue,
        >(issue(e)),
{
    let ghost d = declarations(decls@);
    let ghost results = bound_bindings(d, bindings(items@));
    let mut out: Vec<Binding> = Vec::new();
    let mut i: usize = 0;
    while i < items.len()
        invariant
            d == declarations(decls@),
            results == bound_bindings(d, bindings(items@)),
            0 <= i <= items@.len(),
            out@.len() == i,
            first_failure(results, 0) == first_failure(results, i as int),
            forall|k: int| 0 <= k < i ==> results[k] == Ok::<BindingView, Issue>(out@[k]@),
        decreases items@.len() - i,
    {
        match bind_type_use(decls, &items[i].ty) {
            Ok(ty) => {
                out.push(Binding { name: items[i].name.clone(), ty });
            },
            Err(e) => {
                proof {
                    assert(results[i as int] == Err::<BindingView, Issue>(issue(e)));
                }
                return Err(e);
            },
        }
        i += 1;
    }
    proof {
        assert(Seq::new(results.len(), |k: int| results[k]->Ok_0) =~= bindings(out@));
    }
    Ok(out)
}

/// Binds every use of a type in the contents of a declared type: the types
/// of a record's fields.
pub fn bind_in_contents(decls: &Vec<Declaration>, c: &TypeType) -> (r: Result<
    TypeType,
    (SemanticKind, String),
>)
    ensures
        settles(r, bind_contents(declarations(decls@), c@)),
{
    match c {
        TypeType::RecordDecl(fields) => {
            proof {
                lemma_type_views(*fields);
            }
            match bind_all(decls, fields) {
                Ok(bound) => {
                    proof {
                        lemma_type_views(bound);
                    }
                    Ok(TypeType::RecordDecl(bound))
                },
                Err(e) => Err(e),
            }
        },
        _ => Ok(c.clone()),
    }
}

/// Binds every type in a declaration. Of a declared type, its own generic
/// parameters and then the types of its fields; of a provision, the types of
/// its parameters and then of its result.
pub fn bind_in_declaration(decls: &Vec<Declaration>, d: &Declaration) -> (r: Result<
    Declaration,
    (SemanticKind, String),
>)
    ensures
        settles(r, bind_declaration(declarations(decls@), d@)),
{
    match d {
        Declaration::TypeDecl(t) => {
            let generics = match bind_header(decls, &t.generics) {
                Ok(generics) => generics,
                Err(e) => { return Err(e); },
            };
            let contents = match bind_in_contents(decls, &t.contents) {
                Ok(contents) => contents,
                Err(e) => { return Err(e); },
            };
            Ok(Declaration::TypeDecl(Type { name: t.name.clone(), contents, generics }))
        },
        Declaration::ProvisionDecl(p) => {
            let args = match bind_all(decls, &p.args) {
                Ok(args) => args,
                Err(e) => { return Err(e); },
            };
            let ty = match bind_type_use(decls, &p.returns) {
                Ok(ty) => ty,
                Err(e) => { return Err(e); },
            };
            Ok(
                Declaration::ProvisionDecl(
                    Provision { name: p.name.clone(), args, body: copy_body(&p.body), returns: ty },
                ),
            )
        },
    }
}

/// The failure of the declaration at `index`.
fn failure_at(e: (SemanticKind, String), index: usize) -> (r: ResolveError)
    ensures
        r@ == (ResolveErrorView { kind: e.0, identifier: e.1@, declaration: index as int }),
{
    ResolveError { kind: e.0, identifier: e.1, declaration: index }
}

/// Binds every type in the rule book; fails on the first
/// declaration that names an unknown type.
pub fn bind_types(program: &Program) -> (r: Result<Program, ResolveError>)
    ensures
        r matches Ok(typed) ==> bind_program(program@) == Ok::<
            Seq<DeclarationView>,
            ResolveErrorView,
        >(typed@),
        r matches Err(e) ==> bind_program(program@) == Err::<
            Seq<DeclarationView>,
            ResolveErrorView,
        >(e@) && e.declaration < program.declarations@.len(),
        r matches Ok(typed) ==> typed.declarations@.len() == program.declarations@.len(),
{
    let decls = &program.declarations;
    let ghost d = declarations(decls@);
    let ghost results = bound_declarations(d);
    let mut out: Vec<Declaration> = Vec::new();
    let mut i: usize = 0;
    while i < decls.len()
        invariant
            decls == &program.declarations,
            d == declarations(decls@),
            results == bound_declarations(d),
            0 <= i <= decls@.len(),
            out@.len() == i,
            first_failure(results, 0) == first_failure(results, i as int),
            forall|k: int| 0 <= k < i ==> results[k] == Ok::<DeclarationView, Issue>(out@[k]@),
        decreases decls@.len() - i,
    {
        match bind_in_declaration(decls, &decls[i]) {
            Ok(bound) => {
                out.push(bound);
            },
            Err(e) => {
                proof {
                    assert(results[i as int] == Err::<DeclarationView, Issue>(issue(e)));
                }
                return Err(failure_at(e, i));
            },
        }
        i += 1;
    }
    proof {
        assert(Seq::new(results.len(), |k: int| results[k]->Ok_0) =~= declarations(out@));
    }
    Ok(Program { declarations: out })
}

/// Whether the list of strings holds `wanted`.
pub fn holds(items: &Vec<String>, wanted: &String) -> (r: bool)
    ensures
        r == texts(items@).contains(wanted@),
{
    let mut i: usize = 0;
    while i < items.len()
        invariant
            0 <= i <= items@.len(),
            forall|k: int| 0 <= k < i ==> texts(items@)[k] != wanted@,
        decreases items@.len() - i,
    {
        if items[i] == *wanted {
            proof {
                assert(texts(items@)[i as int] == wanted@);
            }
            return true;
        }
        i += 1;
    }
    false
}

/// The index of the first declaration of an enumeration with a variant
/// called `name`.
pub fn variant_position(decls: &Vec<Declaration>, name: &String) -> (r: Option<usize>)
    ensures
        r matches Some(i) ==> variant_index(declarations(decls@), name@, 0) == Some(i as int)
            && i < decls@.len() && decls@[i as int] is TypeDecl,
        r is None ==> variant_index(declarations(decls@), name@, 0) is None,
{
    let ghost d = declarations(decls@);
    let mut i: usize = 0;
    while i < decls.len()
        invariant
            d == declarations(decls@),
            0 <= i <= decls@.len(),
            variant_index(d, name@, 0) == variant_index(d, name@, i as int),
        decreases decls@.len() - i,
    {
        let hit = match &decls[i] {
            Declaration::TypeDecl(t) => match &t.contents {
                TypeType::EnumDecl(variants) => holds(variants, name),
                _ => false,
            },
            Declaration::ProvisionDecl(_) => false,
        };
        if hit {
            return Some(i);
        }
        i += 1;
    }
    None
}

/// Whether the text is one or more decimal digits.
pub fn is_digits(text: &String) -> (r: bool)
    ensures
        r == is_number(text@),
{
    let s = text.as_str();
    if !s.is_ascii() {
        proof {
            let c = choose|i: int| 0 <= i < s@.len() && !('\0' <= #[trigger] s@[i] <= '\u{7f}');
            assert(!('0' <= s@[c] <= '9'));
        }
        return false;
    }
    let bytes = s.as_bytes();
    proof {
        vstd::string::is_ascii_spec_bytes(s);
    }
    if bytes.len() == 0 {
        return false;
    }
    let mut i: usize = 0;
    while i < bytes.len()
        invariant
            0 <= i <= bytes@.len(),
            bytes@.len() == s@.len(),
            s@ == text@,
            forall|k: int| 0 <= k < s@.len() ==> bytes@[k] == (#[trigger] s@[k]) as u8,
            forall|k: int| 0 <= k < s@.len() ==> '\0' <= (#[trigger] s@[k]) <= '\u{7f}',
            forall|k: int| 0 <= k < i ==> '0' <= (#[trigger] s@[k]) <= '9',
        decreases bytes@.len() - i,
    {
        let b = bytes[i];
        if b < 48 || b > 57 {
            proof {
                assert(bytes@[i as int] == s@[i as int] as u8);
                assert(!('0' <= s@[i as int] <= '9'));
            }
            return false;
        }
        proof {
            assert(bytes@[i as int] == s@[i as int] as u8);
            assert('\0' <= s@[i as int] <= '\u{7f}');
        }
        i += 1;
    }
    true
}

/// The type of a single word in a provision with the parameters `args`.
pub fn type_of_word(decls: &Vec<Declaration>, args: &Vec<Binding>, text: &String) -> (r: Option<
    Type,
>)
    ensures
        optional(r) == literal_type(declarations(decls@), bindings(args@), text@),
{
    if let Some(k) = binding_position(args, text) {
        Some(copy_type(&args[k].ty))
    } else if is_digits(text) {
        let number = String::from_str("Number");
        Some(reference_type(&number))
    } else if let Some(i) = variant_position(decls, text) {
        match &decls[i] {
            Declaration::TypeDecl(t) => Some(reference_type(&t.name)),
            Declaration::ProvisionDecl(_) => None,
        }
    } else {
        None
    }
}

/// The word that a value starts with.
pub fn first_word(v: &Value) -> (r: String)
    ensures
        r@ == leading_word(v@),
    decreases v,
{
    match v {
        Value::Literal(text, _) => text.clone(),
        Value::Invocation(name, _, _) => name.clone(),
        Value::Reference(chain, ty) => {
            proof {
                lemma_reference_view(*chain, *ty);
            }
            if chain.len() > 0 {
                first_word(&chain[0])
            } else {
                String::new()
            }
        },
    }
}

/// The words of a chain of single words, from the second on.
fn words_after_first(chain: &Vec<Value>) -> (r: Vec<String>)
    requires
        chain@.len() > 0,
        all_literals(values(chain@)),
    ensures
        texts(r@) == argument_words(values(chain@)),
{
    let mut out: Vec<String> = Vec::new();
    let mut i: usize = 1;
    while i < chain.len()
        invariant
            1 <= i <= chain@.len(),
            out@.len() == i - 1,
            all_literals(values(chain@)),
            forall|k: int| 0 <= k < i - 1 ==> (#[trigger] out@[k])@ == values(
                chain@,
            )[k + 1]->Literal_0,
        decreases chain@.len() - i,
    {
        proof {
            assert(values(chain@)[i as int] is Literal);
        }
        match &chain[i] {
            Value::Literal(text, _) => {
                out.push(text.clone());
            },
            _ => {},
        }
        i += 1;
    }
    proof {
        assert(texts(out@) =~= argument_words(values(chain@)));
    }
    out
}

/// Whether every value of the chain is a single word.
fn only_words(chain: &Vec<Value>) -> (r: bool)
    ensures
        r == all_literals(values(chain@)),
{
    let mut i: usize = 0;
    while i < chain.len()
        invariant
            0 <= i <= chain@.len(),
            forall|k: int| 0 <= k < i ==> (#[trigger] values(chain@)[k]) is Literal,
        decreases chain@.len() - i,
    {
        match &chain[i] {
            Value::Literal(_, _) => {},
            _ => {
                proof {
                    assert(!(values(chain@)[i as int] is Literal));
                }
                return false;
            },
        }
        i += 1;
    }
    true
}

/// The fields of the record type called `name`: those of its first
/// declaration, if that is a record. A built-in type has none.
fn fields_of<'a>(decls: &'a Vec<Declaration>, name: &String) -> (r: Option<&'a Vec<Binding>>)
    ensures
        r matches Some(fields) ==> record_fields_of(declarations(decls@), name@) == Some(
            bindings(fields@),
        ),
        r is None ==> record_fields_of(declarations(decls@), name@) is None,
{
    if builtin_contents(name).is_some() {
        return None;
    }
    match type_position(decls, name) {
        Some(i) => match &decls[i] {
            Declaration::TypeDecl(t) => match &t.contents {
                TypeType::RecordDecl(fields) => {
                    proof {
                        lemma_type_views(*fields);
                    }
                    Some(fields)
                },
                _ => None,
            },
            Declaration::ProvisionDecl(_) => None,
        },
        None => None,
    }
}

/// A reference with the items and the type that a walk along a chain gave.
pub open spec fn walked(r: Result<(Seq<ValueView>, TypeView), Issue>) -> Result<ValueView, Issue> {
    match r {
        Ok((items, last)) => Ok(ValueView::Reference(items, Some(last))),
        Err(e) => Err(e),
    }
}

/// `extend` takes the items found in two steps as it takes them in one.
pub proof fn lemma_extend<T, L>(a: Seq<T>, b: Seq<T>, rest: Result<(Seq<T>, L), Issue>)
    ensures
        extend(a, extend(b, rest)) == extend(a + b, rest),
{
    match rest {
        Ok((items, last)) => {
            assert(a + (b + items) =~= (a + b) + items);
        },
        Err(_) => {},
    }
}

/// Reads a reference chain as field accesses on a parameter.
fn project_chain(decls: &Vec<Declaration>, args: &Vec<Binding>, chain: &Vec<Value>) -> (r: Result<
    Value,
    (SemanticKind, String),
>)
    ensures
        settles(r, projection(declarations(decls@), bindings(args@), values(chain@))),
{
    let ghost d = declarations(decls@);
    let ghost c = values(chain@);
    if chain.len() == 0 {
        return Err((SemanticKind::UnknownField, String::new()));
    }
    let head = match &chain[0] {
        Value::Literal(head, _) => head,
        other => {
            return Err((SemanticKind::UnknownField, first_word(other)));
        },
    };
    let k = match binding_position(args, head) {
        Some(k) => k,
        None => {
            return Err((SemanticKind::UnknownField, head.clone()));
        },
    };
    let mut current = copy_type(&args[k].ty);
    let mut out: Vec<Value> = Vec::new();
    out.push(Value::Literal(head.clone(), Some(copy_type(&args[k].ty))));
    let ghost start = current@;
    let ghost first = seq![out@[0]@];
    proof {
        assert(values(out@) =~= first);
        assert(projection(d, bindings(args@), c) == walked(
            extend(first, project(d, c, 1, start)),
        ));
    }
    let mut i: usize = 1;
    while i < chain.len()
        invariant
            d == declarations(decls@),
            c == values(chain@),
            1 <= i <= chain@.len(),
            projection(d, bindings(args@), c) == walked(extend(first, project(d, c, 1, start))),
            extend(first, project(d, c, 1, start)) == extend(
                values(out@),
                project(d, c, i as int, current@),
            ),
        decreases chain@.len() - i,
    {
        let name = match &chain[i] {
            Value::Literal(name, _) => name,
            other => {
                return Err((SemanticKind::UnknownField, first_word(other)));
            },
        };
        let fields = match fields_of(decls, &current.name) {
            Some(fields) => fields,
            None => {
                return Err((SemanticKind::NotARecord, current.name.clone()));
            },
        };
        let j = match binding_position(fields, name) {
            Some(j) => j,
            None => {
                return Err((SemanticKind::UnknownField, name.clone()));
            },
        };
        let item = Value::Literal(name.clone(), Some(copy_type(&fields[j].ty)));
        proof {
            let next = bindings(fields@)[j as int].ty;
            lemma_extend(values(out@), seq![item@], project(d, c, i + 1, next));
            assert(values(out@.push(item)) =~= values(out@) + seq![item@]);
        }
        current = copy_type(&fields[j].ty);
        out.push(item);
        i += 1;
    }
    proof {
        assert(values(out@) + Seq::<ValueView>::empty() =~= values(out@));
        lemma_reference_view(out, Some(current));
    }
    Ok(Value::Reference(out, Some(current)))
}

/// Resolves a value of a provision with the parameters `args`.
///
/// An invocation and an annotated value are copied as they are. A single word
/// gets its type, or fails with `UnknownField`. A reference whose chain is
/// made of single words, the first of which names a provision, becomes the
/// invocation of that provision. Any other reference is read as field
/// accesses on a parameter, and fails with `UnknownField` or `NotARecord`
/// where a step cannot be taken.
pub fn annotate_value(decls: &Vec<Declaration>, args: &Vec<Binding>, v: &Value) -> (r: Result<
    Value,
    (SemanticKind, String),
>)
    ensures
        settles(r, resolve_value(declarations(decls@), bindings(args@), v@)),
{
    match v {
        Value::Invocation(_, _, _) => Ok(copy_value(v)),
        Value::Literal(_, Some(_)) => Ok(copy_value(v)),
        Value::Reference(chain, Some(ty)) => {
            proof {
                lemma_reference_view(*chain, Some(*ty));
            }
            Ok(copy_value(v))
        },
        Value::Literal(text, None) => match type_of_word(decls, args, text) {
            Some(ty) => Ok(Value::Literal(text.clone(), Some(ty))),
            None => Err((SemanticKind::UnknownField, text.clone())),
        },
        Value::Reference(chain, None) => {
            proof {
                lemma_reference_view(*chain, None);
            }
            if chain.len() > 0 && only_words(chain) {
                proof {
                    assert(values(chain@)[0] is Literal);
                }
                if let Value::Literal(head, _) = &chain[0] {
                    if let Some(i) = provision_position(decls, head) {
                        if let Declaration::ProvisionDecl(p) = &decls[i] {
                            return Ok(
                                Value::Invocation(
                                    head.clone(),
                                    words_after_first(chain),
                                    copy_type(&p.returns),
                                ),
                            );
                        }
                    }
                }
            }
            project_chain(decls, args, chain)
        },
    }
}

/// Resolves each matcher of a list; fails on the first that cannot be
/// resolved.
fn annotate_matchers(decls: &Vec<Declaration>, args: &Vec<Binding>, items: &Vec<Matcher>) -> (r:
    Result<Vec<Matcher>, (SemanticKind, String)>)
    ensures
        r matches Ok(out) ==> collect(
            resolved_matchers(declarations(decls@), bindings(args@), matchers(items@)),
        ) == Ok::<Seq<MatcherView>, Issue>(matchers(out@)),
        r matches Err(e) ==> collect(
            resolved_matchers(declarations(decls@), bindings(args@), matchers(items@)),
        ) == Err::<Seq<MatcherView>, Issue>(issue(e)),
    decreases items, 0nat,
{
    let ghost d = declarations(decls@);
    let ghost a = bindings(args@);
    let ghost results = resolved_matchers(d, a, matchers(items@));
    let mut out: Vec<Matcher> = Vec::new();
    let mut i: usize = 0;
    while i < items.len()
        invariant
            d == declarations(decls@),
            a == bindings(args@),
            results == resolved_matchers(d, a, matchers(items@)),
            0 <= i <= items@.len(),
            out@.len() == i,
            first_failure(results, 0) == first_failure(results, i as int),
            forall|k: int| 0 <= k < i ==> results[k] == Ok::<MatcherView, Issue>(out@[k]@),
        decreases items@.len() - i,
    {
        match annotate_matcher(decls, args, &items[i]) {
            Ok(m) => {
                out.push(m);
            },
            Err(e) => {
                proof {
                    assert(results[i as int] == Err::<MatcherView, Issue>(issue(e)));
                }
                return Err(e);
            },
        }
        i += 1;
    }
    proof {
        assert(Seq::new(results.len(), |k: int| results[k]->Ok_0) =~= matchers(out@));
    }
    Ok(out)
}

/// Resolves every value in a matcher; the first value that cannot be
/// resolved, in reading order, gives the failure.
pub fn annotate_matcher(decls: &Vec<Declaration>, args: &Vec<Binding>, m: &Matcher) -> (r: Result<
    Matcher,
    (SemanticKind, String),
>)
    ensures
        settles(r, resolve_matcher(declarations(decls@), bindings(args@), m@)),
    decreases m, 1nat,
{
    match m {
        Matcher::And(items) => {
            proof {
                lemma_matcher_views(*items);
            }
            match annotate_matchers(decls, args, items) {
                Ok(out) => {
                    proof {
                        lemma_matcher_views(out);
                    }
                    Ok(Matcher::And(out))
                },
                Err(e) => Err(e),
            }
        },
        Matcher::Or(items) => {
            proof {
                lemma_matcher_views(*items);
            }
            match annotate_matchers(decls, args, items) {
                Ok(out) => {
                    proof {
                        lemma_matcher_views(out);
                    }
                    Ok(Matcher::Or(out))
                },
                Err(e) => Err(e),
            }
        },
        Matcher::Not(inner) => match annotate_matcher(decls, args, inner) {
            Ok(resolved) => Ok(Matcher::Not(Box::new(resolved))),
            Err(e) => Err(e),
        },
        Matcher::Comparison(lhs, rhs, how) => {
            let left = match annotate_value(decls, args, lhs) {
                Ok(left) => left,
                Err(e) => { return Err(e); },
            };
            match annotate_value(decls, args, rhs) {
                Ok(right) => Ok(Matcher::Comparison(left, right, *how)),
                Err(e) => Err(e),
            }
        },
    }
}

/// Resolves every value in a provision body.
pub fn annotate_body(decls: &Vec<Declaration>, args: &Vec<Binding>, b: &ProvisionBodyStmt) -> (r:
    Result<ProvisionBodyStmt, (SemanticKind, String)>)
    ensures
        settles(r, resolve_body(declarations(decls@), bindings(args@), b@)),
    decreases b,
{
    match b {
        ProvisionBodyStmt::IfStmt(test, yes, no) => {
            let test = match annotate_matcher(decls, args, test) {
                Ok(test) => test,
                Err(e) => { return Err(e); },
            };
            let yes = match annotate_body(decls, args, yes) {
                Ok(yes) => yes,
                Err(e) => { return Err(e); },
            };
            match annotate_body(decls, args, no) {
                Ok(no) => Ok(ProvisionBodyStmt::IfStmt(test, Box::new(yes), Box::new(no))),
                Err(e) => Err(e),
            }
        },
        ProvisionBodyStmt::ProvideStmt(value) => match annotate_value(decls, args, value) {
            Ok(value) => Ok(ProvisionBodyStmt::ProvideStmt(value)),
            Err(e) => Err(e),
        },
    }
}

/// Resolves the values of a declaration's body; a type declaration has none
/// and is copied.
pub fn annotate_in_declaration(decls: &Vec<Declaration>, d: &Declaration) -> (r: Result<
    Declaration,
    (SemanticKind, String),
>)
    ensures
        settles(r, annotate_declaration(declarations(decls@), d@)),
{
    match d {
        Declaration::TypeDecl(t) => Ok(Declaration::TypeDecl(copy_type(t))),
        Declaration::ProvisionDecl(p) => match annotate_body(decls, &p.args, &p.body) {
            Ok(body) => Ok(
                Declaration::ProvisionDecl(
                    Provision {
                        name: p.name.clone(),
                        args: copy_bindings(&p.args),
                        body,
                        returns: copy_type(&p.returns),
                    },
                ),
            ),
            Err(e) => Err(e),
        },
    }
}

/// Annotates every value in the rule book; fails on the first declaration
/// that holds a value whose type cannot be found.
pub fn annotate_values(program: &Program) -> (r: Result<Program, ResolveError>)
    ensures
        r matches Ok(done) ==> annotate_program(program@) == Ok::<
            Seq<DeclarationView>,
            ResolveErrorView,
        >(done@),
        r matches Err(e) ==> annotate_program(program@) == Err::<
            Seq<DeclarationView>,
            ResolveErrorView,
        >(e@) && e.declaration < program.declarations@.len(),
        r matches Ok(done) ==> done.declarations@.len() == program.declarations@.len(),
{
    let decls = &program.declarations;
    let ghost d = declarations(decls@);
    let ghost results = annotated_declarations(d);
    let mut out: Vec<Declaration> = Vec::new();
    let mut i: usize = 0;
    while i < decls.len()
        invariant
            decls == &program.declarations,
            d == declarations(decls@),
            results == annotated_declarations(d),
            0 <= i <= decls@.len(),
            out@.len() == i,
            first_failure(results, 0) == first_failure(results, i as int),
            forall|k: int| 0 <= k < i ==> results[k] == Ok::<DeclarationView, Issue>(out@[k]@),
        decreases decls@.len() - i,
    {
        match annotate_in_declaration(decls, &decls[i]) {
            Ok(done) => {
                out.push(done);
            },
            Err(e) => {
                proof {
                    assert(results[i as int] == Err::<DeclarationView, Issue>(issue(e)));
                }
                return Err(failure_at(e, i));
            },
        }
        i += 1;
    }
    proof {
        assert(Seq::new(results.len(), |k: int| results[k]->Ok_0) =~= declarations(out@));
    }
    Ok(Program { declarations: out })
}

/// Resolves a rule book: binds every type, then annotates every
/// value with its type and turns the references that name a provision into
/// invocations.
///
/// The pass sees all declarations before it resolves any, so a declaration
/// may use one that is written after it. Every generic parameter must name a
/// known type, that of a declared type too. It fails as a whole on the first
/// declaration that cannot be resolved, and never returns a rule book that
/// is resolved in part. A rule book that is resolved already comes back as
/// it is.
pub fn resolve_program(program: &Program) -> (r: Result<Program, ResolveError>)
    ensures
        r matches Ok(done) ==> resolve(program@) == Ok::<Seq<DeclarationView>, ResolveErrorView>(
            done@,
        ),
        r matches Err(e) ==> resolve(program@) == Err::<Seq<DeclarationView>, ResolveErrorView>(
            e@,
        ) && e.declaration < program.declarations@.len(),
        r matches Ok(done) ==> done.declarations@.len() == program.declarations@.len()
            && is_resolved(done@) && (well_formed(program@) ==> well_formed(done@)) && (is_bare(
            program@,
        ) ==> is_complete(done@)),
        is_resolved(program@) ==> (r matches Ok(done) && done@ == program@),
{
    proof {
        lemma_resolve_resolves(program@);
        if is_resolved(program@) {
            lemma_resolved_is_fixed(program@);
        }
        if well_formed(program@) {
            lemma_resolve_keeps_well_formed(program@);
        }
        if is_bare(program@) {
            lemma_resolve_complete(program@);
        }
    }
    match bind_types(program) {
        Ok(typed) => annotate_values(&typed),
        Err(e) => Err(e),
    }
}

} // verus!
