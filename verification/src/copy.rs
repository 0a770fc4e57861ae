//! Deep copies of syntax trees and errors, each equal in model to what it was
//! made from.

use crate::ast::{
    Binding, bindings, Declaration, declarations, GenericBinding, lemma_matcher_views,
    lemma_reference_view, lemma_type_views, Matcher, matchers, optional, Program, Provision,
    ProvisionBodyStmt, texts, Type, TypeType, Value, values,
};
use crate::error::{ParseError, ResolveError, SemanticError};
use vstd::prelude::*;

verus! {

/// Copies a list of strings.
pub fn copy_texts(items: &Vec<String>) -> (r: Vec<String>)
    ensures
        texts(r@) == texts(items@),
{
    let mut out: Vec<String> = Vec::new();
    let mut i: usize = 0;
    while i < items.len()
        invariant
            0 <= i <= items@.len(),
            out@.len() == i,
            forall|k: int| 0 <= k < i ==> out@[k]@ == items@[k]@,
        decreases items@.len() - i,
    {
        out.push(items[i].clone());
        i += 1;
    }
    proof {
        assert(texts(out@) =~= texts(items@));
    }
    out
}

/// Copies a type.
pub fn copy_type(t: &Type) -> (r: Type)
    ensures
        r@ == t@,
    decreases t, 1nat,
{
    let contents = match &t.contents {
        TypeType::RecordDecl(fields) => {
            let copied = copy_bindings(fields);
            proof {
                lemma_type_views(*fields);
                lemma_type_views(copied);
            }
            TypeType::RecordDecl(copied)
        },
        TypeType::EnumDecl(names) => TypeType::EnumDecl(copy_texts(names)),
        TypeType::Number => TypeType::Number,
        TypeType::Function => TypeType::Function,
        TypeType::Declaration => TypeType::Declaration,
    };
    let generics = match &t.generics {
        GenericBinding::Unbound(names) => GenericBinding::Unbound(copy_texts(names)),
        GenericBinding::Bound(items) => {
            let copied = copy_bindings(items);
            proof {
                lemma_type_views(*items);
                lemma_type_views(copied);
            }
            GenericBinding::Bound(copied)
        },
    };
    Type { name: t.name.clone(), contents, generics }
}

/// Copies a list of bindings.
pub fn copy_bindings(items: &Vec<Binding>) -> (r: Vec<Binding>)
    ensures
        bindings(r@) == bindings(items@),
    decreases items, 0nat,
{
    let mut out: Vec<Binding> = Vec::new();
    let mut i: usize = 0;
    while i < items.len()
        invariant
            0 <= i <= items@.len(),
            out@.len() == i,
            forall|k: int| 0 <= k < i ==> out@[k]@ == items@[k]@,
        decreases items@.len() - i,
    {
        let ty = copy_type(&items[i].ty);
        out.push(Binding { name: items[i].name.clone(), ty });
        i += 1;
    }
    proof {
        assert(bindings(out@) =~= bindings(items@));
    }
    out
}

/// Copies an optional type.
pub fn copy_optional(t: &Option<Type>) -> (r: Option<Type>)
    ensures
        optional(r) == optional(*t),
{
    match t {
        Some(t) => Some(copy_type(t)),
        None => None,
    }
}

/// Copies a list of values.
pub fn copy_values(items: &Vec<Value>) -> (r: Vec<Value>)
    ensures
        values(r@) == values(items@),
    decreases items, 0nat,
{
    let mut out: Vec<Value> = Vec::new();
    let mut i: usize = 0;
    while i < items.len()
        invariant
            0 <= i <= items@.len(),
            out@.len() == i,
            forall|k: int| 0 <= k < i ==> out@[k]@ == items@[k]@,
        decreases items@.len() - i,
    {
        out.push(copy_value(&items[i]));
        i += 1;
    }
    proof {
        assert(values(out@) =~= values(items@));
    }
    out
}

/// Copies a value.
pub fn copy_value(v: &Value) -> (r: Value)
    ensures
        r@ == v@,
    decreases v, 1nat,
{
    match v {
        Value::Reference(chain, ty) => {
            let copied = copy_values(chain);
            let ty_copy = copy_optional(ty);
            proof {
                lemma_reference_view(copied, ty_copy);
                lemma_reference_view(*chain, *ty);
            }
            Value::Reference(copied, ty_copy)
        },
        Value::Invocation(name, args, ty) => Value::Invocation(
            name.clone(),
            copy_texts(args),
            copy_type(ty),
        ),
        Value::Literal(text, ty) => Value::Literal(text.clone(), copy_optional(ty)),
    }
}

/// Copies a list of matchers.
pub fn copy_matchers(items: &Vec<Matcher>) -> (r: Vec<Matcher>)
    ensures
        matchers(r@) == matchers(items@),
    decreases items, 0nat,
{
    let mut out: Vec<Matcher> = Vec::new();
    let mut i: usize = 0;
    while i < items.len()
        invariant
            0 <= i <= items@.len(),
            out@.len() == i,
            forall|k: int| 0 <= k < i ==> out@[k]@ == items@[k]@,
        decreases items@.len() - i,
    {
        out.push(copy_matcher(&items[i]));
        i += 1;
    }
    proof {
        assert(matchers(out@) =~= matchers(items@));
    }
    out
}

/// Copies a matcher.
pub fn copy_matcher(m: &Matcher) -> (r: Matcher)
    ensures
        r@ == m@,
    decreases m, 1nat,
{
    match m {
        Matcher::And(items) => {
            let copied = copy_matchers(items);
            proof {
                lemma_matcher_views(*items);
                lemma_matcher_views(copied);
            }
            Matcher::And(copied)
        },
        Matcher::Or(items) => {
            let copied = copy_matchers(items);
            proof {
                lemma_matcher_views(*items);
                lemma_matcher_views(copied);
            }
            Matcher::Or(copied)
        },
        Matcher::Not(inner) => Matcher::Not(Box::new(copy_matcher(inner))),
        Matcher::Comparison(lhs, rhs, how) => Matcher::Comparison(
            copy_value(lhs),
            copy_value(rhs),
            *how,
        ),
    }
}

/// Copies a provision body.
pub fn copy_body(b: &ProvisionBodyStmt) -> (r: ProvisionBodyStmt)
    ensures
        r@ == b@,
    decreases b,
{
    match b {
        ProvisionBodyStmt::IfStmt(test, yes, no) => ProvisionBodyStmt::IfStmt(
            copy_matcher(test),
            Box::new(copy_body(yes)),
            Box::new(copy_body(no)),
        ),
        ProvisionBodyStmt::ProvideStmt(value) => ProvisionBodyStmt::ProvideStmt(copy_value(value)),
    }
}

impl Clone for Type {
    /// A deep copy, equal in model.
    fn clone(&self) -> (r: Self)
        ensures
            r@ == self@,
    {
        copy_type(self)
    }
}

impl Clone for Binding {
    /// A deep copy, equal in model.
    fn clone(&self) -> (r: Self)
        ensures
            r@ == self@,
    {
        Binding { name: self.name.clone(), ty: copy_type(&self.ty) }
    }
}

impl Clone for Value {
    /// A deep copy, equal in model.
    fn clone(&self) -> (r: Self)
        ensures
            r@ == self@,
    {
        copy_value(self)
    }
}

impl Clone for Matcher {
    /// A deep copy, equal in model.
    fn clone(&self) -> (r: Self)
        ensures
            r@ == self@,
    {
        copy_matcher(self)
    }
}

impl Clone for ProvisionBodyStmt {
    /// A deep copy, equal in model.
    fn clone(&self) -> (r: Self)
        ensures
            r@ == self@,
    {
        copy_body(self)
    }
}

impl Clone for TypeType {
    /// A deep copy, equal in model.
    fn clone(&self) -> (r: Self)
        ensures
            r@ == self@,
    {
        match self {
            TypeType::RecordDecl(fields) => {
                let copied = copy_bindings(fields);
                proof {
                    lemma_type_views(*fields);
                    lemma_type_views(copied);
                }
                TypeType::RecordDecl(copied)
            },
            TypeType::EnumDecl(names) => TypeType::EnumDecl(copy_texts(names)),
            TypeType::Number => TypeType::Number,
            TypeType::Function => TypeType::Function,
            TypeType::Declaration => TypeType::Declaration,
        }
    }
}

impl Clone for GenericBinding {
    /// A deep copy, equal in model.
    fn clone(&self) -> (r: Self)
        ensures
            r@ == self@,
    {
        match self {
            GenericBinding::Unbound(names) => GenericBinding::Unbound(copy_texts(names)),
            GenericBinding::Bound(items) => {
                let copied = copy_bindings(items);
                proof {
                    lemma_type_views(*items);
                    lemma_type_views(copied);
                }
                GenericBinding::Bound(copied)
            },
        }
    }
}

impl Clone for Provision {
    /// A deep copy, equal in model.
    fn clone(&self) -> (r: Self)
        ensures
            r@ == self@,
    {
        Provision {
            name: self.name.clone(),
            args: copy_bindings(&self.args),
            body: copy_body(&self.body),
            returns: copy_type(&self.returns),
        }
    }
}

impl Clone for Declaration {
    /// A deep copy, equal in model.
    fn clone(&self) -> (r: Self)
        ensures
            r@ == self@,
    {
        match self {
            Declaration::TypeDecl(t) => Declaration::TypeDecl(copy_type(t)),
            Declaration::ProvisionDecl(p) => Declaration::ProvisionDecl(p.clone()),
        }
    }
}

impl Clone for Program {
    /// A deep copy, equal in model.
    fn clone(&self) -> (r: Self)
        ensures
            r@ == self@,
    {
        let mut out: Vec<Declaration> = Vec::new();
        let mut i: usize = 0;
        while i < self.declarations.len()
            invariant
                0 <= i <= self.declarations@.len(),
                out@.len() == i,
                forall|k: int| 0 <= k < i ==> out@[k]@ == self.declarations@[k]@,
            decreases self.declarations@.len() - i,
        {
            out.push(self.declarations[i].clone());
            i += 1;
        }
        proof {
            assert(declarations(out@) =~= declarations(self.declarations@));
        }
        Program { declarations: out }
    }
}

impl Clone for SemanticError {
    /// A copy, equal in model.
    fn clone(&self) -> (r: Self)
        ensures
            r@ == self@,
    {
        SemanticError {
            kind: self.kind,
            production: self.production,
            offset: self.offset,
            identifier: self.identifier.clone(),
            context: self.context.clone(),
        }
    }
}

impl Clone for ParseError {
    /// A copy, equal in model.
    fn clone(&self) -> (r: Self)
        ensures
            r@ == self@,
    {
        match self {
            ParseError::Syntax(e) => ParseError::Syntax(*e),
            ParseError::Semantic(e) => ParseError::Semantic(e.clone()),
        }
    }
}

impl Clone for ResolveError {
    /// A copy, equal in model.
    fn clone(&self) -> (r: Self)
        ensures
            r@ == self@,
    {
        ResolveError {
            kind: self.kind,
            identifier: self.identifier.clone(),
            declaration: self.declaration,
        }
    }
}

} // verus!
