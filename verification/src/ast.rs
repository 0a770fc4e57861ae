//! The syntax tree of a rule book, and the mathematical model of each node.
//!
//! Every node type has a view: the same tree with strings as sequences of
//! characters and vectors as sequences. Contracts speak of views.
//!
//! A mapping from names to types (the fields of a record, the parameters of
//! a provision, bound generic parameters) is a list of bindings with distinct
//! names, in the order in which the names were written. A hash map keyed by
//! strings would hide its contents from the contracts: the verifier's
//! library gives strings no model as hash keys.

use vstd::prelude::*;

verus! {

/// A name bound to a type: a record field, a provision parameter, or a
/// generic parameter with the type it was bound to.
#[derive(Debug, PartialEq, Eq)]
pub struct Binding {
    pub name: String,
    pub ty: Type,
}

/// The state of a type's generic parameters.
#[derive(Debug, PartialEq, Eq)]
pub enum GenericBinding {
    /// Names only, as they were written.
    Unbound(Vec<String>),
    /// Each name, once, with the type it stands for.
    Bound(Vec<Binding>),
}

/// What a type is made of.
#[derive(Debug, PartialEq, Eq)]
pub enum TypeType {
    /// A record: fields with distinct names.
    RecordDecl(Vec<Binding>),
    /// An enumeration: distinct variant names in declaration order.
    EnumDecl(Vec<String>),
    /// The built-in number type.
    Number,
    /// The built-in function type.
    Function,
    /// A type known by its name only.
    Declaration,
}

/// A type: its name, its contents and its generic parameters.
#[derive(Debug, PartialEq, Eq)]
pub struct Type {
    pub name: String,
    pub contents: TypeType,
    pub generics: GenericBinding,
}

/// A value expression.
#[derive(Debug, PartialEq, Eq)]
pub enum Value {
    /// A chain of sub-values introduced by `the`, with the type it was found
    /// to have, if any yet.
    Reference(Vec<Value>, Option<Type>),
    /// A call of a provision: its name, its arguments and its return type.
    Invocation(String, Vec<String>, Type),
    /// A single word, with the type it was found to have, if any yet.
    Literal(String, Option<Type>),
}

/// How two values are compared.
#[derive(Clone, Copy, Debug, PartialEq, Eq, Structural)]
pub enum Comparator {
    GT,
    LT,
    EQ,
    GTE,
    LTE,
    NEQ,
}

/// A boolean expression over comparisons.
#[derive(Debug, PartialEq, Eq)]
pub enum Matcher {
    And(Vec<Matcher>),
    Or(Vec<Matcher>),
    Not(Box<Matcher>),
    Comparison(Value, Value, Comparator),
}

/// The body of a provision: nested conditionals that end in values.
#[derive(Debug, PartialEq, Eq)]
pub enum ProvisionBodyStmt {
    IfStmt(Matcher, Box<ProvisionBodyStmt>, Box<ProvisionBodyStmt>),
    ProvideStmt(Value),
}

/// A named function from typed parameters to a value.
#[derive(Debug, PartialEq, Eq)]
pub struct Provision {
    pub name: String,
    pub args: Vec<Binding>,
    pub body: ProvisionBodyStmt,
    pub returns: Type,
}

/// A top-level statement.
#[derive(Debug, PartialEq, Eq)]
pub enum Declaration {
    TypeDecl(Type),
    ProvisionDecl(Provision),
}

/// The declarations of a rule book, in the order in which they were written.
#[derive(Debug, PartialEq, Eq)]
pub struct Program {
    pub declarations: Vec<Declaration>,
}

pub struct BindingView {
    pub name: Seq<char>,
    pub ty: TypeView,
}

pub enum GenericsView {
    Unbound(Seq<Seq<char>>),
    Bound(Seq<BindingView>),
}

pub enum ContentsView {
    RecordDecl(Seq<BindingView>),
    EnumDecl(Seq<Seq<char>>),
    Number,
    Function,
    Declaration,
}

pub struct TypeView {
    pub name: Seq<char>,
    pub contents: ContentsView,
    pub generics: GenericsView,
}

pub enum ValueView {
    Reference(Seq<ValueView>, Option<TypeView>),
    Invocation(Seq<char>, Seq<Seq<char>>, TypeView),
    Literal(Seq<char>, Option<TypeView>),
}

pub enum MatcherView {
    And(Seq<MatcherView>),
    Or(Seq<MatcherView>),
    Not(Box<MatcherView>),
    Comparison(ValueView, ValueView, Comparator),
}

pub enum BodyView {
    IfStmt(MatcherView, Box<BodyView>, Box<BodyView>),
    ProvideStmt(ValueView),
}

pub struct ProvisionView {
    pub name: Seq<char>,
    pub args: Seq<BindingView>,
    pub body: BodyView,
    pub returns: TypeView,
}

pub enum DeclarationView {
    TypeDecl(TypeView),
    ProvisionDecl(ProvisionView),
}

/// The views of a sequence of strings.
pub open spec fn texts(v: Seq<String>) -> Seq<Seq<char>> {
    Seq::new(v.len(), |i: int| v[i]@)
}

/// The views of a sequence of declarations.
pub open spec fn declarations(v: Seq<Declaration>) -> Seq<DeclarationView> {
    Seq::new(v.len(), |i: int| v[i]@)
}

/// The model of a binding.
pub open spec fn binding_view(b: Binding) -> BindingView
    decreases b,
{
    BindingView { name: b.name@, ty: type_view(b.ty) }
}

/// The models of a list of bindings.
pub open spec fn bindings(v: Seq<Binding>) -> Seq<BindingView> {
    Seq::new(v.len(), |i: int| binding_view(v[i]))
}

/// The model of a generic binding.
pub open spec fn generics_view(g: GenericBinding) -> GenericsView
    decreases g,
{
    match g {
        GenericBinding::Unbound(names) => GenericsView::Unbound(texts(names@)),
        GenericBinding::Bound(items) => GenericsView::Bound(
            Seq::new(
                items@.len(),
                |i: int|
                    if 0 <= i < items@.len() {
                        binding_view(items@[i])
                    } else {
                        arbitrary()
                    },
            ),
        ),
    }
}

/// The model of a type's contents.
pub open spec fn contents_view(c: TypeType) -> ContentsView
    decreases c,
{
    match c {
        TypeType::RecordDecl(fields) => ContentsView::RecordDecl(
            Seq::new(
                fields@.len(),
                |i: int|
                    if 0 <= i < fields@.len() {
                        binding_view(fields@[i])
                    } else {
                        arbitrary()
                    },
            ),
        ),
        TypeType::EnumDecl(names) => ContentsView::EnumDecl(texts(names@)),
        TypeType::Number => ContentsView::Number,
        TypeType::Function => ContentsView::Function,
        TypeType::Declaration => ContentsView::Declaration,
    }
}

/// The model of a type.
pub open spec fn type_view(t: Type) -> TypeView
    decreases t,
{
    TypeView {
        name: t.name@,
        contents: contents_view(t.contents),
        generics: generics_view(t.generics),
    }
}

/// The model of an optional type.
pub open spec fn optional(t: Option<Type>) -> Option<TypeView> {
    match t {
        Some(t) => Some(type_view(t)),
        None => None,
    }
}

/// The model of a value.
pub open spec fn value_view(v: Value) -> ValueView
    decreases v,
{
    match v {
        Value::Reference(chain, ty) => ValueView::Reference(
            Seq::new(
                chain@.len(),
                |i: int|
                    if 0 <= i < chain@.len() {
                        value_view(chain@[i])
                    } else {
                        arbitrary()
                    },
            ),
            optional(ty),
        ),
        Value::Invocation(name, args, ty) => ValueView::Invocation(
            name@,
            texts(args@),
            type_view(ty),
        ),
        Value::Literal(text, ty) => ValueView::Literal(text@, optional(ty)),
    }
}

/// The models of a list of values.
pub open spec fn values(v: Seq<Value>) -> Seq<ValueView> {
    Seq::new(v.len(), |i: int| value_view(v[i]))
}

/// The model of a matcher.
pub open spec fn matcher_view(m: Matcher) -> MatcherView
    decreases m,
{
    match m {
        Matcher::And(items) => MatcherView::And(
            Seq::new(
                items@.len(),
                |i: int|
                    if 0 <= i < items@.len() {
                        matcher_view(items@[i])
                    } else {
                        arbitrary()
                    },
            ),
        ),
        Matcher::Or(items) => MatcherView::Or(
            Seq::new(
                items@.len(),
                |i: int|
                    if 0 <= i < items@.len() {
                        matcher_view(items@[i])
                    } else {
                        arbitrary()
                    },
            ),
        ),
        Matcher::Not(inner) => MatcherView::Not(Box::new(matcher_view(*inner))),
        Matcher::Comparison(lhs, rhs, how) => MatcherView::Comparison(
            value_view(lhs),
            value_view(rhs),
            how,
        ),
    }
}

/// The models of a list of matchers.
pub open spec fn matchers(v: Seq<Matcher>) -> Seq<MatcherView> {
    Seq::new(v.len(), |i: int| matcher_view(v[i]))
}

/// The model of a provision body.
pub open spec fn body_view(b: ProvisionBodyStmt) -> BodyView
    decreases b,
{
    match b {
        ProvisionBodyStmt::IfStmt(condition, yes, no) => BodyView::IfStmt(
            matcher_view(condition),
            Box::new(body_view(*yes)),
            Box::new(body_view(*no)),
        ),
        ProvisionBodyStmt::ProvideStmt(value) => BodyView::ProvideStmt(value_view(value)),
    }
}

impl View for Binding {
    type V = BindingView;

    open spec fn view(&self) -> BindingView {
        binding_view(*self)
    }
}

impl View for GenericBinding {
    type V = GenericsView;

    open spec fn view(&self) -> GenericsView {
        generics_view(*self)
    }
}

impl View for TypeType {
    type V = ContentsView;

    open spec fn view(&self) -> ContentsView {
        contents_view(*self)
    }
}

impl View for Type {
    type V = TypeView;

    open spec fn view(&self) -> TypeView {
        type_view(*self)
    }
}

impl View for Value {
    type V = ValueView;

    open spec fn view(&self) -> ValueView {
        value_view(*self)
    }
}

impl View for Matcher {
    type V = MatcherView;

    open spec fn view(&self) -> MatcherView {
        matcher_view(*self)
    }
}

impl View for ProvisionBodyStmt {
    type V = BodyView;

    open spec fn view(&self) -> BodyView {
        body_view(*self)
    }
}

impl View for Provision {
    type V = ProvisionView;

    open spec fn view(&self) -> ProvisionView {
        ProvisionView {
            name: self.name@,
            args: bindings(self.args@),
            body: self.body@,
            returns: self.returns@,
        }
    }
}

impl View for Declaration {
    type V = DeclarationView;

    open spec fn view(&self) -> DeclarationView {
        match self {
            Declaration::TypeDecl(t) => DeclarationView::TypeDecl(t@),
            Declaration::ProvisionDecl(p) => DeclarationView::ProvisionDecl(p@),
        }
    }
}

impl View for Program {
    type V = Seq<DeclarationView>;

    open spec fn view(&self) -> Seq<DeclarationView> {
        declarations(self.declarations@)
    }
}

/// The model of a record or of bound generics holds the models of the items.
pub proof fn lemma_type_views(fields: Vec<Binding>)
    ensures
        TypeType::RecordDecl(fields)@ == ContentsView::RecordDecl(bindings(fields@)),
        GenericBinding::Bound(fields)@ == GenericsView::Bound(bindings(fields@)),
{
    assert(contents_view(TypeType::RecordDecl(fields))->RecordDecl_0 =~= bindings(fields@));
    assert(generics_view(GenericBinding::Bound(fields))->Bound_0 =~= bindings(fields@));
}

/// The model of a reference holds the models of the chain's items.
pub proof fn lemma_reference_view(chain: Vec<Value>, ty: Option<Type>)
    ensures
        Value::Reference(chain, ty)@ == ValueView::Reference(values(chain@), optional(ty)),
{
    assert(value_view(Value::Reference(chain, ty))->Reference_0 =~= values(chain@));
}

/// The model of a conjunction or disjunction holds the models of its items.
pub proof fn lemma_matcher_views(items: Vec<Matcher>)
    ensures
        Matcher::And(items)@ == MatcherView::And(matchers(items@)),
        Matcher::Or(items)@ == MatcherView::Or(matchers(items@)),
{
    assert(matcher_view(Matcher::And(items))->And_0 =~= matchers(items@));
    assert(matcher_view(Matcher::Or(items))->Or_0 =~= matchers(items@));
}

} // verus!
