//! Structured parse and resolution errors.

use vstd::prelude::*;

verus! {

/// The grammar rules that can fail.
#[derive(Clone, Copy, Debug, PartialEq, Eq, Structural)]
pub enum Production {
    TypeInstantiation,
    EnumDecl,
    RecordDecl,
    TypeDecl,
    Value,
    Matcher,
    Arguments,
    Header,
    Body,
    Provision,
    Program,
}

/// What a rule looked for at the position where it failed.
#[derive(Clone, Copy, Debug, PartialEq, Eq, Structural)]
pub enum Expected {
    /// A word of letters and digits.
    Word,
    /// `called`
    Called,
    /// `is a`, `is an`, `has a` or `has an`
    IsOrHas,
    /// One of the six comparators.
    Comparator,
    /// `Given a` or `Given an`
    Given,
    /// `called a` or `called an`
    CalledA,
    /// `resolve a` or `resolve an`
    Resolve,
    /// `to get a` or `to get an`
    ToGet,
    /// `by`
    By,
    /// `then`
    Then,
    /// `else`
    Else,
    /// `if` or `providing`
    IfOrProviding,
    /// Whitespace or the end of the text.
    EndOfInput,
}

/// The ways in which a well-formed text can still be wrong.
#[derive(Clone, Copy, Debug, PartialEq, Eq, Structural)]
pub enum SemanticKind {
    /// Two fields of a record share a name, or two variants of an
    /// enumeration do. The error's rule tells which: `RecordDecl` or
    /// `EnumDecl`.
    DuplicateField,
    /// Two parameters of a provision share a name.
    DuplicateParameter,
    /// A type or a generic parameter names no known type.
    UnknownTypeReference,
    /// A word names no parameter, number or variant, or a step of a
    /// reference names no field.
    UnknownField,
    /// A step of a reference is taken on a type that is no record.
    NotARecord,
}

/// A failure of the grammar: the rule that failed, what it looked for and
/// the byte offset at which it looked.
#[derive(Clone, Copy, Debug, PartialEq, Eq)]
pub struct SyntaxError {
    pub production: Production,
    pub expected: Expected,
    pub offset: usize,
}

/// A failure of a rule that the grammar does not express: its kind, the rule
/// it belongs to, the byte offset it is reported at, the offending name and
/// the name of the declaration that holds it.
#[derive(Debug, PartialEq, Eq)]
pub struct SemanticError {
    pub kind: SemanticKind,
    pub production: Production,
    pub offset: usize,
    pub identifier: String,
    pub context: String,
}

/// Why a text is not a rule book.
#[derive(Debug, PartialEq, Eq)]
pub enum ParseError {
    Syntax(SyntaxError),
    Semantic(SemanticError),
}

/// A failure of the resolution pass: its kind, the offending name and the
/// index of the declaration that holds it.
#[derive(Debug, PartialEq, Eq)]
pub struct ResolveError {
    pub kind: SemanticKind,
    pub identifier: String,
    pub declaration: usize,
}

pub struct SyntaxErrorView {
    pub production: Production,
    pub expected: Expected,
    pub offset: int,
}

pub struct SemanticErrorView {
    pub kind: SemanticKind,
    pub production: Production,
    pub offset: int,
    pub identifier: Seq<char>,
    pub context: Seq<char>,
}

pub enum ParseErrorView {
    Syntax(SyntaxErrorView),
    Semantic(SemanticErrorView),
}

pub struct ResolveErrorView {
    pub kind: SemanticKind,
    pub identifier: Seq<char>,
    pub declaration: int,
}

impl View for SyntaxError {
    type V = SyntaxErrorView;

    open spec fn view(&self) -> SyntaxErrorView {
        SyntaxErrorView {
            production: self.production,
            expected: self.expected,
            offset: self.offset as int,
        }
    }
}

impl View for SemanticError {
    type V = SemanticErrorView;

    open spec fn view(&self) -> SemanticErrorView {
        SemanticErrorView {
            kind: self.kind,
            production: self.production,
            offset: self.offset as int,
            identifier: self.identifier@,
            context: self.context@,
        }
    }
}

impl View for ParseError {
    type V = ParseErrorView;

    open spec fn view(&self) -> ParseErrorView {
        match self {
            ParseError::Syntax(e) => ParseErrorView::Syntax(e@),
            ParseError::Semantic(e) => ParseErrorView::Semantic(e@),
        }
    }
}

impl View for ResolveError {
    type V = ResolveErrorView;

    open spec fn view(&self) -> ResolveErrorView {
        ResolveErrorView {
            kind: self.kind,
            identifier: self.identifier@,
            declaration: self.declaration as int,
        }
    }
}

/// The syntax failure of `production`, which looked for `expected` at `offset`.
pub open spec fn fault(production: Production, expected: Expected, offset: int) -> SyntaxErrorView {
    SyntaxErrorView { production, expected, offset }
}

/// Of two failures at one starting point, the one that got further; the first
/// one when both got equally far.
pub open spec fn further(a: SyntaxErrorView, b: SyntaxErrorView) -> SyntaxErrorView {
    if b.offset > a.offset {
        b
    } else {
        a
    }
}

/// The rule that a semantic failure of this kind belongs to. A name repeated
/// among the variants of an enumeration is a `DuplicateField` that names its
/// own rule, `EnumDecl`.
pub open spec fn production_of(kind: SemanticKind) -> Production {
    match kind {
        SemanticKind::DuplicateField => Production::RecordDecl,
        SemanticKind::DuplicateParameter => Production::Arguments,
        SemanticKind::UnknownTypeReference => Production::TypeInstantiation,
        SemanticKind::UnknownField => Production::Value,
        SemanticKind::NotARecord => Production::Value,
    }
}

/// A parser's result agrees with the grammar's when both succeed with the same
/// tree at the same position, or both fail with the same error.
pub open spec fn agrees<T: View, E: View>(
    r: Result<(T, usize), E>,
    m: Result<(T::V, int), E::V>,
) -> bool {
    match r {
        Ok((x, q)) => m == Ok::<(T::V, int), E::V>((x@, q as int)),
        Err(e) => m == Err::<(T::V, int), E::V>(e@),
    }
}

impl SyntaxError {
    /// The failure of `production`, which looked for `expected` at `offset`.
    pub fn new(production: Production, expected: Expected, offset: usize) -> (e: SyntaxError)
        ensures
            e@ == fault(production, expected, offset as int),
    {
        SyntaxError { production, expected, offset }
    }

    /// Of two failures, the one that got further; `self` when both got
    /// equally far.
    pub fn or_further(self, other: SyntaxError) -> (e: SyntaxError)
        ensures
            e@ == further(self@, other@),
    {
        if other.offset > self.offset {
            other
        } else {
            self
        }
    }
}

impl SemanticKind {
    /// The rule that a failure of this kind belongs to; for a name repeated
    /// among the variants of an enumeration see the error itself.
    pub fn production(self) -> (p: Production)
        ensures
            p == production_of(self),
    {
        match self {
            SemanticKind::DuplicateField => Production::RecordDecl,
            SemanticKind::DuplicateParameter => Production::Arguments,
            SemanticKind::UnknownTypeReference => Production::TypeInstantiation,
            SemanticKind::UnknownField => Production::Value,
            SemanticKind::NotARecord => Production::Value,
        }
    }
}

/// The texts of a list of tags.
pub open spec fn tag_texts(tags: Seq<&'static str>) -> Seq<Seq<char>> {
    Seq::new(tags.len(), |i: int| tags[i]@)
}

/// The tags that were tried where a rule looked for `expected`, in the order
/// in which they were tried. A word and the end of the text are no tags.
pub open spec fn tags_tried(expected: Expected) -> Seq<Seq<char>> {
    match expected {
        Expected::Word => seq![],
        Expected::Called => seq!["called"@],
        Expected::IsOrHas => seq!["is a"@, "is an"@, "has a"@, "has an"@],
        Expected::Comparator => seq![
            "is at least"@,
            "is bigger than"@,
            "is at most"@,
            "is smaller than"@,
            "is not"@,
            "is"@,
        ],
        Expected::Given => seq!["Given a"@, "Given an"@],
        Expected::CalledA => seq!["called a"@, "called an"@],
        Expected::Resolve => seq!["resolve a"@, "resolve an"@],
        Expected::ToGet => seq!["to get a"@, "to get an"@],
        Expected::By => seq!["by"@],
        Expected::Then => seq!["then"@],
        Expected::Else => seq!["else"@],
        Expected::IfOrProviding => seq!["if"@, "providing"@],
        Expected::EndOfInput => seq![],
    }
}

impl Expected {
    /// The tags that were tried where a rule looked for this, in the order in
    /// which they were tried.
    pub fn tags(self) -> (r: Vec<&'static str>)
        ensures
            tag_texts(r@) == tags_tried(self),
    {
        let r = match self {
            Expected::Word => vec![],
            Expected::Called => vec!["called"],
            Expected::IsOrHas => vec!["is a", "is an", "has a", "has an"],
            Expected::Comparator => vec![
                "is at least",
                "is bigger than",
                "is at most",
                "is smaller than",
                "is not",
                "is",
            ],
            Expected::Given => vec!["Given a", "Given an"],
            Expected::CalledA => vec!["called a", "called an"],
            Expected::Resolve => vec!["resolve a", "resolve an"],
            Expected::ToGet => vec!["to get a", "to get an"],
            Expected::By => vec!["by"],
            Expected::Then => vec!["then"],
            Expected::Else => vec!["else"],
            Expected::IfOrProviding => vec!["if", "providing"],
            Expected::EndOfInput => vec![],
        };
        proof {
            assert(tag_texts(r@) =~= tags_tried(self));
        }
        r
    }
}

/// The name of a grammar rule, as it is written in the grammar.
pub open spec fn production_name(production: Production) -> Seq<char> {
    match production {
        Production::TypeInstantiation => "type_instantiation"@,
        Production::EnumDecl => "enum_decl"@,
        Production::RecordDecl => "record_decl"@,
        Production::TypeDecl => "type_decl"@,
        Production::Value => "value"@,
        Production::Matcher => "matcher"@,
        Production::Arguments => "arguments"@,
        Production::Header => "header"@,
        Production::Body => "body"@,
        Production::Provision => "provision"@,
        Production::Program => "program"@,
    }
}

impl Production {
    /// The name of the rule, as it is written in the grammar.
    pub fn name(self) -> (r: &'static str)
        ensures
            r@ == production_name(self),
    {
        match self {
            Production::TypeInstantiation => "type_instantiation",
            Production::EnumDecl => "enum_decl",
            Production::RecordDecl => "record_decl",
            Production::TypeDecl => "type_decl",
            Production::Value => "value",
            Production::Matcher => "matcher",
            Production::Arguments => "arguments",
            Production::Header => "header",
            Production::Body => "body",
            Production::Provision => "provision",
            Production::Program => "program",
        }
    }
}

/// The position at which an error is reported.
pub open spec fn offset_of(e: ParseErrorView) -> int {
    match e {
        ParseErrorView::Syntax(e) => e.offset,
        ParseErrorView::Semantic(e) => e.offset,
    }
}

impl ParseError {
    /// The byte offset at which the error is reported.
    pub fn offset(&self) -> (r: usize)
        ensures
            r == offset_of(self@),
    {
        match self {
            ParseError::Syntax(e) => e.offset,
            ParseError::Semantic(e) => e.offset,
        }
    }

    /// The rule that failed, or the rule that a semantic failure belongs to.
    pub fn production(&self) -> (r: Production)
        ensures
            self@ matches ParseErrorView::Syntax(e) ==> r == e.production,
            self@ matches ParseErrorView::Semantic(e) ==> r == e.production,
    {
        match self {
            ParseError::Syntax(e) => e.production,
            ParseError::Semantic(e) => e.production,
        }
    }
}

} // verus!
