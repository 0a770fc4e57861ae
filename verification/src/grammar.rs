//! The grammar, as functions from a text and a position to what is read
//! there.
//!
//! A rule either succeeds with a tree and the position after it, or fails
//! with the rule's name, what it looked for, and where. Alternatives are tried
//! in order, each from the same position. Tokens are separated by mandatory
//! whitespace. A repetition ends where no separator follows; once a separator
//! is read, the item must follow it. So a text fails where it stops making
//! sense, which is the furthest position that any reading of it reaches.
//!
//! The rules that are built from other rules are opaque: a proof reveals the
//! ones whose definition it needs.

use crate::ast::{
    BindingView, BodyView, Comparator, ContentsView, DeclarationView, GenericsView, MatcherView,
    ProvisionView, TypeView, ValueView,
};
use crate::error::{
    Expected, fault, further, ParseErrorView, Production, SemanticErrorView, SemanticKind,
    SyntaxErrorView,
};
use crate::lexer::{
    gap, lemma_gap, lemma_spaced_tag, lemma_spaced_tag2, lemma_spaced_word, lemma_tag2_at,
    lemma_word, skip_spaces, spaced_tag, spaced_tag2, spaced_word, tag2_at, tag_at, word,
};
use vstd::prelude::*;
use vstd::string::StringSliceAdditionalSpecFns;

verus! {

/// What a rule reads at a position.
pub type Read<T> = Result<(T, int), SyntaxErrorView>;

/// A type as it is written: known by name, its generic parameters unbound.
pub open spec fn named_type(name: Seq<char>, generics: Seq<Seq<char>>) -> TypeView {
    TypeView { name, contents: ContentsView::Declaration, generics: GenericsView::Unbound(generics) }
}

/// Whitespace at `p`, on behalf of the rule that needs a token after it: the
/// position of that token.
pub open spec fn spaced(s: Seq<u8>, p: int, production: Production, expected: Expected) -> Result<
    int,
    SyntaxErrorView,
> {
    match gap(s, p) {
        None => Err(fault(production, expected, p)),
        Some(g) => Ok(g),
    }
}

/// The items found so far before those that follow, if they can be read.
pub open spec fn joined<T>(found: Seq<T>, rest: Read<Seq<T>>) -> Read<Seq<T>> {
    match rest {
        Ok((items, e)) => Ok((found + items, e)),
        Err(e) => Err(e),
    }
}

/// `joined` takes the items found in two steps as it takes them in one, and
/// nothing more where nothing follows.
pub proof fn lemma_joined<T>(a: Seq<T>, b: Seq<T>, rest: Read<Seq<T>>, e: int)
    ensures
        joined(a, joined(b, rest)) == joined(a + b, rest),
        joined(a, Ok::<(Seq<T>, int), SyntaxErrorView>((Seq::empty(), e))) == Ok::<
            (Seq<T>, int),
            SyntaxErrorView,
        >((a, e)),
{
    match rest {
        Ok((items, _)) => {
            assert(a + (b + items) =~= (a + b) + items);
        },
        Err(_) => {},
    }
    assert(a + Seq::<T>::empty() =~= a);
}

/// `("and" word)*`: the further generic parameters of a type.
pub open spec fn generic_rest(s: Seq<u8>, p: int) -> Read<Seq<Seq<char>>>
    decreases s.len() - p,
{
    match spaced_tag(s, p, "and".spec_bytes()) {
        None => Ok((Seq::empty(), p)),
        Some(a) => match spaced_word(s, a) {
            None => Err(fault(Production::TypeInstantiation, Expected::Word, skip_spaces(s, a))),
            Some((name, q)) => {
                proof {
                    lemma_spaced_tag(s, p, "and".spec_bytes());
                    lemma_spaced_word(s, a);
                }
                joined(seq![name], generic_rest(s, q))
            },
        },
    }
}

/// `("of" word ("and" word)*)?`: the generic parameters of a type.
pub open spec fn generic_list(s: Seq<u8>, p: int) -> Read<Seq<Seq<char>>> {
    match spaced_tag(s, p, "of".spec_bytes()) {
        None => Ok((Seq::empty(), p)),
        Some(a) => match spaced_word(s, a) {
            None => Err(fault(Production::TypeInstantiation, Expected::Word, skip_spaces(s, a))),
            Some((first, q)) => joined(seq![first], generic_rest(s, q)),
        },
    }
}

/// `word ("of" word ("and" word)*)?`: a type's name and generic parameters.
#[verifier::opaque]
pub open spec fn type_instantiation(s: Seq<u8>, p: int) -> Read<TypeView> {
    match word(s, p) {
        None => Err(fault(Production::TypeInstantiation, Expected::Word, p)),
        Some((name, q)) => match generic_list(s, q) {
            Ok((generics, e)) => Ok((named_type(name, generics), e)),
            Err(e) => Err(e),
        },
    }
}

/// A type instantiation ends after its start, inside the text.
pub proof fn lemma_type_instantiation(s: Seq<u8>, p: int)
    ensures
        type_instantiation(s, p) matches Ok((_, q)) ==> 0 <= p < q <= s.len(),
{
    reveal(type_instantiation);
    lemma_word(s, p);
    match word(s, p) {
        Some((_, q)) => {
            lemma_spaced_tag(s, q, "of".spec_bytes());
            match spaced_tag(s, q, "of".spec_bytes()) {
                Some(a) => {
                    lemma_spaced_word(s, a);
                    match spaced_word(s, a) {
                        Some((_, b)) => lemma_generic_rest(s, b),
                        None => {},
                    }
                },
                None => {},
            }
        },
        None => {},
    }
}

/// The further generic parameters end at or after their start, inside the text.
pub proof fn lemma_generic_rest(s: Seq<u8>, p: int)
    requires
        0 <= p <= s.len(),
    ensures
        generic_rest(s, p) matches Ok((_, e)) ==> p <= e <= s.len(),
    decreases s.len() - p,
{
    lemma_spaced_tag(s, p, "and".spec_bytes());
    match spaced_tag(s, p, "and".spec_bytes()) {
        Some(a) => {
            lemma_spaced_word(s, a);
            match spaced_word(s, a) {
                Some((_, q)) => lemma_generic_rest(s, q),
                None => {},
            }
        },
        None => {},
    }
}

/// `(("or a" | "or an") word)*`: the further variants of an enumeration, each
/// with its position.
pub open spec fn variant_rest(s: Seq<u8>, p: int) -> Read<Seq<(Seq<char>, int)>>
    decreases s.len() - p,
{
    match spaced_tag2(s, p, "or a".spec_bytes(), "or an".spec_bytes()) {
        None => Ok((Seq::empty(), p)),
        Some(a) => match spaced_word(s, a) {
            None => Err(fault(Production::EnumDecl, Expected::Word, skip_spaces(s, a))),
            Some((name, q)) => {
                proof {
                    lemma_spaced_tag2(s, p, "or a".spec_bytes(), "or an".spec_bytes());
                    lemma_spaced_word(s, a);
                }
                joined(seq![(name, skip_spaces(s, a))], variant_rest(s, q))
            },
        },
    }
}

/// `word (("or a" | "or an") word)*`: the variants of an enumeration, in the
/// order in which they are written, each with its position.
pub open spec fn variants(s: Seq<u8>, p: int) -> Read<Seq<(Seq<char>, int)>> {
    match word(s, p) {
        None => Err(fault(Production::EnumDecl, Expected::Word, p)),
        Some((first, q)) => joined(seq![(first, p)], variant_rest(s, q)),
    }
}

/// The names of a list of placed names.
pub open spec fn plain(items: Seq<(Seq<char>, int)>) -> Seq<Seq<char>> {
    Seq::new(items.len(), |i: int| items[i].0)
}

/// `type_instantiation "called" word`: a field, with the position of its name.
#[verifier::opaque]
pub open spec fn field(s: Seq<u8>, p: int) -> Read<(BindingView, int)> {
    match type_instantiation(s, p) {
        Err(e) => Err(e),
        Ok((ty, q)) => match spaced_tag(s, q, "called".spec_bytes()) {
            None => Err(fault(Production::RecordDecl, Expected::Called, skip_spaces(s, q))),
            Some(a) => match spaced_word(s, a) {
                None => Err(fault(Production::RecordDecl, Expected::Word, skip_spaces(s, a))),
                Some((name, e)) => Ok(((BindingView { name, ty }, skip_spaces(s, a)), e)),
            },
        },
    }
}

/// A field ends after its start, inside the text.
pub proof fn lemma_field(s: Seq<u8>, p: int)
    ensures
        field(s, p) matches Ok((_, q)) ==> 0 <= p < q <= s.len(),
{
    reveal(field);
    lemma_type_instantiation(s, p);
    match type_instantiation(s, p) {
        Ok((_, q)) => {
            lemma_spaced_tag(s, q, "called".spec_bytes());
            match spaced_tag(s, q, "called".spec_bytes()) {
                Some(a) => lemma_spaced_word(s, a),
                None => {},
            }
        },
        Err(_) => {},
    }
}

/// `(("and a" | "and an") field)*`: the further fields of a record.
pub open spec fn field_rest(s: Seq<u8>, p: int) -> Read<Seq<(BindingView, int)>>
    decreases s.len() - p,
{
    match spaced_tag2(s, p, "and a".spec_bytes(), "and an".spec_bytes()) {
        None => Ok((Seq::empty(), p)),
        Some(a) => match spaced(s, a, Production::TypeInstantiation, Expected::Word) {
            Err(e) => Err(e),
            Ok(g) => match field(s, g) {
                Err(e) => Err(e),
                Ok((f, q)) => {
                    proof {
                        lemma_spaced_tag2(s, p, "and a".spec_bytes(), "and an".spec_bytes());
                        lemma_gap(s, a);
                        lemma_field(s, g);
                    }
                    joined(seq![f], field_rest(s, q))
                },
            },
        },
    }
}

/// `field (("and a" | "and an") field)*`: the fields of a record, each with
/// the position of its name.
pub open spec fn record_fields(s: Seq<u8>, p: int) -> Read<Seq<(BindingView, int)>> {
    match field(s, p) {
        Err(e) => Err(e),
        Ok((f, q)) => joined(seq![f], field_rest(s, q)),
    }
}

/// The bindings of a list of placed bindings.
pub open spec fn unplaced(items: Seq<(BindingView, int)>) -> Seq<BindingView> {
    Seq::new(items.len(), |i: int| items[i].0)
}

/// The names of a list of bindings.
pub open spec fn names_of(items: Seq<BindingView>) -> Seq<Seq<char>> {
    Seq::new(items.len(), |i: int| items[i].name)
}

/// No two of the names are equal.
pub open spec fn distinct(names: Seq<Seq<char>>) -> bool {
    forall|i: int, j: int| 0 <= i < j < names.len() ==> names[i] != names[j]
}

/// The first index at or after `from` whose name also occurs before it.
pub open spec fn first_repeat_from(names: Seq<Seq<char>>, from: int) -> Option<int>
    decreases names.len() - from,
{
    if from < 0 || from >= names.len() {
        None
    } else if names.subrange(0, from).contains(names[from]) {
        Some(from)
    } else {
        first_repeat_from(names, from + 1)
    }
}

/// The first index whose name also occurs before it.
pub open spec fn first_repeat(names: Seq<Seq<char>>) -> Option<int> {
    first_repeat_from(names, 0)
}

/// A second use of a name in one list of variants, fields or parameters,
/// reported where the name stands the second time.
pub open spec fn duplicate(
    kind: SemanticKind,
    production: Production,
    identifier: Seq<char>,
    offset: int,
) -> ParseErrorView {
    ParseErrorView::Semantic(
        SemanticErrorView { kind, production, offset, identifier, context: Seq::empty() },
    )
}

/// An enumeration: its variants, in the order in which they are written,
/// whose names must differ. A repeated name fails as a repeated field of a
/// record does, with `DuplicateField`, for the rule `EnumDecl`, at the second
/// use of the name.
#[verifier::opaque]
pub open spec fn enum_decl(s: Seq<u8>, p: int) -> Result<(ContentsView, int), ParseErrorView> {
    match variants(s, p) {
        Err(e) => Err(ParseErrorView::Syntax(e)),
        Ok((items, q)) => match first_repeat(plain(items)) {
            Some(j) => Err(
                duplicate(
                    SemanticKind::DuplicateField,
                    Production::EnumDecl,
                    items[j].0,
                    items[j].1,
                ),
            ),
            None => Ok((ContentsView::EnumDecl(plain(items)), q)),
        },
    }
}

/// A record: its fields, whose names must differ. The failure for a repeated
/// name is reported at the second use of the name.
#[verifier::opaque]
pub open spec fn record_decl(s: Seq<u8>, p: int) -> Result<(ContentsView, int), ParseErrorView> {
    match record_fields(s, p) {
        Err(e) => Err(ParseErrorView::Syntax(e)),
        Ok((fields, q)) => match first_repeat(names_of(unplaced(fields))) {
            Some(j) => Err(
                duplicate(
                    SemanticKind::DuplicateField,
                    Production::RecordDecl,
                    fields[j].0.name,
                    fields[j].1,
                ),
            ),
            None => Ok((ContentsView::RecordDecl(unplaced(fields)), q)),
        },
    }
}

/// The same error, said to lie in the declaration called `name`.
pub open spec fn in_context(e: ParseErrorView, name: Seq<char>) -> ParseErrorView {
    match e {
        ParseErrorView::Syntax(e) => ParseErrorView::Syntax(e),
        ParseErrorView::Semantic(e) => ParseErrorView::Semantic(
            SemanticErrorView { context: name, ..e },
        ),
    }
}

/// A type declaration: a type's name and generic parameters, then
/// `"is a"` or `"is an"` and an enumeration, or `"has a"` or `"has an"` and a
/// record. The declared type has the name and the generic parameters of the
/// header and the contents of the body.
#[verifier::opaque]
pub open spec fn type_decl(s: Seq<u8>, p: int) -> Result<(TypeView, int), ParseErrorView> {
    match type_instantiation(s, p) {
        Err(e) => Err(ParseErrorView::Syntax(e)),
        Ok((head, q)) => match spaced_tag2(s, q, "is a".spec_bytes(), "is an".spec_bytes()) {
            Some(a) => match gap(s, a) {
                None => Err(
                    ParseErrorView::Syntax(fault(Production::EnumDecl, Expected::Word, a)),
                ),
                Some(g) => match enum_decl(s, g) {
                    Err(e) => Err(in_context(e, head.name)),
                    Ok((contents, e)) => Ok(
                        (TypeView { name: head.name, contents, generics: head.generics }, e),
                    ),
                },
            },
            None => match spaced_tag2(s, q, "has a".spec_bytes(), "has an".spec_bytes()) {
                Some(a) => match gap(s, a) {
                    None => Err(
                        ParseErrorView::Syntax(
                            fault(Production::TypeInstantiation, Expected::Word, a),
                        ),
                    ),
                    Some(g) => match record_decl(s, g) {
                        Err(e) => Err(in_context(e, head.name)),
                        Ok((contents, e)) => Ok(
                            (TypeView { name: head.name, contents, generics: head.generics }, e),
                        ),
                    },
                },
                None => Err(
                    ParseErrorView::Syntax(
                        fault(Production::TypeDecl, Expected::IsOrHas, skip_spaces(s, q)),
                    ),
                ),
            },
        },
    }
}

/// A single word as a value.
pub open spec fn literal(s: Seq<u8>, p: int) -> Read<ValueView> {
    match word(s, p) {
        Some((text, q)) => Ok((ValueView::Literal(text, None), q)),
        None => Err(fault(Production::Value, Expected::Word, p)),
    }
}

/// The reference with the chain that was read.
pub open spec fn reference_of(chain: Read<Seq<ValueView>>) -> Read<ValueView> {
    match chain {
        Ok((items, e)) => Ok((ValueView::Reference(items, None), e)),
        Err(e) => Err(e),
    }
}

/// `"the" value (("then" | "of") value)* | word`: a value. Where `the` is
/// followed by a value, it introduces a reference; anywhere else it is a word
/// like any other. Neither a reference nor a word carries a type yet.
pub open spec fn value(s: Seq<u8>, p: int) -> Read<ValueView>
    decreases s.len() - p, 1nat,
{
    match tag_at(s, p, "the".spec_bytes()) {
        Some(a) => match gap(s, a) {
            Some(g) => {
                proof {
                    lemma_gap(s, a);
                }
                match value(s, g) {
                    Ok((first, q)) => if g < q <= s.len() {
                        reference_of(joined(seq![first], chain_rest(s, q)))
                    } else {
                        literal(s, p)
                    },
                    Err(_) => literal(s, p),
                }
            },
            None => literal(s, p),
        },
        None => literal(s, p),
    }
}

/// `(("then" | "of") value)*`: the further items of a chain.
pub open spec fn chain_rest(s: Seq<u8>, p: int) -> Read<Seq<ValueView>>
    decreases s.len() - p, 0nat,
{
    match spaced_tag2(s, p, "then".spec_bytes(), "of".spec_bytes()) {
        None => Ok((Seq::empty(), p)),
        Some(a) => match spaced(s, a, Production::Value, Expected::Word) {
            Err(e) => Err(e),
            Ok(g) => {
                proof {
                    lemma_spaced_tag2(s, p, "then".spec_bytes(), "of".spec_bytes());
                    lemma_gap(s, a);
                }
                match value(s, g) {
                    Err(e) => Err(e),
                    Ok((item, q)) => if g < q <= s.len() {
                        joined(seq![item], chain_rest(s, q))
                    } else {
                        Err(fault(Production::Value, Expected::Word, g))
                    },
                }
            },
        },
    }
}

/// A value ends after its start, inside the text.
pub proof fn lemma_value(s: Seq<u8>, p: int)
    ensures
        value(s, p) matches Ok((_, q)) ==> 0 <= p < q <= s.len(),
    decreases s.len() - p, 1nat,
{
    lemma_word(s, p);
    match tag_at(s, p, "the".spec_bytes()) {
        Some(a) => {
            lemma_gap(s, a);
            match gap(s, a) {
                Some(g) => {
                    lemma_value(s, g);
                    match value(s, g) {
                        Ok((_, q)) => lemma_chain_rest(s, q),
                        Err(_) => {},
                    }
                },
                None => {},
            }
        },
        None => {},
    }
}

/// The further items of a chain end at or after their start, inside the text.
pub proof fn lemma_chain_rest(s: Seq<u8>, p: int)
    requires
        0 <= p <= s.len(),
    ensures
        chain_rest(s, p) matches Ok((_, e)) ==> p <= e <= s.len(),
    decreases s.len() - p, 0nat,
{
    lemma_spaced_tag2(s, p, "then".spec_bytes(), "of".spec_bytes());
    match spaced_tag2(s, p, "then".spec_bytes(), "of".spec_bytes()) {
        Some(a) => {
            lemma_gap(s, a);
            match gap(s, a) {
                Some(g) => {
                    lemma_value(s, g);
                    match value(s, g) {
                        Ok((_, q)) => lemma_chain_rest(s, q),
                        Err(_) => {},
                    }
                },
                None => {},
            }
        },
        None => {},
    }
}

/// A comparator after a gap. The longer tags are tried first, so that `is`
/// never takes the beginning of a longer comparator.
pub open spec fn comparator(s: Seq<u8>, p: int) -> Option<(Comparator, int)> {
    if let Some(q) = spaced_tag(s, p, "is at least".spec_bytes()) {
        Some((Comparator::GTE, q))
    } else if let Some(q) = spaced_tag(s, p, "is bigger than".spec_bytes()) {
        Some((Comparator::GT, q))
    } else if let Some(q) = spaced_tag(s, p, "is at most".spec_bytes()) {
        Some((Comparator::LTE, q))
    } else if let Some(q) = spaced_tag(s, p, "is smaller than".spec_bytes()) {
        Some((Comparator::LT, q))
    } else if let Some(q) = spaced_tag(s, p, "is not".spec_bytes()) {
        Some((Comparator::NEQ, q))
    } else if let Some(q) = spaced_tag(s, p, "is".spec_bytes()) {
        Some((Comparator::EQ, q))
    } else {
        None
    }
}

/// A comparator ends after its start, at a word boundary inside the text.
pub proof fn lemma_comparator(s: Seq<u8>, p: int)
    ensures
        comparator(s, p) matches Some((_, q)) ==> 0 <= p < q <= s.len(),
{
    lemma_spaced_tag(s, p, "is at least".spec_bytes());
    lemma_spaced_tag(s, p, "is bigger than".spec_bytes());
    lemma_spaced_tag(s, p, "is at most".spec_bytes());
    lemma_spaced_tag(s, p, "is smaller than".spec_bytes());
    lemma_spaced_tag(s, p, "is not".spec_bytes());
    lemma_spaced_tag(s, p, "is".spec_bytes());
}

/// `value comparator value`: a comparison.
#[verifier::opaque]
pub open spec fn comparison(s: Seq<u8>, p: int) -> Read<MatcherView> {
    match value(s, p) {
        Err(e) => Err(e),
        Ok((lhs, q)) => match comparator(s, q) {
            None => Err(fault(Production::Matcher, Expected::Comparator, skip_spaces(s, q))),
            Some((how, a)) => match gap(s, a) {
                None => Err(fault(Production::Value, Expected::Word, a)),
                Some(g) => match value(s, g) {
                    Err(e) => Err(e),
                    Ok((rhs, e)) => Ok((MatcherView::Comparison(lhs, rhs, how), e)),
                },
            },
        },
    }
}

/// `"not" comparison | comparison`: a comparison, negated if `not` stands
/// before it. When neither alternative can be read, the failure is that of
/// the alternative that got further.
#[verifier::opaque]
pub open spec fn negation(s: Seq<u8>, p: int) -> Read<MatcherView> {
    match tag_at(s, p, "not".spec_bytes()) {
        Some(a) => {
            let negated = match gap(s, a) {
                None => Err(fault(Production::Value, Expected::Word, a)),
                Some(g) => comparison(s, g),
            };
            match negated {
                Ok((inner, e)) => Ok((MatcherView::Not(Box::new(inner)), e)),
                Err(first) => match comparison(s, p) {
                    Ok(plain) => Ok(plain),
                    Err(second) => Err(further(first, second)),
                },
            }
        },
        None => comparison(s, p),
    }
}

/// A comparison, negated or not, ends after its start, inside the text.
pub proof fn lemma_negation(s: Seq<u8>, p: int)
    ensures
        comparison(s, p) matches Ok((_, q)) ==> 0 <= p < q <= s.len(),
        negation(s, p) matches Ok((_, q)) ==> 0 <= p < q <= s.len(),
{
    reveal(negation);
    lemma_comparison(s, p);
    match tag_at(s, p, "not".spec_bytes()) {
        Some(a) => {
            lemma_gap(s, a);
            match gap(s, a) {
                Some(g) => lemma_comparison(s, g),
                None => {},
            }
        },
        None => {},
    }
}

/// A comparison ends after its start, inside the text.
pub proof fn lemma_comparison(s: Seq<u8>, p: int)
    ensures
        comparison(s, p) matches Ok((_, q)) ==> 0 <= p < q <= s.len(),
{
    reveal(comparison);
    lemma_value(s, p);
    match value(s, p) {
        Ok((_, q)) => {
            lemma_comparator(s, q);
            match comparator(s, q) {
                Some((_, a)) => {
                    lemma_gap(s, a);
                    match gap(s, a) {
                        Some(g) => lemma_value(s, g),
                        None => {},
                    }
                },
                None => {},
            }
        },
        Err(_) => {},
    }
}

/// `("or" negation)*`: the further alternatives of a disjunction.
pub open spec fn or_rest(s: Seq<u8>, p: int) -> Read<Seq<MatcherView>>
    decreases s.len() - p,
{
    match spaced_tag(s, p, "or".spec_bytes()) {
        None => Ok((Seq::empty(), p)),
        Some(a) => match spaced(s, a, Production::Value, Expected::Word) {
            Err(e) => Err(e),
            Ok(g) => match negation(s, g) {
                Err(e) => Err(e),
                Ok((item, q)) => {
                    proof {
                        lemma_spaced_tag(s, p, "or".spec_bytes());
                        lemma_gap(s, a);
                        lemma_negation(s, g);
                    }
                    joined(seq![item], or_rest(s, q))
                },
            },
        },
    }
}

/// The disjunction of the items; a single item stands for itself.
pub open spec fn any_of(items: Seq<MatcherView>) -> MatcherView {
    if items.len() == 1 {
        items[0]
    } else {
        MatcherView::Or(items)
    }
}

/// The conjunction of the items; a single item stands for itself.
pub open spec fn all_of(items: Seq<MatcherView>) -> MatcherView {
    if items.len() == 1 {
        items[0]
    } else {
        MatcherView::And(items)
    }
}

/// The disjunction of the items that were read.
pub open spec fn any_read(items: Read<Seq<MatcherView>>) -> Read<MatcherView> {
    match items {
        Ok((items, e)) => Ok((any_of(items), e)),
        Err(e) => Err(e),
    }
}

/// The conjunction of the items that were read.
pub open spec fn all_read(items: Read<Seq<MatcherView>>) -> Read<MatcherView> {
    match items {
        Ok((items, e)) => Ok((all_of(items), e)),
        Err(e) => Err(e),
    }
}

/// `negation ("or" negation)*`: a disjunction.
#[verifier::opaque]
pub open spec fn disjunction(s: Seq<u8>, p: int) -> Read<MatcherView> {
    match negation(s, p) {
        Err(e) => Err(e),
        Ok((first, q)) => any_read(joined(seq![first], or_rest(s, q))),
    }
}

/// The further alternatives end at or after their start, inside the text.
pub proof fn lemma_or_rest(s: Seq<u8>, p: int)
    requires
        0 <= p <= s.len(),
    ensures
        or_rest(s, p) matches Ok((_, e)) ==> p <= e <= s.len(),
    decreases s.len() - p,
{
    lemma_spaced_tag(s, p, "or".spec_bytes());
    match spaced_tag(s, p, "or".spec_bytes()) {
        Some(a) => {
            lemma_gap(s, a);
            match gap(s, a) {
                Some(g) => {
                    lemma_negation(s, g);
                    match negation(s, g) {
                        Ok((_, q)) => lemma_or_rest(s, q),
                        Err(_) => {},
                    }
                },
                None => {},
            }
        },
        None => {},
    }
}

/// A disjunction ends after its start, inside the text.
pub proof fn lemma_disjunction(s: Seq<u8>, p: int)
    ensures
        disjunction(s, p) matches Ok((_, q)) ==> 0 <= p < q <= s.len(),
{
    reveal(disjunction);
    lemma_negation(s, p);
    match negation(s, p) {
        Ok((_, q)) => lemma_or_rest(s, q),
        Err(_) => {},
    }
}

/// `("and" disjunction)*`: the further parts of a conjunction.
pub open spec fn and_rest(s: Seq<u8>, p: int) -> Read<Seq<MatcherView>>
    decreases s.len() - p,
{
    match spaced_tag(s, p, "and".spec_bytes()) {
        None => Ok((Seq::empty(), p)),
        Some(a) => match spaced(s, a, Production::Value, Expected::Word) {
            Err(e) => Err(e),
            Ok(g) => match disjunction(s, g) {
                Err(e) => Err(e),
                Ok((item, q)) => {
                    proof {
                        lemma_spaced_tag(s, p, "and".spec_bytes());
                        lemma_gap(s, a);
                        lemma_disjunction(s, g);
                    }
                    joined(seq![item], and_rest(s, q))
                },
            },
        },
    }
}

/// `disjunction ("and" disjunction)*`: a matcher. `and` binds weaker than
/// `or`, `or` weaker than `not`, and there are no parentheses.
#[verifier::opaque]
pub open spec fn matcher(s: Seq<u8>, p: int) -> Read<MatcherView> {
    match disjunction(s, p) {
        Err(e) => Err(e),
        Ok((first, q)) => all_read(joined(seq![first], and_rest(s, q))),
    }
}

/// The further parts end at or after their start, inside the text.
pub proof fn lemma_and_rest(s: Seq<u8>, p: int)
    requires
        0 <= p <= s.len(),
    ensures
        and_rest(s, p) matches Ok((_, e)) ==> p <= e <= s.len(),
    decreases s.len() - p,
{
    lemma_spaced_tag(s, p, "and".spec_bytes());
    match spaced_tag(s, p, "and".spec_bytes()) {
        Some(a) => {
            lemma_gap(s, a);
            match gap(s, a) {
                Some(g) => {
                    lemma_disjunction(s, g);
                    match disjunction(s, g) {
                        Ok((_, q)) => lemma_and_rest(s, q),
                        Err(_) => {},
                    }
                },
                None => {},
            }
        },
        None => {},
    }
}

/// A matcher ends after its start, inside the text.
pub proof fn lemma_matcher(s: Seq<u8>, p: int)
    ensures
        matcher(s, p) matches Ok((_, q)) ==> 0 <= p < q <= s.len(),
{
    reveal(matcher);
    lemma_disjunction(s, p);
    match disjunction(s, p) {
        Ok((_, q)) => lemma_and_rest(s, q),
        Err(_) => {},
    }
}

/// `word ("called a" | "called an") type_instantiation`: a parameter, with
/// the position of its name.
#[verifier::opaque]
pub open spec fn argument(s: Seq<u8>, p: int) -> Read<(BindingView, int)> {
    match word(s, p) {
        None => Err(fault(Production::Arguments, Expected::Word, p)),
        Some((name, q)) => match spaced_tag2(
            s,
            q,
            "called a".spec_bytes(),
            "called an".spec_bytes(),
        ) {
            None => Err(fault(Production::Arguments, Expected::CalledA, skip_spaces(s, q))),
            Some(a) => match gap(s, a) {
                None => Err(fault(Production::TypeInstantiation, Expected::Word, a)),
                Some(g) => match type_instantiation(s, g) {
                    Err(e) => Err(e),
                    Ok((ty, e)) => Ok(((BindingView { name, ty }, p), e)),
                },
            },
        },
    }
}

/// A parameter ends after its start, inside the text.
pub proof fn lemma_argument(s: Seq<u8>, p: int)
    ensures
        argument(s, p) matches Ok((_, q)) ==> 0 <= p < q <= s.len(),
{
    reveal(argument);
    lemma_word(s, p);
    match word(s, p) {
        Some((_, q)) => {
            lemma_spaced_tag2(s, q, "called a".spec_bytes(), "called an".spec_bytes());
            match spaced_tag2(s, q, "called a".spec_bytes(), "called an".spec_bytes()) {
                Some(a) => {
                    lemma_gap(s, a);
                    match gap(s, a) {
                        Some(g) => lemma_type_instantiation(s, g),
                        None => {},
                    }
                },
                None => {},
            }
        },
        None => {},
    }
}

/// `("then" argument)*`: the further parameters of a provision.
pub open spec fn argument_rest(s: Seq<u8>, p: int) -> Read<Seq<(BindingView, int)>>
    decreases s.len() - p,
{
    match spaced_tag(s, p, "then".spec_bytes()) {
        None => Ok((Seq::empty(), p)),
        Some(a) => match spaced(s, a, Production::Arguments, Expected::Word) {
            Err(e) => Err(e),
            Ok(g) => match argument(s, g) {
                Err(e) => Err(e),
                Ok((item, q)) => {
                    proof {
                        lemma_spaced_tag(s, p, "then".spec_bytes());
                        lemma_gap(s, a);
                        lemma_argument(s, g);
                    }
                    joined(seq![item], argument_rest(s, q))
                },
            },
        },
    }
}

/// The further parameters end at or after their start, inside the text.
pub proof fn lemma_argument_rest(s: Seq<u8>, p: int)
    requires
        0 <= p <= s.len(),
    ensures
        argument_rest(s, p) matches Ok((_, e)) ==> p <= e <= s.len(),
    decreases s.len() - p,
{
    lemma_spaced_tag(s, p, "then".spec_bytes());
    match spaced_tag(s, p, "then".spec_bytes()) {
        Some(a) => {
            lemma_gap(s, a);
            match gap(s, a) {
                Some(g) => {
                    lemma_argument(s, g);
                    match argument(s, g) {
                        Ok((_, q)) => lemma_argument_rest(s, q),
                        Err(_) => {},
                    }
                },
                None => {},
            }
        },
        None => {},
    }
}

/// `("Given a" | "Given an") argument ("then" argument)*`: the parameters of
/// a provision, each with the position of its name.
#[verifier::opaque]
pub open spec fn arguments(s: Seq<u8>, p: int) -> Read<Seq<(BindingView, int)>> {
    match tag2_at(s, p, "Given a".spec_bytes(), "Given an".spec_bytes()) {
        None => Err(fault(Production::Arguments, Expected::Given, p)),
        Some(a) => match gap(s, a) {
            None => Err(fault(Production::Arguments, Expected::Word, a)),
            Some(g) => match argument(s, g) {
                Err(e) => Err(e),
                Ok((first, q)) => joined(seq![first], argument_rest(s, q)),
            },
        },
    }
}

/// `("resolve a" | "resolve an") word ("to get a" | "to get an")
/// type_instantiation`: the name and the return type of a provision.
#[verifier::opaque]
pub open spec fn header(s: Seq<u8>, p: int) -> Read<(Seq<char>, TypeView)> {
    match tag2_at(s, p, "resolve a".spec_bytes(), "resolve an".spec_bytes()) {
        None => Err(fault(Production::Header, Expected::Resolve, p)),
        Some(a) => match spaced_word(s, a) {
            None => Err(fault(Production::Header, Expected::Word, skip_spaces(s, a))),
            Some((name, q)) => match spaced_tag2(
                s,
                q,
                "to get a".spec_bytes(),
                "to get an".spec_bytes(),
            ) {
                None => Err(fault(Production::Header, Expected::ToGet, skip_spaces(s, q))),
                Some(b) => match gap(s, b) {
                    None => Err(fault(Production::TypeInstantiation, Expected::Word, b)),
                    Some(g) => match type_instantiation(s, g) {
                        Err(e) => Err(e),
                        Ok((ty, e)) => Ok(((name, ty), e)),
                    },
                },
            },
        },
    }
}

/// `tag` and whitespace after the text that ends at `p`: the position at
/// which a branch of a conditional starts.
pub open spec fn branch_at(s: Seq<u8>, p: int, tag: Seq<u8>, expected: Expected) -> Result<
    int,
    SyntaxErrorView,
> {
    match spaced_tag(s, p, tag) {
        None => Err(fault(Production::Body, expected, skip_spaces(s, p))),
        Some(b) => spaced(s, b, Production::Body, Expected::IfOrProviding),
    }
}

/// A branch starts after the text before it, inside the text.
pub proof fn lemma_branch_at(s: Seq<u8>, p: int, tag: Seq<u8>, expected: Expected)
    ensures
        branch_at(s, p, tag, expected) matches Ok(g) ==> 0 <= p < g <= s.len(),
{
    lemma_spaced_tag(s, p, tag);
    match spaced_tag(s, p, tag) {
        Some(b) => lemma_gap(s, b),
        None => {},
    }
}

/// The condition of a conditional, after its `if`, which ends at `p`.
#[verifier::opaque]
pub open spec fn condition(s: Seq<u8>, p: int) -> Read<MatcherView> {
    match spaced(s, p, Production::Value, Expected::Word) {
        Err(e) => Err(e),
        Ok(g) => matcher(s, g),
    }
}

/// A condition ends after its start, inside the text.
pub proof fn lemma_condition(s: Seq<u8>, p: int)
    ensures
        condition(s, p) matches Ok((_, q)) ==> 0 <= p < q <= s.len(),
{
    reveal(condition);
    lemma_gap(s, p);
    match gap(s, p) {
        Some(g) => lemma_matcher(s, g),
        None => {},
    }
}

/// The value of a terminal statement, after its `providing`, which ends at `p`.
#[verifier::opaque]
pub open spec fn provided(s: Seq<u8>, p: int) -> Read<BodyView> {
    match spaced(s, p, Production::Value, Expected::Word) {
        Err(e) => Err(e),
        Ok(g) => match value(s, g) {
            Err(e) => Err(e),
            Ok((result, e)) => Ok((BodyView::ProvideStmt(result), e)),
        },
    }
}

/// A provided value ends after its start, inside the text.
pub proof fn lemma_provided(s: Seq<u8>, p: int)
    ensures
        provided(s, p) matches Ok((_, q)) ==> 0 <= p < q <= s.len(),
{
    reveal(provided);
    lemma_gap(s, p);
    match gap(s, p) {
        Some(g) => lemma_value(s, g),
        None => {},
    }
}

/// `"if" matcher "then" body "else" body | "providing" value`: the body of a
/// provision. Every path through it ends in one `providing`.
pub open spec fn body(s: Seq<u8>, p: int) -> Read<BodyView>
    decreases s.len() - p,
{
    match tag_at(s, p, "if".spec_bytes()) {
        Some(a) => match condition(s, a) {
            Err(e) => Err(e),
            Ok((test, q)) => match branch_at(s, q, "then".spec_bytes(), Expected::Then) {
                Err(e) => Err(e),
                Ok(yes_at) => {
                    proof {
                        lemma_condition(s, a);
                        lemma_branch_at(s, q, "then".spec_bytes(), Expected::Then);
                    }
                    match body(s, yes_at) {
                        Err(e) => Err(e),
                        Ok((yes, r)) => match branch_at(
                            s,
                            r,
                            "else".spec_bytes(),
                            Expected::Else,
                        ) {
                            Err(e) => Err(e),
                            Ok(no_at) => {
                                proof {
                                    lemma_branch_at(s, r, "else".spec_bytes(), Expected::Else);
                                }
                                // The first branch ends after it starts, so the
                                // second starts later still.
                                if yes_at < r {
                                    match body(s, no_at) {
                                        Err(e) => Err(e),
                                        Ok((no, e)) => Ok(
                                            (
                                                BodyView::IfStmt(
                                                    test,
                                                    Box::new(yes),
                                                    Box::new(no),
                                                ),
                                                e,
                                            ),
                                        ),
                                    }
                                } else {
                                    Err(fault(Production::Body, Expected::IfOrProviding, no_at))
                                }
                            },
                        },
                    }
                },
            },
        },
        None => match tag_at(s, p, "providing".spec_bytes()) {
            Some(a) => provided(s, a),
            None => Err(fault(Production::Body, Expected::IfOrProviding, p)),
        },
    }
}

/// A body ends after its start, inside the text.
pub proof fn lemma_body(s: Seq<u8>, p: int)
    ensures
        body(s, p) matches Ok((_, q)) ==> 0 <= p < q <= s.len(),
    decreases s.len() - p,
{
    match tag_at(s, p, "if".spec_bytes()) {
        Some(a) => {
            lemma_condition(s, a);
            match condition(s, a) {
                Ok((_, q)) => {
                    lemma_branch_at(s, q, "then".spec_bytes(), Expected::Then);
                    match branch_at(s, q, "then".spec_bytes(), Expected::Then) {
                        Ok(yes_at) => {
                            lemma_body(s, yes_at);
                            match body(s, yes_at) {
                                Ok((_, r)) => {
                                    lemma_branch_at(s, r, "else".spec_bytes(), Expected::Else);
                                    match branch_at(s, r, "else".spec_bytes(), Expected::Else) {
                                        Ok(no_at) => lemma_body(s, no_at),
                                        Err(_) => {},
                                    }
                                },
                                Err(_) => {},
                            }
                        },
                        Err(_) => {},
                    }
                },
                Err(_) => {},
            }
        },
        None => match tag_at(s, p, "providing".spec_bytes()) {
            Some(a) => lemma_provided(s, a),
            None => {},
        },
    }
}

/// The parameters end after their start, inside the text.
pub proof fn lemma_arguments(s: Seq<u8>, p: int)
    ensures
        arguments(s, p) matches Ok((_, q)) ==> 0 <= p < q <= s.len(),
{
    reveal(arguments);
    lemma_tag2_at(s, p, "Given a".spec_bytes(), "Given an".spec_bytes());
    match tag2_at(s, p, "Given a".spec_bytes(), "Given an".spec_bytes()) {
        Some(a) => {
            lemma_gap(s, a);
            match gap(s, a) {
                Some(g) => {
                    lemma_argument(s, g);
                    match argument(s, g) {
                        Ok((_, q)) => lemma_argument_rest(s, q),
                        Err(_) => {},
                    }
                },
                None => {},
            }
        },
        None => {},
    }
}

/// A header ends after its start, inside the text.
pub proof fn lemma_header(s: Seq<u8>, p: int)
    ensures
        header(s, p) matches Ok((_, q)) ==> 0 <= p < q <= s.len(),
{
    reveal(header);
    lemma_tag2_at(s, p, "resolve a".spec_bytes(), "resolve an".spec_bytes());
    match tag2_at(s, p, "resolve a".spec_bytes(), "resolve an".spec_bytes()) {
        Some(a) => {
            lemma_spaced_word(s, a);
            match spaced_word(s, a) {
                Some((_, q)) => {
                    lemma_spaced_tag2(s, q, "to get a".spec_bytes(), "to get an".spec_bytes());
                    match spaced_tag2(s, q, "to get a".spec_bytes(), "to get an".spec_bytes()) {
                        Some(b) => {
                            lemma_gap(s, b);
                            match gap(s, b) {
                                Some(g) => lemma_type_instantiation(s, g),
                                None => {},
                            }
                        },
                        None => {},
                    }
                },
                None => {},
            }
        },
        None => {},
    }
}

/// The body of a provision, after the header, which ends at `p`: `by` and
/// the statements.
#[verifier::opaque]
pub open spec fn by_body(s: Seq<u8>, p: int) -> Read<BodyView> {
    match spaced_tag(s, p, "by".spec_bytes()) {
        None => Err(fault(Production::Provision, Expected::By, skip_spaces(s, p))),
        Some(b) => match spaced(s, b, Production::Body, Expected::IfOrProviding) {
            Err(e) => Err(e),
            Ok(g) => body(s, g),
        },
    }
}

/// `by` and the statements end after their start, inside the text.
pub proof fn lemma_by_body(s: Seq<u8>, p: int)
    ensures
        by_body(s, p) matches Ok((_, q)) ==> 0 <= p < q <= s.len(),
{
    reveal(by_body);
    lemma_spaced_tag(s, p, "by".spec_bytes());
    match spaced_tag(s, p, "by".spec_bytes()) {
        Some(b) => {
            lemma_gap(s, b);
            match gap(s, b) {
                Some(g) => lemma_body(s, g),
                None => {},
            }
        },
        None => {},
    }
}

/// A provision: its parameters, its name and return type, `by`, and its
/// body. The names of the parameters must differ; the failure for a repeated
/// name is reported at the second use of the name.
#[verifier::opaque]
pub open spec fn provision(s: Seq<u8>, p: int) -> Result<(ProvisionView, int), ParseErrorView> {
    match arguments(s, p) {
        Err(e) => Err(ParseErrorView::Syntax(e)),
        Ok((args, q)) => match spaced(s, q, Production::Header, Expected::Resolve) {
            Err(e) => Err(ParseErrorView::Syntax(e)),
            Ok(g) => match header(s, g) {
                Err(e) => Err(ParseErrorView::Syntax(e)),
                Ok(((name, ty), r)) => match by_body(s, r) {
                    Err(e) => Err(ParseErrorView::Syntax(e)),
                    Ok((stmt, e)) => match first_repeat(names_of(unplaced(args))) {
                        Some(j) => Err(
                            in_context(
                                duplicate(
                                    SemanticKind::DuplicateParameter,
                                    Production::Arguments,
                                    args[j].0.name,
                                    args[j].1,
                                ),
                                name,
                            ),
                        ),
                        None => Ok(
                            (
                                ProvisionView {
                                    name,
                                    args: unplaced(args),
                                    body: stmt,
                                    returns: ty,
                                },
                                e,
                            ),
                        ),
                    },
                },
            },
        },
    }
}

/// A provision ends after its start, inside the text.
pub proof fn lemma_provision(s: Seq<u8>, p: int)
    ensures
        provision(s, p) matches Ok((_, q)) ==> 0 <= p < q <= s.len(),
{
    reveal(provision);
    lemma_arguments(s, p);
    match arguments(s, p) {
        Ok((_, q)) => {
            lemma_gap(s, q);
            match gap(s, q) {
                Some(g) => {
                    lemma_header(s, g);
                    match header(s, g) {
                        Ok((_, r)) => lemma_by_body(s, r),
                        Err(_) => {},
                    }
                },
                None => {},
            }
        },
        Err(_) => {},
    }
}

/// The further variants end at or after their start, inside the text.
pub proof fn lemma_variant_rest(s: Seq<u8>, p: int)
    requires
        0 <= p <= s.len(),
    ensures
        variant_rest(s, p) matches Ok((_, e)) ==> p <= e <= s.len(),
    decreases s.len() - p,
{
    lemma_spaced_tag2(s, p, "or a".spec_bytes(), "or an".spec_bytes());
    match spaced_tag2(s, p, "or a".spec_bytes(), "or an".spec_bytes()) {
        Some(a) => {
            lemma_spaced_word(s, a);
            match spaced_word(s, a) {
                Some((_, q)) => lemma_variant_rest(s, q),
                None => {},
            }
        },
        None => {},
    }
}

/// The further fields end at or after their start, inside the text.
pub proof fn lemma_field_rest(s: Seq<u8>, p: int)
    requires
        0 <= p <= s.len(),
    ensures
        field_rest(s, p) matches Ok((_, e)) ==> p <= e <= s.len(),
    decreases s.len() - p,
{
    lemma_spaced_tag2(s, p, "and a".spec_bytes(), "and an".spec_bytes());
    match spaced_tag2(s, p, "and a".spec_bytes(), "and an".spec_bytes()) {
        Some(a) => {
            lemma_gap(s, a);
            match gap(s, a) {
                Some(g) => {
                    lemma_field(s, g);
                    match field(s, g) {
                        Ok((_, q)) => lemma_field_rest(s, q),
                        Err(_) => {},
                    }
                },
                None => {},
            }
        },
        None => {},
    }
}

/// A type declaration ends after its start, inside the text.
pub proof fn lemma_type_decl(s: Seq<u8>, p: int)
    ensures
        type_decl(s, p) matches Ok((_, q)) ==> 0 <= p < q <= s.len(),
{
    reveal(type_decl);
    reveal(enum_decl);
    reveal(record_decl);
    lemma_type_instantiation(s, p);
    match type_instantiation(s, p) {
        Ok((_, q)) => {
            lemma_spaced_tag2(s, q, "is a".spec_bytes(), "is an".spec_bytes());
            lemma_spaced_tag2(s, q, "has a".spec_bytes(), "has an".spec_bytes());
            match spaced_tag2(s, q, "is a".spec_bytes(), "is an".spec_bytes()) {
                Some(a) => {
                    lemma_gap(s, a);
                    match gap(s, a) {
                        Some(g) => {
                            lemma_word(s, g);
                            match word(s, g) {
                                Some((_, e)) => lemma_variant_rest(s, e),
                                None => {},
                            }
                        },
                        None => {},
                    }
                },
                None => match spaced_tag2(s, q, "has a".spec_bytes(), "has an".spec_bytes()) {
                    Some(a) => {
                        lemma_gap(s, a);
                        match gap(s, a) {
                            Some(g) => {
                                lemma_field(s, g);
                                match field(s, g) {
                                    Ok((_, e)) => lemma_field_rest(s, e),
                                    Err(_) => {},
                                }
                            },
                            None => {},
                        }
                    },
                    None => {},
                },
            }
        },
        Err(_) => {},
    }
}

/// `provision | type_decl`: a declaration. A text that reads as a provision
/// or as a type declaration but breaks a rule on names fails with that
/// error. When neither can be read, the failure is that of the alternative
/// that got further.
#[verifier::opaque]
pub open spec fn declaration(s: Seq<u8>, p: int) -> Result<(DeclarationView, int), ParseErrorView> {
    match provision(s, p) {
        Ok((item, q)) => Ok((DeclarationView::ProvisionDecl(item), q)),
        Err(ParseErrorView::Semantic(e)) => Err(ParseErrorView::Semantic(e)),
        Err(ParseErrorView::Syntax(first)) => match type_decl(s, p) {
            Ok((item, q)) => Ok((DeclarationView::TypeDecl(item), q)),
            Err(ParseErrorView::Semantic(e)) => Err(ParseErrorView::Semantic(e)),
            Err(ParseErrorView::Syntax(second)) => Err(
                ParseErrorView::Syntax(further(first, second)),
            ),
        },
    }
}

/// A declaration ends after its start, inside the text.
pub proof fn lemma_declaration(s: Seq<u8>, p: int)
    ensures
        declaration(s, p) matches Ok((_, q)) ==> 0 <= p < q <= s.len(),
{
    reveal(declaration);
    lemma_provision(s, p);
    lemma_type_decl(s, p);
}

/// The declarations that follow the one that ends at `p`, each with the
/// position at which it starts. Declarations are separated by whitespace, and
/// nothing but whitespace may follow the last.
pub open spec fn declarations_after(s: Seq<u8>, p: int) -> Result<
    Seq<(DeclarationView, int)>,
    ParseErrorView,
>
    decreases s.len() - p,
{
    match gap(s, p) {
        None => if p == s.len() {
            Ok(Seq::empty())
        } else {
            Err(ParseErrorView::Syntax(fault(Production::Program, Expected::EndOfInput, p)))
        },
        Some(g) => if g == s.len() {
            Ok(Seq::empty())
        } else {
            match declaration(s, g) {
                Err(e) => Err(e),
                Ok((item, q)) => {
                    proof {
                        lemma_gap(s, p);
                        lemma_declaration(s, g);
                    }
                    prepend((item, g), declarations_after(s, q))
                },
            }
        },
    }
}

/// `first` before the items that were read after it, if they could be read.
pub open spec fn prepend<T>(first: T, rest: Result<Seq<T>, ParseErrorView>) -> Result<
    Seq<T>,
    ParseErrorView,
> {
    match rest {
        Ok(items) => Ok(seq![first] + items),
        Err(e) => Err(e),
    }
}

/// The declarations of a whole text, each with the position at which it
/// starts. Whitespace may stand before the first and after the last.
pub open spec fn program(s: Seq<u8>) -> Result<Seq<(DeclarationView, int)>, ParseErrorView> {
    let start = skip_spaces(s, 0);
    if start == s.len() {
        Ok(Seq::empty())
    } else {
        match declaration(s, start) {
            Err(e) => Err(e),
            Ok((item, q)) => prepend((item, start), declarations_after(s, q)),
        }
    }
}

/// The declarations of a list of placed declarations.
pub open spec fn listed(items: Seq<(DeclarationView, int)>) -> Seq<DeclarationView> {
    Seq::new(items.len(), |i: int| items[i].0)
}

/// The name that a declaration declares.
pub open spec fn declared_name(d: DeclarationView) -> Seq<char> {
    match d {
        DeclarationView::TypeDecl(t) => t.name,
        DeclarationView::ProvisionDecl(p) => p.name,
    }
}

/// The failure of the resolution pass, reported at the start of the
/// declaration that holds the offending name, with that declaration's name.
pub open spec fn located(
    e: crate::error::ResolveErrorView,
    items: Seq<(DeclarationView, int)>,
) -> ParseErrorView {
    ParseErrorView::Semantic(
        SemanticErrorView {
            kind: e.kind,
            production: crate::error::production_of(e.kind),
            offset: items[e.declaration].1,
            identifier: e.identifier,
            context: declared_name(items[e.declaration].0),
        },
    )
}

/// The rule book that a text stands for: its declarations, parsed and then
/// resolved as a whole.
pub open spec fn rule_book(s: Seq<u8>) -> Result<Seq<DeclarationView>, ParseErrorView> {
    match program(s) {
        Err(e) => Err(e),
        Ok(items) => match crate::resolution::resolve(listed(items)) {
            Ok(done) => Ok(done),
            Err(e) => Err(located(e, items)),
        },
    }
}

} // verus!
