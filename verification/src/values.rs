//! Parsers for value expressions and matchers.

use crate::ast::{
    Comparator, lemma_matcher_views, lemma_reference_view, Matcher, matchers, MatcherView, Value,
    values, ValueView,
};
use crate::error::{agrees, Expected, Production, SyntaxError, SyntaxErrorView};
use crate::grammar::{
    all_of, all_read, and_rest, any_of, any_read, chain_rest, comparator, comparison, disjunction,
    joined, lemma_joined, literal, matcher, negation, or_rest, reference_of, value,
};
use crate::laws::{is_layered, lemma_matcher_layered};
use crate::lexer::{identifier, keyword, next_keyword, next_keyword2, whitespace};
use crate::types::{missing, separated};
use vstd::prelude::*;
use vstd::string::StringSliceAdditionalSpecFns;

verus! {

/// Reads a single word at `pos` as a value.
pub fn parse_literal(text: &str, pos: usize) -> (r: Result<(Value, usize), SyntaxError>)
    ensures
        agrees(r, literal(text.spec_bytes(), pos as int)),
        r matches Ok((_, q)) ==> pos < q <= text.spec_bytes().len(),
{
    match identifier(text, pos) {
        Some((word, q)) => Ok((Value::Literal(word, None), q)),
        None => Err(SyntaxError::new(Production::Value, Expected::Word, pos)),
    }
}

/// Reads a value at `pos`:
/// `"the" value (("then" | "of") value)* | word`.
///
/// Where `the` is followed by a value, it introduces a reference; anywhere
/// else it is a word like any other. The value carries no type yet.
pub fn parse_value(text: &str, pos: usize) -> (r: Result<(Value, usize), SyntaxError>)
    ensures
        agrees(r, value(text.spec_bytes(), pos as int)),
        r matches Ok((_, q)) ==> pos < q <= text.spec_bytes().len(),
    decreases text.spec_bytes().len() - pos,
{
    let ghost s = text.spec_bytes();
    let after_the = match keyword(text, pos, "the") {
        Some(a) => a,
        None => { return parse_literal(text, pos); },
    };
    let g = match whitespace(text, after_the) {
        Some(g) => g,
        None => { return parse_literal(text, pos); },
    };
    proof {
        crate::lexer::lemma_gap(s, after_the as int);
    }
    let (first, start) = match parse_value(text, g) {
        Ok(found) => found,
        Err(_) => { return parse_literal(text, pos); },
    };
    let mut chain: Vec<Value> = Vec::new();
    let ghost head = seq![first@];
    chain.push(first);
    let mut end = start;
    proof {
        assert(values(chain@) =~= head);
    }
    loop
        invariant
            s == text.spec_bytes(),
            pos < end <= s.len(),
            value(s, pos as int) == reference_of(joined(head, chain_rest(s, start as int))),
            joined(head, chain_rest(s, start as int)) == joined(
                values(chain@),
                chain_rest(s, end as int),
            ),
        ensures
            pos < end <= s.len(),
            value(s, pos as int) == reference_of(joined(head, chain_rest(s, start as int))),
            joined(head, chain_rest(s, start as int)) == Ok::<
                (Seq<ValueView>, int),
                SyntaxErrorView,
            >((values(chain@), end as int)),
        decreases s.len() - end,
    {
        let after = match next_keyword2(text, end, "then", "of") {
            Some(a) => a,
            None => {
                proof {
                    lemma_joined(values(chain@), Seq::empty(), chain_rest(s, end as int), end as int);
                }
                break ;
            },
        };
        let g = match separated(text, after, Production::Value, Expected::Word) {
            Ok(g) => g,
            Err(e) => { return Err(e); },
        };
        let (item, q) = match parse_value(text, g) {
            Ok(found) => found,
            Err(e) => { return Err(e); },
        };
        proof {
            lemma_joined(values(chain@), seq![item@], chain_rest(s, q as int), 0);
            assert(values(chain@.push(item)) =~= values(chain@) + seq![item@]);
        }
        chain.push(item);
        end = q;
    }
    proof {
        lemma_reference_view(chain, None);
    }
    Ok((Value::Reference(chain, None), end))
}

/// Reads a comparator after the whitespace at `pos`, the longer tags first.
pub fn parse_comparator(text: &str, pos: usize) -> (r: Option<(Comparator, usize)>)
    ensures
        r matches Some((how, q)) ==> comparator(text.spec_bytes(), pos as int) == Some(
            (how, q as int),
        ) && pos < q <= text.spec_bytes().len(),
        r is None ==> comparator(text.spec_bytes(), pos as int) is None,
{
    if let Some(q) = next_keyword(text, pos, "is at least") {
        Some((Comparator::GTE, q))
    } else if let Some(q) = next_keyword(text, pos, "is bigger than") {
        Some((Comparator::GT, q))
    } else if let Some(q) = next_keyword(text, pos, "is at most") {
        Some((Comparator::LTE, q))
    } else if let Some(q) = next_keyword(text, pos, "is smaller than") {
        Some((Comparator::LT, q))
    } else if let Some(q) = next_keyword(text, pos, "is not") {
        Some((Comparator::NEQ, q))
    } else if let Some(q) = next_keyword(text, pos, "is") {
        Some((Comparator::EQ, q))
    } else {
        None
    }
}

/// Reads a comparison at `pos`: `value comparator value`.
pub fn parse_comparison(text: &str, pos: usize) -> (r: Result<(Matcher, usize), SyntaxError>)
    ensures
        agrees(r, comparison(text.spec_bytes(), pos as int)),
        r matches Ok((_, q)) ==> pos < q <= text.spec_bytes().len(),
{
    proof {
        reveal(comparison);
    }
    let (lhs, q) = match parse_value(text, pos) {
        Ok(found) => found,
        Err(e) => { return Err(e); },
    };
    let (how, a) = match parse_comparator(text, q) {
        Some(found) => found,
        None => {
            return Err(missing(text, q, Production::Matcher, Expected::Comparator));
        },
    };
    let g = match separated(text, a, Production::Value, Expected::Word) {
        Ok(g) => g,
        Err(e) => { return Err(e); },
    };
    match parse_value(text, g) {
        Ok((rhs, end)) => Ok((Matcher::Comparison(lhs, rhs, how), end)),
        Err(e) => Err(e),
    }
}

/// Reads a comparison at `pos`, negated if `not` stands before it. When
/// neither form can be read, the failure is that of the form that got
/// further.
pub fn parse_negation(text: &str, pos: usize) -> (r: Result<(Matcher, usize), SyntaxError>)
    ensures
        agrees(r, negation(text.spec_bytes(), pos as int)),
        r matches Ok((_, q)) ==> pos < q <= text.spec_bytes().len(),
{
    proof {
        reveal(negation);
    }
    match keyword(text, pos, "not") {
        Some(a) => {
            let negated = match separated(text, a, Production::Value, Expected::Word) {
                Ok(g) => parse_comparison(text, g),
                Err(e) => Err(e),
            };
            match negated {
                Ok((inner, end)) => Ok((Matcher::Not(Box::new(inner)), end)),
                Err(first) => match parse_comparison(text, pos) {
                    Ok(plain) => Ok(plain),
                    Err(second) => Err(first.or_further(second)),
                },
            }
        },
        None => parse_comparison(text, pos),
    }
}

/// The disjunction of the items; a single item stands for itself.
pub fn any(items: Vec<Matcher>) -> (m: Matcher)
    ensures
        m@ == any_of(matchers(items@)),
{
    let mut items = items;
    if items.len() == 1 {
        match items.pop() {
            Some(only) => only,
            None => Matcher::Or(items),
        }
    } else {
        proof {
            lemma_matcher_views(items);
        }
        Matcher::Or(items)
    }
}

/// The conjunction of the items; a single item stands for itself.
pub fn all(items: Vec<Matcher>) -> (m: Matcher)
    ensures
        m@ == all_of(matchers(items@)),
{
    let mut items = items;
    if items.len() == 1 {
        match items.pop() {
            Some(only) => only,
            None => Matcher::And(items),
        }
    } else {
        proof {
            lemma_matcher_views(items);
        }
        Matcher::And(items)
    }
}

/// Reads a disjunction at `pos`: `negation ("or" negation)*`.
pub fn parse_disjunction(text: &str, pos: usize) -> (r: Result<(Matcher, usize), SyntaxError>)
    ensures
        agrees(r, disjunction(text.spec_bytes(), pos as int)),
        r matches Ok((_, q)) ==> pos < q <= text.spec_bytes().len(),
{
    proof {
        reveal(disjunction);
    }
    let ghost s = text.spec_bytes();
    let (first, start) = match parse_negation(text, pos) {
        Ok(found) => found,
        Err(e) => { return Err(e); },
    };
    let mut items: Vec<Matcher> = Vec::new();
    let ghost head = seq![first@];
    items.push(first);
    let mut end = start;
    proof {
        assert(matchers(items@) =~= head);
    }
    loop
        invariant
            s == text.spec_bytes(),
            pos < end <= s.len(),
            disjunction(s, pos as int) == any_read(joined(head, or_rest(s, start as int))),
            joined(head, or_rest(s, start as int)) == joined(
                matchers(items@),
                or_rest(s, end as int),
            ),
        ensures
            pos < end <= s.len(),
            disjunction(s, pos as int) == any_read(joined(head, or_rest(s, start as int))),
            joined(head, or_rest(s, start as int)) == Ok::<
                (Seq<MatcherView>, int),
                SyntaxErrorView,
            >((matchers(items@), end as int)),
        decreases s.len() - end,
    {
        let after = match next_keyword(text, end, "or") {
            Some(a) => a,
            None => {
                proof {
                    lemma_joined(matchers(items@), Seq::empty(), or_rest(s, end as int), end as int);
                }
                break ;
            },
        };
        let g = match separated(text, after, Production::Value, Expected::Word) {
            Ok(g) => g,
            Err(e) => { return Err(e); },
        };
        let (item, q) = match parse_negation(text, g) {
            Ok(found) => found,
            Err(e) => { return Err(e); },
        };
        proof {
            lemma_joined(matchers(items@), seq![item@], or_rest(s, q as int), 0);
            assert(matchers(items@.push(item)) =~= matchers(items@) + seq![item@]);
        }
        items.push(item);
        end = q;
    }
    Ok((any(items), end))
}

/// Reads a matcher at `pos`: `disjunction ("and" disjunction)*`.
///
/// `and` binds weaker than `or`, and `or` weaker than `not`. A conjunction or
/// disjunction of a single item is that item, so the matcher that comes back
/// has at most three layers.
pub fn parse_matcher(text: &str, pos: usize) -> (r: Result<(Matcher, usize), SyntaxError>)
    ensures
        agrees(r, matcher(text.spec_bytes(), pos as int)),
        r matches Ok((m, q)) ==> pos < q <= text.spec_bytes().len() && is_layered(m@),
{
    proof {
        lemma_matcher_layered(text.spec_bytes(), pos as int);
    }
    parse_conjunction(text, pos)
}

/// Reads a conjunction at `pos`: `disjunction ("and" disjunction)*`.
fn parse_conjunction(text: &str, pos: usize) -> (r: Result<(Matcher, usize), SyntaxError>)
    ensures
        agrees(r, matcher(text.spec_bytes(), pos as int)),
        r matches Ok((_, q)) ==> pos < q <= text.spec_bytes().len(),
{
    proof {
        reveal(matcher);
    }
    let ghost s = text.spec_bytes();
    let (first, start) = match parse_disjunction(text, pos) {
        Ok(found) => found,
        Err(e) => { return Err(e); },
    };
    let mut items: Vec<Matcher> = Vec::new();
    let ghost head = seq![first@];
    items.push(first);
    let mut end = start;
    proof {
        assert(matchers(items@) =~= head);
    }
    loop
        invariant
            s == text.spec_bytes(),
            pos < end <= s.len(),
            matcher(s, pos as int) == all_read(joined(head, and_rest(s, start as int))),
            joined(head, and_rest(s, start as int)) == joined(
                matchers(items@),
                and_rest(s, end as int),
            ),
        ensures
            pos < end <= s.len(),
            matcher(s, pos as int) == all_read(joined(head, and_rest(s, start as int))),
            joined(head, and_rest(s, start as int)) == Ok::<
                (Seq<MatcherView>, int),
                SyntaxErrorView,
            >((matchers(items@), end as int)),
        decreases s.len() - end,
    {
        let after = match next_keyword(text, end, "and") {
            Some(a) => a,
            None => {
                proof {
                    lemma_joined(matchers(items@), Seq::empty(), and_rest(s, end as int), end as int);
                }
                break ;
            },
        };
        let g = match separated(text, after, Production::Value, Expected::Word) {
            Ok(g) => g,
            Err(e) => { return Err(e); },
        };
        let (item, q) = match parse_disjunction(text, g) {
            Ok(found) => found,
            Err(e) => { return Err(e); },
        };
        proof {
            lemma_joined(matchers(items@), seq![item@], and_rest(s, q as int), 0);
            assert(matchers(items@.push(item)) =~= matchers(items@) + seq![item@]);
        }
        items.push(item);
        end = q;
    }
    Ok((all(items), end))
}

} // verus!
