//! Parsers for provisions: parameters, header and body.

use crate::ast::{Binding, bindings, BindingView, Provision, ProvisionBodyStmt, Type, TypeView};
use crate::error::{
    agrees, Expected, ParseError, Production, SemanticKind, SyntaxError, SyntaxErrorView,
};
use crate::grammar::{
    argument, argument_rest, arguments, body, branch_at, by_body, condition, distinct, header,
    joined, lemma_joined, names_of, provided, provision, unplaced,
};
use crate::lexer::{
    identifier, keyword, keyword2, next_identifier, next_keyword, next_keyword2, whitespace,
};
use crate::types::{
    first_duplicate, missing, parse_type_instantiation, placed, repeated, separated, with_context,
};
use crate::values::{parse_matcher, parse_value};
use crate::wellformed::lemma_distinct;
use vstd::prelude::*;
use vstd::string::StringSliceAdditionalSpecFns;

verus! {

/// Reads a parameter at `pos`:
/// `word ("called a" | "called an") type_instantiation`. Returns the
/// parameter and the position after it; its name stands at `pos`.
pub fn parse_argument(text: &str, pos: usize) -> (r: Result<(Binding, usize), SyntaxError>)
    ensures
        r matches Ok((b, q)) ==> argument(text.spec_bytes(), pos as int) == Ok::<
            ((BindingView, int), int),
            SyntaxErrorView,
        >(((b@, pos as int), q as int)) && pos < q <= text.spec_bytes().len(),
        r matches Err(e) ==> argument(text.spec_bytes(), pos as int) == Err::<
            ((BindingView, int), int),
            SyntaxErrorView,
        >(e@),
{
    proof {
        reveal(argument);
    }
    let (name, q) = match identifier(text, pos) {
        Some(found) => found,
        None => {
            return Err(SyntaxError::new(Production::Arguments, Expected::Word, pos));
        },
    };
    let after = match next_keyword2(text, q, "called a", "called an") {
        Some(a) => a,
        None => {
            return Err(missing(text, q, Production::Arguments, Expected::CalledA));
        },
    };
    let g = match separated(text, after, Production::TypeInstantiation, Expected::Word) {
        Ok(g) => g,
        Err(e) => { return Err(e); },
    };
    match parse_type_instantiation(text, g) {
        Ok((ty, end)) => Ok((Binding { name, ty }, end)),
        Err(e) => Err(e),
    }
}

/// Reads the parameters of a provision at `pos`:
/// `("Given a" | "Given an") argument ("then" argument)*`. Returns the
/// parameters, the positions of their names and the position after them.
pub fn parse_arguments(text: &str, pos: usize) -> (r: Result<
    (Vec<Binding>, Vec<usize>, usize),
    SyntaxError,
>)
    ensures
        r matches Ok((args, at, q)) ==> args@.len() == at@.len() && arguments(
            text.spec_bytes(),
            pos as int,
        ) == Ok::<(Seq<(BindingView, int)>, int), SyntaxErrorView>(
            (placed(args@, at@), q as int),
        ) && pos < q <= text.spec_bytes().len(),
        r matches Err(e) ==> arguments(text.spec_bytes(), pos as int) == Err::<
            (Seq<(BindingView, int)>, int),
            SyntaxErrorView,
        >(e@),
{
    proof {
        reveal(arguments);
    }
    let ghost s = text.spec_bytes();
    let after = match keyword2(text, pos, "Given a", "Given an") {
        Some(a) => a,
        None => {
            return Err(SyntaxError::new(Production::Arguments, Expected::Given, pos));
        },
    };
    let first_at = match separated(text, after, Production::Arguments, Expected::Word) {
        Ok(g) => g,
        Err(e) => { return Err(e); },
    };
    let (first, start) = match parse_argument(text, first_at) {
        Ok(found) => found,
        Err(e) => { return Err(e); },
    };
    let mut args: Vec<Binding> = Vec::new();
    let mut at: Vec<usize> = Vec::new();
    let ghost head = seq![(first@, first_at as int)];
    args.push(first);
    at.push(first_at);
    let mut end = start;
    proof {
        assert(placed(args@, at@) =~= head);
    }
    loop
        invariant
            s == text.spec_bytes(),
            pos < end <= s.len(),
            args@.len() == at@.len(),
            arguments(s, pos as int) == joined(head, argument_rest(s, start as int)),
            joined(head, argument_rest(s, start as int)) == joined(
                placed(args@, at@),
                argument_rest(s, end as int),
            ),
        ensures
            pos < end <= s.len(),
            args@.len() == at@.len(),
            arguments(s, pos as int) == joined(head, argument_rest(s, start as int)),
            joined(head, argument_rest(s, start as int)) == Ok::<
                (Seq<(BindingView, int)>, int),
                SyntaxErrorView,
            >((placed(args@, at@), end as int)),
        decreases s.len() - end,
    {
        let after = match next_keyword(text, end, "then") {
            Some(a) => a,
            None => {
                proof {
                    lemma_joined(
                        placed(args@, at@),
                        Seq::empty(),
                        argument_rest(s, end as int),
                        end as int,
                    );
                }
                break ;
            },
        };
        let g = match separated(text, after, Production::Arguments, Expected::Word) {
            Ok(g) => g,
            Err(e) => { return Err(e); },
        };
        let (item, q) = match parse_argument(text, g) {
            Ok(found) => found,
            Err(e) => { return Err(e); },
        };
        proof {
            let placed_item = (item@, g as int);
            lemma_joined(placed(args@, at@), seq![placed_item], argument_rest(s, q as int), 0);
            assert(placed(args@.push(item), at@.push(g)) =~= placed(args@, at@) + seq![
                placed_item,
            ]);
        }
        args.push(item);
        at.push(g);
        end = q;
    }
    Ok((args, at, end))
}

/// Reads the name and the return type of a provision at `pos`:
/// `("resolve a" | "resolve an") word ("to get a" | "to get an")
/// type_instantiation`.
pub fn parse_header(text: &str, pos: usize) -> (r: Result<(String, Type, usize), SyntaxError>)
    ensures
        r matches Ok((name, ty, q)) ==> header(text.spec_bytes(), pos as int) == Ok::<
            ((Seq<char>, TypeView), int),
            SyntaxErrorView,
        >(((name@, ty@), q as int)) && pos < q <= text.spec_bytes().len(),
        r matches Err(e) ==> header(text.spec_bytes(), pos as int) == Err::<
            ((Seq<char>, TypeView), int),
            SyntaxErrorView,
        >(e@),
{
    proof {
        reveal(header);
    }
    let after = match keyword2(text, pos, "resolve a", "resolve an") {
        Some(a) => a,
        None => {
            return Err(SyntaxError::new(Production::Header, Expected::Resolve, pos));
        },
    };
    let (name, q) = match next_identifier(text, after) {
        Some(found) => found,
        None => {
            return Err(missing(text, after, Production::Header, Expected::Word));
        },
    };
    let b = match next_keyword2(text, q, "to get a", "to get an") {
        Some(b) => b,
        None => {
            return Err(missing(text, q, Production::Header, Expected::ToGet));
        },
    };
    let g = match separated(text, b, Production::TypeInstantiation, Expected::Word) {
        Ok(g) => g,
        Err(e) => { return Err(e); },
    };
    match parse_type_instantiation(text, g) {
        Ok((ty, end)) => Ok((name, ty, end)),
        Err(e) => Err(e),
    }
}

/// Reads `tag` and whitespace after the text that ends at `pos`, and returns
/// the position at which a branch of a conditional starts.
fn parse_branch_start(text: &str, pos: usize, tag: &str, expected: Expected) -> (r: Result<
    usize,
    SyntaxError,
>)
    ensures
        r matches Ok(g) ==> branch_at(text.spec_bytes(), pos as int, tag.spec_bytes(), expected)
            == Ok::<int, SyntaxErrorView>(g as int) && pos < g <= text.spec_bytes().len(),
        r matches Err(e) ==> branch_at(text.spec_bytes(), pos as int, tag.spec_bytes(), expected)
            == Err::<int, SyntaxErrorView>(e@),
{
    match next_keyword(text, pos, tag) {
        Some(b) => separated(text, b, Production::Body, Expected::IfOrProviding),
        None => Err(missing(text, pos, Production::Body, expected)),
    }
}

/// Reads the body of a provision at `pos`:
/// `"if" matcher "then" body "else" body | "providing" value`.
pub fn parse_provision_body(text: &str, pos: usize) -> (r: Result<
    (ProvisionBodyStmt, usize),
    SyntaxError,
>)
    ensures
        agrees(r, body(text.spec_bytes(), pos as int)),
        r matches Ok((_, q)) ==> pos < q <= text.spec_bytes().len(),
    decreases text.spec_bytes().len() - pos,
{
    proof {
        reveal(condition);
        reveal(provided);
    }
    if let Some(a) = keyword(text, pos, "if") {
        let g = match separated(text, a, Production::Value, Expected::Word) {
            Ok(g) => g,
            Err(e) => { return Err(e); },
        };
        let (test, q) = match parse_matcher(text, g) {
            Ok(found) => found,
            Err(e) => { return Err(e); },
        };
        let yes_at = match parse_branch_start(text, q, "then", Expected::Then) {
            Ok(g) => g,
            Err(e) => { return Err(e); },
        };
        let (yes, r) = match parse_provision_body(text, yes_at) {
            Ok(found) => found,
            Err(e) => { return Err(e); },
        };
        let no_at = match parse_branch_start(text, r, "else", Expected::Else) {
            Ok(g) => g,
            Err(e) => { return Err(e); },
        };
        match parse_provision_body(text, no_at) {
            Ok((no, end)) => Ok(
                (ProvisionBodyStmt::IfStmt(test, Box::new(yes), Box::new(no)), end),
            ),
            Err(e) => Err(e),
        }
    } else if let Some(a) = keyword(text, pos, "providing") {
        let g = match separated(text, a, Production::Value, Expected::Word) {
            Ok(g) => g,
            Err(e) => { return Err(e); },
        };
        match parse_value(text, g) {
            Ok((result, end)) => Ok((ProvisionBodyStmt::ProvideStmt(result), end)),
            Err(e) => Err(e),
        }
    } else {
        Err(SyntaxError::new(Production::Body, Expected::IfOrProviding, pos))
    }
}

/// Reads a provision at `pos`: its parameters, its name and return type,
/// `by`, and its body.
///
/// Fails with `DuplicateParameter` when two parameters share a name, so the
/// parameters of a provision that comes back have distinct names.
pub fn parse_provision(text: &str, pos: usize) -> (r: Result<(Provision, usize), ParseError>)
    ensures
        agrees(r, provision(text.spec_bytes(), pos as int)),
        r matches Ok((p, q)) ==> pos < q <= text.spec_bytes().len() && distinct(names_of(p@.args)),
{
    proof {
        reveal(provision);
        reveal(by_body);
    }
    let (args, at, q) = match parse_arguments(text, pos) {
        Ok(found) => found,
        Err(e) => { return Err(ParseError::Syntax(e)); },
    };
    let g = match separated(text, q, Production::Header, Expected::Resolve) {
        Ok(g) => g,
        Err(e) => { return Err(ParseError::Syntax(e)); },
    };
    let (name, ty, r) = match parse_header(text, g) {
        Ok(found) => found,
        Err(e) => { return Err(ParseError::Syntax(e)); },
    };
    let b = match next_keyword(text, r, "by") {
        Some(b) => b,
        None => {
            return Err(
                ParseError::Syntax(missing(text, r, Production::Provision, Expected::By)),
            );
        },
    };
    let body_at = match separated(text, b, Production::Body, Expected::IfOrProviding) {
        Ok(g) => g,
        Err(e) => { return Err(ParseError::Syntax(e)); },
    };
    let (stmt, end) = match parse_provision_body(text, body_at) {
        Ok(found) => found,
        Err(e) => { return Err(ParseError::Syntax(e)); },
    };
    proof {
        assert(unplaced(placed(args@, at@)) =~= bindings(args@));
    }
    match first_duplicate(&args) {
        Some(j) => {
            let e = repeated(
                SemanticKind::DuplicateParameter,
                Production::Arguments,
                &args[j].name,
                at[j],
            );
            Err(with_context(e, &name))
        },
        None => {
            proof {
                lemma_distinct(names_of(bindings(args@)), 0);
            }
            Ok((Provision { name, args, body: stmt, returns: ty }, end))
        },
    }
}

} // verus!
