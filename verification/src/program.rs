//! The whole pipeline: from a text to a resolved rule book.

use crate::ast::{Declaration, declarations, DeclarationView, Program};
use crate::error::{
    agrees, Expected, offset_of, ParseError, ParseErrorView, Production, ResolveError,
    SemanticError, SyntaxError,
};
use crate::grammar::{declaration, declarations_after, listed, located, program, rule_book};
use crate::lexer::{past_spaces, whitespace};
use crate::offsets::lemma_error_in_text;
use crate::provisions::parse_provision;
use crate::resolve::resolve_program;
use crate::complete::{is_complete, lemma_rule_book_complete};
use crate::resolved::is_resolved;
use crate::types::parse_type_decl;
use crate::wellformed::{lemma_rule_book_well_formed, well_formed};
use vstd::prelude::*;
use vstd::string::StringSliceAdditionalSpecFns;

verus! {

/// Reads a declaration at `pos`: a provision, or else a type declaration.
///
/// A text that reads as one of the two but breaks a rule on names fails with
/// that error. When neither can be read, the failure is that of the
/// alternative that got further.
pub fn parse_declaration(text: &str, pos: usize) -> (r: Result<(Declaration, usize), ParseError>)
    ensures
        agrees(r, declaration(text.spec_bytes(), pos as int)),
        r matches Ok((_, q)) ==> pos < q <= text.spec_bytes().len(),
{
    proof {
        reveal(declaration);
    }
    match parse_provision(text, pos) {
        Ok((item, q)) => Ok((Declaration::ProvisionDecl(item), q)),
        Err(ParseError::Semantic(e)) => Err(ParseError::Semantic(e)),
        Err(ParseError::Syntax(first)) => match parse_type_decl(text, pos) {
            Ok((item, q)) => Ok((Declaration::TypeDecl(item), q)),
            Err(ParseError::Semantic(e)) => Err(ParseError::Semantic(e)),
            Err(ParseError::Syntax(second)) => Err(ParseError::Syntax(first.or_further(second))),
        },
    }
}

/// The declarations of a list, each with the position recorded for it.
pub open spec fn placed_declarations(items: Seq<Declaration>, at: Seq<usize>) -> Seq<
    (DeclarationView, int),
> {
    Seq::new(items.len(), |i: int| (items[i]@, at[i] as int))
}

/// The declarations found so far before those that follow, if they can be
/// read.
pub open spec fn followed_by<T>(found: Seq<T>, rest: Result<Seq<T>, ParseErrorView>) -> Result<
    Seq<T>,
    ParseErrorView,
> {
    match rest {
        Ok(items) => Ok(found + items),
        Err(e) => Err(e),
    }
}

/// Reads all the declarations of a text, without resolving them. Returns
/// them with the position at which each starts.
pub fn parse_declarations(text: &str) -> (r: Result<(Program, Vec<usize>), ParseError>)
    ensures
        r matches Ok((raw, at)) ==> raw.declarations@.len() == at@.len() && program(
            text.spec_bytes(),
        ) == Ok::<Seq<(DeclarationView, int)>, ParseErrorView>(
            placed_declarations(raw.declarations@, at@),
        ),
        r matches Err(e) ==> program(text.spec_bytes()) == Err::<
            Seq<(DeclarationView, int)>,
            ParseErrorView,
        >(e@),
{
    let ghost s = text.spec_bytes();
    let n = text.as_bytes().len();
    let mut decls: Vec<Declaration> = Vec::new();
    let mut at: Vec<usize> = Vec::new();
    let start = past_spaces(text, 0);
    if start == n {
        proof {
            assert(placed_declarations(decls@, at@) =~= Seq::empty());
        }
        return Ok((Program { declarations: decls }, at));
    }
    let (first, q) = match parse_declaration(text, start) {
        Ok(found) => found,
        Err(e) => { return Err(e); },
    };
    decls.push(first);
    at.push(start);
    let mut end = q;
    proof {
        assert(placed_declarations(decls@, at@) =~= seq![(decls@[0]@, start as int)]);
    }
    loop
        invariant
            s == text.spec_bytes(),
            n == s.len(),
            end <= n,
            decls@.len() == at@.len(),
            program(s) == followed_by(
                placed_declarations(decls@, at@),
                declarations_after(s, end as int),
            ),
        ensures
            decls@.len() == at@.len(),
            program(s) == Ok::<Seq<(DeclarationView, int)>, ParseErrorView>(
                placed_declarations(decls@, at@),
            ),
        decreases n - end,
    {
        let g = match whitespace(text, end) {
            Some(g) => g,
            None => {
                if end == n {
                    proof {
                        assert(placed_declarations(decls@, at@) + Seq::empty()
                            =~= placed_declarations(decls@, at@));
                    }
                    break ;
                }
                return Err(
                    ParseError::Syntax(
                        SyntaxError::new(Production::Program, Expected::EndOfInput, end),
                    ),
                );
            },
        };
        proof {
            crate::lexer::lemma_gap(s, end as int);
        }
        if g == n {
            proof {
                assert(placed_declarations(decls@, at@) + Seq::empty() =~= placed_declarations(
                    decls@,
                    at@,
                ));
            }
            break ;
        }
        let (item, q) = match parse_declaration(text, g) {
            Ok(found) => found,
            Err(e) => { return Err(e); },
        };
        proof {
            let placed_item = (item@, g as int);
            let rest = declarations_after(s, q as int);
            assert(placed_declarations(decls@.push(item), at@.push(g)) =~= placed_declarations(
                decls@,
                at@,
            ).push(placed_item));
            match rest {
                Ok(items) => {
                    assert(placed_declarations(decls@, at@) + (seq![placed_item] + items)
                        =~= placed_declarations(decls@, at@).push(placed_item) + items);
                },
                Err(_) => {},
            }
        }
        decls.push(item);
        at.push(g);
        end = q;
    }
    Ok((Program { declarations: decls }, at))
}

/// The failure of the resolution pass, reported at the start of the
/// declaration that holds the offending name, with that declaration's name.
fn locate(e: ResolveError, raw: &Program, at: &Vec<usize>) -> (r: ParseError)
    requires
        e.declaration < raw.declarations@.len() == at@.len(),
    ensures
        r@ == located(e@, placed_declarations(raw.declarations@, at@)),
{
    let context = match &raw.declarations[e.declaration] {
        Declaration::TypeDecl(t) => t.name.clone(),
        Declaration::ProvisionDecl(p) => p.name.clone(),
    };
    ParseError::Semantic(
        SemanticError {
            kind: e.kind,
            production: e.kind.production(),
            offset: at[e.declaration],
            identifier: e.identifier,
            context,
        },
    )
}

/// The model of what parsing a text gave: the rule book's model, or the
/// error's.
pub open spec fn outcome(r: Result<Program, ParseError>) -> Result<
    Seq<DeclarationView>,
    ParseErrorView,
> {
    match r {
        Ok(book) => Ok(book@),
        Err(e) => Err(e@),
    }
}

/// Turns a text into a rule book: parses all its declarations and resolves
/// them as a whole.
///
/// Succeeds exactly on the texts that the grammar accepts and whose names
/// resolve; fails with the syntax error of the rule that could not be read,
/// or with the semantic error of the first declaration that breaks a rule on
/// names. The result depends on the text alone. In the rule book that comes
/// back the fields of a record and the parameters of a provision have
/// distinct names, no type is unbound and no value is without a
/// type. An error is reported at a position of the text.
pub fn parse_program(text: &str) -> (r: Result<Program, ParseError>)
    ensures
        outcome(r) == rule_book(text.spec_bytes()),
        r matches Ok(book) ==> well_formed(book@) && is_resolved(book@) && is_complete(book@),
        r matches Err(e) ==> offset_of(e@) <= text.spec_bytes().len(),
{
    proof {
        lemma_error_in_text(text.spec_bytes());
        lemma_rule_book_well_formed(text.spec_bytes());
        lemma_rule_book_complete(text.spec_bytes());
    }
    let (raw, at) = match parse_declarations(text) {
        Ok(found) => found,
        Err(e) => { return Err(e); },
    };
    proof {
        assert(listed(placed_declarations(raw.declarations@, at@)) =~= declarations(
            raw.declarations@,
        ));
    }
    match resolve_program(&raw) {
        Ok(book) => Ok(book),
        Err(e) => Err(locate(e, &raw, &at)),
    }
}

} // verus!
