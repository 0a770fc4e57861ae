//! The invariant of a rule book: the variants of an enumeration have
//! distinct names, and so have the fields of a record and the parameters of a
//! provision. The parser establishes it and resolution keeps it.

use crate::ast::{BindingView, ContentsView, DeclarationView};
use crate::grammar::{
    arguments, declaration, declarations_after, distinct, enum_decl, first_repeat_from,
    lemma_declaration, listed, names_of, plain, program, provision, record_decl, record_fields,
    rule_book, type_decl, type_instantiation, unplaced, variants,
};
use crate::lexer::{gap, lemma_gap, spaced_tag2};
use crate::resolution::{
    annotate_program, annotated_declarations, bind_bindings, bind_program, bound_bindings,
    bound_declarations, Issue, resolve,
};
use crate::resolved::{lemma_collect, lemma_gather};
use vstd::prelude::*;
use vstd::string::StringSliceAdditionalSpecFns;

verus! {

/// The variants of a declared enumeration, the fields of a declared record,
/// or the parameters of a provision, have distinct names.
pub open spec fn declaration_well_formed(d: DeclarationView) -> bool {
    match d {
        DeclarationView::TypeDecl(t) => match t.contents {
            ContentsView::RecordDecl(fields) => distinct(names_of(fields)),
            ContentsView::EnumDecl(names) => distinct(names),
            _ => true,
        },
        DeclarationView::ProvisionDecl(p) => distinct(names_of(p.args)),
    }
}

/// Every declaration of the rule book is well formed.
pub open spec fn well_formed(decls: Seq<DeclarationView>) -> bool {
    forall|i: int| 0 <= i < decls.len() ==> declaration_well_formed(#[trigger] decls[i])
}

/// Names without a repeat at or after `from` differ from all names before
/// them.
pub proof fn lemma_distinct(names: Seq<Seq<char>>, from: int)
    requires
        0 <= from <= names.len(),
        first_repeat_from(names, from) is None,
    ensures
        forall|i: int, j: int| 0 <= i < j < names.len() && from <= j ==> names[i] != names[j],
    decreases names.len() - from,
{
    if from < names.len() {
        lemma_distinct(names, from + 1);
        assert forall|i: int, j: int| 0 <= i < j < names.len() && from <= j implies names[i]
            != names[j] by {
            if j == from && names[i] == names[j] {
                assert(names.subrange(0, from)[i] == names[from]);
            }
        }
    }
}

/// What `declaration` reads is well formed.
pub proof fn lemma_declaration_well_formed(s: Seq<u8>, p: int)
    ensures
        declaration(s, p) matches Ok((d, _)) ==> declaration_well_formed(d),
{
    reveal(declaration);
    reveal(provision);
    reveal(type_decl);
    reveal(record_decl);
    reveal(enum_decl);
    match provision(s, p) {
        Ok((item, _)) => {
            let (args, _) = arguments(s, p)->Ok_0;
            lemma_distinct(names_of(unplaced(args)), 0);
        },
        Err(_) => {
            match type_decl(s, p) {
                Ok((item, _)) => {
                    let (head, q) = type_instantiation(s, p)->Ok_0;
                    match spaced_tag2(s, q, "is a".spec_bytes(), "is an".spec_bytes()) {
                        Some(a) => {
                            let g = gap(s, a)->0;
                            let (names, _) = variants(s, g)->Ok_0;
                            lemma_distinct(plain(names), 0);
                        },
                        None => {
                            let a = spaced_tag2(
                                s,
                                q,
                                "has a".spec_bytes(),
                                "has an".spec_bytes(),
                            )->0;
                            let g = gap(s, a)->0;
                            let (fields, _) = record_fields(s, g)->Ok_0;
                            lemma_distinct(names_of(unplaced(fields)), 0);
                        },
                    }
                },
                Err(_) => {},
            }
        },
    }
}

/// The declarations that follow one are well formed.
pub proof fn lemma_declarations_after_well_formed(s: Seq<u8>, p: int)
    ensures
        declarations_after(s, p) matches Ok(items) ==> well_formed(listed(items)),
    decreases s.len() - p,
{
    match gap(s, p) {
        Some(g) => {
            if g != s.len() {
                match declaration(s, g) {
                    Ok((item, q)) => {
                        lemma_gap(s, p);
                        lemma_declaration(s, g);
                        lemma_declaration_well_formed(s, g);
                        lemma_declarations_after_well_formed(s, q);
                        match declarations_after(s, q) {
                            Ok(rest) => {
                                let all = listed(seq![(item, g)] + rest);
                                assert forall|i: int|
                                    0 <= i < all.len() implies declaration_well_formed(
                                    #[trigger] all[i],
                                ) by {
                                    if i > 0 {
                                        assert(all[i] == listed(rest)[i - 1]);
                                    }
                                }
                            },
                            Err(_) => {},
                        }
                    },
                    Err(_) => {},
                }
            }
        },
        None => {},
    }
}

/// Every declaration that the grammar reads is well formed.
pub proof fn lemma_program_well_formed(s: Seq<u8>)
    ensures
        program(s) matches Ok(items) ==> well_formed(listed(items)),
{
    let start = crate::lexer::skip_spaces(s, 0);
    if start != s.len() {
        match declaration(s, start) {
            Ok((item, q)) => {
                lemma_declaration_well_formed(s, start);
                lemma_declarations_after_well_formed(s, q);
                match declarations_after(s, q) {
                    Ok(rest) => {
                        let all = listed(seq![(item, start)] + rest);
                        assert forall|i: int| 0 <= i < all.len() implies declaration_well_formed(
                            #[trigger] all[i],
                        ) by {
                            if i > 0 {
                                assert(all[i] == listed(rest)[i - 1]);
                            }
                        }
                    },
                    Err(_) => {},
                }
            },
            Err(_) => {},
        }
    }
}

/// Binding keeps the names of the bindings.
pub proof fn lemma_bind_keeps_names(decls: Seq<DeclarationView>, items: Seq<BindingView>)
    ensures
        bind_bindings(decls, items) matches Ok(bound) ==> names_of(bound) == names_of(items),
{
    let results = bound_bindings(decls, items);
    lemma_collect(results);
    match bind_bindings(decls, items) {
        Ok(bound) => {
            assert forall|i: int| 0 <= i < bound.len() implies bound[i].name == items[i].name by {
                assert(results[i] == Ok::<BindingView, Issue>(bound[i]));
            }
            assert(names_of(bound) =~= names_of(items));
        },
        Err(_) => {},
    }
}

/// Resolution keeps a rule book well formed.
pub proof fn lemma_resolve_keeps_well_formed(decls: Seq<DeclarationView>)
    requires
        well_formed(decls),
    ensures
        resolve(decls) matches Ok(done) ==> well_formed(done),
{
    match bind_program(decls) {
        Ok(typed) => {
            let first = bound_declarations(decls);
            lemma_gather(first);
            assert forall|i: int| 0 <= i < typed.len() implies declaration_well_formed(
                #[trigger] typed[i],
            ) by {
                assert(first[i] == Ok::<DeclarationView, Issue>(typed[i]));
                assert(declaration_well_formed(decls[i]));
                match decls[i] {
                    DeclarationView::TypeDecl(t) => match t.contents {
                        ContentsView::RecordDecl(fields) => lemma_bind_keeps_names(decls, fields),
                        _ => {},
                    },
                    DeclarationView::ProvisionDecl(p) => lemma_bind_keeps_names(decls, p.args),
                }
            }
            let second = annotated_declarations(typed);
            lemma_gather(second);
            match annotate_program(typed) {
                Ok(done) => {
                    assert forall|i: int| 0 <= i < done.len() implies declaration_well_formed(
                        #[trigger] done[i],
                    ) by {
                        assert(second[i] == Ok::<DeclarationView, Issue>(done[i]));
                        assert(declaration_well_formed(typed[i]));
                    }
                },
                Err(_) => {},
            }
        },
        Err(_) => {},
    }
}

/// The rule book that a text stands for is well formed.
pub proof fn lemma_rule_book_well_formed(s: Seq<u8>)
    ensures
        rule_book(s) matches Ok(book) ==> well_formed(book),
{
    lemma_program_well_formed(s);
    match program(s) {
        Ok(items) => lemma_resolve_keeps_well_formed(listed(items)),
        Err(_) => {},
    }
}

} // verus!
