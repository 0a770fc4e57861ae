//! Lookups by name in a rule book.

use crate::ast::{Binding, bindings, Declaration, declarations, Program, Provision, Type, TypeType};
use crate::resolution::{binding_index, provision_index, type_index};
use crate::resolve::{binding_position, provision_position, type_position};
use vstd::prelude::*;
use vstd::string::StringExecFns;

verus! {

/// The type of the first binding called `name`.
pub fn type_of<'a>(items: &'a Vec<Binding>, name: &str) -> (r: Option<&'a Type>)
    ensures
        r matches Some(ty) ==> binding_index(bindings(items@), name@, 0) matches Some(k) && ty@
            == bindings(items@)[k].ty,
        r is None ==> binding_index(bindings(items@), name@, 0) is None,
{
    let wanted = String::from_str(name);
    match binding_position(items, &wanted) {
        Some(k) => Some(&items[k].ty),
        None => None,
    }
}

impl Type {
    /// The type of the field called `name`, if this is a record that has
    /// one.
    pub fn field(&self, name: &str) -> (r: Option<&Type>)
        ensures
            r matches Some(ty) ==> self@.contents matches crate::ast::ContentsView::RecordDecl(
                fields,
            ) && binding_index(fields, name@, 0) matches Some(k) && ty@ == fields[k].ty,
            r is None ==> !(self@.contents matches crate::ast::ContentsView::RecordDecl(fields)
                && binding_index(fields, name@, 0) is Some),
    {
        match &self.contents {
            TypeType::RecordDecl(fields) => {
                proof {
                    crate::ast::lemma_type_views(*fields);
                }
                type_of(fields, name)
            },
            _ => None,
        }
    }
}

impl Provision {
    /// The type of the parameter called `name`, if there is one.
    pub fn parameter(&self, name: &str) -> (r: Option<&Type>)
        ensures
            r matches Some(ty) ==> binding_index(self@.args, name@, 0) matches Some(k) && ty@
                == self@.args[k].ty,
            r is None ==> binding_index(self@.args, name@, 0) is None,
    {
        type_of(&self.args, name)
    }
}

impl Program {
    /// The first declaration of a type called `name`.
    pub fn type_named(&self, name: &str) -> (r: Option<&Type>)
        ensures
            r matches Some(ty) ==> type_index(self@, name@, 0) matches Some(i) && self@[i]
                == crate::ast::DeclarationView::TypeDecl(ty@),
            r is None ==> type_index(self@, name@, 0) is None,
    {
        let wanted = String::from_str(name);
        match type_position(&self.declarations, &wanted) {
            Some(i) => match &self.declarations[i] {
                Declaration::TypeDecl(t) => Some(t),
                Declaration::ProvisionDecl(_) => None,
            },
            None => None,
        }
    }

    /// The first declaration of a provision called `name`.
    pub fn provision_named(&self, name: &str) -> (r: Option<&Provision>)
        ensures
            r matches Some(p) ==> provision_index(self@, name@, 0) matches Some(i) && self@[i]
                == crate::ast::DeclarationView::ProvisionDecl(p@),
            r is None ==> provision_index(self@, name@, 0) is None,
    {
        let wanted = String::from_str(name);
        match provision_position(&self.declarations, &wanted) {
            Some(i) => match &self.declarations[i] {
                Declaration::TypeDecl(_) => None,
                Declaration::ProvisionDecl(p) => Some(p),
            },
            None => None,
        }
    }
}

} // verus!
