//! Declarations of variables, written in the source or made up by the
//! compiler.

use crate::diagnostic::{clone_option_string, option_string_view};
use crate::yarn_value::{YarnValue, YarnValueView};
use vstd::prelude::*;

verus! {

/// The types of the language.
#[derive(Clone, Copy, Debug, PartialEq, Eq, Structural)]
pub enum Type {
    Any,
    Boolean,
    Function,
    Number,
    String,
    Undefined,
}

/// Where a declaration comes from.
#[derive(Clone, Copy, Debug, PartialEq, Eq, Structural)]
pub enum DeclarationOrigin {
    /// A declaration statement in the source.
    Explicit,
    /// The compiler made it up.
    Derived,
}

/// The declaration of a variable.
#[derive(Debug, PartialEq, Eq)]
pub struct Declaration {
    pub name: String,
    pub default_value: Option<YarnValue>,
    pub description: Option<String>,
    pub value_type: Option<Type>,
    pub origin: DeclarationOrigin,
}

/// The mathematical value of a [`Declaration`].
pub struct DeclarationView {
    pub name: Seq<char>,
    pub default_value: Option<YarnValueView>,
    pub description: Option<Seq<char>>,
    pub value_type: Option<Type>,
    pub origin: DeclarationOrigin,
}

impl View for Declaration {
    type V = DeclarationView;

    open spec fn view(&self) -> DeclarationView {
        DeclarationView {
            name: self.name@,
            default_value: match self.default_value {
                Some(value) => Some(value@),
                None => None,
            },
            description: option_string_view(self.description),
            value_type: self.value_type,
            origin: self.origin,
        }
    }
}

impl DeepView for Declaration {
    type V = DeclarationView;

    open spec fn deep_view(&self) -> DeclarationView {
        self@
    }
}

impl Clone for Declaration {
    fn clone(&self) -> (copy: Declaration)
        ensures
            copy@ == self@,
    {
        Declaration {
            name: self.name.clone(),
            default_value: match &self.default_value {
                Some(value) => Some(value.clone()),
                None => None,
            },
            description: clone_option_string(&self.description),
            value_type: self.value_type,
            origin: self.origin,
        }
    }
}

/// The mathematical values of a sequence of declarations, in the same order.
pub open spec fn declaration_views(declarations: Seq<Declaration>) -> Seq<DeclarationView> {
    declarations.map_values(|d: Declaration| d@)
}

impl Declaration {
    /// An explicit declaration with the given default value and nothing else:
    /// no name, no type, no description.
    pub fn from_default_value(default_value: YarnValue) -> (declaration: Declaration)
        ensures
            declaration@ == (DeclarationView {
                name: Seq::empty(),
                default_value: Some(default_value@),
                description: None,
                value_type: None,
                origin: DeclarationOrigin::Explicit,
            }),
    {
        Declaration {
            name: String::new(),
            default_value: Some(default_value),
            description: None,
            value_type: None,
            origin: DeclarationOrigin::Explicit,
        }
    }

    /// The same declaration under the given name.
    pub fn with_name(self, name: String) -> (declaration: Declaration)
        ensures
            declaration@ == (DeclarationView { name: name@, ..self@ }),
    {
        Declaration { name, ..self }
    }

    /// The same declaration with the given type.
    pub fn with_type(self, value_type: Type) -> (declaration: Declaration)
        ensures
            declaration@ == (DeclarationView { value_type: Some(value_type), ..self@ }),
    {
        Declaration { value_type: Some(value_type), ..self }
    }

    /// The same declaration with the given description.
    pub fn with_description(self, description: String) -> (declaration: Declaration)
        ensures
            declaration@ == (DeclarationView { description: Some(description@), ..self@ }),
    {
        Declaration { description: Some(description), ..self }
    }

    /// The same declaration with the given origin.
    pub fn with_origin(self, origin: DeclarationOrigin) -> (declaration: Declaration)
        ensures
            declaration@ == (DeclarationView { origin, ..self@ }),
    {
        Declaration { origin, ..self }
    }
}

} // verus!
