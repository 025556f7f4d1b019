//! Function declarations.
use vstd::prelude::*;
use vstd::std_specs::cmp::PartialEqSpecImpl;

use crate::parser::fn_attrs::{Attributes, SpecAttributes};
use crate::parser::modifiers::Modifiers;
use crate::text::{push_char, str_equals};
use crate::types::Type;

verus! {

/// The mathematical value of a [`FunctionDeclaration`].
pub struct SpecFunctionDeclaration {
    pub modifiers: u8,
    pub attributes: SpecAttributes,
    pub identifier: Seq<char>,
    pub parameters: Seq<(Seq<char>, Type)>,
    pub return_type: Type,
}

/// The value of a parameter list.
pub open spec fn parameters_view(parameters: Seq<(String, Type)>) -> Seq<(Seq<char>, Type)> {
    parameters.map_values(|p: (String, Type)| (p.0@, p.1))
}

/// A declared function.
#[must_use]
#[derive(Debug)]
pub struct FunctionDeclaration {
    modifiers: Modifiers,
    attributes: Attributes,
    identifier: String,
    parameters: Vec<(String, Type)>,
    return_type: Type,
}

impl View for FunctionDeclaration {
    type V = SpecFunctionDeclaration;

    closed spec fn view(&self) -> SpecFunctionDeclaration {
        SpecFunctionDeclaration {
            modifiers: self.modifiers,
            attributes: self.attributes@,
            identifier: self.identifier@,
            parameters: parameters_view(self.parameters@),
            return_type: self.return_type,
        }
    }
}

impl FunctionDeclaration {
    /// A declaration; its identifier gets a terminating NUL.
    pub fn new(
        modifiers: Modifiers,
        attributes: Attributes,
        identifier: String,
        parameters: Vec<(String, Type)>,
        return_type: Type,
    ) -> (res: Self)
        ensures
            res@ == (SpecFunctionDeclaration {
                modifiers,
                attributes: attributes@,
                identifier: identifier@.push('\0'),
                parameters: parameters_view(parameters@),
                return_type,
            }),
    {
        let mut identifier = identifier;
        push_char(&mut identifier, '\0');
        FunctionDeclaration { modifiers, attributes, identifier, parameters, return_type }
    }

    /// The modifier flags.
    pub fn modifiers(&self) -> (res: Modifiers)
        ensures
            res == self@.modifiers,
    {
        self.modifiers
    }

    /// The attributes.
    pub fn attributes(&self) -> (res: &Attributes)
        ensures
            res@ == self@.attributes,
    {
        &self.attributes
    }

    /// The identifier, with its terminating NUL.
    pub fn identifier(&self) -> (res: &str)
        ensures
            res@ == self@.identifier,
    {
        self.identifier.as_str()
    }

    /// The parameters: names and types, in order.
    pub fn parameters(&self) -> (res: &[(String, Type)])
        ensures
            parameters_view(res@) == self@.parameters,
    {
        self.parameters.as_slice()
    }

    /// The return type.
    pub fn return_type(&self) -> (res: Type)
        ensures
            res == self@.return_type,
    {
        self.return_type
    }
}

impl PartialEq for FunctionDeclaration {
    /// Compares modifiers, attributes and identifiers; types are not compared.
    fn eq(&self, other: &Self) -> (res: bool) {
        self.modifiers == other.modifiers && self.attributes.same_as(&other.attributes)
            && str_equals(self.identifier.as_str(), other.identifier.as_str())
    }
}

impl PartialEqSpecImpl for FunctionDeclaration {
    open spec fn obeys_eq_spec() -> bool {
        true
    }

    open spec fn eq_spec(&self, other: &FunctionDeclaration) -> bool {
        self@.modifiers == other@.modifiers && self@.attributes == other@.attributes
            && self@.identifier == other@.identifier
    }
}

} // verus!
