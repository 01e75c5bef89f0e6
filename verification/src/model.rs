//! The data model: a property is a name with an optional value, a contact is
//! an ordered list of properties.

use vstd::prelude::*;

verus! {

/// One vCard property. The name is case-sensitive; the value may be absent.
#[derive(Clone, Debug, PartialEq, Eq)]
pub struct Property {
    pub name: String,
    pub value: Option<String>,
}

/// The mathematical content of a [`Property`].
pub struct PropertyView {
    pub name: Seq<char>,
    pub value: Option<Seq<char>>,
}

/// The characters of an optional string.
pub open spec fn text_of(value: Option<String>) -> Option<Seq<char>> {
    match value {
        Some(text) => Some(text@),
        None => None,
    }
}

impl View for Property {
    type V = PropertyView;

    open spec fn view(&self) -> PropertyView {
        PropertyView { name: self.name@, value: text_of(self.value) }
    }
}

/// The contents of a list of properties, in order.
pub open spec fn properties_view(properties: Seq<Property>) -> Seq<PropertyView> {
    properties.map_values(|p: Property| p@)
}

impl Property {
    /// A property with the given name and value.
    pub fn new(name: String, value: Option<String>) -> (property: Property)
        ensures
            property@ == (PropertyView { name: name@, value: text_of(value) }),
    {
        Property { name, value }
    }

    /// The property's name.
    pub fn name(&self) -> (name: &str)
        ensures
            name@ == self@.name,
    {
        self.name.as_str()
    }

    /// The property's value, if it has one.
    pub fn value(&self) -> (value: Option<&str>)
        ensures
            value is Some == self@.value is Some,
            value matches Some(text) ==> self@.value == Some(text@),
    {
        match &self.value {
            Some(text) => Some(text.as_str()),
            None => None,
        }
    }
}

/// One contact: its properties in the order in which they were read. Several
/// properties may share a name.
#[derive(Clone, Debug, PartialEq, Eq)]
pub struct Contact {
    pub properties: Vec<Property>,
}

impl View for Contact {
    type V = Seq<PropertyView>;

    open spec fn view(&self) -> Seq<PropertyView> {
        properties_view(self.properties@)
    }
}

impl Contact {
    /// A contact holding `properties` in the given order.
    pub fn new(properties: Vec<Property>) -> (contact: Contact)
        ensures
            contact@ == properties_view(properties@),
    {
        Contact { properties }
    }

    /// The number of properties.
    pub fn len(&self) -> (n: usize)
        ensures
            n == self@.len(),
    {
        self.properties.len()
    }
}

} // verus!
