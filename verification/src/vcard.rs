//! The vCard reader. The grammar is not this library's own: the `ical` crate
//! reads the text, and what it finds is kept as plain contacts.

use crate::model::{Contact, Property, PropertyView};
use vstd::prelude::*;

verus! {

/// One block of the input as the reader found it.
#[derive(Clone, Debug, PartialEq, Eq)]
pub enum Parsed {
    /// A contact with its properties in input order.
    Contact(Contact),
    /// A block that the reader could not make sense of, with its message.
    Malformed(String),
}

/// The mathematical content of a [`Parsed`].
pub enum ParsedView {
    Contact(Seq<PropertyView>),
    Malformed(Seq<char>),
}

impl View for Parsed {
    type V = ParsedView;

    open spec fn view(&self) -> ParsedView {
        match self {
            Parsed::Contact(contact) => ParsedView::Contact(contact@),
            Parsed::Malformed(message) => ParsedView::Malformed(message@),
        }
    }
}

/// The contents of a list of blocks, in order.
pub open spec fn parsed_view(items: Seq<Parsed>) -> Seq<ParsedView> {
    items.map_values(|item: Parsed| item@)
}

/// What `ical::VcardParser` yields for a text, item by item: for a contact
/// the names and values of its properties, for an error its message.
pub uninterp spec fn vcard_blocks(text: Seq<char>) -> Seq<ParsedView>;

/// Runs `ical::VcardParser` over the bytes of `text` until it yields nothing
/// more. Each contact is kept with the name and value of every property, in
/// the parser's order; each error is kept as the message it displays. The
/// parser reads nothing but the text, so the same text gives the same items.
#[verifier::external_body]
pub(crate) fn read_vcards(text: &str) -> (items: Vec<Parsed>)
    ensures
        parsed_view(items@) == vcard_blocks(text@),
{
    ical::VcardParser::new(text.as_bytes())
        .map(|item| match item {
            Ok(card) => Parsed::Contact(Contact {
                properties: card.properties
                    .into_iter()
                    .map(|p| Property { name: p.name, value: p.value })
                    .collect(),
            }),
            Err(error) => Parsed::Malformed(error.to_string()),
        })
        .collect()
}

} // verus!
