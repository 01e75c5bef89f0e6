//! Extraction: find the first property of a given name, take it out of the
//! contact and hand back its value.

use crate::model::{Contact, PropertyView};
use vstd::prelude::*;

verus! {

/// What an extraction found.
#[derive(Clone, Debug, PartialEq, Eq)]
pub enum Extraction {
    /// The property was present and had this value.
    Value(String),
    /// The property was present but carried no value.
    NoValue,
    /// The contact has no property of that name.
    NotFound,
}

/// The mathematical content of an [`Extraction`].
pub enum ExtractionView {
    Value(Seq<char>),
    NoValue,
    NotFound,
}

impl View for Extraction {
    type V = ExtractionView;

    open spec fn view(&self) -> ExtractionView {
        match self {
            Extraction::Value(text) => ExtractionView::Value(text@),
            Extraction::NoValue => ExtractionView::NoValue,
            Extraction::NotFound => ExtractionView::NotFound,
        }
    }
}

/// Whether `index` is the position of the first property called `name`.
pub open spec fn is_first_named(
    properties: Seq<PropertyView>,
    name: Seq<char>,
    index: int,
) -> bool {
    &&& 0 <= index < properties.len()
    &&& properties[index].name == name
    &&& forall|j: int| 0 <= j < index ==> properties[j].name != name
}

/// Whether some property is called `name`.
pub open spec fn has_named(properties: Seq<PropertyView>, name: Seq<char>) -> bool {
    exists|i: int| 0 <= i < properties.len() && properties[i].name == name
}

/// The position of the first property called `name`, if there is one.
pub open spec fn first_named(properties: Seq<PropertyView>, name: Seq<char>) -> Option<int> {
    if exists|i: int| is_first_named(properties, name, i) {
        Some(choose|i: int| is_first_named(properties, name, i))
    } else {
        None
    }
}

/// The properties that an extraction of `name` leaves behind: all but the
/// first one of that name, in their old order.
pub open spec fn after_extract(properties: Seq<PropertyView>, name: Seq<char>) -> Seq<
    PropertyView,
> {
    match first_named(properties, name) {
        Some(index) => properties.remove(index),
        None => properties,
    }
}

/// What an extraction of `name` hands back.
pub open spec fn extracted(properties: Seq<PropertyView>, name: Seq<char>) -> ExtractionView {
    match first_named(properties, name) {
        Some(index) => match properties[index].value {
            Some(text) => ExtractionView::Value(text),
            None => ExtractionView::NoValue,
        },
        None => ExtractionView::NotFound,
    }
}

/// `first_named` is the one position that `is_first_named` accepts, and it
/// exists exactly when some property carries the name.
pub proof fn lemma_first_named(properties: Seq<PropertyView>, name: Seq<char>)
    ensures
        first_named(properties, name) is Some <==> has_named(properties, name),
        forall|i: int|
            is_first_named(properties, name, i) <==> first_named(properties, name) == Some(i),
{
    if has_named(properties, name) {
        let k = choose|i: int| 0 <= i < properties.len() && properties[i].name == name;
        lemma_first_below(properties, name, k);
    }
}

/// A property called `name` at position `at` forces a first one at or before it.
proof fn lemma_first_below(properties: Seq<PropertyView>, name: Seq<char>, at: int)
    requires
        0 <= at < properties.len(),
        properties[at].name == name,
    ensures
        exists|i: int| 0 <= i <= at && is_first_named(properties, name, i),
    decreases at,
{
    if exists|j: int| 0 <= j < at && properties[j].name == name {
        let j = choose|j: int| 0 <= j < at && properties[j].name == name;
        lemma_first_below(properties, name, j);
    } else {
        assert(is_first_named(properties, name, at));
    }
}

/// Extracting two different names, one after the other, from properties
/// that hold both takes out the first property of each name and nothing
/// else: what remains holds neither of the two entries, and the rest in its
/// old order. The second extraction finds what it would have found alone.
pub proof fn lemma_extract_two(properties: Seq<PropertyView>, first: Seq<char>, second: Seq<char>)
    requires
        first != second,
        has_named(properties, first),
        has_named(properties, second),
    ensures
        ({
            let i = first_named(properties, first)->0;
            let j = first_named(properties, second)->0;
            let rest = after_extract(after_extract(properties, first), second);
            &&& is_first_named(properties, first, i)
            &&& is_first_named(properties, second, j)
            &&& i != j
            &&& extracted(after_extract(properties, first), second) == extracted(properties, second)
            &&& rest == if i < j {
                properties.remove(j).remove(i)
            } else {
                properties.remove(i).remove(j)
            }
        }),
{
    lemma_first_named(properties, first);
    lemma_first_named(properties, second);
    let i = first_named(properties, first)->0;
    let j = first_named(properties, second)->0;
    let middle = properties.remove(i);
    let moved = if j < i {
        j
    } else {
        j - 1
    };
    assert(is_first_named(middle, second, moved)) by {
        assert(middle[moved] == properties[j]);
    }
    lemma_first_named(middle, second);
    assert(middle.remove(moved) =~= if i < j {
        properties.remove(j).remove(i)
    } else {
        properties.remove(i).remove(j)
    });
}

impl Contact {
    /// Takes the first property called `name` out of the contact and returns
    /// its value. Names are compared exactly. A contact without such a
    /// property is left as it is.
    pub fn extract(&mut self, name: &str) -> (found: Extraction)
        ensures
            final(self)@ == after_extract(old(self)@, name@),
            found@ == extracted(old(self)@, name@),
    {
        let wanted = name.to_owned();
        let mut i: usize = 0;
        while i < self.properties.len()
            invariant
                *self == *old(self),
                wanted@ == name@,
                i <= self.properties.len(),
                forall|j: int| 0 <= j < i ==> self@[j].name != name@,
            decreases self.properties.len() - i,
        {
            if self.properties[i].name == wanted {
                proof {
                    assert(is_first_named(self@, name@, i as int));
                    lemma_first_named(self@, name@);
                }
                let property = self.properties.remove(i);
                return match property.value {
                    Some(text) => Extraction::Value(text),
                    None => Extraction::NoValue,
                };
            }
            i += 1;
        }
        proof {
            lemma_first_named(self@, name@);
        }
        Extraction::NotFound
    }
}

/// Takes the first property called `property` out of `vc` and says what it
/// held: its value, that it had none, or that the contact has no property of
/// that name. A property without a value is taken out all the same.
pub fn get_property_and_remove(vc: &mut Contact, property: &str) -> (found: Extraction)
    ensures
        final(vc)@ == after_extract(old(vc)@, property@),
        found@ == extracted(old(vc)@, property@),
{
    vc.extract(property)
}

} // verus!
