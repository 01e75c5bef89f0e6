//! The attribute serializer: what is left of a contact, written as one
//! JSON-like object of string keys and string values.
//!
//! Names and values are copied as they are. A quote or a backslash inside
//! them is not escaped, so the result is meant for people to read, not for a
//! JSON parser.

use crate::model::{properties_view, Property, PropertyView};
use crate::text::{join, lemma_join_push};
use vstd::prelude::*;
use vstd::string::StringExecFns;

verus! {

/// The property names that the serializer leaves out.
#[derive(Clone, Debug)]
pub struct ExclusionSet {
    names: Vec<String>,
}

impl View for ExclusionSet {
    type V = Set<Seq<char>>;

    closed spec fn view(&self) -> Set<Seq<char>> {
        Set::new(
            |name: Seq<char>|
                exists|i: int| 0 <= i < self.names@.len() && self.names@[i]@ == name,
        )
    }
}

impl ExclusionSet {
    /// A set that excludes nothing.
    pub fn new() -> (set: ExclusionSet)
        ensures
            set@ == Set::<Seq<char>>::empty(),
    {
        let set = ExclusionSet { names: Vec::new() };
        set
    }

    /// The usual set: `EMAIL`, `VERSION` and `PRODID`.
    pub fn standard() -> (set: ExclusionSet)
        ensures
            set@ == Set::<Seq<char>>::empty().insert("EMAIL"@).insert("VERSION"@).insert("PRODID"@),
    {
        let mut set = ExclusionSet::new();
        set.insert("EMAIL");
        set.insert("VERSION");
        set.insert("PRODID");
        set
    }

    /// Excludes `name` as well.
    pub fn insert(&mut self, name: &str)
        ensures
            final(self)@ == old(self)@.insert(name@),
    {
        self.names.push(name.to_owned());
        assert forall|other: Seq<char>| self@.contains(other) == old(self)@.insert(
            name@,
        ).contains(other) by {
            let before = old(self).names@;
            let after = self.names@;
            if old(self)@.insert(name@).contains(other) {
                if other == name@ {
                    assert(after[before.len() as int]@ == other);
                } else {
                    let i = choose|i: int| 0 <= i < before.len() && before[i]@ == other;
                    assert(after[i]@ == other);
                }
            }
        }
    }

    /// Whether `name` is excluded. Names are compared exactly.
    pub fn contains(&self, name: &str) -> (excluded: bool)
        ensures
            excluded == self@.contains(name@),
    {
        let wanted = name.to_owned();
        self.holds(&wanted)
    }

    /// Whether `name` is excluded.
    pub(crate) fn holds(&self, name: &String) -> (excluded: bool)
        ensures
            excluded == self@.contains(name@),
    {
        let mut i: usize = 0;
        while i < self.names.len()
            invariant
                i <= self.names.len(),
                forall|j: int| 0 <= j < i ==> self.names@[j]@ != name@,
            decreases self.names.len() - i,
        {
            if self.names[i] == *name {
                return true;
            }
            i += 1;
        }
        false
    }
}

/// What stands between two entries.
pub open spec fn separator() -> Seq<char> {
    seq![',', ' ']
}

/// What stands between the key and the value of an entry.
pub open spec fn key_value_mark() -> Seq<char> {
    seq!['"', ':', '"']
}

/// Whether the serializer writes an entry for `property`: it has a value and
/// its name is not excluded.
pub open spec fn is_kept(property: PropertyView, excluded: Set<Seq<char>>) -> bool {
    property.value is Some && !excluded.contains(property.name)
}

/// The properties for which an entry is written, in order.
pub open spec fn kept(properties: Seq<PropertyView>, excluded: Set<Seq<char>>) -> Seq<
    PropertyView,
> {
    properties.filter(|p: PropertyView| is_kept(p, excluded))
}

/// The entry of a property that has a value: `"name":"value"`.
pub open spec fn entry(property: PropertyView) -> Seq<char> {
    seq!['"'] + property.name + key_value_mark() + property.value->0 + seq!['"']
}

/// The entries that are written, in order.
pub open spec fn entries(properties: Seq<PropertyView>, excluded: Set<Seq<char>>) -> Seq<
    Seq<char>,
> {
    kept(properties, excluded).map_values(|p: PropertyView| entry(p))
}

/// The serialized attributes: the entries joined by `, ` between braces.
pub open spec fn serialized(properties: Seq<PropertyView>, excluded: Set<Seq<char>>) -> Seq<char> {
    seq!['{'] + join(entries(properties, excluded), separator()) + seq!['}']
}

/// The properties that have a value, in order.
pub open spec fn with_values(properties: Seq<PropertyView>) -> Seq<PropertyView> {
    properties.filter(|p: PropertyView| p.value is Some)
}

/// The properties whose name is not excluded, in order.
pub open spec fn without_excluded(properties: Seq<PropertyView>, excluded: Set<Seq<char>>) -> Seq<
    PropertyView,
> {
    properties.filter(|p: PropertyView| !excluded.contains(p.name))
}

/// The entries of the first `n + 1` properties are those of the first `n`,
/// followed by the entry of the next property if it is kept.
proof fn lemma_entries_step(properties: Seq<PropertyView>, excluded: Set<Seq<char>>, n: int)
    requires
        0 <= n < properties.len(),
    ensures
        entries(properties.take(n + 1), excluded) == if is_kept(properties[n], excluded) {
            entries(properties.take(n), excluded).push(entry(properties[n]))
        } else {
            entries(properties.take(n), excluded)
        },
{
    reveal(Seq::filter);
    assert(properties.take(n + 1).drop_last() =~= properties.take(n));
    if is_kept(properties[n], excluded) {
        assert(entries(properties.take(n + 1), excluded) =~= entries(
            properties.take(n),
            excluded,
        ).push(entry(properties[n])));
    }
}

/// Where no property is kept, the serializer writes nothing but the braces.
proof fn lemma_none_kept(properties: Seq<PropertyView>, excluded: Set<Seq<char>>)
    requires
        forall|i: int| 0 <= i < properties.len() ==> !is_kept(#[trigger] properties[i], excluded),
    ensures
        kept(properties, excluded).len() == 0,
        serialized(properties, excluded) == seq!['{', '}'],
    decreases properties.len(),
{
    reveal(Seq::filter);
    if properties.len() > 0 {
        lemma_none_kept(properties.drop_last(), excluded);
    }
}

/// A list of properties whose names are all excluded, the empty list among
/// them, is serialized as `{}`.
pub proof fn lemma_excluded_serialize_empty(properties: Seq<PropertyView>, excluded: Set<Seq<char>>)
    requires
        forall|i: int|
            0 <= i < properties.len() ==> excluded.contains(#[trigger] properties[i].name),
    ensures
        serialized(properties, excluded) == seq!['{', '}'],
{
    lemma_none_kept(properties, excluded);
}

/// Properties without a value leave no trace: the serializer writes the same
/// for a list and for that list without its valueless properties.
pub proof fn lemma_valueless_not_serialized(properties: Seq<PropertyView>, excluded: Set<Seq<char>>)
    ensures
        kept(with_values(properties), excluded) == kept(properties, excluded),
        serialized(with_values(properties), excluded) == serialized(properties, excluded),
    decreases properties.len(),
{
    reveal(Seq::filter);
    if properties.len() > 0 {
        let init = properties.drop_last();
        let last = properties.last();
        lemma_valueless_not_serialized(init, excluded);
        if last.value is Some {
            assert(with_values(init).push(last).drop_last() =~= with_values(init));
        }
    }
}

/// Properties with an excluded name leave no trace either.
pub proof fn lemma_excluded_not_serialized(properties: Seq<PropertyView>, excluded: Set<Seq<char>>)
    ensures
        serialized(without_excluded(properties, excluded), excluded) == serialized(
            properties,
            excluded,
        ),
{
    lemma_kept_of_allowed(properties, excluded);
}

/// The kept properties of a list are those of the list without its excluded
/// names.
proof fn lemma_kept_of_allowed(properties: Seq<PropertyView>, excluded: Set<Seq<char>>)
    ensures
        kept(without_excluded(properties, excluded), excluded) == kept(properties, excluded),
    decreases properties.len(),
{
    reveal(Seq::filter);
    if properties.len() > 0 {
        let init = properties.drop_last();
        let last = properties.last();
        lemma_kept_of_allowed(init, excluded);
        if !excluded.contains(last.name) {
            assert(without_excluded(properties, excluded) == without_excluded(
                init,
                excluded,
            ).push(last));
            assert(without_excluded(init, excluded).push(last).drop_last() =~= without_excluded(
                init,
                excluded,
            ));
        }
    }
}

/// Writes the properties that have a value and whose name is not excluded as
/// `{"name":"value", ...}`, in their order. Nothing is escaped.
pub fn serialize(properties: &[Property], exclusions: &ExclusionSet) -> (out: String)
    ensures
        out@ == serialized(properties_view(properties@), exclusions@),
        out@ == serialized(with_values(properties_view(properties@)), exclusions@),
        (forall|i: int|
            0 <= i < properties@.len() ==> exclusions@.contains(#[trigger] properties@[i]@.name))
            ==> out@ == seq!['{', '}'],
{
    let ghost props = properties_view(properties@);
    let ghost excluded = exclusions@;
    let mut out = String::new();
    proof {
        reveal_strlit("{");
        reveal_strlit("}");
        reveal_strlit(", ");
        reveal_strlit("\"");
        reveal_strlit("\":\"");
        lemma_valueless_not_serialized(props, excluded);
        if forall|i: int|
            0 <= i < properties@.len() ==> exclusions@.contains(#[trigger] properties@[i]@.name) {
            lemma_excluded_serialize_empty(props, excluded);
        }
    }
    out.append("{");
    let mut first = true;
    let mut i: usize = 0;
    while i < properties.len()
        invariant
            i <= properties.len(),
            props == properties_view(properties@),
            excluded == exclusions@,
            out@ == seq!['{'] + join(entries(props.take(i as int), excluded), separator()),
            first == (entries(props.take(i as int), excluded).len() == 0),
            ", "@ == separator(),
            "\""@ == seq!['"'],
            "\":\""@ == key_value_mark(),
        decreases properties.len() - i,
    {
        let property = &properties[i];
        proof {
            lemma_entries_step(props, excluded, i as int);
        }
        match &property.value {
            Some(value) => {
                if !exclusions.holds(&property.name) {
                    let ghost before = entries(props.take(i as int), excluded);
                    if !first {
                        out.append(", ");
                    }
                    out.append("\"");
                    out.append(property.name.as_str());
                    out.append("\":\"");
                    out.append(value.as_str());
                    out.append("\"");
                    first = false;
                    proof {
                        lemma_join_push(before, entry(property@), separator());
                    }
                }
            },
            None => {},
        }
        i += 1;
    }
    assert(props.take(i as int) =~= props);
    out.append("}");
    out
}

} // verus!
