//! Reading serialized attributes back: the text between the braces is split
//! on `, ` and every piece is read as `"key":"value"`.
//!
//! Nothing is escaped when attributes are written, so not every property
//! reads back as what was written. `reads_back` says which do: the round trip
//! is proved for them, and for no others.

use crate::model::PropertyView;
use crate::serialize::{
    entries, entry, is_kept, kept, key_value_mark, separator, serialized,
};
use crate::text::{
    first_occurrence, is_first_occurrence, join, lemma_first_occurrence,
    lemma_first_occurrence_extends, lemma_split_join, lemma_split_pieces, occurs_at,
    occurs_in, split,
};
use vstd::prelude::*;

verus! {

/// The name and the value of a property that has a value.
pub open spec fn pair_of(property: PropertyView) -> (Seq<char>, Seq<char>) {
    (property.name, property.value->0)
}

/// Reads one piece as `"key":"value"`: it starts and ends with a quote, and
/// the key ends where `":"` first stands between them.
pub open spec fn read_entry(piece: Seq<char>) -> Option<(Seq<char>, Seq<char>)> {
    if piece.len() >= 2 && piece.first() == '"' && piece.last() == '"' {
        let inner = piece.subrange(1, piece.len() - 1);
        match first_occurrence(inner, key_value_mark()) {
            Some(at) => Some((inner.take(at), inner.skip(at + key_value_mark().len()))),
            None => None,
        }
    } else {
        None
    }
}

/// Reads a serialized object back into its pairs, in order. `None` where the
/// braces are missing or a piece is no entry.
pub open spec fn read_back(text: Seq<char>) -> Option<Seq<(Seq<char>, Seq<char>)>> {
    if text.len() >= 2 && text.first() == '{' && text.last() == '}' {
        let body = text.subrange(1, text.len() - 1);
        let pieces = split(body, separator());
        if body.len() == 0 {
            Some(Seq::empty())
        } else if forall|i: int|
            0 <= i < pieces.len() ==> read_entry(#[trigger] pieces[i]) is Some {
            Some(pieces.map_values(|piece: Seq<char>| read_entry(piece)->0))
        } else {
            None
        }
    } else {
        None
    }
}

/// Whether the entry of `property` can be told apart from its neighbours and
/// taken apart again: `, ` stands neither in the name nor in the value, and in
/// the name followed by `":"` that mark stands nowhere before the end.
pub open spec fn reads_back(property: PropertyView) -> bool {
    &&& !occurs_in(property.name, separator())
    &&& !occurs_in(property.value->0, separator())
    &&& is_first_occurrence(
        property.name + key_value_mark(),
        key_value_mark(),
        property.name.len() as int,
    )
}

/// Where every property is kept, the kept ones are all of them.
proof fn lemma_all_kept(properties: Seq<PropertyView>, excluded: Set<Seq<char>>)
    requires
        forall|i: int| 0 <= i < properties.len() ==> is_kept(#[trigger] properties[i], excluded),
    ensures
        kept(properties, excluded) == properties,
    decreases properties.len(),
{
    reveal(Seq::filter);
    if properties.len() > 0 {
        lemma_all_kept(properties.drop_last(), excluded);
    }
}

/// In the entry of a property that reads back, followed by the separator, the
/// separator stands nowhere before the end.
proof fn lemma_entry_then_separator(property: PropertyView)
    requires
        property.value is Some,
        reads_back(property),
    ensures
        is_first_occurrence(
            entry(property) + separator(),
            separator(),
            entry(property).len() as int,
        ),
{
    let name = property.name;
    let value = property.value->0;
    let whole = entry(property) + separator();
    let n = name.len() as int;
    let m = value.len() as int;
    assert(occurs_at(whole, separator(), n + m + 5));
    assert forall|earlier: int| 0 <= earlier < n + m + 5 implies !occurs_at(
        whole,
        separator(),
        earlier,
    ) by {
        if occurs_at(whole, separator(), earlier) {
            // a comma and a space stand side by side, so both in the name or both in the value
            assert(whole[earlier + 1] == separator()[1]);
            if 1 <= earlier && earlier + 1 <= n {
                assert(occurs_at(name, separator(), earlier - 1));
            } else if n + 4 <= earlier && earlier + 1 < n + 4 + m {
                assert(occurs_at(value, separator(), earlier - n - 4));
            }
        }
    }
}

/// The entry of a property that reads back is read as its name and value.
proof fn lemma_read_entry(property: PropertyView)
    requires
        property.value is Some,
        reads_back(property),
    ensures
        read_entry(entry(property)) == Some(pair_of(property)),
{
    let name = property.name;
    let value = property.value->0;
    let mark = key_value_mark();
    let piece = entry(property);
    let inner = piece.subrange(1, piece.len() - 1);
    assert(inner =~= name + mark + value);
    lemma_first_occurrence_extends(name, mark, value);
    assert(inner.take(name.len() as int) =~= name);
    assert(inner.skip((name.len() + mark.len()) as int) =~= value);
}

/// Round trip. Take properties that all have a value, none with an excluded
/// name, and each of which reads back. Serialize them, split the text between
/// the braces on `, ` and read every piece as `"key":"value"`: what comes out
/// are the names and values that went in, in their order.
pub proof fn lemma_serialize_round_trip(properties: Seq<PropertyView>, excluded: Set<Seq<char>>)
    requires
        forall|i: int|
            0 <= i < properties.len() ==> !excluded.contains(#[trigger] properties[i].name),
        forall|i: int| 0 <= i < properties.len() ==> (#[trigger] properties[i]).value is Some,
        forall|i: int| 0 <= i < properties.len() ==> reads_back(#[trigger] properties[i]),
    ensures
        read_back(serialized(properties, excluded)) == Some(
            properties.map_values(|p: PropertyView| pair_of(p)),
        ),
{
    let parts = entries(properties, excluded);
    let text = serialized(properties, excluded);
    let body = text.subrange(1, text.len() - 1);
    lemma_all_kept(properties, excluded);
    assert(body =~= join(parts, separator()));
    if properties.len() > 0 {
        assert forall|i: int| 0 <= i < parts.len() implies is_first_occurrence(
            #[trigger] parts[i] + separator(),
            separator(),
            parts[i].len() as int,
        ) by {
            lemma_entry_then_separator(properties[i]);
        }
        lemma_split_join(parts, separator());
        let pieces = split(body, separator());
        assert(pieces == parts);
        assert forall|i: int| 0 <= i < pieces.len() implies read_entry(#[trigger] pieces[i])
            == Some(pair_of(properties[i])) by {
            lemma_read_entry(properties[i]);
        }
        assert(pieces.map_values(|piece: Seq<char>| read_entry(piece)->0)
            =~= properties.map_values(|p: PropertyView| pair_of(p)));
    }
}

/// A piece that is read as a key and a value is the entry of that key and
/// value, and in the key followed by `":"` that mark stands first at the end.
proof fn lemma_read_entry_back(piece: Seq<char>, property: PropertyView)
    requires
        property.value is Some,
        read_entry(piece) == Some(pair_of(property)),
    ensures
        piece == entry(property),
        is_first_occurrence(
            property.name + key_value_mark(),
            key_value_mark(),
            property.name.len() as int,
        ),
{
    let name = property.name;
    let value = property.value->0;
    let mark = key_value_mark();
    let inner = piece.subrange(1, piece.len() - 1);
    lemma_first_occurrence(inner, mark);
    assert(inner =~= name + mark + value);
    assert(occurs_at(name + mark, mark, name.len() as int));
    assert forall|earlier: int| 0 <= earlier < name.len() implies !occurs_at(
        name + mark,
        mark,
        earlier,
    ) by {
        if occurs_at(name + mark, mark, earlier) {
            assert(occurs_at(inner, mark, earlier));
        }
    }
}

/// The round trip holds of no other properties: where serialized properties
/// that all have a value, none with an excluded name, are read back as what
/// they were, each of them reads back.
pub proof fn lemma_round_trip_converse(properties: Seq<PropertyView>, excluded: Set<Seq<char>>)
    requires
        forall|i: int|
            0 <= i < properties.len() ==> !excluded.contains(#[trigger] properties[i].name),
        forall|i: int| 0 <= i < properties.len() ==> (#[trigger] properties[i]).value is Some,
        read_back(serialized(properties, excluded)) == Some(
            properties.map_values(|p: PropertyView| pair_of(p)),
        ),
    ensures
        forall|i: int| 0 <= i < properties.len() ==> reads_back(#[trigger] properties[i]),
{
    let parts = entries(properties, excluded);
    let text = serialized(properties, excluded);
    let body = text.subrange(1, text.len() - 1);
    let pairs = properties.map_values(|p: PropertyView| pair_of(p));
    let pieces = split(body, separator());
    lemma_all_kept(properties, excluded);
    assert(body =~= join(parts, separator()));
    if properties.len() > 0 {
        assert(body.len() >= parts.last().len());
        assert(pieces.map_values(|piece: Seq<char>| read_entry(piece)->0) == pairs);
        assert(pieces.len() == properties.len());
        lemma_split_pieces(body, separator());
        assert forall|i: int| 0 <= i < properties.len() implies reads_back(
            #[trigger] properties[i],
        ) by {
            let property = properties[i];
            let name = property.name;
            let value = property.value->0;
            assert(pieces.map_values(|piece: Seq<char>| read_entry(piece)->0)[i] == pairs[i]);
            lemma_read_entry_back(pieces[i], property);
            let whole = entry(property);
            assert(!occurs_in(whole, separator()));
            assert forall|p: int| !occurs_at(name, separator(), p) by {
                if occurs_at(name, separator(), p) {
                    assert(occurs_at(whole, separator(), p + 1));
                }
            }
            assert forall|p: int| !occurs_at(value, separator(), p) by {
                if occurs_at(value, separator(), p) {
                    assert(occurs_at(whole, separator(), p + name.len() + 4));
                }
            }
        }
    }
}

} // verus!
