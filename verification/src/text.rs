//! Sequences of characters: patterns, joining and splitting, and the little
//! that the library needs from `String` beyond what vstd specifies.

use vstd::prelude::*;

verus! {

/// `String::push` of the standard library appends one character to the end of
/// the string and leaves the characters before it as they were.
pub assume_specification[ String::push ](text: &mut String, ch: char)
    ensures
        final(text)@ == old(text)@.push(ch),
;

/// Whether `pattern` stands in `text` at position `at`.
pub open spec fn occurs_at(text: Seq<char>, pattern: Seq<char>, at: int) -> bool {
    &&& 0 <= at
    &&& at + pattern.len() <= text.len()
    &&& forall|j: int| 0 <= j < pattern.len() ==> text[at + j] == #[trigger] pattern[j]
}

/// Whether `pattern` stands somewhere in `text`.
pub open spec fn occurs_in(text: Seq<char>, pattern: Seq<char>) -> bool {
    exists|at: int| occurs_at(text, pattern, at)
}

/// Whether `at` is the leftmost position at which `pattern` stands in `text`.
pub open spec fn is_first_occurrence(text: Seq<char>, pattern: Seq<char>, at: int) -> bool {
    &&& occurs_at(text, pattern, at)
    &&& forall|earlier: int| 0 <= earlier < at ==> !occurs_at(text, pattern, earlier)
}

/// The leftmost position at which `pattern` stands in `text`, if it does.
pub open spec fn first_occurrence(text: Seq<char>, pattern: Seq<char>) -> Option<int> {
    if exists|at: int| is_first_occurrence(text, pattern, at) {
        Some(choose|at: int| is_first_occurrence(text, pattern, at))
    } else {
        None
    }
}

/// The parts in order, with `separator` between each two neighbours.
pub open spec fn join(parts: Seq<Seq<char>>, separator: Seq<char>) -> Seq<char>
    decreases parts.len(),
{
    if parts.len() == 0 {
        Seq::empty()
    } else if parts.len() == 1 {
        parts[0]
    } else {
        join(parts.drop_last(), separator) + separator + parts.last()
    }
}

/// Joining one more part puts the separator before it, unless it is the first.
pub proof fn lemma_join_push(parts: Seq<Seq<char>>, last: Seq<char>, separator: Seq<char>)
    ensures
        join(parts.push(last), separator) == if parts.len() == 0 {
            last
        } else {
            join(parts, separator) + separator + last
        },
{
    assert(parts.push(last).drop_last() =~= parts);
}

/// `first_occurrence` is the one position that `is_first_occurrence` accepts,
/// and it exists exactly when the pattern occurs.
pub proof fn lemma_first_occurrence(text: Seq<char>, pattern: Seq<char>)
    ensures
        first_occurrence(text, pattern) is Some <==> occurs_in(text, pattern),
        forall|at: int|
            is_first_occurrence(text, pattern, at) <==> first_occurrence(text, pattern) == Some(at),
{
    if occurs_in(text, pattern) {
        let at = choose|at: int| occurs_at(text, pattern, at);
        lemma_first_occurrence_below(text, pattern, at);
    }
}

/// An occurrence at `at` forces a leftmost one at or before it.
proof fn lemma_first_occurrence_below(text: Seq<char>, pattern: Seq<char>, at: int)
    requires
        occurs_at(text, pattern, at),
    ensures
        exists|first: int| 0 <= first <= at && is_first_occurrence(text, pattern, first),
    decreases at,
{
    if exists|earlier: int| 0 <= earlier < at && occurs_at(text, pattern, earlier) {
        let earlier = choose|earlier: int| 0 <= earlier < at && occurs_at(text, pattern, earlier);
        lemma_first_occurrence_below(text, pattern, earlier);
    } else {
        assert(is_first_occurrence(text, pattern, at));
    }
}

/// The pieces of `text` between the occurrences of `separator`, found from
/// the left and not overlapping. A text without the separator is one piece.
pub open spec fn split(text: Seq<char>, separator: Seq<char>) -> Seq<Seq<char>>
    decreases text.len(),
{
    if separator.len() > 0 && first_occurrence(text, separator) is Some {
        let at = first_occurrence(text, separator)->0;
        seq![text.take(at)] + split(text.skip(at + separator.len()), separator)
    } else {
        seq![text]
    }
}

/// The separator stands in none of the pieces that a text is split into.
pub proof fn lemma_split_pieces(text: Seq<char>, separator: Seq<char>)
    requires
        separator.len() > 0,
    ensures
        forall|i: int|
            0 <= i < split(text, separator).len() ==> !occurs_in(
                #[trigger] split(text, separator)[i],
                separator,
            ),
    decreases text.len(),
{
    lemma_first_occurrence(text, separator);
    if first_occurrence(text, separator) is Some {
        let at = first_occurrence(text, separator)->0;
        let head = text.take(at);
        let rest = split(text.skip(at + separator.len()), separator);
        lemma_split_pieces(text.skip(at + separator.len()), separator);
        assert forall|p: int| !occurs_at(head, separator, p) by {
            if occurs_at(head, separator, p) {
                assert(occurs_at(text, separator, p));
            }
        }
        assert forall|i: int| 0 <= i < split(text, separator).len() implies !occurs_in(
            #[trigger] split(text, separator)[i],
            separator,
        ) by {
            if i > 0 {
                assert(split(text, separator)[i] == rest[i - 1]);
            }
        }
    }
}

/// A joined text starts with its first part; the others follow the separator.
pub proof fn lemma_join_front(parts: Seq<Seq<char>>, separator: Seq<char>)
    requires
        parts.len() >= 2,
    ensures
        join(parts, separator) == parts[0] + separator + join(parts.drop_first(), separator),
    decreases parts.len(),
{
    if parts.len() == 2 {
        assert(parts.drop_last() =~= seq![parts[0]]);
        assert(join(seq![parts[0]], separator) == parts[0]);
    } else {
        lemma_join_front(parts.drop_last(), separator);
        assert(parts.drop_last().drop_first() =~= parts.drop_first().drop_last());
    }
}

/// Where `pattern` stands in `head + pattern` first at the end, it stands in
/// `head + pattern + tail` first at that place too.
pub proof fn lemma_first_occurrence_extends(head: Seq<char>, pattern: Seq<char>, tail: Seq<char>)
    requires
        is_first_occurrence(head + pattern, pattern, head.len() as int),
    ensures
        is_first_occurrence(head + pattern + tail, pattern, head.len() as int),
        first_occurrence(head + pattern + tail, pattern) == Some(head.len() as int),
{
    let short = head + pattern;
    let long = head + pattern + tail;
    assert forall|j: int| 0 <= j < pattern.len() implies long[head.len() + j]
        == #[trigger] pattern[j] by {}
    assert forall|earlier: int| 0 <= earlier < head.len() implies !occurs_at(
        long,
        pattern,
        earlier,
    ) by {
        if occurs_at(long, pattern, earlier) {
            assert(occurs_at(short, pattern, earlier));
        }
    }
    lemma_first_occurrence(long, pattern);
}

/// Splitting a joined text gives the parts back, provided that in each part
/// followed by the separator the separator stands nowhere but at the end.
pub proof fn lemma_split_join(parts: Seq<Seq<char>>, separator: Seq<char>)
    requires
        separator.len() > 0,
        parts.len() > 0,
        forall|i: int|
            0 <= i < parts.len() ==> is_first_occurrence(
                #[trigger] parts[i] + separator,
                separator,
                parts[i].len() as int,
            ),
    ensures
        split(join(parts, separator), separator) == parts,
    decreases parts.len(),
{
    let head = parts[0];
    let text = join(parts, separator);
    if parts.len() == 1 {
        assert forall|at: int| !occurs_at(text, separator, at) by {
            if occurs_at(text, separator, at) {
                assert(occurs_at(head + separator, separator, at));
            }
        }
        lemma_first_occurrence(text, separator);
    } else {
        let rest = parts.drop_first();
        let tail = join(rest, separator);
        lemma_join_front(parts, separator);
        lemma_first_occurrence_extends(head, separator, tail);
        assert(text.take(head.len() as int) =~= head);
        assert(text.skip((head.len() + separator.len()) as int) =~= tail);
        assert forall|i: int| 0 <= i < rest.len() implies is_first_occurrence(
            #[trigger] rest[i] + separator,
            separator,
            rest[i].len() as int,
        ) by {
            assert(rest[i] == parts[i + 1]);
        }
        lemma_split_join(rest, separator);
        assert(split(text, separator) =~= seq![head] + rest);
    }
}

/// Whether `target` is one of the characters of `text`.
pub fn has_char(text: &str, target: char) -> (found: bool)
    ensures
        found == text@.contains(target),
{
    let mut found = false;
    for c in it: text.chars()
        invariant
            it.seq() == text@,
            found == exists|i: int| 0 <= i < it.index() && text@[i] == target,
    {
        if c == target {
            found = true;
        }
    }
    found
}

} // verus!
