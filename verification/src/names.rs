//! Lists of names, and the comma-separated texts that stand for them.

use vstd::prelude::*;
use vstd::string::*;

verus! {

/// The views of a list of names, in order.
pub open spec fn name_views(names: Seq<String>) -> Seq<Seq<char>> {
    Seq::new(names.len(), |i: int| names[i]@)
}

/// The view of a text that may be absent.
pub open spec fn text_view(text: Option<String>) -> Option<Seq<char>> {
    match text {
        Some(text) => Some(text@),
        None => None,
    }
}

/// The views of a list of names that may be absent.
pub open spec fn optional_name_views(names: Option<Vec<String>>) -> Option<Seq<Seq<char>>> {
    match names {
        Some(names) => Some(name_views(names@)),
        None => None,
    }
}

/// The names that a comma-separated text lists: the pieces between the
/// commas, each taken verbatim. A text without a comma is one name, the empty
/// text too.
pub open spec fn split_names(text: Seq<char>) -> Seq<Seq<char>>
    decreases text.len(),
{
    if text.len() == 0 {
        seq![Seq::empty()]
    } else {
        let earlier = split_names(text.drop_last());
        if text.last() == ',' {
            earlier.push(Seq::empty())
        } else {
            earlier.drop_last().push(earlier.last().push(text.last()))
        }
    }
}

/// The names of an optional comma-separated text: none where no text is
/// given.
pub open spec fn requested_names(text: Option<Seq<char>>) -> Seq<Seq<char>> {
    match text {
        Some(text) => split_names(text),
        None => Seq::empty(),
    }
}

/// The names joined again, with a comma between each two.
pub open spec fn joined_names(names: Seq<Seq<char>>) -> Seq<char>
    decreases names.len(),
{
    if names.len() == 0 {
        Seq::empty()
    } else if names.len() == 1 {
        names[0]
    } else {
        joined_names(names.drop_last()) + seq![','] + names.last()
    }
}

/// Splitting loses nothing: there is at least one name, no name holds a
/// comma, and the names joined by commas are the text.
pub proof fn lemma_split_names(text: Seq<char>)
    ensures
        split_names(text).len() >= 1,
        forall|i: int|
            0 <= i < split_names(text).len() ==> !(#[trigger] split_names(text)[i]).contains(','),
        joined_names(split_names(text)) == text,
    decreases text.len(),
{
    if text.len() == 0 {
        assert(joined_names(split_names(text)) =~= text);
    } else {
        let front = text.drop_last();
        lemma_split_names(front);
        let earlier = split_names(front);
        if text.last() == ',' {
            let names = earlier.push(Seq::empty());
            assert(names.drop_last() =~= earlier);
            assert(joined_names(names) =~= text);
        } else {
            let grown = earlier.last().push(text.last());
            let names = earlier.drop_last().push(grown);
            assert forall|i: int| 0 <= i < names.len() implies !(#[trigger] names[i]).contains(
                ',',
            ) by {
                if i == names.len() - 1 {
                    assert(!earlier[earlier.len() - 1].contains(','));
                    if grown.contains(',') {
                        let k = choose|k: int| 0 <= k < grown.len() && grown[k] == ',';
                        assert(earlier.last()[k] == ',');
                    }
                } else {
                    assert(names[i] == earlier[i]);
                }
            }
            if earlier.len() == 1 {
                assert(joined_names(names) =~= text);
            } else {
                assert(names.drop_last() =~= earlier.drop_last());
                assert(names.last() == grown);
                assert(joined_names(earlier) == joined_names(earlier.drop_last()) + seq![',']
                    + earlier.last());
                assert(joined_names(names) == joined_names(earlier.drop_last()) + seq![',']
                    + grown);
                assert(text =~= front.push(text.last()));
                assert(joined_names(names) =~= text);
            }
        }
    }
}

/// Splits a comma-separated text into its names.
pub fn split_commas(text: &str) -> (names: Vec<String>)
    ensures
        name_views(names@) == split_names(text@),
{
    let length: usize = text.unicode_len();
    let mut names: Vec<String> = Vec::new();
    let mut start: usize = 0;
    let mut position: usize = 0;
    proof {
        assert(text@.take(0) =~= Seq::<char>::empty());
        assert(text@.subrange(0, 0) =~= Seq::<char>::empty());
        assert(name_views(names@).push(Seq::<char>::empty()) =~= seq![Seq::<char>::empty()]);
    }
    for c in it: text.chars()
        invariant
            it.seq() == text@,
            length == text@.len(),
            position == it.index(),
            start <= position,
            name_views(names@).push(text@.subrange(start as int, position as int)) == split_names(
                text@.take(position as int),
            ),
    {
        proof {
            let next = text@.take(position + 1);
            assert(next.drop_last() =~= text@.take(position as int));
            assert(next.last() == c);
        }
        if c == ',' {
            let piece = text.substring_char(start, position).to_owned();
            proof {
                assert(name_views(names@.push(piece)) =~= name_views(names@).push(piece@));
                assert(text@.subrange(position + 1, position + 1) =~= Seq::<char>::empty());
            }
            names.push(piece);
            start = position + 1;
        } else {
            proof {
                let earlier = name_views(names@).push(
                    text@.subrange(start as int, position as int),
                );
                assert(earlier.drop_last() =~= name_views(names@));
                assert(text@.subrange(start as int, position + 1) =~= text@.subrange(
                    start as int,
                    position as int,
                ).push(c));
            }
        }
        position += 1;
    }
    let piece = text.substring_char(start, length).to_owned();
    proof {
        assert(name_views(names@.push(piece)) =~= name_views(names@).push(piece@));
        assert(text@.take(length as int) =~= text@);
    }
    names.push(piece);
    names
}

/// Whether `name` stands in the list.
pub fn contains_name(names: &[String], name: &String) -> (found: bool)
    ensures
        found == name_views(names@).contains(name@),
{
    let mut i: usize = 0;
    while i < names.len()
        invariant
            i <= names.len(),
            forall|j: int| 0 <= j < i ==> name_views(names@)[j] != name@,
        decreases names.len() - i,
    {
        if names[i] == *name {
            assert(name_views(names@)[i as int] == name@);
            return true;
        }
        i += 1;
    }
    false
}

} // verus!
