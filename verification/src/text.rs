//! Strings as sequences of characters: reading one, building one, splitting on
//! a separator and joining again.

use vstd::prelude::*;

verus! {

/// `String::push` appends the one character to the end of the string and
/// leaves what was there before in place.
pub assume_specification[ String::push ](s: &mut String, c: char)
    ensures
        final(s)@ == old(s)@.push(c),
;

/// The characters of `s`, in order.
pub fn chars_of(s: &str) -> (v: Vec<char>)
    ensures
        v@ == s@,
{
    let mut v: Vec<char> = Vec::new();
    for c in it: s.chars()
        invariant
            it.seq() == s@,
            v@ == s@.take(it.index() as int),
    {
        v.push(c);
    }
    v
}

/// The character sequences of a list of strings.
pub open spec fn views(parts: Seq<String>) -> Seq<Seq<char>> {
    Seq::new(parts.len(), |i: int| parts[i]@)
}

/// The pieces of `s` that lie between the occurrences of `sep`: one more
/// piece than there are separators, so never none, and each free of `sep`.
pub open spec fn pieces(s: Seq<char>, sep: char) -> Seq<Seq<char>>
    decreases s.len(),
{
    if s.len() == 0 {
        seq![Seq::empty()]
    } else {
        let before = pieces(s.drop_last(), sep);
        if s.last() == sep {
            before.push(Seq::empty())
        } else {
            before.drop_last().push(before.last().push(s.last()))
        }
    }
}

/// The parts written one after the other with `sep` between neighbours.
pub open spec fn joined(parts: Seq<Seq<char>>, sep: char) -> Seq<char>
    decreases parts.len(),
{
    if parts.len() == 0 {
        Seq::empty()
    } else if parts.len() == 1 {
        parts[0]
    } else {
        joined(parts.drop_last(), sep).push(sep) + parts.last()
    }
}

/// Whether no part holds the separator.
pub open spec fn all_free_of(parts: Seq<Seq<char>>, sep: char) -> bool {
    forall|i: int| 0 <= i < parts.len() ==> !(#[trigger] parts[i]).contains(sep)
}

/// How often `sep` stands in `s`.
pub open spec fn occurrences(s: Seq<char>, sep: char) -> nat
    decreases s.len(),
{
    if s.len() == 0 {
        0
    } else if s.last() == sep {
        occurrences(s.drop_last(), sep) + 1
    } else {
        occurrences(s.drop_last(), sep)
    }
}

/// A text falls into one more piece than it holds separators.
pub proof fn lemma_pieces_count(s: Seq<char>, sep: char)
    ensures
        pieces(s, sep).len() == occurrences(s, sep) + 1,
    decreases s.len(),
{
    if s.len() > 0 {
        lemma_pieces_count(s.drop_last(), sep);
    }
}

/// Splitting always yields at least one piece.
pub proof fn lemma_pieces_nonempty(s: Seq<char>, sep: char)
    ensures
        pieces(s, sep).len() >= 1,
    decreases s.len(),
{
    if s.len() > 0 {
        lemma_pieces_nonempty(s.drop_last(), sep);
    }
}

/// No piece holds the separator.
pub proof fn lemma_pieces_free(s: Seq<char>, sep: char)
    ensures
        all_free_of(pieces(s, sep), sep),
    decreases s.len(),
{
    if s.len() > 0 {
        lemma_pieces_nonempty(s.drop_last(), sep);
        lemma_pieces_free(s.drop_last(), sep);
        let before = pieces(s.drop_last(), sep);
        if s.last() != sep {
            let grown = before.last().push(s.last());
            assert forall|k: int| 0 <= k < grown.len() implies grown[k] != sep by {
                if k < before.last().len() {
                    assert(before.last()[k] == grown[k]);
                    assert(!before[before.len() - 1].contains(sep));
                }
            }
            assert forall|i: int| 0 <= i < pieces(s, sep).len() implies !(#[trigger] pieces(
                s,
                sep,
            )[i]).contains(sep) by {
                if i < before.len() - 1 {
                    assert(pieces(s, sep)[i] == before[i]);
                }
            }
        } else {
            assert forall|i: int| 0 <= i < pieces(s, sep).len() implies !(#[trigger] pieces(
                s,
                sep,
            )[i]).contains(sep) by {
                if i < before.len() {
                    assert(pieces(s, sep)[i] == before[i]);
                }
            }
        }
    }
}

/// Appending a character to the last part appends it to the joined text.
proof fn lemma_joined_grow_last(parts: Seq<Seq<char>>, sep: char, c: char)
    requires
        parts.len() >= 1,
    ensures
        joined(parts.drop_last().push(parts.last().push(c)), sep) == joined(parts, sep).push(c),
{
    let grown = parts.drop_last().push(parts.last().push(c));
    if parts.len() == 1 {
        assert(grown[0] == parts[0].push(c));
    } else {
        assert(grown.drop_last() =~= parts.drop_last());
        assert(joined(grown, sep) =~= joined(parts, sep).push(c));
    }
}

/// Joining the pieces of a text with the separator gives the text back.
pub proof fn lemma_joined_pieces(s: Seq<char>, sep: char)
    ensures
        joined(pieces(s, sep), sep) == s,
    decreases s.len(),
{
    if s.len() == 0 {
        assert(joined(pieces(s, sep), sep) =~= s);
    } else {
        let before = pieces(s.drop_last(), sep);
        lemma_pieces_nonempty(s.drop_last(), sep);
        lemma_joined_pieces(s.drop_last(), sep);
        if s.last() == sep {
            let after = before.push(Seq::empty());
            assert(after.drop_last() =~= before);
            assert(joined(after, sep) =~= s);
        } else {
            lemma_joined_grow_last(before, sep, s.last());
            assert(s.drop_last().push(s.last()) =~= s);
        }
    }
}

/// A text without the separator is its own single piece.
pub proof fn lemma_pieces_of_free(s: Seq<char>, sep: char)
    requires
        !s.contains(sep),
    ensures
        pieces(s, sep) == seq![s],
    decreases s.len(),
{
    if s.len() == 0 {
        assert(s =~= Seq::empty());
    } else {
        assert(s[s.len() - 1] != sep);
        assert forall|k: int| 0 <= k < s.drop_last().len() implies s.drop_last()[k] != sep by {
            assert(s[k] != sep);
        }
        lemma_pieces_of_free(s.drop_last(), sep);
        assert(s.drop_last().push(s.last()) =~= s);
        assert(pieces(s, sep) =~= seq![s]);
    }
}

/// After a separator, a text without the separator is one further piece.
pub proof fn lemma_pieces_append(head: Seq<char>, tail: Seq<char>, sep: char)
    requires
        !tail.contains(sep),
    ensures
        pieces(head.push(sep) + tail, sep) == pieces(head, sep).push(tail),
    decreases tail.len(),
{
    let whole = head.push(sep) + tail;
    if tail.len() == 0 {
        assert(whole.drop_last() =~= head);
        assert(tail =~= Seq::empty());
    } else {
        assert(tail[tail.len() - 1] != sep);
        assert forall|k: int| 0 <= k < tail.drop_last().len() implies tail.drop_last()[k]
            != sep by {
            assert(tail[k] != sep);
        }
        lemma_pieces_append(head, tail.drop_last(), sep);
        assert(whole.drop_last() =~= head.push(sep) + tail.drop_last());
        assert(tail.drop_last().push(tail.last()) =~= tail);
        assert(pieces(whole, sep) =~= pieces(head, sep).push(tail));
    }
}

/// Splitting what was joined from parts without the separator gives the
/// parts back.
pub proof fn lemma_pieces_joined(parts: Seq<Seq<char>>, sep: char)
    requires
        parts.len() >= 1,
        all_free_of(parts, sep),
    ensures
        pieces(joined(parts, sep), sep) == parts,
    decreases parts.len(),
{
    if parts.len() == 1 {
        assert(!parts[0].contains(sep));
        lemma_pieces_of_free(parts[0], sep);
        assert(seq![parts[0]] =~= parts);
    } else {
        let init = parts.drop_last();
        assert forall|i: int| 0 <= i < init.len() implies !(#[trigger] init[i]).contains(sep) by {
            assert(init[i] == parts[i]);
        }
        lemma_pieces_joined(init, sep);
        assert(!parts[parts.len() - 1].contains(sep));
        lemma_pieces_append(joined(init, sep), parts.last(), sep);
        assert(init.push(parts.last()) =~= parts);
    }
}

/// Splits `s` at every `sep`.
pub fn split(s: &str, sep: char) -> (parts: Vec<String>)
    ensures
        views(parts@) == pieces(s@, sep),
{
    let mut parts: Vec<String> = Vec::new();
    let mut current = String::new();
    for c in it: s.chars()
        invariant
            it.seq() == s@,
            views(parts@).push(current@) == pieces(s@.take(it.index() as int), sep),
    {
        let ghost n = it.index() as int;
        proof {
            assert(s@.take(n + 1).drop_last() =~= s@.take(n));
            assert(s@.take(n + 1).last() == c);
        }
        if c == sep {
            let ghost before = views(parts@);
            parts.push(current);
            current = String::new();
            proof {
                assert(views(parts@) =~= before.push(parts@.last()@));
            }
        } else {
            let ghost before = views(parts@).push(current@);
            current.push(c);
            proof {
                assert(views(parts@).push(current@) =~= before.drop_last().push(
                    before.last().push(c),
                ));
            }
        }
    }
    proof {
        assert(s@.take(s@.len() as int) =~= s@);
    }
    let ghost before = views(parts@);
    parts.push(current);
    proof {
        assert(views(parts@) =~= before.push(parts@.last()@));
    }
    parts
}

/// Writes the parts one after the other with `sep` between neighbours.
pub fn join(parts: &Vec<String>, sep: char) -> (s: String)
    ensures
        s@ == joined(views(parts@), sep),
{
    let mut s = String::new();
    let mut i: usize = 0;
    while i < parts.len()
        invariant
            i <= parts.len(),
            s@ == joined(views(parts@).take(i as int), sep),
        decreases parts.len() - i,
    {
        let ghost done = views(parts@).take(i as int);
        let ghost next = views(parts@).take(i + 1);
        proof {
            assert(next.drop_last() =~= done);
            assert(next.last() == parts@[i as int]@);
        }
        if i > 0 {
            s.push(sep);
        }
        s.append(parts[i].as_str());
        proof {
            if i == 0 {
                assert(s@ =~= next[0]);
            }
        }
        i = i + 1;
    }
    proof {
        assert(views(parts@).take(parts.len() as int) =~= views(parts@));
    }
    s
}

} // verus!
