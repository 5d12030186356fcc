//! The word codec: an identifier written as `adjective-adjective-verb`, and
//! read back.

use vstd::prelude::*;
use crate::identifier::{parsed, Identifier};
use crate::table::{index_of_word, valid_words, word_at, WordTable};
use crate::text;

verus! {

/// The character between the words of an alias.
pub const SEPARATOR: char = '-';

/// The identifier that `alias` names: the alias must fall into exactly three
/// pieces at its separators, the first two of them adjectives and the third a
/// verb; the bytes are the positions of the three words.
pub open spec fn decoded(
    adjectives: Seq<Seq<char>>,
    verbs: Seq<Seq<char>>,
    alias: Seq<char>,
) -> Option<Identifier> {
    let parts = text::pieces(alias, SEPARATOR);
    if parts.len() == 3 {
        match (
            index_of_word(adjectives, parts[0]),
            index_of_word(adjectives, parts[1]),
            index_of_word(verbs, parts[2]),
        ) {
            (Some(b0), Some(b1), Some(b2)) => Some(Identifier { b0, b1, b2 }),
            _ => None,
        }
    } else {
        None
    }
}

/// The alias of `id`: the adjectives of its first two bytes and the verb of
/// its third, joined by the separator; `None` where a byte has no word.
pub open spec fn encoded(
    adjectives: Seq<Seq<char>>,
    verbs: Seq<Seq<char>>,
    id: Identifier,
) -> Option<Seq<char>> {
    match (word_at(adjectives, id.b0), word_at(adjectives, id.b1), word_at(verbs, id.b2)) {
        (Some(w0), Some(w1), Some(w2)) => Some(text::joined(seq![w0, w1, w2], SEPARATOR)),
        _ => None,
    }
}

/// The two tables that aliases are made of.
pub struct WordCodec {
    pub adjectives: WordTable,
    pub verbs: WordTable,
}

impl WordCodec {
    /// A codec over the two tables.
    pub fn new(adjectives: WordTable, verbs: WordTable) -> (codec: WordCodec)
        ensures
            codec.adjectives == adjectives,
            codec.verbs == verbs,
    {
        WordCodec { adjectives, verbs }
    }

    /// Reads an alias. An alias of the wrong shape, or with a word that its
    /// table lacks, names nothing.
    pub fn alias_to_identifier(&self, alias: &str) -> (r: Option<Identifier>)
        ensures
            r == decoded(self.adjectives@, self.verbs@, alias@),
            text::pieces(alias@, SEPARATOR).len() != 3 ==> r is None,
            r is Some ==> {
                let parts = text::pieces(alias@, SEPARATOR);
                &&& self.adjectives@.contains(parts[0])
                &&& self.adjectives@.contains(parts[1])
                &&& self.verbs@.contains(parts[2])
            },
    {
        let parts = text::split(alias, SEPARATOR);
        assert(text::views(parts@).len() == parts@.len());
        if parts.len() != 3 {
            return None;
        }
        assert(text::views(parts@)[0] == parts@[0]@);
        assert(text::views(parts@)[1] == parts@[1]@);
        assert(text::views(parts@)[2] == parts@[2]@);
        let b0 = self.adjectives.lookup_index(parts[0].as_str());
        let b1 = self.adjectives.lookup_index(parts[1].as_str());
        let b2 = self.verbs.lookup_index(parts[2].as_str());
        match (b0, b1, b2) {
            (Some(b0), Some(b1), Some(b2)) => Some(Identifier { b0, b1, b2 }),
            _ => None,
        }
    }

    /// Writes the alias of `id`, where each of its bytes has a word.
    pub fn identifier_to_alias(&self, id: Identifier) -> (r: Option<String>)
        ensures
            match r {
                Some(alias) => encoded(self.adjectives@, self.verbs@, id) == Some(alias@),
                None => encoded(self.adjectives@, self.verbs@, id) is None,
            },
    {
        let w0 = self.adjectives.lookup_word(id.b0);
        let w1 = self.adjectives.lookup_word(id.b1);
        let w2 = self.verbs.lookup_word(id.b2);
        match (w0, w1, w2) {
            (Some(w0), Some(w1), Some(w2)) => {
                let mut words: Vec<String> = Vec::new();
                words.push(w0.to_owned());
                words.push(w1.to_owned());
                words.push(w2.to_owned());
                assert(text::views(words@) =~= seq![w0@, w1@, w2@]);
                Some(text::join(&words, SEPARATOR))
            },
            _ => None,
        }
    }
}

/// The canonical name of the note that the word alias `url` names.
pub fn wurltonurl(codec: &WordCodec, url: String) -> (r: Option<String>)
    ensures
        match r {
            Some(name) => decoded(codec.adjectives@, codec.verbs@, url@) is Some && name@
                == decoded(codec.adjectives@, codec.verbs@, url@)->0.canonical(),
            None => decoded(codec.adjectives@, codec.verbs@, url@) is None,
        },
{
    match codec.alias_to_identifier(url.as_str()) {
        Some(id) => Some(id.to_hex()),
        None => None,
    }
}

/// The word alias of the note whose canonical name is `url`.
pub fn nurltowurl(codec: &WordCodec, url: String) -> (r: Option<String>)
    ensures
        match r {
            Some(alias) => parsed(url@) is Some && encoded(
                codec.adjectives@,
                codec.verbs@,
                parsed(url@)->0,
            ) == Some(alias@),
            None => parsed(url@) is None || encoded(
                codec.adjectives@,
                codec.verbs@,
                parsed(url@)->0,
            ) is None,
        },
{
    match Identifier::from_hex(url.as_str()) {
        Some(id) => codec.identifier_to_alias(id),
        None => None,
    }
}

/// Reading the alias that was written for an identifier gives the identifier
/// back, provided that none of its three words holds the separator.
pub proof fn lemma_decode_encoded(
    adjectives: Seq<Seq<char>>,
    verbs: Seq<Seq<char>>,
    id: Identifier,
)
    requires
        valid_words(adjectives),
        valid_words(verbs),
        encoded(adjectives, verbs, id) is Some,
        !adjectives[id.b0 as int].contains(SEPARATOR),
        !adjectives[id.b1 as int].contains(SEPARATOR),
        !verbs[id.b2 as int].contains(SEPARATOR),
    ensures
        decoded(adjectives, verbs, encoded(adjectives, verbs, id)->0) == Some(id),
{
    let w0 = adjectives[id.b0 as int];
    let w1 = adjectives[id.b1 as int];
    let w2 = verbs[id.b2 as int];
    let parts = seq![w0, w1, w2];
    assert(text::all_free_of(parts, SEPARATOR));
    text::lemma_pieces_joined(parts, SEPARATOR);
    lemma_index_of_word_at(adjectives, id.b0);
    lemma_index_of_word_at(adjectives, id.b1);
    lemma_index_of_word_at(verbs, id.b2);
}

/// Writing the alias of the identifier that an alias names gives the alias
/// back.
pub proof fn lemma_encode_decoded(
    adjectives: Seq<Seq<char>>,
    verbs: Seq<Seq<char>>,
    alias: Seq<char>,
)
    requires
        valid_words(adjectives),
        valid_words(verbs),
        decoded(adjectives, verbs, alias) is Some,
    ensures
        encoded(adjectives, verbs, decoded(adjectives, verbs, alias)->0) == Some(alias),
{
    let parts = text::pieces(alias, SEPARATOR);
    let id = decoded(adjectives, verbs, alias)->0;
    lemma_word_at_index_of(adjectives, parts[0]);
    lemma_word_at_index_of(adjectives, parts[1]);
    lemma_word_at_index_of(verbs, parts[2]);
    assert(seq![parts[0], parts[1], parts[2]] =~= parts);
    text::lemma_joined_pieces(alias, SEPARATOR);
}

/// In a valid list the word of a byte stands for that byte.
pub proof fn lemma_index_of_word_at(words: Seq<Seq<char>>, index: u8)
    requires
        valid_words(words),
        word_at(words, index) is Some,
    ensures
        index_of_word(words, word_at(words, index)->0) == Some(index),
{
    let word = words[index as int];
    assert(words.contains(word));
    let found = words.index_of(word);
    assert(0 <= found < words.len() && words[found] == word);
}

/// In a valid list the byte of a word has that word.
pub proof fn lemma_word_at_index_of(words: Seq<Seq<char>>, word: Seq<char>)
    requires
        valid_words(words),
        index_of_word(words, word) is Some,
    ensures
        word_at(words, index_of_word(words, word)->0) == Some(word),
{
    let found = words.index_of(word);
    assert(0 <= found < words.len() && words[found] == word);
}

/// An alias with other than two separators names nothing.
pub proof fn lemma_wrong_separator_count(
    adjectives: Seq<Seq<char>>,
    verbs: Seq<Seq<char>>,
    alias: Seq<char>,
)
    requires
        text::occurrences(alias, SEPARATOR) != 2,
    ensures
        decoded(adjectives, verbs, alias) is None,
{
    text::lemma_pieces_count(alias, SEPARATOR);
}

/// An alias with a word that its table lacks names nothing.
pub proof fn lemma_unknown_word(
    adjectives: Seq<Seq<char>>,
    verbs: Seq<Seq<char>>,
    alias: Seq<char>,
)
    requires
        text::pieces(alias, SEPARATOR).len() == 3,
        !adjectives.contains(text::pieces(alias, SEPARATOR)[0]) || !adjectives.contains(
            text::pieces(alias, SEPARATOR)[1],
        ) || !verbs.contains(text::pieces(alias, SEPARATOR)[2]),
    ensures
        decoded(adjectives, verbs, alias) is None,
{
}

} // verus!
