//! A word table: an ordered list of distinct words, each standing for the
//! byte that is its position in the list.

use vstd::prelude::*;
use crate::text;

verus! {

/// The most words a table can hold: one for every value of a byte.
pub const MAX_WORDS: usize = 256;

/// What a table's word list must satisfy: no more words than a byte can
/// address, and no word twice.
pub open spec fn valid_words(words: Seq<Seq<char>>) -> bool {
    words.len() <= MAX_WORDS && words.no_duplicates()
}

/// The byte of `word` in `words`, or `None` where the list lacks the word.
pub open spec fn index_of_word(words: Seq<Seq<char>>, word: Seq<char>) -> Option<u8> {
    if words.contains(word) {
        Some(words.index_of(word) as u8)
    } else {
        None
    }
}

/// The word of byte `index` in `words`, or `None` where the list is shorter.
pub open spec fn word_at(words: Seq<Seq<char>>, index: u8) -> Option<Seq<char>> {
    if (index as int) < words.len() {
        Some(words[index as int])
    } else {
        None
    }
}

/// Why a list of words is no table.
#[derive(Clone, Copy, Debug, PartialEq, Eq, Structural)]
pub enum TableError {
    /// The list holds more than `MAX_WORDS` words.
    TooManyWords,
    /// Some word stands in the list twice.
    DuplicateWord,
}

/// An immutable table of words.
pub struct WordTable {
    words: Vec<String>,
}

impl View for WordTable {
    type V = Seq<Seq<char>>;

    /// The words in the order of their bytes.
    closed spec fn view(&self) -> Seq<Seq<char>> {
        text::views(self.words@)
    }
}

impl WordTable {
    /// Every table holds a valid list of words.
    #[verifier::type_invariant]
    pub open spec fn inv(&self) -> bool {
        valid_words(self@)
    }

    /// Makes a table in which the word at position `i` of `words` stands for
    /// byte `i`. A list that is too long is refused before duplicates are
    /// looked for.
    pub fn new(words: Vec<String>) -> (r: Result<WordTable, TableError>)
        ensures
            match r {
                Ok(table) => table@ == text::views(words@) && valid_words(table@),
                Err(TableError::TooManyWords) => words@.len() > MAX_WORDS,
                Err(TableError::DuplicateWord) => words@.len() <= MAX_WORDS && !text::views(
                    words@,
                ).no_duplicates(),
            },
    {
        let n = words.len();
        if n > MAX_WORDS {
            return Err(TableError::TooManyWords);
        }
        let ghost model = text::views(words@);
        let mut i: usize = 0;
        while i < n
            invariant
                i <= n,
                n == words@.len(),
                n <= MAX_WORDS,
                model == text::views(words@),
                forall|a: int, b: int| 0 <= a < b < i ==> model[a] != model[b],
            decreases n - i,
        {
            let mut j: usize = 0;
            while j < i
                invariant
                    j <= i,
                    i < n,
                    n == words@.len(),
                    n <= MAX_WORDS,
                    model == text::views(words@),
                    forall|a: int| 0 <= a < j ==> model[a] != model[i as int],
                decreases i - j,
            {
                if words[j] == words[i] {
                    assert(!model.no_duplicates()) by {
                        assert(model[j as int] == model[i as int]);
                    }
                    return Err(TableError::DuplicateWord);
                }
                j = j + 1;
            }
            i = i + 1;
        }
        assert(model.no_duplicates()) by {
            assert forall|a: int, b: int|
                0 <= a < model.len() && 0 <= b < model.len() && a != b implies model[a]
                != model[b] by {
                if a < b {
                    assert(model[a] != model[b]);
                } else {
                    assert(model[b] != model[a]);
                }
            }
        }
        Ok(WordTable { words })
    }

    /// Makes a table from a text that holds one word per line: the text is
    /// split at every line feed and the pieces are the words, so a text that
    /// ends in a line feed has the empty word last.
    pub fn from_lines(lines: &str) -> (r: Result<WordTable, TableError>)
        ensures
            match r {
                Ok(table) => table@ == text::pieces(lines@, '\n') && valid_words(table@),
                Err(TableError::TooManyWords) => text::pieces(lines@, '\n').len() > MAX_WORDS,
                Err(TableError::DuplicateWord) => text::pieces(lines@, '\n').len() <= MAX_WORDS
                    && !text::pieces(lines@, '\n').no_duplicates(),
            },
    {
        let words = text::split(lines, '\n');
        assert(text::views(words@).len() == words@.len());
        WordTable::new(words)
    }

    /// The number of words.
    pub fn len(&self) -> (n: usize)
        ensures
            n == self@.len(),
            n <= MAX_WORDS,
    {
        proof {
            use_type_invariant(self);
        }
        self.words.len()
    }

    /// The byte that `word` stands for, if the table holds the word.
    pub fn lookup_index(&self, word: &str) -> (r: Option<u8>)
        ensures
            r == index_of_word(self@, word@),
    {
        proof {
            use_type_invariant(self);
        }
        let wanted = word.to_owned();
        let n = self.words.len();
        let mut i: usize = 0;
        while i < n
            invariant
                i <= n,
                n == self.words@.len(),
                n <= MAX_WORDS,
                self@ == text::views(self.words@),
                self@.no_duplicates(),
                wanted@ == word@,
                forall|a: int| 0 <= a < i ==> self@[a] != word@,
            decreases n - i,
        {
            if self.words[i] == wanted {
                assert(self@[i as int] == word@);
                assert(self@.contains(word@));
                return Some(i as u8);
            }
            i = i + 1;
        }
        assert(!self@.contains(word@));
        None
    }

    /// The word that stands for byte `index`, if the table reaches so far.
    pub fn lookup_word(&self, index: u8) -> (r: Option<&str>)
        ensures
            match r {
                Some(word) => word_at(self@, index) == Some(word@),
                None => word_at(self@, index) is None,
            },
    {
        if (index as usize) < self.words.len() {
            Some(self.words[index as usize].as_str())
        } else {
            None
        }
    }
}

} // verus!
