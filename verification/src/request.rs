//! What a request names and what a rendered note shows.
//!
//! A note is fetched by its canonical name or by its alias; a rendered note
//! shows both, and the path under which its bare text is served.

use vstd::prelude::*;
use vstd::string::*;
use crate::codec::{decoded, encoded, WordCodec};
use crate::identifier::{parsed, Identifier};

verus! {

/// The number of characters of a canonical name.
pub const NAME_LENGTH: usize = 6;

/// The note that a path segment names: a segment of six characters is read
/// as a canonical name, every other segment as an alias.
pub open spec fn resolved(
    adjectives: Seq<Seq<char>>,
    verbs: Seq<Seq<char>>,
    segment: Seq<char>,
) -> Option<Identifier> {
    if segment.len() == NAME_LENGTH {
        parsed(segment)
    } else {
        decoded(adjectives, verbs, segment)
    }
}

/// What stands before the canonical name in the path of a note's bare text.
pub open spec fn raw_prefix() -> Seq<char> {
    seq!['r', 'a', 'w', '/']
}

/// What a rendered note shows besides its text.
pub struct Presentation {
    /// The canonical name.
    pub name: String,
    /// The path of the bare text.
    pub raw_path: String,
    /// The word alias.
    pub alias: String,
}

/// Finds the note that a path segment names, if it names one.
pub fn resolve(codec: &WordCodec, segment: &str) -> (r: Option<Identifier>)
    ensures
        r == resolved(codec.adjectives@, codec.verbs@, segment@),
{
    if segment.unicode_len() == NAME_LENGTH {
        Identifier::from_hex(segment)
    } else {
        codec.alias_to_identifier(segment)
    }
}

/// The three names of a note for its rendered page. There is no page for a
/// note that has no alias.
pub fn present(codec: &WordCodec, id: Identifier) -> (r: Option<Presentation>)
    ensures
        match r {
            Some(shown) => {
                &&& shown.name@ == id.canonical()
                &&& shown.raw_path@ == raw_prefix() + id.canonical()
                &&& encoded(codec.adjectives@, codec.verbs@, id) == Some(shown.alias@)
            },
            None => encoded(codec.adjectives@, codec.verbs@, id) is None,
        },
{
    match codec.identifier_to_alias(id) {
        Some(alias) => {
            let name = id.to_hex();
            let mut raw_path = String::new();
            raw_path.push('r');
            raw_path.push('a');
            raw_path.push('w');
            raw_path.push('/');
            raw_path.append(name.as_str());
            proof {
                assert(raw_path@ =~= raw_prefix() + id.canonical());
            }
            Some(Presentation { name, raw_path, alias })
        },
        None => None,
    }
}

/// Every canonical name resolves to its identifier, whatever the tables hold.
pub proof fn lemma_resolve_canonical(
    adjectives: Seq<Seq<char>>,
    verbs: Seq<Seq<char>>,
    id: Identifier,
)
    ensures
        resolved(adjectives, verbs, id.canonical()) == Some(id),
{
    crate::identifier::lemma_parse_canonical(id);
}

} // verus!
