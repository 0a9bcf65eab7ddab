//! The lexical data model: parts of speech, relation kinds, senses and
//! their keys, and the request-scoped table of resolved keys that carries
//! the lexical database's answers into the renderers.

use vstd::prelude::*;

verus! {

/// Grammatical category: half of every sense key, and the axis along
/// which hover output is grouped.  The declaration order is the canonical
/// iteration order.
#[derive(Clone, Copy, PartialEq, Eq, Structural, Debug)]
pub enum PartOfSpeech {
    Noun,
    Verb,
    Adjective,
    Adverb,
}

/// The label a part of speech is rendered with.
pub open spec fn pos_label(p: PartOfSpeech) -> Seq<char> {
    match p {
        PartOfSpeech::Noun => "noun"@,
        PartOfSpeech::Verb => "verb"@,
        PartOfSpeech::Adjective => "adjective"@,
        PartOfSpeech::Adverb => "adverb"@,
    }
}

/// The label of `p`.
pub fn pos_name(p: PartOfSpeech) -> (r: &'static str)
    ensures
        r@ == pos_label(p),
{
    match p {
        PartOfSpeech::Noun => "noun",
        PartOfSpeech::Verb => "verb",
        PartOfSpeech::Adjective => "adjective",
        PartOfSpeech::Adverb => "adverb",
    }
}

/// The closed set of relation kinds a sense can carry towards another
/// sense.  The declaration order is alphabetical; relation listings are
/// grouped in this order.
#[derive(Clone, Copy, PartialEq, Eq, Structural, Debug)]
pub enum RelationKind {
    Antonym,
    Holonym,
    Hypernym,
    Hyponym,
    Meronym,
    Similar,
}

/// The label a relation kind is rendered with.
pub open spec fn kind_label(k: RelationKind) -> Seq<char> {
    match k {
        RelationKind::Antonym => "antonym"@,
        RelationKind::Holonym => "holonym"@,
        RelationKind::Hypernym => "hypernym"@,
        RelationKind::Hyponym => "hyponym"@,
        RelationKind::Meronym => "meronym"@,
        RelationKind::Similar => "similar"@,
    }
}

/// The label of `k`.
pub fn kind_name(k: RelationKind) -> (r: &'static str)
    ensures
        r@ == kind_label(k),
{
    match k {
        RelationKind::Antonym => "antonym",
        RelationKind::Holonym => "holonym",
        RelationKind::Hypernym => "hypernym",
        RelationKind::Hyponym => "hyponym",
        RelationKind::Meronym => "meronym",
        RelationKind::Similar => "similar",
    }
}

/// The durable key of a sense: its part of speech and database offset.
#[derive(Clone, Copy, PartialEq, Eq, Structural, Debug)]
pub struct SenseKey {
    pub part_of_speech: PartOfSpeech,
    pub offset: u64,
}

/// A typed edge from one sense to another, referencing the target by key
/// only; resolving the key is a separate, possibly failing lookup.
#[derive(Clone, Copy, PartialEq, Eq, Structural, Debug)]
pub struct Relation {
    pub kind: RelationKind,
    pub part_of_speech: PartOfSpeech,
    pub offset: u64,
}

/// The key a relation points at.
pub open spec fn target_of(r: Relation) -> SenseKey {
    SenseKey { part_of_speech: r.part_of_speech, offset: r.offset }
}

impl Relation {
    /// The key this relation points at.
    pub fn target(&self) -> (k: SenseKey)
        ensures
            k == target_of(*self),
    {
        SenseKey { part_of_speech: self.part_of_speech, offset: self.offset }
    }
}

/// One meaning of a word: its key, a free-text definition, the lemmas
/// that share the meaning, and typed relations to other senses.
#[derive(Clone, Debug)]
pub struct Sense {
    pub part_of_speech: PartOfSpeech,
    pub offset: u64,
    pub definition: String,
    pub words: Vec<String>,
    pub relations: Vec<Relation>,
}

/// One resolved key: what the lexical database answered for it.  A key
/// absent from the table failed to resolve; the renderers degrade that to
/// an empty contribution.
#[derive(Clone, Debug)]
pub struct Resolution {
    pub key: SenseKey,
    pub sense: Sense,
}

/// The first sense the table holds for `key`, if any.
pub open spec fn lookup(table: Seq<Resolution>, key: SenseKey) -> Option<Sense>
    decreases table.len(),
{
    if table.len() == 0 {
        None
    } else if table[0].key == key {
        Some(table[0].sense)
    } else {
        lookup(table.drop_first(), key)
    }
}

/// Finds the sense the table holds for `key`, if any.
pub fn find_sense<'a>(table: &'a Vec<Resolution>, key: SenseKey) -> (r: Option<&'a Sense>)
    ensures
        match r {
            Some(s) => lookup(table@, key) == Some(*s),
            None => lookup(table@, key) is None,
        },
{
    let mut i: usize = 0;
    proof {
        assert(table@.skip(0) =~= table@);
    }
    while i < table.len()
        invariant
            0 <= i <= table@.len(),
            lookup(table@, key) == lookup(table@.skip(i as int), key),
        decreases table@.len() - i,
    {
        proof {
            assert(table@.skip(i as int)[0] == table@[i as int]);
            assert(table@.skip(i as int).drop_first() =~= table@.skip(i + 1 as int));
        }
        if table[i].key == key {
            return Some(&table[i].sense);
        }
        i = i + 1;
    }
    proof {
        assert(table@.skip(i as int).len() == 0);
    }
    None
}

} // verus!
