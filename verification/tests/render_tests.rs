use lls::config::expand_tilde;
use lls::render::{hover_markdown, reference_document, reference_path};
use lls::sense::{PartOfSpeech, Relation, RelationKind, Resolution, Sense, SenseKey};

fn sense(
    pos: PartOfSpeech,
    offset: u64,
    definition: &str,
    words: &[&str],
    relations: Vec<Relation>,
) -> Sense {
    Sense {
        part_of_speech: pos,
        offset,
        definition: definition.to_string(),
        words: words.iter().map(|w| w.to_string()).collect(),
        relations,
    }
}

fn hot_entry() -> (Vec<Sense>, Vec<Resolution>) {
    let s1 = sense(
        PartOfSpeech::Noun,
        1,
        "the state",
        &["hot", "heat"],
        vec![Relation {
            kind: RelationKind::Antonym,
            part_of_speech: PartOfSpeech::Noun,
            offset: 2,
        }],
    );
    let s2 = sense(
        PartOfSpeech::Verb,
        3,
        "to heat",
        &["hot"],
        vec![Relation {
            kind: RelationKind::Antonym,
            part_of_speech: PartOfSpeech::Verb,
            offset: 4,
        }],
    );
    let t1 = Resolution {
        key: SenseKey { part_of_speech: PartOfSpeech::Noun, offset: 2 },
        sense: sense(PartOfSpeech::Noun, 2, "the cold", &["cold", "chill"], vec![]),
    };
    let t2 = Resolution {
        key: SenseKey { part_of_speech: PartOfSpeech::Verb, offset: 4 },
        sense: sense(PartOfSpeech::Verb, 4, "to cool", &["cool"], vec![]),
    };
    (vec![s1, s2], vec![t1, t2])
}

#[test]
fn hover_groups_blocks_by_part_of_speech() {
    let (senses, table) = hot_entry();
    let out = hover_markdown("hot", &senses, &table);
    assert_eq!(
        out,
        "**hot** _noun_\n1. the state\n\n**Synonyms**: heat\n\n**Antonyms**: chill, cold\n\n**hot** _verb_\n1. to heat\n\n**Antonyms**: cool"
    );
}

#[test]
fn hover_rendered_twice_is_byte_identical() {
    let (senses, table) = hot_entry();
    let once = hover_markdown("hot", &senses, &table);
    let twice = hover_markdown("hot", &senses, &table);
    assert_eq!(once, twice);
}

#[test]
fn hover_without_senses_is_empty() {
    let out = hover_markdown("hot", &Vec::new(), &Vec::new());
    assert_eq!(out, "");
}

#[test]
fn synonyms_deduplicated_sorted_and_query_excluded() {
    let s = sense(
        PartOfSpeech::Noun,
        1,
        "a pet",
        &["dog", "a_b", "cat", "dog"],
        vec![],
    );
    let out = hover_markdown("cat", &vec![s], &Vec::new());
    assert_eq!(out, "**cat** _noun_\n1. a pet\n\n**Synonyms**: a b, dog");
}

#[test]
fn unresolved_antonym_target_contributes_nothing() {
    let s = sense(
        PartOfSpeech::Noun,
        1,
        "something",
        &["x", "q"],
        vec![Relation {
            kind: RelationKind::Antonym,
            part_of_speech: PartOfSpeech::Noun,
            offset: 99,
        }],
    );
    let out = hover_markdown("x", &vec![s], &Vec::new());
    assert_eq!(out, "**x** _noun_\n1. something\n\n**Synonyms**: q");
}

#[test]
fn numbering_restarts_at_one_for_each_part_of_speech() {
    let s1 = sense(PartOfSpeech::Noun, 1, "first", &["w"], vec![]);
    let s2 = sense(PartOfSpeech::Noun, 2, "second", &["w"], vec![]);
    let s3 = sense(PartOfSpeech::Verb, 3, "third", &["w"], vec![]);
    let out = hover_markdown("w", &vec![s1, s2, s3], &Vec::new());
    assert_eq!(
        out,
        "**w** _noun_\n1. first\n2. second\n\n**w** _verb_\n1. third"
    );
}

#[test]
fn reference_numbers_entries_in_resolver_order() {
    let (senses, table) = hot_entry();
    let out = reference_document("hot", &senses, &table);
    assert_eq!(
        out,
        "# hot\n\n1. _noun_ the state\n**synonym**: heat\n**antonym**: chill, cold\n\n2. _verb_ to heat\n**synonym**: \n**antonym**: cool\n"
    );
}

#[test]
fn reference_groups_relations_by_kind_and_deduplicates() {
    let s = sense(
        PartOfSpeech::Noun,
        1,
        "a thing",
        &["w"],
        vec![
            Relation {
                kind: RelationKind::Hypernym,
                part_of_speech: PartOfSpeech::Noun,
                offset: 10,
            },
            Relation {
                kind: RelationKind::Antonym,
                part_of_speech: PartOfSpeech::Noun,
                offset: 11,
            },
            Relation {
                kind: RelationKind::Hypernym,
                part_of_speech: PartOfSpeech::Noun,
                offset: 12,
            },
        ],
    );
    let table = vec![
        Resolution {
            key: SenseKey { part_of_speech: PartOfSpeech::Noun, offset: 10 },
            sense: sense(PartOfSpeech::Noun, 10, "d", &["b"], vec![]),
        },
        Resolution {
            key: SenseKey { part_of_speech: PartOfSpeech::Noun, offset: 11 },
            sense: sense(PartOfSpeech::Noun, 11, "d", &["z"], vec![]),
        },
        Resolution {
            key: SenseKey { part_of_speech: PartOfSpeech::Noun, offset: 12 },
            sense: sense(PartOfSpeech::Noun, 12, "d", &["a", "b"], vec![]),
        },
    ];
    let out = reference_document("w", &vec![s], &table);
    assert_eq!(
        out,
        "# w\n\n1. _noun_ a thing\n**synonym**: \n**antonym**: z\n**hypernym**: a, b\n"
    );
}

#[test]
fn reference_path_is_derived_from_the_word() {
    assert_eq!(reference_path("dog"), "/tmp/lls-dog.md");
}

#[test]
fn tilde_prefixed_paths_expand_against_home() {
    assert_eq!(expand_tilde("~/wordnet", "/home/user"), "/home/user/wordnet");
    assert_eq!(expand_tilde("/opt/wordnet", "/home/user"), "/opt/wordnet");
    assert_eq!(expand_tilde("~", "/home/user"), "~");
}
