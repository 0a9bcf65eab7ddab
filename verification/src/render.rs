//! The entry renderer: turns the senses found for a queried word, together
//! with the table of resolved relation targets, into Markdown — the hover
//! text and the full-reference document.

use vstd::prelude::*;
use crate::sense::{
    PartOfSpeech, RelationKind, Relation, Sense, SenseKey, Resolution, lookup, find_sense,
    pos_label, pos_name, kind_label, kind_name, target_of,
};
use crate::text::{
    views_of, strict_sorted, sort_uniq, remove_all, joined, despaced, dec_rep, lex_lt,
    sort_uniq_vec, remove_all_vec, join_with, despace, push_chars, dec_chars,
    lemma_views_push, lemma_sort_uniq_props, lemma_remove_all_props, lemma_lex_lt_irreflexive,
};
use crate::unicode::{str_chars, chars_to_string};

verus! {

/// The character sequences of a list of words.
pub open spec fn word_views(ws: Seq<String>) -> Seq<Seq<char>> {
    ws.map_values(|w: String| w@)
}

/// The senses of part of speech `p`, resolver order kept.
pub open spec fn senses_of_pos(senses: Seq<Sense>, p: PartOfSpeech) -> Seq<Sense>
    decreases senses.len(),
{
    if senses.len() == 0 {
        Seq::<Sense>::empty()
    } else {
        let rest = senses_of_pos(senses.drop_last(), p);
        if senses.last().part_of_speech == p {
            rest.push(senses.last())
        } else {
            rest
        }
    }
}

/// Every lemma of the given senses, in order.
pub open spec fn lemmas_of(senses: Seq<Sense>) -> Seq<Seq<char>>
    decreases senses.len(),
{
    if senses.len() == 0 {
        Seq::<Seq<char>>::empty()
    } else {
        lemmas_of(senses.drop_last()) + word_views(senses.last().words@)
    }
}

/// The lemmas of the sense `key` resolves to; none when the key is
/// unknown to the table.
pub open spec fn resolved_words(table: Seq<Resolution>, key: SenseKey) -> Seq<Seq<char>> {
    match lookup(table, key) {
        Some(s) => word_views(s.words@),
        None => Seq::<Seq<char>>::empty(),
    }
}

/// The lemmas contributed by the relations of kind `k`, each target
/// resolved through the table, in order.
pub open spec fn kind_words_of_rels(
    rels: Seq<Relation>,
    k: RelationKind,
    table: Seq<Resolution>,
) -> Seq<Seq<char>>
    decreases rels.len(),
{
    if rels.len() == 0 {
        Seq::<Seq<char>>::empty()
    } else {
        let rest = kind_words_of_rels(rels.drop_last(), k, table);
        if rels.last().kind == k {
            rest + resolved_words(table, target_of(rels.last()))
        } else {
            rest
        }
    }
}

/// The lemmas contributed by the `k`-relations of all the senses.
pub open spec fn kind_words_of_senses(
    senses: Seq<Sense>,
    k: RelationKind,
    table: Seq<Resolution>,
) -> Seq<Seq<char>>
    decreases senses.len(),
{
    if senses.len() == 0 {
        Seq::<Seq<char>>::empty()
    } else {
        kind_words_of_senses(senses.drop_last(), k, table) + kind_words_of_rels(
            senses.last().relations@,
            k,
            table,
        )
    }
}

/// Whether any relation of kind `k` is present.
pub open spec fn has_kind(rels: Seq<Relation>, k: RelationKind) -> bool {
    exists|i: int| 0 <= i < rels.len() && rels[i].kind == k
}

/// Appends each word of `ws`, as characters, to `out`.
fn push_word_views(out: &mut Vec<Vec<char>>, ws: &Vec<String>)
    ensures
        views_of(final(out)@) == views_of(old(out)@) + word_views(ws@),
{
    let ghost base = views_of(old(out)@);
    let mut j: usize = 0;
    proof {
        assert(base + word_views(ws@.take(0)) =~= base);
    }
    while j < ws.len()
        invariant
            0 <= j <= ws@.len(),
            views_of(out@) == base + word_views(ws@.take(j as int)),
        decreases ws@.len() - j,
    {
        let cs = str_chars(ws[j].as_str());
        let ghost prev = out@;
        out.push(cs);
        proof {
            lemma_views_push(prev, cs);
            assert(word_views(ws@.take(j + 1 as int)) =~= word_views(ws@.take(j as int)).push(
                ws@[j as int]@,
            ));
            assert(base + word_views(ws@.take(j + 1 as int)) =~= (base + word_views(
                ws@.take(j as int),
            )).push(ws@[j as int]@));
        }
        j = j + 1;
    }
    proof {
        assert(ws@.take(ws@.len() as int) =~= ws@);
    }
}

/// Appends the lemmas contributed by the `k`-relations of `rels` to `out`,
/// resolving each target through the table.
fn gather_kind_words(
    rels: &Vec<Relation>,
    k: RelationKind,
    table: &Vec<Resolution>,
    out: &mut Vec<Vec<char>>,
)
    ensures
        views_of(final(out)@) == views_of(old(out)@) + kind_words_of_rels(rels@, k, table@),
{
    let ghost base = views_of(old(out)@);
    let mut i: usize = 0;
    proof {
        assert(base + kind_words_of_rels(rels@.take(0), k, table@) =~= base);
    }
    while i < rels.len()
        invariant
            0 <= i <= rels@.len(),
            views_of(out@) == base + kind_words_of_rels(rels@.take(i as int), k, table@),
        decreases rels@.len() - i,
    {
        proof {
            assert(rels@.take(i + 1 as int).drop_last() =~= rels@.take(i as int));
            assert(rels@.take(i + 1 as int).last() == rels@[i as int]);
        }
        let ghost acc = kind_words_of_rels(rels@.take(i as int), k, table@);
        let rel = rels[i];
        if rel.kind == k {
            match find_sense(table, rel.target()) {
                Some(s) => {
                    push_word_views(out, &s.words);
                    proof {
                        assert(resolved_words(table@, target_of(rel)) == word_views(s.words@));
                        assert(base + (acc + word_views(s.words@)) =~= (base + acc) + word_views(
                            s.words@,
                        ));
                    }
                },
                None => {
                    proof {
                        assert(resolved_words(table@, target_of(rel)) =~= Seq::<Seq<char>>::empty());
                        assert(acc + resolved_words(table@, target_of(rel)) =~= acc);
                    }
                },
            }
        }
        i = i + 1;
    }
    proof {
        assert(rels@.take(rels@.len() as int) =~= rels@);
    }
}

/// Whether any relation of kind `k` is present.
fn has_kind_vec(rels: &Vec<Relation>, k: RelationKind) -> (r: bool)
    ensures
        r == has_kind(rels@, k),
{
    let mut i: usize = 0;
    while i < rels.len()
        invariant
            0 <= i <= rels@.len(),
            forall|j: int| 0 <= j < i ==> rels@[j].kind != k,
        decreases rels@.len() - i,
    {
        if rels[i].kind == k {
            proof {
                assert(rels@[i as int].kind == k);
            }
            return true;
        }
        i = i + 1;
    }
    false
}

/// Each word with its underscores rendered as spaces.
fn despace_all(v: &Vec<Vec<char>>) -> (r: Vec<Vec<char>>)
    ensures
        views_of(r@) == views_of(v@).map_values(|w: Seq<char>| despaced(w)),
{
    let mut r: Vec<Vec<char>> = Vec::new();
    let mut i: usize = 0;
    while i < v.len()
        invariant
            0 <= i <= v@.len(),
            views_of(r@).len() == i,
            forall|j: int| 0 <= j < i ==> views_of(r@)[j] == despaced(v@[j]@),
        decreases v@.len() - i,
    {
        let d = despace(&v[i]);
        let ghost prev = r@;
        r.push(d);
        proof {
            lemma_views_push(prev, d);
        }
        i = i + 1;
    }
    proof {
        assert(views_of(r@) =~= views_of(v@).map_values(|w: Seq<char>| despaced(w)));
    }
    r
}

/// The numbered definition lines of the senses, `1.` first, resolver
/// order kept: the resolver's order is authoritative.
pub open spec fn def_lines(ss: Seq<Sense>) -> Seq<Seq<char>> {
    Seq::new(ss.len(), |i: int| dec_rep(i + 1) + ". "@ + ss[i].definition@)
}

/// The header-and-definitions block for `word` and part of speech `p`.
pub open spec fn def_block(word: Seq<char>, p: PartOfSpeech, ss: Seq<Sense>) -> Seq<char> {
    "**"@ + word + "** _"@ + pos_label(p) + "_\n"@ + joined(def_lines(ss), "\n"@)
}

/// The synonyms shown for `word`: every lemma of the senses except the
/// queried word itself, deduplicated, ascending.
pub open spec fn syn_list(word: Seq<char>, ss: Seq<Sense>) -> Seq<Seq<char>> {
    remove_all(sort_uniq(lemmas_of(ss)), word)
}

/// The antonyms shown for `word`: the lemmas of every resolved antonym
/// target, the queried word excluded, deduplicated, ascending.
pub open spec fn ant_list(word: Seq<char>, ss: Seq<Sense>, table: Seq<Resolution>) -> Seq<
    Seq<char>,
> {
    remove_all(sort_uniq(kind_words_of_senses(ss, RelationKind::Antonym, table)), word)
}

/// A word list as hover shows it: underscores as spaces, comma-joined.
pub open spec fn word_list_text(l: Seq<Seq<char>>) -> Seq<char> {
    joined(l.map_values(|w: Seq<char>| despaced(w)), ", "@)
}

/// The blocks one part of speech contributes to the hover text: its
/// definitions, its synonyms, its antonyms — each only when non-empty.
pub open spec fn pos_blocks(
    word: Seq<char>,
    senses: Seq<Sense>,
    table: Seq<Resolution>,
    p: PartOfSpeech,
) -> Seq<Seq<char>> {
    let ss = senses_of_pos(senses, p);
    let dpart = if ss.len() > 0 {
        seq![def_block(word, p, ss)]
    } else {
        Seq::<Seq<char>>::empty()
    };
    let syns = syn_list(word, ss);
    let spart = if syns.len() > 0 {
        seq!["**Synonyms**: "@ + word_list_text(syns)]
    } else {
        Seq::<Seq<char>>::empty()
    };
    let ants = ant_list(word, ss, table);
    let apart = if ants.len() > 0 {
        seq!["**Antonyms**: "@ + word_list_text(ants)]
    } else {
        Seq::<Seq<char>>::empty()
    };
    dpart + spart + apart
}

/// The hover Markdown for `word`: each part of speech's blocks in
/// canonical order, joined with blank lines; empty when no sense exists.
pub open spec fn hover_text(word: Seq<char>, senses: Seq<Sense>, table: Seq<Resolution>) -> Seq<
    char,
> {
    joined(
        pos_blocks(word, senses, table, PartOfSpeech::Noun) + pos_blocks(
            word,
            senses,
            table,
            PartOfSpeech::Verb,
        ) + pos_blocks(word, senses, table, PartOfSpeech::Adjective) + pos_blocks(
            word,
            senses,
            table,
            PartOfSpeech::Adverb,
        ),
        "\n\n"@,
    )
}

proof fn lemma_senses_of_pos_len(s: Seq<Sense>, p: PartOfSpeech)
    ensures
        senses_of_pos(s, p).len() <= s.len(),
    decreases s.len(),
{
    if s.len() > 0 {
        lemma_senses_of_pos_len(s.drop_last(), p);
    }
}

/// Appends the literal's characters to `dst`.
fn push_str_chars(dst: &mut Vec<char>, s: &str)
    ensures
        final(dst)@ == old(dst)@ + s@,
{
    let cs = str_chars(s);
    push_chars(dst, &cs);
}

/// Appends the blocks of part of speech `p` to `blocks`.
fn append_pos_blocks(
    blocks: &mut Vec<Vec<char>>,
    word: &Vec<char>,
    senses: &Vec<Sense>,
    table: &Vec<Resolution>,
    p: PartOfSpeech,
)
    requires
        senses@.len() < usize::MAX,
    ensures
        views_of(final(blocks)@) == views_of(old(blocks)@) + pos_blocks(
            word@,
            senses@,
            table@,
            p,
        ),
{
    let ghost b0 = views_of(old(blocks)@);
    let mut defs: Vec<Vec<char>> = Vec::new();
    let mut syn_words: Vec<Vec<char>> = Vec::new();
    let mut ant_words: Vec<Vec<char>> = Vec::new();
    let mut i: usize = 0;
    proof {
        assert(senses@.take(0).len() == 0);
        assert(views_of(defs@) =~= def_lines(senses_of_pos(senses@.take(0), p)));
        assert(views_of(syn_words@) =~= lemmas_of(senses_of_pos(senses@.take(0), p)));
        assert(views_of(ant_words@) =~= kind_words_of_senses(
            senses_of_pos(senses@.take(0), p),
            RelationKind::Antonym,
            table@,
        ));
    }
    while i < senses.len()
        invariant
            0 <= i <= senses@.len(),
            senses@.len() < usize::MAX,
            defs@.len() == senses_of_pos(senses@.take(i as int), p).len(),
            views_of(defs@) == def_lines(senses_of_pos(senses@.take(i as int), p)),
            views_of(syn_words@) == lemmas_of(senses_of_pos(senses@.take(i as int), p)),
            views_of(ant_words@) == kind_words_of_senses(
                senses_of_pos(senses@.take(i as int), p),
                RelationKind::Antonym,
                table@,
            ),
        decreases senses@.len() - i,
    {
        let ghost fs = senses_of_pos(senses@.take(i as int), p);
        proof {
            assert(senses@.take(i + 1 as int).drop_last() =~= senses@.take(i as int));
            assert(senses@.take(i + 1 as int).last() == senses@[i as int]);
        }
        let s = &senses[i];
        if s.part_of_speech == p {
            let ghost x = senses@[i as int];
            proof {
                assert(senses_of_pos(senses@.take(i + 1 as int), p) == fs.push(x));
                assert((fs.push(x)).drop_last() =~= fs);
                assert((fs.push(x)).last() == x);
            }
            proof {
                lemma_senses_of_pos_len(senses@.take(i as int), p);
            }
            let num = (defs.len() as u64) + 1;
            let mut line = dec_chars(num);
            push_str_chars(&mut line, ". ");
            push_str_chars(&mut line, s.definition.as_str());
            let ghost prevd = defs@;
            defs.push(line);
            proof {
                lemma_views_push(prevd, line);
                assert(line@ == dec_rep(fs.len() as int + 1) + ". "@ + x.definition@);
                assert(def_lines(fs.push(x)) =~= def_lines(fs).push(
                    dec_rep(fs.len() as int + 1) + ". "@ + x.definition@,
                ));
            }
            push_word_views(&mut syn_words, &s.words);
            proof {
                assert(lemmas_of(fs.push(x)) == lemmas_of(fs) + word_views(x.words@));
            }
            gather_kind_words(&s.relations, RelationKind::Antonym, table, &mut ant_words);
            proof {
                assert(kind_words_of_senses(fs.push(x), RelationKind::Antonym, table@)
                    == kind_words_of_senses(fs, RelationKind::Antonym, table@)
                    + kind_words_of_rels(x.relations@, RelationKind::Antonym, table@));
            }
        } else {
            proof {
                assert(senses_of_pos(senses@.take(i + 1 as int), p) == fs);
            }
        }
        i = i + 1;
    }
    proof {
        assert(senses@.take(senses@.len() as int) =~= senses@);
    }
    let ghost fs_full = senses_of_pos(senses@, p);
    let ghost dpart = if fs_full.len() > 0 {
        seq![def_block(word@, p, fs_full)]
    } else {
        Seq::<Seq<char>>::empty()
    };
    if defs.len() > 0 {
        let mut block = str_chars("**");
        push_chars(&mut block, word);
        push_str_chars(&mut block, "** _");
        push_str_chars(&mut block, pos_name(p));
        push_str_chars(&mut block, "_\n");
        let nl = str_chars("\n");
        let body = join_with(&defs, &nl);
        push_chars(&mut block, &body);
        let ghost prevb = blocks@;
        blocks.push(block);
        proof {
            lemma_views_push(prevb, block);
            assert(block@ == def_block(word@, p, fs_full));
            assert(views_of(blocks@) =~= b0 + dpart);
        }
    } else {
        proof {
            assert(views_of(blocks@) =~= b0 + dpart);
        }
    }
    let ghost syns = syn_list(word@, fs_full);
    let ghost spart = if syns.len() > 0 {
        seq!["**Synonyms**: "@ + word_list_text(syns)]
    } else {
        Seq::<Seq<char>>::empty()
    };
    let sorted = sort_uniq_vec(&syn_words);
    let kept = remove_all_vec(&sorted, word);
    proof {
        assert(views_of(kept@) == syns);
        assert(kept@.len() == syns.len());
    }
    if kept.len() > 0 {
        let items = despace_all(&kept);
        let sep = str_chars(", ");
        let listed = join_with(&items, &sep);
        let mut block = str_chars("**Synonyms**: ");
        push_chars(&mut block, &listed);
        let ghost prevb = blocks@;
        blocks.push(block);
        proof {
            lemma_views_push(prevb, block);
            assert(block@ == "**Synonyms**: "@ + word_list_text(syns));
            assert(views_of(blocks@) =~= (b0 + dpart) + spart);
        }
    } else {
        proof {
            assert(views_of(blocks@) =~= (b0 + dpart) + spart);
        }
    }
    let ghost ants = ant_list(word@, fs_full, table@);
    let ghost apart = if ants.len() > 0 {
        seq!["**Antonyms**: "@ + word_list_text(ants)]
    } else {
        Seq::<Seq<char>>::empty()
    };
    let sorted_a = sort_uniq_vec(&ant_words);
    let kept_a = remove_all_vec(&sorted_a, word);
    proof {
        assert(views_of(kept_a@) == ants);
        assert(kept_a@.len() == ants.len());
    }
    if kept_a.len() > 0 {
        let items = despace_all(&kept_a);
        let sep = str_chars(", ");
        let listed = join_with(&items, &sep);
        let mut block = str_chars("**Antonyms**: ");
        push_chars(&mut block, &listed);
        let ghost prevb = blocks@;
        blocks.push(block);
        proof {
            lemma_views_push(prevb, block);
            assert(block@ == "**Antonyms**: "@ + word_list_text(ants));
            assert(views_of(blocks@) =~= ((b0 + dpart) + spart) + apart);
        }
    } else {
        proof {
            assert(views_of(blocks@) =~= ((b0 + dpart) + spart) + apart);
        }
    }
    proof {
        assert(pos_blocks(word@, senses@, table@, p) == (dpart + spart) + apart);
        assert(((b0 + dpart) + spart) + apart =~= b0 + ((dpart + spart) + apart));
    }
}

/// Renders the hover Markdown for `word` from the senses the resolver
/// returned and the table of resolved antonym targets.  The result is
/// empty exactly when no part of speech contributes a block.
pub fn hover_markdown(word: &str, senses: &Vec<Sense>, table: &Vec<Resolution>) -> (r: String)
    requires
        senses@.len() < usize::MAX,
    ensures
        r@ == hover_text(word@, senses@, table@),
{
    let w = str_chars(word);
    let mut blocks: Vec<Vec<char>> = Vec::new();
    append_pos_blocks(&mut blocks, &w, senses, table, PartOfSpeech::Noun);
    append_pos_blocks(&mut blocks, &w, senses, table, PartOfSpeech::Verb);
    append_pos_blocks(&mut blocks, &w, senses, table, PartOfSpeech::Adjective);
    append_pos_blocks(&mut blocks, &w, senses, table, PartOfSpeech::Adverb);
    proof {
        assert(views_of(blocks@) =~= pos_blocks(word@, senses@, table@, PartOfSpeech::Noun)
            + pos_blocks(word@, senses@, table@, PartOfSpeech::Verb) + pos_blocks(
            word@,
            senses@,
            table@,
            PartOfSpeech::Adjective,
        ) + pos_blocks(word@, senses@, table@, PartOfSpeech::Adverb));
    }
    let sep = str_chars("\n\n");
    let body = join_with(&blocks, &sep);
    chars_to_string(&body)
}

/// The one relation line of kind `k`: its label and the sorted,
/// deduplicated union of the resolved targets' lemmas.
pub open spec fn kind_line(rels: Seq<Relation>, k: RelationKind, table: Seq<Resolution>) -> Seq<
    char,
> {
    "**"@ + kind_label(k) + "**: "@ + joined(sort_uniq(kind_words_of_rels(rels, k, table)), ", "@)
}

/// The relation line of kind `k`, present exactly when a relation of that
/// kind exists.
pub open spec fn kind_line_opt(
    rels: Seq<Relation>,
    k: RelationKind,
    table: Seq<Resolution>,
) -> Seq<Seq<char>> {
    if has_kind(rels, k) {
        seq![kind_line(rels, k, table)]
    } else {
        Seq::<Seq<char>>::empty()
    }
}

/// The relation listing of one sense: one line per kind present, kinds in
/// canonical order, joined with newlines.
pub open spec fn rel_section(rels: Seq<Relation>, table: Seq<Resolution>) -> Seq<char> {
    joined(
        kind_line_opt(rels, RelationKind::Antonym, table) + kind_line_opt(
            rels,
            RelationKind::Holonym,
            table,
        ) + kind_line_opt(rels, RelationKind::Hypernym, table) + kind_line_opt(
            rels,
            RelationKind::Hyponym,
            table,
        ) + kind_line_opt(rels, RelationKind::Meronym, table) + kind_line_opt(
            rels,
            RelationKind::Similar,
            table,
        ),
        "\n"@,
    )
}

/// One numbered entry of the reference document: number and tag line,
/// synonym line excluding the queried word, relation listing.
pub open spec fn entry_text(word: Seq<char>, s: Sense, n: int, table: Seq<Resolution>) -> Seq<
    char,
> {
    "\n"@ + dec_rep(n) + ". _"@ + pos_label(s.part_of_speech) + "_ "@ + s.definition@
        + "\n**synonym**: "@ + joined(remove_all(sort_uniq(word_views(s.words@)), word), ", "@)
        + "\n"@ + rel_section(s.relations@, table) + "\n"@
}

/// The entries for all senses, numbered from 1 in resolver order.
pub open spec fn entries_text(word: Seq<char>, senses: Seq<Sense>, table: Seq<Resolution>) -> Seq<
    char,
>
    decreases senses.len(),
{
    if senses.len() == 0 {
        Seq::<char>::empty()
    } else {
        entries_text(word, senses.drop_last(), table) + entry_text(
            word,
            senses.last(),
            senses.len() as int,
            table,
        )
    }
}

/// The whole reference document for `word`: a heading, then one numbered
/// entry per sense.
pub open spec fn reference_text(word: Seq<char>, senses: Seq<Sense>, table: Seq<Resolution>) -> Seq<
    char,
> {
    "# "@ + word + "\n"@ + entries_text(word, senses, table)
}

/// The deterministic path the reference document for `word` is written
/// to, in scratch space.
pub open spec fn reference_path_text(word: Seq<char>) -> Seq<char> {
    "/tmp/lls-"@ + word + ".md"@
}

/// Appends the relation line of kind `k`, when one is owed.
fn append_kind_line(
    lines: &mut Vec<Vec<char>>,
    rels: &Vec<Relation>,
    k: RelationKind,
    table: &Vec<Resolution>,
)
    ensures
        views_of(final(lines)@) == views_of(old(lines)@) + kind_line_opt(rels@, k, table@),
{
    if has_kind_vec(rels, k) {
        let mut words: Vec<Vec<char>> = Vec::new();
        gather_kind_words(rels, k, table, &mut words);
        proof {
            assert(views_of(words@) =~= kind_words_of_rels(rels@, k, table@));
        }
        let sorted = sort_uniq_vec(&words);
        let sep = str_chars(", ");
        let listed = join_with(&sorted, &sep);
        let mut line = str_chars("**");
        push_str_chars(&mut line, kind_name(k));
        push_str_chars(&mut line, "**: ");
        push_chars(&mut line, &listed);
        let ghost prev = lines@;
        lines.push(line);
        proof {
            lemma_views_push(prev, line);
            assert(line@ == kind_line(rels@, k, table@));
            assert(views_of(prev).push(line@) =~= views_of(prev) + kind_line_opt(
                rels@,
                k,
                table@,
            ));
        }
    } else {
        proof {
            assert(views_of(lines@) + kind_line_opt(rels@, k, table@) =~= views_of(lines@));
        }
    }
}

/// Renders one numbered entry of the reference document.
fn entry_chars(word: &Vec<char>, s: &Sense, n: u64, table: &Vec<Resolution>) -> (r: Vec<char>)
    ensures
        r@ == entry_text(word@, *s, n as int, table@),
{
    let mut out = str_chars("\n");
    let numc = dec_chars(n);
    push_chars(&mut out, &numc);
    push_str_chars(&mut out, ". _");
    push_str_chars(&mut out, pos_name(s.part_of_speech));
    push_str_chars(&mut out, "_ ");
    push_str_chars(&mut out, s.definition.as_str());
    push_str_chars(&mut out, "\n**synonym**: ");
    let mut words: Vec<Vec<char>> = Vec::new();
    push_word_views(&mut words, &s.words);
    proof {
        assert(views_of(words@) =~= word_views(s.words@));
    }
    let sorted = sort_uniq_vec(&words);
    let kept = remove_all_vec(&sorted, word);
    let sep = str_chars(", ");
    let listed = join_with(&kept, &sep);
    push_chars(&mut out, &listed);
    push_str_chars(&mut out, "\n");
    let mut lines: Vec<Vec<char>> = Vec::new();
    append_kind_line(&mut lines, &s.relations, RelationKind::Antonym, table);
    append_kind_line(&mut lines, &s.relations, RelationKind::Holonym, table);
    append_kind_line(&mut lines, &s.relations, RelationKind::Hypernym, table);
    append_kind_line(&mut lines, &s.relations, RelationKind::Hyponym, table);
    append_kind_line(&mut lines, &s.relations, RelationKind::Meronym, table);
    append_kind_line(&mut lines, &s.relations, RelationKind::Similar, table);
    proof {
        assert(views_of(lines@) =~= kind_line_opt(s.relations@, RelationKind::Antonym, table@)
            + kind_line_opt(s.relations@, RelationKind::Holonym, table@) + kind_line_opt(
            s.relations@,
            RelationKind::Hypernym,
            table@,
        ) + kind_line_opt(s.relations@, RelationKind::Hyponym, table@) + kind_line_opt(
            s.relations@,
            RelationKind::Meronym,
            table@,
        ) + kind_line_opt(s.relations@, RelationKind::Similar, table@));
    }
    let nl = str_chars("\n");
    let section = join_with(&lines, &nl);
    push_chars(&mut out, &section);
    push_str_chars(&mut out, "\n");
    out
}

/// Renders the full-reference document for `word` from the senses the
/// resolver returned and the table of resolved relation targets: a
/// heading, then one numbered entry per sense in resolver order.
pub fn reference_document(word: &str, senses: &Vec<Sense>, table: &Vec<Resolution>) -> (r: String)
    requires
        senses@.len() < usize::MAX,
    ensures
        r@ == reference_text(word@, senses@, table@),
{
    let w = str_chars(word);
    let mut out = str_chars("# ");
    push_chars(&mut out, &w);
    push_str_chars(&mut out, "\n");
    let ghost head = "# "@ + word@ + "\n"@;
    let mut i: usize = 0;
    proof {
        assert(head + entries_text(word@, senses@.take(0), table@) =~= head);
    }
    while i < senses.len()
        invariant
            0 <= i <= senses@.len(),
            senses@.len() < usize::MAX,
            w@ == word@,
            out@ == head + entries_text(word@, senses@.take(i as int), table@),
        decreases senses@.len() - i,
    {
        proof {
            assert(senses@.take(i + 1 as int).drop_last() =~= senses@.take(i as int));
            assert(senses@.take(i + 1 as int).last() == senses@[i as int]);
        }
        let e = entry_chars(&w, &senses[i], (i as u64) + 1, table);
        push_chars(&mut out, &e);
        proof {
            assert(entries_text(word@, senses@.take(i + 1 as int), table@) == entries_text(
                word@,
                senses@.take(i as int),
                table@,
            ) + entry_text(word@, senses@[i as int], i + 1 as int, table@));
            assert(head + (entries_text(word@, senses@.take(i as int), table@) + e@) =~= (head
                + entries_text(word@, senses@.take(i as int), table@)) + e@);
        }
        i = i + 1;
    }
    proof {
        assert(senses@.take(senses@.len() as int) =~= senses@);
    }
    chars_to_string(&out)
}

/// The deterministic scratch path of the reference document for `word`.
pub fn reference_path(word: &str) -> (r: String)
    ensures
        r@ == reference_path_text(word@),
{
    let mut out = str_chars("/tmp/lls-");
    push_str_chars(&mut out, word);
    push_str_chars(&mut out, ".md");
    chars_to_string(&out)
}

/// Law: rendering depends on the queried word, the senses and the
/// resolution table alone — the same entry rendered twice is
/// byte-identical, for the hover text and the reference document alike.
pub proof fn lemma_render_idempotent(
    w1: Seq<char>,
    s1: Seq<Sense>,
    t1: Seq<Resolution>,
    w2: Seq<char>,
    s2: Seq<Sense>,
    t2: Seq<Resolution>,
)
    requires
        w1 == w2,
        s1 == s2,
        t1 == t2,
    ensures
        hover_text(w1, s1, t1) == hover_text(w2, s2, t2),
        reference_text(w1, s1, t1) == reference_text(w2, s2, t2),
{
}

/// Law: when the resolver returns no senses, the hover text is empty;
/// the caller maps that to an absent hover result.
pub proof fn lemma_hover_empty_without_senses(word: Seq<char>, table: Seq<Resolution>)
    ensures
        hover_text(word, Seq::<Sense>::empty(), table) == Seq::<char>::empty(),
{
    let e = Seq::<Sense>::empty();
    assert forall|p: PartOfSpeech| pos_blocks(word, e, table, p) =~= Seq::<Seq<char>>::empty() by {
        assert(senses_of_pos(e, p) =~= Seq::<Sense>::empty());
        assert(lemmas_of(senses_of_pos(e, p)) =~= Seq::<Seq<char>>::empty());
        assert(kind_words_of_senses(senses_of_pos(e, p), RelationKind::Antonym, table)
            =~= Seq::<Seq<char>>::empty());
        assert(sort_uniq(Seq::<Seq<char>>::empty()) =~= Seq::<Seq<char>>::empty());
        assert(remove_all(Seq::<Seq<char>>::empty(), word) =~= Seq::<Seq<char>>::empty());
    }
    assert(pos_blocks(word, e, table, PartOfSpeech::Noun) + pos_blocks(
        word,
        e,
        table,
        PartOfSpeech::Verb,
    ) + pos_blocks(word, e, table, PartOfSpeech::Adjective) + pos_blocks(
        word,
        e,
        table,
        PartOfSpeech::Adverb,
    ) =~= Seq::<Seq<char>>::empty());
}

/// Law: every rendered word list — the sorted deduplicated collection of
/// `raw` with the queried word removed — never holds the queried word,
/// ascends strictly, holds no value twice, and holds exactly the other
/// values of `raw`.
pub proof fn lemma_word_list_sound(word: Seq<char>, raw: Seq<Seq<char>>)
    ensures
        !remove_all(sort_uniq(raw), word).contains(word),
        strict_sorted(remove_all(sort_uniq(raw), word)),
        forall|i: int, j: int|
            0 <= i < j < remove_all(sort_uniq(raw), word).len() ==> remove_all(
                sort_uniq(raw),
                word,
            )[i] != remove_all(sort_uniq(raw), word)[j],
        forall|y: Seq<char>|
            remove_all(sort_uniq(raw), word).contains(y) <==> (raw.contains(y) && y != word),
{
    lemma_sort_uniq_props(raw);
    lemma_remove_all_props(sort_uniq(raw), word);
    let l = remove_all(sort_uniq(raw), word);
    assert forall|y: Seq<char>| l.contains(y) <==> (raw.contains(y) && y != word) by {
        assert(l.contains(y) <==> (sort_uniq(raw).contains(y) && y != word));
        assert(sort_uniq(raw).contains(y) <==> raw.contains(y));
    }
    assert(!l.contains(word));
    assert forall|i: int, j: int| 0 <= i < j < l.len() implies l[i] != l[j] by {
        assert(lex_lt(l[i], l[j]));
        lemma_lex_lt_irreflexive(l[i]);
    }
}

/// Law: the hover synonym list never holds the queried word, ascends
/// strictly and holds no duplicates.
pub proof fn lemma_syn_list_sound(word: Seq<char>, ss: Seq<Sense>)
    ensures
        !syn_list(word, ss).contains(word),
        strict_sorted(syn_list(word, ss)),
        forall|i: int, j: int|
            0 <= i < j < syn_list(word, ss).len() ==> syn_list(word, ss)[i] != syn_list(
                word,
                ss,
            )[j],
{
    lemma_word_list_sound(word, lemmas_of(ss));
}

/// Law: the hover antonym list never holds the queried word, ascends
/// strictly and holds no duplicates.
pub proof fn lemma_ant_list_sound(word: Seq<char>, ss: Seq<Sense>, table: Seq<Resolution>)
    ensures
        !ant_list(word, ss, table).contains(word),
        strict_sorted(ant_list(word, ss, table)),
        forall|i: int, j: int|
            0 <= i < j < ant_list(word, ss, table).len() ==> ant_list(word, ss, table)[i]
                != ant_list(word, ss, table)[j],
{
    lemma_word_list_sound(word, kind_words_of_senses(ss, RelationKind::Antonym, table));
}

} // verus!
