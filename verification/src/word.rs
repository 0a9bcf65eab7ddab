//! The word locator: from one line of text and a cursor offset to the
//! word containing or immediately preceding the cursor, lowercased.
//!
//! The scan walks the line left to right, accumulating the current run of
//! alphabetic characters (lowercased) and resetting on anything else.  The
//! cursor is reached once the scan's index equals the requested offset;
//! from then on, the first non-alphabetic character — or the end of the
//! line — ends the scan with the accumulated run as the answer.

use vstd::prelude::*;
use crate::text::push_chars;
use crate::unicode::{is_alpha, lower_of, lower_chars, str_chars, chars_to_string};

verus! {

/// The rest of the scan, from index `i` with candidate `cand`, the cursor
/// already reached or not.  `None` means the cursor was never reached.
pub open spec fn scan_from(
    line: Seq<char>,
    cursor: int,
    i: int,
    cand: Seq<char>,
    reached: bool,
) -> Option<Seq<char>>
    decreases line.len() - i,
        when 0 <= i <= line.len()
{
    if i >= line.len() {
        if reached {
            Some(cand)
        } else {
            None
        }
    } else {
        let hit = reached || i == cursor;
        if is_alpha(line[i]) {
            scan_from(line, cursor, i + 1, cand + lower_of(line[i]), hit)
        } else if hit {
            Some(cand)
        } else {
            scan_from(line, cursor, i + 1, Seq::<char>::empty(), hit)
        }
    }
}

/// The whole scan of a line: the candidate accumulated when it stops.
pub open spec fn word_scan(line: Seq<char>, cursor: int) -> Option<Seq<char>> {
    scan_from(line, cursor, 0, Seq::<char>::empty(), false)
}

/// The word under the cursor: the scan's answer, where an empty candidate
/// means no word at all.
pub open spec fn word_at(line: Seq<char>, cursor: int) -> Option<Seq<char>> {
    match word_scan(line, cursor) {
        Some(w) => if w.len() > 0 {
            Some(w)
        } else {
            None
        },
        None => None,
    }
}

fn word_result(cand: Vec<char>) -> (r: Option<String>)
    ensures
        match r {
            Some(w) => w@ == cand@ && cand@.len() > 0,
            None => cand@.len() == 0,
        },
{
    if cand.len() == 0 {
        None
    } else {
        Some(chars_to_string(&cand))
    }
}

/// Finds the word containing or immediately preceding the cursor offset,
/// lowercased; `None` when nothing alphabetic is there or the cursor was
/// never reached.
pub fn locate_word(line: &str, cursor: usize) -> (r: Option<String>)
    ensures
        match r {
            Some(w) => word_at(line@, cursor as int) == Some(w@),
            None => word_at(line@, cursor as int) is None,
        },
{
    let chars = str_chars(line);
    let n = chars.len();
    let mut cand: Vec<char> = Vec::new();
    let mut reached = false;
    let mut i: usize = 0;
    while i < n
        invariant
            0 <= i <= n,
            n == chars@.len(),
            chars@ == line@,
            word_scan(line@, cursor as int) == scan_from(
                line@,
                cursor as int,
                i as int,
                cand@,
                reached,
            ),
        decreases n - i,
    {
        let c = chars[i];
        let hit = reached || i == cursor;
        if c.is_alphabetic() {
            let low = lower_chars(c);
            push_chars(&mut cand, &low);
        } else {
            if hit {
                return word_result(cand);
            }
            cand.clear();
        }
        reached = hit;
        i = i + 1;
    }
    if reached {
        word_result(cand)
    } else {
        None
    }
}

/// The lowercase expansions of the characters of `s`, concatenated.
pub open spec fn lower_cat(s: Seq<char>) -> Seq<char>
    decreases s.len(),
{
    if s.len() == 0 {
        Seq::<char>::empty()
    } else {
        lower_of(s[0]) + lower_cat(s.drop_first())
    }
}

proof fn lemma_scan_reset(line: Seq<char>, cursor: int, i: int, cand: Seq<char>, start: int)
    requires
        0 <= i < start <= cursor < line.len(),
        !is_alpha(line[start - 1]),
    ensures
        scan_from(line, cursor, i, cand, false) == scan_from(
            line,
            cursor,
            start,
            Seq::<char>::empty(),
            false,
        ),
    decreases start - i,
{
    if i == start - 1 {
        assert(!is_alpha(line[i]));
    } else {
        if is_alpha(line[i]) {
            lemma_scan_reset(line, cursor, i + 1, cand + lower_of(line[i]), start);
        } else {
            lemma_scan_reset(line, cursor, i + 1, Seq::<char>::empty(), start);
        }
    }
}

proof fn lemma_scan_in_run(
    line: Seq<char>,
    cursor: int,
    i: int,
    cand: Seq<char>,
    reached: bool,
    end: int,
)
    requires
        0 <= i <= end <= line.len(),
        forall|j: int| i <= j < end ==> is_alpha(line[j]),
        end == line.len() || !is_alpha(line[end]),
        reached || (i <= cursor && cursor < end),
    ensures
        scan_from(line, cursor, i, cand, reached) == Some(cand + lower_cat(line.subrange(i, end))),
    decreases end - i,
{
    if i == end {
        assert(cand + lower_cat(line.subrange(i, end)) =~= cand);
    } else {
        assert(is_alpha(line[i]));
        let hit = reached || i == cursor;
        lemma_scan_in_run(line, cursor, i + 1, cand + lower_of(line[i]), hit, end);
        let sub = line.subrange(i, end);
        assert(sub[0] == line[i]);
        assert(sub.drop_first() =~= line.subrange(i + 1, end));
        assert(lower_cat(sub) == lower_of(line[i]) + lower_cat(line.subrange(i + 1, end)));
        assert((cand + lower_of(line[i])) + lower_cat(line.subrange(i + 1, end)) =~= cand
            + lower_cat(sub));
    }
}

/// Law: when the cursor indexes an alphabetic character, the scan answers
/// with exactly the lowercase expansion of the maximal alphabetic run
/// containing that index — `word_at` presents it whenever the expansion is
/// non-empty.
pub proof fn lemma_word_at_alpha_run(line: Seq<char>, cursor: int, start: int, end: int)
    requires
        0 <= cursor < line.len(),
        is_alpha(line[cursor]),
        0 <= start <= cursor < end <= line.len(),
        forall|j: int| start <= j < end ==> is_alpha(line[j]),
        start == 0 || !is_alpha(line[start - 1]),
        end == line.len() || !is_alpha(line[end]),
    ensures
        word_scan(line, cursor) == Some(lower_cat(line.subrange(start, end))),
        word_at(line, cursor) == (if lower_cat(line.subrange(start, end)).len() > 0 {
            Some(lower_cat(line.subrange(start, end)))
        } else {
            None
        }),
{
    if start == 0 {
        lemma_scan_in_run(line, cursor, 0, Seq::<char>::empty(), false, end);
        assert(Seq::<char>::empty() + lower_cat(line.subrange(0, end)) =~= lower_cat(
            line.subrange(0, end),
        ));
    } else {
        lemma_scan_reset(line, cursor, 0, Seq::<char>::empty(), start);
        lemma_scan_in_run(line, cursor, start, Seq::<char>::empty(), false, end);
        assert(Seq::<char>::empty() + lower_cat(line.subrange(start, end)) =~= lower_cat(
            line.subrange(start, end),
        ));
    }
}

proof fn lemma_scan_no_alpha(line: Seq<char>, cursor: int, i: int, reached: bool)
    requires
        0 <= i <= line.len(),
        forall|j: int| i <= j < line.len() ==> !is_alpha(line[j]),
    ensures
        scan_from(line, cursor, i, Seq::<char>::empty(), reached) is None || scan_from(
            line,
            cursor,
            i,
            Seq::<char>::empty(),
            reached,
        ) == Some(Seq::<char>::empty()),
    decreases line.len() - i,
{
    if i < line.len() {
        assert(!is_alpha(line[i]));
        lemma_scan_no_alpha(line, cursor, i + 1, reached || i == cursor);
    }
}

/// Law: a line without any alphabetic character — the empty line included
/// — yields no word, whatever the cursor offset.
pub proof fn lemma_no_alpha_no_word(line: Seq<char>, cursor: int)
    requires
        forall|j: int| 0 <= j < line.len() ==> !is_alpha(line[j]),
    ensures
        word_at(line, cursor) is None,
{
    lemma_scan_no_alpha(line, cursor, 0, false);
}

} // verus!
