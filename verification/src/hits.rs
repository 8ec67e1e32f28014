//! Searching for several byte strings at once: which of them is reported where.

use crate::occurrences::{
    is_next_occurrence, lemma_next_exists, next_occurrence, occurrences, occurs, occurs_at,
};
use vstd::prelude::*;

verus! {

/// A term found in a haystack: its number, where it starts, where it ends.
pub open spec fn is_hit(
    terms: Seq<Seq<u8>>,
    fold: bool,
    haystack: Seq<u8>,
    from: int,
    hit: (int, int, int),
) -> bool {
    &&& 0 <= hit.0 < terms.len()
    &&& from <= hit.1
    &&& hit.2 == hit.1 + terms[hit.0].len()
    &&& occurs_at(haystack, terms[hit.0], fold, hit.1)
}

/// Which of two hits is reported: the one that ends first, of those the
/// longer one, of those the one whose term was given first.
pub open spec fn goes_first(a: (int, int, int), b: (int, int, int)) -> bool {
    ||| a.2 < b.2
    ||| a.2 == b.2 && a.1 < b.1
    ||| a.2 == b.2 && a.1 == b.1 && a.0 <= b.0
}

/// Whether `hit` is the one reported next by a search that starts at `from`.
pub open spec fn is_next_hit(
    terms: Seq<Seq<u8>>,
    fold: bool,
    haystack: Seq<u8>,
    from: int,
    hit: (int, int, int),
) -> bool {
    &&& is_hit(terms, fold, haystack, from, hit)
    &&& forall|other: (int, int, int)|
        is_hit(terms, fold, haystack, from, other) ==> goes_first(hit, other)
}

/// The hit reported next by a search that starts at `from`, if there is one.
pub open spec fn next_hit(
    terms: Seq<Seq<u8>>,
    fold: bool,
    haystack: Seq<u8>,
    from: int,
) -> Option<(int, int, int)> {
    if exists|hit: (int, int, int)| is_next_hit(terms, fold, haystack, from, hit) {
        Some(choose|hit: (int, int, int)| is_next_hit(terms, fold, haystack, from, hit))
    } else {
        None
    }
}

/// Whether no term is the empty string.
pub open spec fn all_filled(terms: Seq<Seq<u8>>) -> bool {
    forall|i: int| 0 <= i < terms.len() ==> (#[trigger] terms[i]).len() > 0
}

/// The hits reported one after the other, each search starting where the hit
/// before it ended.
pub open spec fn hits(
    terms: Seq<Seq<u8>>,
    fold: bool,
    haystack: Seq<u8>,
    from: int,
) -> Seq<(int, int, int)>
    decreases haystack.len() - from,
{
    match next_hit(terms, fold, haystack, from) {
        Some(hit) => if hit.2 > from {
            seq![hit] + hits(terms, fold, haystack, hit.2)
        } else {
            Seq::empty()
        },
        None => Seq::empty(),
    }
}

/// Whether a term is among the hits.
pub open spec fn reported(hits: Seq<(int, int, int)>, term: int) -> bool {
    exists|i: int| 0 <= i < hits.len() && (#[trigger] hits[i]).0 == term
}

/// Whether a byte is a letter, a digit or an underscore of ASCII.
pub open spec fn word_byte(b: u8) -> bool {
    48 <= b <= 57 || 65 <= b <= 90 || b == 95 || 97 <= b <= 122
}

/// Whether a word begins or ends at a position of an ASCII text.
pub open spec fn word_edge(haystack: Seq<u8>, at: int) -> bool {
    (0 < at <= haystack.len() && word_byte(haystack[at - 1])) != (0 <= at < haystack.len()
        && word_byte(haystack[at]))
}

/// Whether a literal stands at a position, where words are asked for between
/// two edges of words.
pub open spec fn stands(
    haystack: Seq<u8>,
    term: Seq<u8>,
    fold: bool,
    words: bool,
    at: int,
) -> bool {
    &&& occurs_at(haystack, term, fold, at)
    &&& words ==> word_edge(haystack, at) && word_edge(haystack, at + term.len())
}

/// Whether `found` (a literal's number and where it stands) is what an
/// alternation of literals, given in order of preference, matches leftmost
/// from `from` on.
pub open spec fn is_leftmost(
    terms: Seq<Seq<u8>>,
    fold: bool,
    words: bool,
    haystack: Seq<u8>,
    from: int,
    found: (int, int),
) -> bool {
    &&& 0 <= found.0 < terms.len()
    &&& from <= found.1
    &&& stands(haystack, terms[found.0], fold, words, found.1)
    &&& forall|t: int, k: int|
        0 <= t < terms.len() && from <= k && #[trigger] stands(haystack, terms[t], fold, words, k)
            ==> found.1 < k || (found.1 == k && found.0 <= t)
}

/// The spans that an alternation of non-empty literals, given in order of
/// preference, matches from left to right without overlap.
pub open spec fn leftmost_spans(
    terms: Seq<Seq<u8>>,
    fold: bool,
    words: bool,
    haystack: Seq<u8>,
    from: int,
) -> Seq<(int, int)>
    decreases haystack.len() - from,
{
    if exists|found: (int, int)| is_leftmost(terms, fold, words, haystack, from, found) {
        let found = choose|found: (int, int)|
            is_leftmost(terms, fold, words, haystack, from, found);
        let end = found.1 + terms[found.0].len();
        if end > from {
            seq![(found.1, end)] + leftmost_spans(terms, fold, words, haystack, end)
        } else {
            Seq::empty()
        }
    } else {
        Seq::empty()
    }
}

/// Where there is a hit, one of them is reported next.
pub proof fn lemma_next_hit_exists(
    terms: Seq<Seq<u8>>,
    fold: bool,
    haystack: Seq<u8>,
    from: int,
    hit: (int, int, int),
)
    requires
        is_hit(terms, fold, haystack, from, hit),
    ensures
        next_hit(terms, fold, haystack, from) is Some,
    decreases hit.2, hit.1, hit.0,
{
    if exists|other: (int, int, int)|
        is_hit(terms, fold, haystack, from, other) && !goes_first(hit, other) {
        let other = choose|other: (int, int, int)|
            is_hit(terms, fold, haystack, from, other) && !goes_first(hit, other);
        lemma_next_hit_exists(terms, fold, haystack, from, other);
    } else {
        assert(is_next_hit(terms, fold, haystack, from, hit));
    }
}

/// The hit reported next is unique.
pub proof fn lemma_next_hit_is(
    terms: Seq<Seq<u8>>,
    fold: bool,
    haystack: Seq<u8>,
    from: int,
    hit: (int, int, int),
)
    requires
        is_next_hit(terms, fold, haystack, from, hit),
    ensures
        next_hit(terms, fold, haystack, from) == Some(hit),
{
    let chosen = next_hit(terms, fold, haystack, from)->0;
    assert(is_next_hit(terms, fold, haystack, from, chosen));
    assert(goes_first(hit, chosen) && goes_first(chosen, hit));
}

/// Every hit is an occurrence of its term, no two overlap, and there are at
/// most as many as there are bytes.
pub proof fn hits_are_apart(terms: Seq<Seq<u8>>, fold: bool, haystack: Seq<u8>, from: int)
    requires
        all_filled(terms),
        0 <= from <= haystack.len(),
    ensures
        forall|i: int|
            0 <= i < hits(terms, fold, haystack, from).len() ==> is_hit(
                terms,
                fold,
                haystack,
                from,
                #[trigger] hits(terms, fold, haystack, from)[i],
            ),
        forall|i: int, j: int|
            0 <= i < j < hits(terms, fold, haystack, from).len() ==> (#[trigger] hits(
                terms,
                fold,
                haystack,
                from,
            )[i]).2 <= (#[trigger] hits(terms, fold, haystack, from)[j]).1,
        hits(terms, fold, haystack, from).len() <= haystack.len() - from,
    decreases haystack.len() - from,
{
    let all = hits(terms, fold, haystack, from);
    match next_hit(terms, fold, haystack, from) {
        Some(hit) => {
            assert(is_next_hit(terms, fold, haystack, from, hit));
            assert(terms[hit.0].len() > 0);
            hits_are_apart(terms, fold, haystack, hit.2);
            let rest = hits(terms, fold, haystack, hit.2);
            assert(all == seq![hit] + rest);
            assert forall|i: int| 0 <= i < all.len() implies is_hit(
                terms,
                fold,
                haystack,
                from,
                #[trigger] all[i],
            ) by {
                if i > 0 {
                    assert(all[i] == rest[i - 1]);
                }
            }
            assert forall|i: int, j: int| 0 <= i < j < all.len() implies (#[trigger] all[i]).2 <= (
            #[trigger] all[j]).1 by {
                assert(all[j] == rest[j - 1]);
                if i > 0 {
                    assert(all[i] == rest[i - 1]);
                } else {
                    assert(is_hit(terms, fold, haystack, hit.2, rest[j - 1]));
                }
            }
        },
        None => {},
    }
}

/// There is a hit exactly where one of the terms occurs.
pub proof fn hits_iff_a_term_occurs(terms: Seq<Seq<u8>>, fold: bool, haystack: Seq<u8>)
    requires
        all_filled(terms),
    ensures
        hits(terms, fold, haystack, 0).len() > 0 <==> exists|i: int|
            0 <= i < terms.len() && #[trigger] occurs(haystack, terms[i], fold),
{
    let all = hits(terms, fold, haystack, 0);
    if all.len() > 0 {
        hits_are_apart(terms, fold, haystack, 0);
        let hit = all[0];
        assert(is_hit(terms, fold, haystack, 0, hit));
        assert(occurs(haystack, terms[hit.0], fold));
    }
    if exists|i: int| 0 <= i < terms.len() && #[trigger] occurs(haystack, terms[i], fold) {
        let i = choose|i: int| 0 <= i < terms.len() && #[trigger] occurs(haystack, terms[i], fold);
        let at = choose|at: int| occurs_at(haystack, terms[i], fold, at);
        let hit = (i, at, at + terms[i].len());
        assert(is_hit(terms, fold, haystack, 0, hit));
        lemma_next_hit_exists(terms, fold, haystack, 0, hit);
        let next = next_hit(terms, fold, haystack, 0)->0;
        assert(is_next_hit(terms, fold, haystack, 0, next));
        assert(terms[next.0].len() > 0);
    }
}

/// Searching for a single term finds its occurrences from left to right, as a
/// plain search does.
pub proof fn one_term_is_a_plain_search(term: Seq<u8>, fold: bool, haystack: Seq<u8>, from: int)
    requires
        term.len() > 0,
        0 <= from <= haystack.len(),
    ensures
        hits(seq![term], fold, haystack, from).map_values(|h: (int, int, int)| h.1) == occurrences(
            haystack,
            term,
            fold,
            from,
        ),
    decreases haystack.len() - from,
{
    let terms = seq![term];
    let start = |h: (int, int, int)| h.1;
    assert(terms[0] == term);
    match next_occurrence(haystack, term, fold, from) {
        Some(at) => {
            assert(is_next_occurrence(haystack, term, fold, from, at));
            let hit = (0int, at, at + term.len());
            assert(is_hit(terms, fold, haystack, from, hit));
            assert forall|other: (int, int, int)|
                is_hit(terms, fold, haystack, from, other) implies goes_first(hit, other) by {
                if other.1 < at {
                    assert(!occurs_at(haystack, term, fold, other.1));
                }
            }
            lemma_next_hit_is(terms, fold, haystack, from, hit);
            one_term_is_a_plain_search(term, fold, haystack, hit.2);
            let rest = hits(terms, fold, haystack, hit.2);
            assert((seq![hit] + rest).map_values(start) =~= seq![at] + rest.map_values(start));
        },
        None => {
            if next_hit(terms, fold, haystack, from) is Some {
                let hit = next_hit(terms, fold, haystack, from)->0;
                assert(is_next_hit(terms, fold, haystack, from, hit));
                lemma_next_exists(haystack, term, fold, from, hit.1);
            }
            assert(hits(terms, fold, haystack, from).map_values(start) =~= Seq::empty());
        },
    }
}

proof fn lemma_leftmost_exists(
    terms: Seq<Seq<u8>>,
    fold: bool,
    words: bool,
    haystack: Seq<u8>,
    from: int,
    found: (int, int),
)
    requires
        0 <= found.0 < terms.len(),
        0 <= from <= found.1,
        stands(haystack, terms[found.0], fold, words, found.1),
    ensures
        exists|best: (int, int)| is_leftmost(terms, fold, words, haystack, from, best),
    decreases found.1, found.0,
{
    if exists|t: int, k: int|
        0 <= t < terms.len() && from <= k && #[trigger] stands(haystack, terms[t], fold, words, k)
            && !(found.1 < k || (found.1 == k && found.0 <= t)) {
        let (t, k) = choose|t: int, k: int|
            0 <= t < terms.len() && from <= k && #[trigger] stands(
                haystack,
                terms[t],
                fold,
                words,
                k,
            ) && !(found.1 < k || (found.1 == k && found.0 <= t));
        lemma_leftmost_exists(terms, fold, words, haystack, from, (t, k));
    } else {
        assert(is_leftmost(terms, fold, words, haystack, from, found));
    }
}

/// An alternation of literals matches somewhere exactly where one of the
/// literals stands.
pub proof fn leftmost_spans_iff_a_term_stands(
    terms: Seq<Seq<u8>>,
    fold: bool,
    words: bool,
    haystack: Seq<u8>,
)
    requires
        all_filled(terms),
    ensures
        leftmost_spans(terms, fold, words, haystack, 0).len() > 0 <==> exists|i: int, at: int|
            0 <= i < terms.len() && #[trigger] stands(haystack, terms[i], fold, words, at),
{
    if leftmost_spans(terms, fold, words, haystack, 0).len() > 0 {
        let found = choose|found: (int, int)| is_leftmost(terms, fold, words, haystack, 0, found);
        assert(stands(haystack, terms[found.0], fold, words, found.1));
    }
    if exists|i: int, at: int|
        0 <= i < terms.len() && #[trigger] stands(haystack, terms[i], fold, words, at) {
        let (i, at) = choose|i: int, at: int|
            0 <= i < terms.len() && #[trigger] stands(haystack, terms[i], fold, words, at);
        lemma_leftmost_exists(terms, fold, words, haystack, 0, (i, at));
        let found = choose|found: (int, int)| is_leftmost(terms, fold, words, haystack, 0, found);
        assert(terms[found.0].len() > 0);
    }
}

/// An alternation of literals that is not asked for words matches somewhere
/// exactly where one of the literals occurs.
pub proof fn leftmost_spans_iff_a_term_occurs(terms: Seq<Seq<u8>>, fold: bool, haystack: Seq<u8>)
    requires
        all_filled(terms),
    ensures
        leftmost_spans(terms, fold, false, haystack, 0).len() > 0 <==> exists|i: int|
            0 <= i < terms.len() && #[trigger] occurs(haystack, terms[i], fold),
{
    leftmost_spans_iff_a_term_stands(terms, fold, false, haystack);
    if exists|i: int, at: int|
        0 <= i < terms.len() && #[trigger] stands(haystack, terms[i], fold, false, at) {
        let (i, at) = choose|i: int, at: int|
            0 <= i < terms.len() && #[trigger] stands(haystack, terms[i], fold, false, at);
        assert(occurs_at(haystack, terms[i], fold, at));
        assert(occurs(haystack, terms[i], fold));
    }
    if exists|i: int| 0 <= i < terms.len() && #[trigger] occurs(haystack, terms[i], fold) {
        let i = choose|i: int| 0 <= i < terms.len() && #[trigger] occurs(haystack, terms[i], fold);
        let at = choose|at: int| occurs_at(haystack, terms[i], fold, at);
        assert(stands(haystack, terms[i], fold, false, at));
    }
}

/// Where a literal is found as a word, it is found as a text.
pub proof fn words_are_texts(terms: Seq<Seq<u8>>, fold: bool, haystack: Seq<u8>)
    requires
        all_filled(terms),
        leftmost_spans(terms, fold, true, haystack, 0).len() > 0,
    ensures
        leftmost_spans(terms, fold, false, haystack, 0).len() > 0,
{
    leftmost_spans_iff_a_term_stands(terms, fold, true, haystack);
    leftmost_spans_iff_a_term_stands(terms, fold, false, haystack);
    let (i, at) = choose|i: int, at: int|
        0 <= i < terms.len() && #[trigger] stands(haystack, terms[i], fold, true, at);
    assert(stands(haystack, terms[i], fold, false, at));
}

/// An alternation of a single literal that is not asked for words matches
/// where a plain search for it finds it.
pub proof fn one_literal_is_a_plain_search(
    term: Seq<u8>,
    fold: bool,
    haystack: Seq<u8>,
    from: int,
)
    requires
        term.len() > 0,
        0 <= from <= haystack.len(),
    ensures
        leftmost_spans(seq![term], fold, false, haystack, from).map_values(|s: (int, int)| s.0)
            == occurrences(haystack, term, fold, from),
    decreases haystack.len() - from,
{
    let terms = seq![term];
    let start = |s: (int, int)| s.0;
    assert(terms[0] == term);
    match next_occurrence(haystack, term, fold, from) {
        Some(at) => {
            assert(is_next_occurrence(haystack, term, fold, from, at));
            assert(stands(haystack, terms[0], fold, false, at));
            lemma_leftmost_exists(terms, fold, false, haystack, from, (0, at));
            let found = choose|found: (int, int)|
                is_leftmost(terms, fold, false, haystack, from, found);
            assert(found.1 <= at);
            assert(occurs_at(haystack, term, fold, found.1));
            assert(found == (0int, at));
            let end = at + term.len();
            one_literal_is_a_plain_search(term, fold, haystack, end);
            let rest = leftmost_spans(terms, fold, false, haystack, end);
            assert((seq![(at, end)] + rest).map_values(start) =~= seq![at] + rest.map_values(
                start,
            ));
        },
        None => {
            if exists|found: (int, int)| is_leftmost(terms, fold, false, haystack, from, found) {
                let found = choose|found: (int, int)|
                    is_leftmost(terms, fold, false, haystack, from, found);
                lemma_next_exists(haystack, term, fold, from, found.1);
            }
            assert(leftmost_spans(terms, fold, false, haystack, from).map_values(start)
                =~= Seq::empty());
        },
    }
}

} // verus!
