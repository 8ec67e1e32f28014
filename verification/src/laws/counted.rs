//! Promises of what is counted.

use crate::engines::{automaton_folds, automaton_terms, regex_setting, regex_spans};
use crate::hits::{
    all_filled, goes_first, hits, is_hit, is_leftmost, is_next_hit, leftmost_spans,
    lemma_next_hit_exists, next_hit, stands, word_byte, word_edge,
};
use crate::matchers::{lemma_same_tallies, sum_of, tally, SearchMatcher, SearchMatchers};
use crate::occurrences::{
    count_ascii_case_insensitive, is_next_occurrence, lemma_next_exists, lemma_next_is,
    next_occurrence, occurrences, occurs, occurs_at, same_byte,
};
use vstd::prelude::*;

verus! {

/// When bytes count as the same: when they are, or, where case is ignored, when
/// they are a letter of ASCII as a capital and as a small one.
pub proof fn letters_differ_in_case_only(a: u8, b: u8)
    ensures
        same_byte(a, b, false) <==> a == b,
        same_byte(a, b, true) <==> {
            ||| a == b
            ||| 65 <= a <= 90 && b == a + 32
            ||| 97 <= a <= 122 && b == a - 32
        },
{
}

/// A needle stands where the haystack holds just its bytes.
pub proof fn needles_stand_as_they_are(haystack: Seq<u8>, needle: Seq<u8>, at: int)
    ensures
        occurs_at(haystack, needle, false, at) <==> 0 <= at && at + needle.len() <= haystack.len()
            && haystack.subrange(at, at + needle.len()) == needle,
        occurs_at(haystack, needle, false, at) ==> occurs_at(haystack, needle, true, at),
        occurs_at(haystack, needle, false, at) ==> occurs(haystack, needle, false),
{
    if occurs_at(haystack, needle, false, at) {
        let part = haystack.subrange(at, at + needle.len());
        assert forall|j: int| 0 <= j < needle.len() implies part[j] == needle[j] by {
            assert(same_byte(haystack[at + j], needle[j], false));
        }
        assert(part =~= needle);
    }
    if 0 <= at && at + needle.len() <= haystack.len() && haystack.subrange(at, at + needle.len())
        == needle {
        assert forall|j: int| 0 <= j < needle.len() implies same_byte(
            haystack[at + j],
            #[trigger] needle[j],
            false,
        ) by {
            assert(haystack.subrange(at, at + needle.len())[j] == needle[j]);
        }
    }
}

/// What a literal search counts: places where the needle stands, from left to
/// right without overlap.
pub proof fn occurrences_are_apart(haystack: Seq<u8>, needle: Seq<u8>, fold: bool, from: int)
    requires
        0 <= from,
        needle.len() > 0,
    ensures
        forall|i: int|
            0 <= i < occurrences(haystack, needle, fold, from).len() ==> from <= (
            #[trigger] occurrences(haystack, needle, fold, from)[i]),
        forall|i: int|
            0 <= i < occurrences(haystack, needle, fold, from).len() ==> occurs_at(
                haystack,
                needle,
                fold,
                #[trigger] occurrences(haystack, needle, fold, from)[i],
            ),
        forall|i: int, j: int|
            0 <= i < j < occurrences(haystack, needle, fold, from).len() ==> (
            #[trigger] occurrences(haystack, needle, fold, from)[i]) + needle.len()
                <= #[trigger] occurrences(haystack, needle, fold, from)[j],
    decreases haystack.len() + 1 - from,
{
    let all = occurrences(haystack, needle, fold, from);
    match next_occurrence(haystack, needle, fold, from) {
        Some(at) => {
            assert(is_next_occurrence(haystack, needle, fold, from, at));
            let end = at + needle.len();
            occurrences_are_apart(haystack, needle, fold, end);
            let rest = occurrences(haystack, needle, fold, end);
            assert(all == seq![at] + rest);
            assert forall|i: int| 0 <= i < all.len() implies from <= (#[trigger] all[i])
                && occurs_at(haystack, needle, fold, all[i]) by {
                if i > 0 {
                    assert(all[i] == rest[i - 1]);
                }
            }
            assert forall|i: int, j: int| 0 <= i < j < all.len() implies (#[trigger] all[i])
                + needle.len() <= #[trigger] all[j] by {
                assert(all[j] == rest[j - 1]);
                if i > 0 {
                    assert(all[i] == rest[i - 1]);
                }
            }
        },
        None => {},
    }
}

/// A literal search passes over nothing: wherever the needle stands, it is
/// counted, or it overlaps one that is counted and stands before.
pub proof fn occurrences_pass_over_nothing(
    haystack: Seq<u8>,
    needle: Seq<u8>,
    fold: bool,
    from: int,
    at: int,
) -> (i: int)
    requires
        0 <= from <= at,
        needle.len() > 0,
        occurs_at(haystack, needle, fold, at),
    ensures
        0 <= i < occurrences(haystack, needle, fold, from).len(),
        occurrences(haystack, needle, fold, from)[i] <= at < occurrences(
            haystack,
            needle,
            fold,
            from,
        )[i] + needle.len(),
    decreases haystack.len() + 1 - from,
{
    lemma_next_exists(haystack, needle, fold, from, at);
    let next = next_occurrence(haystack, needle, fold, from)->0;
    assert(is_next_occurrence(haystack, needle, fold, from, next));
    let end = next + needle.len();
    let rest = occurrences(haystack, needle, fold, end);
    assert(occurrences(haystack, needle, fold, from) == seq![next] + rest);
    if at < end {
        0
    } else {
        let i = occurrences_pass_over_nothing(haystack, needle, fold, end, at);
        assert((seq![next] + rest)[i + 1] == rest[i]);
        i + 1
    }
}

/// The empty needle stands before each byte and at the end.
pub proof fn the_empty_needle_stands_everywhere(haystack: Seq<u8>, fold: bool, from: int)
    requires
        0 <= from <= haystack.len() + 1,
    ensures
        occurrences(haystack, Seq::<u8>::empty(), fold, from).len() == haystack.len() + 1 - from,
    decreases haystack.len() + 1 - from,
{
    let none = Seq::<u8>::empty();
    if from <= haystack.len() {
        assert(is_next_occurrence(haystack, none, fold, from, from));
        lemma_next_is(haystack, none, fold, from, from);
        the_empty_needle_stands_everywhere(haystack, fold, from + 1);
    } else if next_occurrence(haystack, none, fold, from) is Some {
        let at = next_occurrence(haystack, none, fold, from)->0;
        assert(is_next_occurrence(haystack, none, fold, from, at));
    }
}

/// A search for several terms at once passes over nothing: wherever a term
/// stands, a hit ends inside of it or with it.
pub proof fn hits_pass_over_nothing(
    terms: Seq<Seq<u8>>,
    fold: bool,
    haystack: Seq<u8>,
    from: int,
    term: int,
    at: int,
) -> (i: int)
    requires
        all_filled(terms),
        0 <= from <= at,
        0 <= term < terms.len(),
        occurs_at(haystack, terms[term], fold, at),
    ensures
        0 <= i < hits(terms, fold, haystack, from).len(),
        at < hits(terms, fold, haystack, from)[i].2 <= at + terms[term].len(),
    decreases haystack.len() - from,
{
    let found = (term, at, at + terms[term].len());
    assert(is_hit(terms, fold, haystack, from, found));
    lemma_next_hit_exists(terms, fold, haystack, from, found);
    let hit = next_hit(terms, fold, haystack, from)->0;
    assert(is_next_hit(terms, fold, haystack, from, hit));
    assert(goes_first(hit, found));
    assert(terms[hit.0].len() > 0);
    let rest = hits(terms, fold, haystack, hit.2);
    assert(hits(terms, fold, haystack, from) == seq![hit] + rest);
    if hit.2 > at {
        0
    } else {
        let i = hits_pass_over_nothing(terms, fold, haystack, hit.2, term, at);
        assert((seq![hit] + rest)[i + 1] == rest[i]);
        i + 1
    }
}

/// The first hit is the one that ends first; of those that end there it is the
/// longest, and of equal ones the first.
pub proof fn the_first_hit_ends_first(
    terms: Seq<Seq<u8>>,
    fold: bool,
    haystack: Seq<u8>,
    term: int,
    at: int,
)
    requires
        all_filled(terms),
        0 <= term < terms.len(),
        occurs_at(haystack, terms[term], fold, at),
    ensures
        ({
            let all = hits(terms, fold, haystack, 0);
            let end = at + terms[term].len();
            &&& all.len() > 0
            &&& all[0].2 <= end
            &&& all[0].2 == end ==> all[0].1 <= at
            &&& all[0].2 == end && all[0].1 == at ==> all[0].0 <= term
        }),
{
    let found = (term, at, at + terms[term].len());
    assert(is_hit(terms, fold, haystack, 0, found));
    lemma_next_hit_exists(terms, fold, haystack, 0, found);
    let hit = next_hit(terms, fold, haystack, 0)->0;
    assert(is_next_hit(terms, fold, haystack, 0, hit));
    assert(goes_first(hit, found));
    assert(terms[hit.0].len() > 0);
}

/// The first span that an alternation of literals matches begins first; of the
/// literals that stand there it is the one that was given first.
pub proof fn the_first_span_begins_first(
    terms: Seq<Seq<u8>>,
    fold: bool,
    words: bool,
    haystack: Seq<u8>,
    term: int,
    at: int,
)
    requires
        all_filled(terms),
        0 <= term < terms.len(),
        stands(haystack, terms[term], fold, words, at),
        forall|t: int|
            0 <= t < term ==> !(#[trigger] stands(haystack, terms[t], fold, words, at)),
    ensures
        ({
            let all = leftmost_spans(terms, fold, words, haystack, 0);
            &&& all.len() > 0
            &&& all[0].0 <= at
            &&& all[0].0 == at ==> all[0].1 == at + terms[term].len()
        }),
{
    let best = lemma_leftmost_of(terms, fold, words, haystack, 0, (term, at));
    let found = choose|found: (int, int)| is_leftmost(terms, fold, words, haystack, 0, found);
    assert(is_leftmost(terms, fold, words, haystack, 0, found));
    assert(terms[found.0].len() > 0);
    if found.1 == at {
        assert(found.0 <= term);
        assert(stands(haystack, terms[found.0], fold, words, at));
    }
}

/// Whether a span is one in which a literal stands.
pub open spec fn is_standing(
    terms: Seq<Seq<u8>>,
    fold: bool,
    words: bool,
    haystack: Seq<u8>,
    span: (int, int),
) -> bool {
    exists|t: int|
        0 <= t < terms.len() && span.1 == span.0 + terms[t].len() && #[trigger] stands(
            haystack,
            terms[t],
            fold,
            words,
            span.0,
        )
}

/// What an alternation of literals matches: places where a literal stands, from
/// left to right without overlap.
pub proof fn leftmost_spans_are_apart(
    terms: Seq<Seq<u8>>,
    fold: bool,
    words: bool,
    haystack: Seq<u8>,
    from: int,
)
    requires
        all_filled(terms),
        0 <= from,
    ensures
        forall|i: int|
            0 <= i < leftmost_spans(terms, fold, words, haystack, from).len() ==> from <= (
            #[trigger] leftmost_spans(terms, fold, words, haystack, from)[i]).0,
        forall|i: int|
            0 <= i < leftmost_spans(terms, fold, words, haystack, from).len() ==> is_standing(
                terms,
                fold,
                words,
                haystack,
                #[trigger] leftmost_spans(terms, fold, words, haystack, from)[i],
            ),
        forall|i: int, j: int|
            0 <= i < j < leftmost_spans(terms, fold, words, haystack, from).len() ==> (
            #[trigger] leftmost_spans(terms, fold, words, haystack, from)[i]).1 <= (
            #[trigger] leftmost_spans(terms, fold, words, haystack, from)[j]).0,
    decreases haystack.len() - from,
{
    let all = leftmost_spans(terms, fold, words, haystack, from);
    if exists|found: (int, int)| is_leftmost(terms, fold, words, haystack, from, found) {
        let found = choose|found: (int, int)|
            is_leftmost(terms, fold, words, haystack, from, found);
        let end = found.1 + terms[found.0].len();
        assert(terms[found.0].len() > 0);
        leftmost_spans_are_apart(terms, fold, words, haystack, end);
        let rest = leftmost_spans(terms, fold, words, haystack, end);
        let span = (found.1, end);
        assert(all == seq![span] + rest);
        assert(is_standing(terms, fold, words, haystack, span)) by {
            assert(0 <= found.0 < terms.len() && span.1 == span.0 + terms[found.0].len());
            assert(stands(haystack, terms[found.0], fold, words, span.0));
        }
        assert forall|i: int| 0 <= i < all.len() implies from <= (#[trigger] all[i]).0
            && is_standing(terms, fold, words, haystack, all[i]) by {
            if i > 0 {
                assert(all[i] == rest[i - 1]);
            }
        }
        assert forall|i: int, j: int| 0 <= i < j < all.len() implies (#[trigger] all[i]).1 <= (
        #[trigger] all[j]).0 by {
            assert(all[j] == rest[j - 1]);
            if i > 0 {
                assert(all[i] == rest[i - 1]);
            }
        }
    }
}

/// An alternation of literals passes over nothing: wherever a literal stands, it
/// is matched, or it begins inside of what is matched.
pub proof fn leftmost_spans_pass_over_nothing(
    terms: Seq<Seq<u8>>,
    fold: bool,
    words: bool,
    haystack: Seq<u8>,
    from: int,
    term: int,
    at: int,
) -> (i: int)
    requires
        all_filled(terms),
        0 <= from <= at,
        0 <= term < terms.len(),
        stands(haystack, terms[term], fold, words, at),
    ensures
        0 <= i < leftmost_spans(terms, fold, words, haystack, from).len(),
        leftmost_spans(terms, fold, words, haystack, from)[i].0 <= at < leftmost_spans(
            terms,
            fold,
            words,
            haystack,
            from,
        )[i].1,
    decreases haystack.len() - from,
{
    let best = lemma_leftmost_of(terms, fold, words, haystack, from, (term, at));
    let found = choose|found: (int, int)| is_leftmost(terms, fold, words, haystack, from, found);
    assert(is_leftmost(terms, fold, words, haystack, from, found));
    let end = found.1 + terms[found.0].len();
    assert(terms[found.0].len() > 0);
    let rest = leftmost_spans(terms, fold, words, haystack, end);
    assert(leftmost_spans(terms, fold, words, haystack, from) == seq![(found.1, end)] + rest);
    if at < end {
        0
    } else {
        let i = leftmost_spans_pass_over_nothing(terms, fold, words, haystack, end, term, at);
        assert((seq![(found.1, end)] + rest)[i + 1] == rest[i]);
        i + 1
    }
}

proof fn lemma_leftmost_of(
    terms: Seq<Seq<u8>>,
    fold: bool,
    words: bool,
    haystack: Seq<u8>,
    from: int,
    found: (int, int),
) -> (best: (int, int))
    requires
        0 <= found.0 < terms.len(),
        0 <= from <= found.1,
        stands(haystack, terms[found.0], fold, words, found.1),
    ensures
        is_leftmost(terms, fold, words, haystack, from, best),
    decreases found.1, found.0,
{
    if exists|t: int, k: int|
        0 <= t < terms.len() && from <= k && #[trigger] stands(haystack, terms[t], fold, words, k)
            && !(found.1 < k || (found.1 == k && found.0 <= t)) {
        let (t, k) = choose|t: int, k: int|
            0 <= t < terms.len() && from <= k && #[trigger] stands(
                haystack,
                terms[t],
                fold,
                words,
                k,
            ) && !(found.1 < k || (found.1 == k && found.0 <= t));
        lemma_leftmost_of(terms, fold, words, haystack, from, (t, k))
    } else {
        found
    }
}

/// A literal stands as a word where it occurs and neither the byte before it
/// joins its first, nor the byte behind it its last, to one word.
pub proof fn words_stand_between_edges(
    haystack: Seq<u8>,
    term: Seq<u8>,
    fold: bool,
    at: int,
)
    requires
        term.len() > 0,
        occurs_at(haystack, term, fold, at),
        word_byte(haystack[at]),
        word_byte(haystack[at + term.len() - 1]),
    ensures
        stands(haystack, term, fold, false, at),
        stands(haystack, term, fold, true, at) <==> (at == 0 || !word_byte(haystack[at - 1])) && (at
            + term.len() == haystack.len() || !word_byte(haystack[at + term.len()])),
        forall|b: u8| #[trigger]
            word_byte(b) <==> (48 <= b <= 57 || 65 <= b <= 90 || b == 95 || 97 <= b <= 122),
{
    assert(word_edge(haystack, at) <==> (at == 0 || !word_byte(haystack[at - 1])));
}

/// Numbers with a property are counted part by part, each once.
pub proof fn tallies_go_part_by_part(
    n: nat,
    m: nat,
    p: spec_fn(int) -> bool,
    q: spec_fn(int) -> bool,
)
    requires
        forall|i: int| 0 <= i < m ==> #[trigger] q(i) == p(n + i),
    ensures
        tally(n + m, p) == tally(n, p) + tally(m, q),
        tally(0, p) == 0,
        tally(1, p) == (if p(0) {
            1nat
        } else {
            0nat
        }),
    decreases m,
{
    assert(tally(1, p) == tally(0, p) + (if p(0) {
        1nat
    } else {
        0nat
    }));
    if m > 0 {
        tallies_go_part_by_part(n, (m - 1) as nat, p, q);
        assert(q(m - 1) == p(n + (m - 1)));
        assert((n + m - 1) as nat == n + (m - 1) as nat);
    }
}

/// What several matchers count together is counted part by part.
pub proof fn sums_go_part_by_part(a: Seq<SearchMatcher>, b: Seq<SearchMatcher>, haystack: Seq<u8>)
    ensures
        sum_of(a + b, haystack, a.len() + b.len()) == sum_of(a, haystack, a.len()) + sum_of(
            b,
            haystack,
            b.len(),
        ),
        a.len() == 1 ==> sum_of(a, haystack, 1) == a[0].total(haystack),
        a.len() == 0 ==> sum_of(a, haystack, 0) == 0,
    decreases b.len(),
{
    if a.len() == 1 {
        assert(sum_of(a, haystack, 1) == sum_of(a, haystack, 0) + a[0].total(haystack));
    }
    if b.len() > 0 {
        let shorter = b.drop_last();
        sums_go_part_by_part(a, shorter, haystack);
        lemma_sum_of_first(a + b, a + shorter, haystack, a.len() + shorter.len());
        lemma_sum_of_first(b, shorter, haystack, shorter.len());
    } else {
        assert(a + b =~= a);
    }
}

proof fn lemma_sum_of_first(
    x: Seq<SearchMatcher>,
    y: Seq<SearchMatcher>,
    haystack: Seq<u8>,
    n: nat,
)
    requires
        forall|i: int| 0 <= i < n ==> #[trigger] x[i] == y[i],
    ensures
        sum_of(x, haystack, n) == sum_of(y, haystack, n),
    decreases n,
{
    if n > 0 {
        lemma_sum_of_first(x, y, haystack, (n - 1) as nat);
    }
}

/// What a matcher counts: a regular expression its matches, and a literal the
/// places where it stands, case ignored only if it does not matter. An empty
/// literal is not found where case is ignored.
pub proof fn matchers_count_what_they_match(matcher: SearchMatcher, haystack: &[u8], n: usize)
    requires
        call_ensures(SearchMatcher::count, (&matcher, haystack), n),
    ensures
        matcher matches SearchMatcher::Regex(regex) ==> n == regex_spans(
            regex_setting(regex).0,
            regex_setting(regex).1,
            regex_setting(regex).2,
            haystack@,
        ).len(),
        matcher matches SearchMatcher::Literal { needle, case_sensitive } ==> {
            &&& case_sensitive ==> n == occurrences(haystack@, needle@, false, 0).len()
            &&& !case_sensitive && needle@.len() > 0 ==> n == occurrences(
                haystack@,
                needle@,
                true,
                0,
            ).len()
            &&& !case_sensitive && needle@.len() == 0 ==> n == 0
        },
{
}

/// What is counted without regard to case is what a matcher that does not
/// regard it counts.
pub proof fn counts_without_case_are_alike(
    matcher: SearchMatcher,
    needle: &[u8],
    haystack: &[u8],
    n: usize,
    m: usize,
)
    requires
        matcher matches SearchMatcher::Literal { needle: bytes, case_sensitive } && bytes@
            == needle@ && !case_sensitive,
        call_ensures(SearchMatcher::count, (&matcher, haystack), n),
        call_ensures(count_ascii_case_insensitive, (haystack, needle), m),
    ensures
        n == m,
{
}

/// A matcher matches exactly if it counts something.
pub proof fn matching_is_counting_something(
    matcher: SearchMatcher,
    haystack: &[u8],
    n: usize,
    found: bool,
)
    requires
        call_ensures(SearchMatcher::count, (&matcher, haystack), n),
        call_ensures(SearchMatcher::is_match, (&matcher, haystack), found),
    ensures
        found == (n > 0),
{
}

/// The matchers for a list of terms in two parts count what those for the parts
/// count together, and find as many terms.
pub proof fn matchers_count_part_by_part(
    a: Vec<SearchMatcher>,
    b: Vec<SearchMatcher>,
    both: Vec<SearchMatcher>,
    haystack: &[u8],
    counted: (usize, usize, usize),
    found: (usize, usize, usize),
)
    requires
        both@ == a@ + b@,
        call_ensures(SearchMatchers::count, (&SearchMatchers::Expressions(a), haystack), counted.0),
        call_ensures(SearchMatchers::count, (&SearchMatchers::Expressions(b), haystack), counted.1),
        call_ensures(
            SearchMatchers::count,
            (&SearchMatchers::Expressions(both), haystack),
            counted.2,
        ),
        call_ensures(
            SearchMatchers::matching_terms,
            (&SearchMatchers::Expressions(a), haystack),
            found.0,
        ),
        call_ensures(
            SearchMatchers::matching_terms,
            (&SearchMatchers::Expressions(b), haystack),
            found.1,
        ),
        call_ensures(
            SearchMatchers::matching_terms,
            (&SearchMatchers::Expressions(both), haystack),
            found.2,
        ),
    ensures
        counted.2 == counted.0 + counted.1,
        found.2 == found.0 + found.1,
{
    sums_go_part_by_part(a@, b@, haystack@);
    let x = SearchMatchers::Expressions(a);
    let y = SearchMatchers::Expressions(b);
    let z = SearchMatchers::Expressions(both);
    let p = |i: int| z.finds(haystack@, i);
    let q = |i: int| y.finds(haystack@, i);
    let r = |i: int| x.finds(haystack@, i);
    assert forall|i: int| 0 <= i < b@.len() implies #[trigger] q(i) == p(a@.len() + i) by {
        assert(both@[a@.len() + i] == b@[i]);
    }
    tallies_go_part_by_part(a@.len(), b@.len(), p, q);
    assert forall|i: int| 0 <= i < a@.len() implies #[trigger] r(i) == p(i) by {
        assert(both@[i] == a@[i]);
    }
    lemma_same_tallies(a@.len(), r, p);
}

/// The matchers for a single term count what its own matcher counts, and find
/// the term exactly if that matches.
pub proof fn one_matcher_counts_by_itself(
    list: Vec<SearchMatcher>,
    matcher: SearchMatcher,
    haystack: &[u8],
    n: usize,
    counted: usize,
    terms: usize,
)
    requires
        list@ == seq![matcher],
        call_ensures(SearchMatcher::count, (&matcher, haystack), n),
        call_ensures(SearchMatchers::count, (&SearchMatchers::Expressions(list), haystack), counted),
        call_ensures(
            SearchMatchers::matching_terms,
            (&SearchMatchers::Expressions(list), haystack),
            terms,
        ),
    ensures
        counted == n,
        terms == (if n > 0 {
            1int
        } else {
            0int
        }),
{
    sums_go_part_by_part(list@, Seq::empty(), haystack@);
    let x = SearchMatchers::Expressions(list);
    let p = |i: int| x.finds(haystack@, i);
    tallies_go_part_by_part(0, 0, p, p);
    assert(list@[0] == matcher);
}

/// Terms that are searched for all at once are counted hit by hit, and each term
/// is found that a hit is of.
pub proof fn literals_are_counted_hit_by_hit(
    matchers: SearchMatchers,
    haystack: &[u8],
    counted: usize,
    found: usize,
)
    requires
        matchers is Literals,
        call_ensures(SearchMatchers::count, (&matchers, haystack), counted),
        call_ensures(SearchMatchers::matching_terms, (&matchers, haystack), found),
    ensures
        found == tally(
            automaton_terms(matchers->Literals_0).len(),
            |t: int|
                exists|i: int|
                    0 <= i < hits(
                        automaton_terms(matchers->Literals_0),
                        automaton_folds(matchers->Literals_0),
                        haystack@,
                        0,
                    ).len() && (#[trigger] hits(
                        automaton_terms(matchers->Literals_0),
                        automaton_folds(matchers->Literals_0),
                        haystack@,
                        0,
                    )[i]).0 == t,
        ),
        counted == hits(
            automaton_terms(matchers->Literals_0),
            automaton_folds(matchers->Literals_0),
            haystack@,
            0,
        ).len(),
{
    let all = hits(
        automaton_terms(matchers->Literals_0),
        automaton_folds(matchers->Literals_0),
        haystack@,
        0,
    );
    let among = |t: int| exists|i: int| 0 <= i < all.len() && (#[trigger] all[i]).0 == t;
    let finds = |t: int| matchers.finds(haystack@, t);
    assert forall|t: int| #[trigger] finds(t) == among(t) by {}
    lemma_same_tallies(matchers.terms(), finds, among);
}

/// A count that is given where there may be too many is the count; none is given
/// only where there are more than the machine has numbers for.
pub proof fn counts_are_given_where_they_can_be(
    matchers: SearchMatchers,
    haystack: &[u8],
    tried: Option<usize>,
    counted: usize,
)
    requires
        call_ensures(SearchMatchers::try_count, (&matchers, haystack), tried),
        call_ensures(SearchMatchers::count, (&matchers, haystack), counted),
        haystack@.len() < usize::MAX,
    ensures
        tried == Some(counted),
{
}

} // verus!
