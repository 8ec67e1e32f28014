//! The matchers that are made of a query's terms, and what they find.

use crate::engines::{
    ascii_bytes, automaton_find_iter, automaton_folds, automaton_next, automaton_pending,
    automaton_refusals, automaton_terms, automaton_terms_len, escaped, finds_literals,
    free_of_odd_letters, in_order, regex_excesses, regex_find_iter, regex_flaws, regex_is_match,
    regex_next, regex_pending, regex_setting, spans_of, substring_find_iter, substring_next,
    substring_pending, utf8_of, word_source,
};
use crate::hits::{
    all_filled, hits, hits_are_apart, hits_iff_a_term_occurs, is_hit, leftmost_spans,
    one_literal_is_a_plain_search, one_term_is_a_plain_search, reported,
};
use crate::occurrences::{
    count_ascii_case_insensitive, lemma_occurrences_bounded, literal_count, next_occurrence,
    occurrences, occurs, occurs_at, same_byte,
};
use crate::request::SearchRequest;
use crate::terms::{query_lines, query_terms, query_terms_are_clean};
use crate::text::joined;
use aho_corasick::{AhoCorasick, BuildError};
use memchr::memmem;
use regex::bytes::Regex;
use vstd::prelude::*;
use vstd::string::to_string_from_display_ensures;
use vstd::utf8::{encode_utf8, is_ascii_chars};

verus! {

/// Whether one term is searched for byte by byte.
pub open spec fn literal_term(req: SearchRequest, term: Seq<char>) -> bool {
    !req.use_regex && !req.whole_word && (req.case_sensitive || is_ascii_chars(term))
}

/// Whether all terms are searched for byte by byte, and so all at once.
pub open spec fn literal_search(req: SearchRequest) -> bool {
    &&& !req.use_regex
    &&& !req.whole_word
    &&& req.case_sensitive || forall|i: int|
        0 <= i < query_terms(req.query@).len() ==> is_ascii_chars(
            #[trigger] query_terms(req.query@)[i],
        )
}

/// The source of the regular expression for one text.
pub open spec fn expression_source(req: SearchRequest, text: Seq<char>) -> Seq<char> {
    let source = if req.use_regex {
        text
    } else {
        escaped(text)
    };
    if req.whole_word {
        "\\b(?:"@ + source + ")\\b"@
    } else {
        source
    }
}

/// The source of the regular expression for any line of a query.
pub open spec fn replacement_source(query: Seq<char>, use_regex: bool, whole_word: bool) -> Seq<
    char,
> {
    let source = "(?:"@ + joined(
        query_lines(query).map_values(
            |line: Seq<char>|
                if use_regex {
                    line
                } else {
                    escaped(line)
                },
        ),
        "|"@,
    ) + ")"@;
    if whole_word {
        "\\b"@ + source + "\\b"@
    } else {
        source
    }
}

/// Whether a message is a prefix followed by what a failed compilation says.
pub open spec fn explains_regex(prefix: Seq<char>, error: regex::Error, message: Seq<char>) -> bool {
    exists|shown: String|
        to_string_from_display_ensures::<regex::Error>(&error, shown) && message == prefix + shown@
}

/// Whether a source is a valid regular expression.
pub open spec fn is_valid(source: Seq<char>, case_insensitive: bool) -> bool {
    regex_flaws(source, case_insensitive, true) == Set::<regex::Error>::empty()
}

/// Whether a message is a prefix followed by what is wrong with a source.
pub open spec fn tells_flaw(
    prefix: Seq<char>,
    source: Seq<char>,
    case_insensitive: bool,
    message: Seq<char>,
) -> bool {
    exists|error: regex::Error| #[trigger]
        regex_flaws(source, case_insensitive, true).contains(error) && explains_regex(
            prefix,
            error,
            message,
        )
}

/// Whether a message is a prefix followed by that a source is too large.
pub open spec fn tells_excess(
    prefix: Seq<char>,
    source: Seq<char>,
    case_insensitive: bool,
    message: Seq<char>,
) -> bool {
    exists|error: regex::Error| #[trigger]
        regex_excesses(source, case_insensitive, true).contains(error) && explains_regex(
            prefix,
            error,
            message,
        )
}

/// Whether a message is a prefix followed by the reason for which a source is
/// refused: what is wrong with it, or, if it is valid, that it is too large.
pub open spec fn tells_refusal(
    prefix: Seq<char>,
    source: Seq<char>,
    case_insensitive: bool,
    message: Seq<char>,
) -> bool {
    if is_valid(source, case_insensitive) {
        tells_excess(prefix, source, case_insensitive, message)
    } else {
        tells_flaw(prefix, source, case_insensitive, message)
    }
}

/// Whether a message says that an expression was refused, and why.
pub open spec fn tells_invalid_expression(
    source: Seq<char>,
    case_insensitive: bool,
    message: Seq<char>,
) -> bool {
    tells_refusal("Expressão inválida: "@, source, case_insensitive, message)
}

/// Whether a message is what a failed construction of an automaton says.
pub open spec fn explains_automaton(error: BuildError, message: Seq<char>) -> bool {
    exists|shown: String|
        to_string_from_display_ensures::<BuildError>(&error, shown) && message == shown@
}

/// Whether a message is a reason for which an automaton for some terms is
/// refused.
pub open spec fn tells_refused_terms(
    terms: Seq<Seq<char>>,
    folds: bool,
    message: Seq<char>,
) -> bool {
    exists|error: BuildError| #[trigger]
        automaton_refusals(utf8_of(terms), folds).contains(error) && explains_automaton(
            error,
            message,
        )
}

/// A matcher for one term.
pub enum SearchMatcher {
    Regex(Regex),
    Literal { needle: Vec<u8>, case_sensitive: bool },
}

/// Whether a matcher is the one that a request makes of a term.
pub open spec fn is_matcher_for(matcher: SearchMatcher, req: SearchRequest, term: Seq<char>) -> bool {
    if literal_term(req, term) {
        matcher matches SearchMatcher::Literal { needle, case_sensitive } && needle@ == encode_utf8(
            term,
        ) && case_sensitive == req.case_sensitive
    } else {
        matcher matches SearchMatcher::Regex(regex) && regex_setting(regex) == (
            expression_source(req, term),
            !req.case_sensitive,
            true,
        ) && is_valid(expression_source(req, term), !req.case_sensitive)
    }
}

/// Whether there is a matcher of the kind that a request makes of a term.
pub open spec fn has_matcher(req: SearchRequest, term: Seq<char>) -> bool {
    exists|matcher: SearchMatcher| is_matcher_for(matcher, req, term)
}

/// Matchers for all the terms of a query.
pub enum SearchMatchers {
    Literals(AhoCorasick),
    Expressions(Vec<SearchMatcher>),
}

/// Whether matchers are those that a request makes of its query.
pub open spec fn are_matchers_for(matchers: SearchMatchers, req: SearchRequest) -> bool {
    let terms = query_terms(req.query@);
    if literal_search(req) {
        matchers matches SearchMatchers::Literals(automaton) && automaton_terms(automaton)
            == utf8_of(terms) && automaton_folds(automaton) == !req.case_sensitive
    } else {
        matchers matches SearchMatchers::Expressions(list) && list@.len() == terms.len()
            && forall|i: int|
            0 <= i < terms.len() ==> is_matcher_for(#[trigger] list@[i], req, terms[i])
    }
}

/// Whether there are matchers of the kind that a request makes of its query.
pub open spec fn has_matchers(req: SearchRequest) -> bool {
    exists|matchers: SearchMatchers| are_matchers_for(matchers, req) && matchers.wf()
}

/// How many of the numbers below `n` have a property.
pub open spec fn tally(n: nat, property: spec_fn(int) -> bool) -> nat
    decreases n,
{
    if n == 0 {
        0
    } else {
        tally((n - 1) as nat, property) + (if property(n - 1) {
            1nat
        } else {
            0nat
        })
    }
}

/// What the first `n` matchers count together.
pub open spec fn sum_of(matchers: Seq<SearchMatcher>, haystack: Seq<u8>, n: nat) -> nat
    decreases n,
{
    if n == 0 {
        0
    } else {
        sum_of(matchers, haystack, (n - 1) as nat) + matchers[n - 1].total(haystack)
    }
}

/// How often a text stands in a haystack, from left to right without overlap,
/// ASCII case ignored when `fold` is set, and only as a word when `words` is.
pub open spec fn text_count(text: Seq<char>, fold: bool, words: bool, haystack: Seq<u8>) -> nat {
    leftmost_spans(utf8_of(seq![text]), fold, words, haystack, 0).len()
}

/// How often the first `n` of some texts stand in a haystack together.
pub open spec fn texts_counted(
    texts: Seq<Seq<char>>,
    fold: bool,
    words: bool,
    haystack: Seq<u8>,
    n: nat,
) -> nat
    decreases n,
{
    if n == 0 {
        0
    } else {
        texts_counted(texts, fold, words, haystack, (n - 1) as nat) + text_count(
            texts[n - 1],
            fold,
            words,
            haystack,
        )
    }
}

proof fn lemma_texts_counted(
    matchers: Seq<SearchMatcher>,
    texts: Seq<Seq<char>>,
    case_sensitive: bool,
    words: bool,
    haystack: Seq<u8>,
    n: nat,
)
    requires
        n <= texts.len() == matchers.len(),
        forall|i: int|
            0 <= i < texts.len() ==> (#[trigger] matchers[i]).is_expression_for(
                texts[i],
                case_sensitive,
                words,
                haystack,
            ),
        forall|j: int, text: Seq<char>, sensitive: bool, whole: bool|
            #![trigger matchers[j].is_expression_for(text, sensitive, whole, haystack)]
            0 <= j < matchers.len() && matchers[j].is_expression_for(
                text,
                sensitive,
                whole,
                haystack,
            ) ==> matchers[j].total(haystack) == text_count(text, !sensitive, whole, haystack),
    ensures
        sum_of(matchers, haystack, n) == texts_counted(
            texts,
            !case_sensitive,
            words,
            haystack,
            n,
        ),
    decreases n,
{
    if n > 0 {
        lemma_texts_counted(matchers, texts, case_sensitive, words, haystack, (n - 1) as nat);
        assert(matchers[n - 1].is_expression_for(texts[n - 1], case_sensitive, words, haystack));
    }
}

proof fn lemma_no_less(n: nat, each: nat)
    requires
        n > 0,
    ensures
        n * each >= each,
{
    assert(n * each >= each) by (nonlinear_arith)
        requires
            n > 0,
    ;
}

proof fn lemma_sum_grows(matchers: Seq<SearchMatcher>, haystack: Seq<u8>, n: nat, m: nat)
    requires
        n <= m,
    ensures
        sum_of(matchers, haystack, n) <= sum_of(matchers, haystack, m),
    decreases m - n,
{
    if n < m {
        lemma_sum_grows(matchers, haystack, n, (m - 1) as nat);
    }
}

pub proof fn lemma_same_tallies(n: nat, p: spec_fn(int) -> bool, q: spec_fn(int) -> bool)
    requires
        forall|i: int| 0 <= i < n ==> #[trigger] p(i) == q(i),
    ensures
        tally(n, p) == tally(n, q),
    decreases n,
{
    if n > 0 {
        lemma_same_tallies((n - 1) as nat, p, q);
        assert(p(n - 1) == q(n - 1));
    }
}

proof fn lemma_spans_bounded(spans: Seq<(int, int)>, length: int)
    requires
        in_order(spans, length),
        length >= 0,
    ensures
        spans.len() <= length + 1,
{
    if spans.len() > 0 {
        lemma_span_ends(spans, length, spans.len() - 1);
    }
}

proof fn lemma_span_ends(spans: Seq<(int, int)>, length: int, i: int)
    requires
        in_order(spans, length),
        0 <= i < spans.len(),
    ensures
        i <= spans[i].1 <= length,
    decreases i,
{
    if i > 0 {
        lemma_span_ends(spans, length, i - 1);
        assert(spans[i - 1].1 < spans[i].1);
    }
    assert(spans[i].1 <= length);
}

/// Counts what a substring search finds.
fn count_substring(haystack: &[u8], needle: &[u8]) -> (count: usize)
    requires
        haystack@.len() < usize::MAX,
    ensures
        count == occurrences(haystack@, needle@, false, 0).len(),
{
    let mut matches = substring_find_iter(haystack, needle);
    let mut count: usize = 0;
    let ghost total = occurrences(haystack@, needle@, false, 0).len();
    proof {
        lemma_occurrences_bounded(haystack@, needle@, false, 0);
    }
    let mut next = substring_next(&mut matches);
    while next.is_some()
        invariant
            total <= usize::MAX,
            next is Some ==> count + 1 + substring_pending(matches).len() == total,
            next is None ==> count == total,
        decreases total - count,
    {
        count = count + 1;
        next = substring_next(&mut matches);
    }
    count
}

/// Counts what a regular expression matches.
fn count_regex(regex: &Regex, haystack: &[u8]) -> (count: usize)
    requires
        haystack@.len() < usize::MAX,
    ensures
        count == spans_of(*regex, haystack@).len(),
        count <= haystack@.len() + 1,
        forall|literals: Seq<Seq<char>>, fold: bool, words: bool|
            #![trigger finds_literals(*regex, literals, fold, words, haystack@)]
            finds_literals(*regex, literals, fold, words, haystack@) ==> count == leftmost_spans(
                utf8_of(literals),
                fold,
                words,
                haystack@,
                0,
            ).len(),
{
    let mut matches = regex_find_iter(regex, haystack);
    let mut count: usize = 0;
    let ghost total = spans_of(*regex, haystack@).len();
    proof {
        lemma_spans_bounded(regex_pending(matches), haystack@.len() as int);
    }
    let mut next = regex_next(&mut matches);
    while next.is_some()
        invariant
            total <= usize::MAX,
            next is Some ==> count + 1 + regex_pending(matches).len() == total,
            next is None ==> count == total,
        decreases total - count,
    {
        count = count + 1;
        next = regex_next(&mut matches);
    }
    count
}

impl SearchMatcher {
    /// How often the matcher matches.
    pub open spec fn total(self, haystack: Seq<u8>) -> nat {
        match self {
            SearchMatcher::Regex(regex) => spans_of(regex, haystack).len(),
            SearchMatcher::Literal { needle, case_sensitive } => literal_count(
                haystack,
                needle@,
                case_sensitive,
            ),
        }
    }

    /// Whether the matcher is the expression for a text as it stands, or for
    /// the text as a word.
    pub open spec fn is_expression_for(
        self,
        text: Seq<char>,
        case_sensitive: bool,
        words: bool,
        haystack: Seq<u8>,
    ) -> bool {
        self matches SearchMatcher::Regex(regex) && finds_literals(
            regex,
            seq![text],
            !case_sensitive,
            words,
            haystack,
        )
    }

    /// Counts the matches in a haystack. The expression for a text counts where
    /// the text stands.
    pub fn count(&self, haystack: &[u8]) -> (n: usize)
        requires
            haystack@.len() < usize::MAX,
        ensures
            n == self.total(haystack@),
            n <= haystack@.len() + 1,
            forall|text: Seq<char>, case_sensitive: bool, words: bool|
                #![trigger self.is_expression_for(text, case_sensitive, words, haystack@)]
                self.is_expression_for(text, case_sensitive, words, haystack@) ==> n == text_count(
                    text,
                    !case_sensitive,
                    words,
                    haystack@,
                ),
    {
        match self {
            SearchMatcher::Regex(regex) => count_regex(regex, haystack),
            SearchMatcher::Literal { needle, case_sensitive } => {
                proof {
                    lemma_occurrences_bounded(haystack@, needle@, !*case_sensitive, 0);
                }
                if *case_sensitive {
                    count_substring(haystack, needle.as_slice())
                } else {
                    count_ascii_case_insensitive(haystack, needle.as_slice())
                }
            },
        }
    }

    /// Whether there is a match in a haystack.
    pub fn is_match(&self, haystack: &[u8]) -> (found: bool)
        ensures
            found == (self.total(haystack@) > 0),
            forall|text: Seq<char>, case_sensitive: bool, words: bool|
                #![trigger self.is_expression_for(text, case_sensitive, words, haystack@)]
                self.is_expression_for(text, case_sensitive, words, haystack@) ==> found == (
                text_count(text, !case_sensitive, words, haystack@) > 0),
    {
        match self {
            SearchMatcher::Regex(regex) => regex_is_match(regex, haystack),
            SearchMatcher::Literal { needle, case_sensitive } => if *case_sensitive {
                assert(occurrences(haystack@, needle@, false, 0).len() > 0 <==> next_occurrence(
                    haystack@,
                    needle@,
                    false,
                    0,
                ) is Some);
                memmem::find(haystack, needle.as_slice()).is_some()
            } else {
                count_ascii_case_insensitive(haystack, needle.as_slice()) > 0
            },
        }
    }
}

/// Counts the matches of some matchers together, or gives nothing where there
/// are more than the machine has numbers for.
fn count_all(list: &Vec<SearchMatcher>, haystack: &[u8]) -> (r: Option<usize>)
    requires
        haystack@.len() < usize::MAX,
    ensures
        match r {
            Some(n) => n == sum_of(list@, haystack@, list@.len()),
            None => {
                &&& sum_of(list@, haystack@, list@.len()) > usize::MAX
                &&& list@.len() * (haystack@.len() + 1) > usize::MAX
            },
        },
        forall|texts: Seq<Seq<char>>, case_sensitive: bool, words: bool|
            #![trigger SearchMatchers::Expressions(*list).are_expressions_for(texts, case_sensitive, words, haystack@)]
            SearchMatchers::Expressions(*list).are_expressions_for(
                texts,
                case_sensitive,
                words,
                haystack@,
            ) && r is Some ==> r->0 == texts_counted(
                texts,
                !case_sensitive,
                words,
                haystack@,
                texts.len(),
            ),
{
    let mut n: usize = 0;
    let mut i: usize = 0;
    while i < list.len()
        invariant
            i <= list@.len(),
            haystack@.len() < usize::MAX,
            n == sum_of(list@, haystack@, i as nat),
            n <= i * (haystack@.len() + 1),
            forall|j: int, text: Seq<char>, case_sensitive: bool, words: bool|
                #![trigger list@[j].is_expression_for(text, case_sensitive, words, haystack@)]
                0 <= j < i && list@[j].is_expression_for(text, case_sensitive, words, haystack@)
                    ==> list@[j].total(haystack@) == text_count(
                    text,
                    !case_sensitive,
                    words,
                    haystack@,
                ),
        decreases list@.len() - i,
    {
        proof {
            let each = haystack@.len() + 1;
            let all = list@.len();
            assert(i * each + each == (i + 1) * each) by (nonlinear_arith);
            assert((i + 1) * each <= all * each) by (nonlinear_arith)
                requires
                    i + 1 <= all,
                    0 <= each,
            ;
            lemma_sum_grows(list@, haystack@, (i + 1) as nat, list@.len());
        }
        let more: usize = list[i].count(haystack);
        match n.checked_add(more) {
            Some(sum) => {
                n = sum;
            },
            None => {
                return None;
            },
        }
        i = i + 1;
    }
    proof {
        assert forall|texts: Seq<Seq<char>>, case_sensitive: bool, words: bool|
            #![trigger SearchMatchers::Expressions(*list).are_expressions_for(texts, case_sensitive, words, haystack@)]
            SearchMatchers::Expressions(*list).are_expressions_for(
                texts,
                case_sensitive,
                words,
                haystack@,
            ) implies n == texts_counted(
            texts,
            !case_sensitive,
            words,
            haystack@,
            texts.len(),
        ) by {
            lemma_texts_counted(list@, texts, case_sensitive, words, haystack@, texts.len());
        }
    }
    Some(n)
}

impl SearchMatchers {
    /// Whether no term that is searched for is empty.
    pub open spec fn wf(self) -> bool {
        match self {
            SearchMatchers::Literals(automaton) => all_filled(automaton_terms(automaton)),
            SearchMatchers::Expressions(_) => true,
        }
    }

    /// Whether the matches in a haystack of a given length can be counted
    /// together, however many there are.
    pub open spec fn sure_to_fit(self, length: nat) -> bool {
        match self {
            SearchMatchers::Literals(_) => true,
            SearchMatchers::Expressions(list) => list@.len() * (length + 1) <= usize::MAX,
        }
    }

    /// Whether the matches in a haystack can be counted together: their number
    /// is one that the machine has. A slice has always less bytes than the
    /// largest number.
    pub open spec fn countable(self, haystack: Seq<u8>) -> bool {
        ||| self.sure_to_fit(haystack.len())
        ||| self.total(haystack) <= usize::MAX && haystack.len() < usize::MAX
    }

    /// Whether the matchers are the expressions for some texts as they stand,
    /// or for the texts as words.
    pub open spec fn are_expressions_for(
        self,
        texts: Seq<Seq<char>>,
        case_sensitive: bool,
        words: bool,
        haystack: Seq<u8>,
    ) -> bool {
        self matches SearchMatchers::Expressions(list) && list@.len() == texts.len()
            && forall|i: int|
            0 <= i < texts.len() ==> (#[trigger] list@[i]).is_expression_for(
                texts[i],
                case_sensitive,
                words,
                haystack,
            )
    }

    /// How many matches there are.
    pub open spec fn total(self, haystack: Seq<u8>) -> nat {
        match self {
            SearchMatchers::Literals(automaton) => hits(
                automaton_terms(automaton),
                automaton_folds(automaton),
                haystack,
                0,
            ).len(),
            SearchMatchers::Expressions(list) => sum_of(list@, haystack, list@.len()),
        }
    }

    /// How many terms are searched for.
    pub open spec fn terms(self) -> nat {
        match self {
            SearchMatchers::Literals(automaton) => automaton_terms(automaton).len(),
            SearchMatchers::Expressions(list) => list@.len(),
        }
    }

    /// Whether a term is found. One that is found only inside of what is
    /// reported for others does not count.
    pub open spec fn finds(self, haystack: Seq<u8>, term: int) -> bool {
        match self {
            SearchMatchers::Literals(automaton) => reported(
                hits(automaton_terms(automaton), automaton_folds(automaton), haystack, 0),
                term,
            ),
            SearchMatchers::Expressions(list) => list@[term].total(haystack) > 0,
        }
    }

    /// Counts the matches of all terms in a haystack, or gives nothing where
    /// there are more than the machine has numbers for.
    pub fn try_count(&self, haystack: &[u8]) -> (n: Option<usize>)
        requires
            self.wf(),
        ensures
            match n {
                Some(n) => n == self.total(haystack@),
                None => !self.countable(haystack@),
            },
            forall|texts: Seq<Seq<char>>, case_sensitive: bool, words: bool|
                #![trigger self.are_expressions_for(texts, case_sensitive, words, haystack@)]
                self.are_expressions_for(texts, case_sensitive, words, haystack@) && n is Some
                    ==> n->0 == texts_counted(
                    texts,
                    !case_sensitive,
                    words,
                    haystack@,
                    texts.len(),
                ),
    {
        if let SearchMatchers::Expressions(list) = self {
            if list.len() > 0 {
                let length: usize = haystack.len();
                if length == usize::MAX {
                    proof {
                        lemma_no_less(list@.len(), (length + 1) as nat);
                    }
                    return None;
                }
                return count_all(list, haystack);
            }
        }
        Some(self.count(haystack))
    }

    /// Counts the matches of all terms in a haystack. The expressions for some
    /// texts count where the texts stand.
    pub fn count(&self, haystack: &[u8]) -> (n: usize)
        requires
            self.wf(),
            self.countable(haystack@),
        ensures
            n == self.total(haystack@),
            forall|texts: Seq<Seq<char>>, case_sensitive: bool, words: bool|
                #![trigger self.are_expressions_for(texts, case_sensitive, words, haystack@)]
                self.are_expressions_for(texts, case_sensitive, words, haystack@) ==> n
                    == texts_counted(texts, !case_sensitive, words, haystack@, texts.len()),
    {
        match self {
            SearchMatchers::Literals(automaton) => {
                let mut matches = automaton_find_iter(automaton, haystack);
                let mut n: usize = 0;
                let ghost total = self.total(haystack@);
                proof {
                    hits_are_apart(
                        automaton_terms(*automaton),
                        automaton_folds(*automaton),
                        haystack@,
                        0,
                    );
                }
                assert(total <= haystack@.len());
                let length: usize = haystack.len();
                let mut next = automaton_next(&mut matches);
                while next.is_some()
                    invariant
                        total <= length,
                        next is Some ==> n + 1 + automaton_pending(matches).len() == total,
                        next is None ==> n == total,
                    decreases total - n,
                {
                    n = n + 1;
                    next = automaton_next(&mut matches);
                }
                n
            },
            SearchMatchers::Expressions(list) => {
                if list.len() == 0 {
                    return 0;
                }
                proof {
                    lemma_no_less(list@.len(), haystack@.len() + 1);
                }
                match count_all(list, haystack) {
                    Some(n) => n,
                    None => 0,
                }
            },
        }
    }

    /// Counts the terms that are found in a haystack. Of the expressions for
    /// some texts, it counts those whose text stands anywhere.
    pub fn matching_terms(&self, haystack: &[u8]) -> (n: usize)
        requires
            self.wf(),
        ensures
            n == tally(self.terms(), |i: int| self.finds(haystack@, i)),
            forall|texts: Seq<Seq<char>>, case_sensitive: bool, words: bool|
                #![trigger self.are_expressions_for(texts, case_sensitive, words, haystack@)]
                self.are_expressions_for(texts, case_sensitive, words, haystack@) ==> n == tally(
                    texts.len(),
                    |i: int| text_count(texts[i], !case_sensitive, words, haystack@) > 0,
                ),
    {
        let ghost finds = |i: int| self.finds(haystack@, i);
        match self {
            SearchMatchers::Literals(automaton) => {
                let len: usize = automaton_terms_len(automaton);
                let mut matched: Vec<bool> = vec![false; len];
                let mut matches = automaton_find_iter(automaton, haystack);
                let ghost all = automaton_pending(matches);
                let ghost mut done: int = 0;
                proof {
                    hits_are_apart(
                        automaton_terms(*automaton),
                        automaton_folds(*automaton),
                        haystack@,
                        0,
                    );
                }
                let mut next = automaton_next(&mut matches);
                assert(all.skip(1) == automaton_pending(matches) || next is None);
                while next.is_some()
                    invariant
                        len == automaton_terms(*automaton).len(),
                        matched@.len() == len,
                        0 <= done <= all.len(),
                        match next {
                            Some(found) => done < all.len() && all[done].0 == found.0
                                && automaton_pending(matches) == all.skip(done + 1),
                            None => done == all.len(),
                        },
                        forall|i: int| 0 <= i < all.len() ==> 0 <= (#[trigger] all[i]).0 < len,
                        forall|t: int|
                            0 <= t < len ==> #[trigger] matched@[t] == reported(all.take(done), t),
                    decreases all.len() - done,
                {
                    let found = next.unwrap();
                    let ghost before = matched@;
                    matched.set(found.0, true);
                    proof {
                        assert forall|t: int| 0 <= t < len implies #[trigger] matched@[t]
                            == reported(all.take(done + 1), t) by {
                            let later = all.take(done + 1);
                            if t == found.0 {
                                assert(later[done].0 == t);
                            } else {
                                if reported(later, t) {
                                    let k = choose|k: int|
                                        0 <= k < later.len() && (#[trigger] later[k]).0 == t;
                                    assert(all.take(done)[k].0 == t);
                                }
                                if reported(all.take(done), t) {
                                    let k = choose|k: int|
                                        0 <= k < done && (#[trigger] all.take(done)[k]).0 == t;
                                    assert(later[k].0 == t);
                                }
                                assert(before[t] == matched@[t]);
                            }
                        }
                        if done + 1 < all.len() {
                            assert(all.skip(done + 1).skip(1) =~= all.skip(done + 2));
                        }
                        done = done + 1;
                    }
                    next = automaton_next(&mut matches);
                }
                assert(all.take(done) =~= all);
                let mut n: usize = 0;
                let mut i: usize = 0;
                while i < len
                    invariant
                        i <= len,
                        matched@.len() == len,
                        n <= i,
                        forall|t: int| 0 <= t < len ==> #[trigger] matched@[t] == finds(t),
                        n == tally(i as nat, finds),
                    decreases len - i,
                {
                    if matched[i] {
                        n = n + 1;
                    }
                    i = i + 1;
                }
                n
            },
            SearchMatchers::Expressions(list) => {
                let mut n: usize = 0;
                let mut i: usize = 0;
                while i < list.len()
                    invariant
                        i <= list@.len(),
                        n <= i,
                        forall|t: int|
                            0 <= t < list@.len() ==> #[trigger] finds(t) == (list@[t].total(
                                haystack@,
                            ) > 0),
                        n == tally(i as nat, finds),
                        forall|j: int, text: Seq<char>, case_sensitive: bool, words: bool|
                            #![trigger list@[j].is_expression_for(text, case_sensitive, words, haystack@)]
                            0 <= j < i && list@[j].is_expression_for(
                                text,
                                case_sensitive,
                                words,
                                haystack@,
                            ) ==> finds(j) == (text_count(
                                text,
                                !case_sensitive,
                                words,
                                haystack@,
                            ) > 0),
                    decreases list@.len() - i,
                {
                    if list[i].is_match(haystack) {
                        n = n + 1;
                    }
                    i = i + 1;
                }
                proof {
                    assert forall|texts: Seq<Seq<char>>, case_sensitive: bool, words: bool|
                        #![trigger self.are_expressions_for(texts, case_sensitive, words, haystack@)]
                        self.are_expressions_for(
                            texts,
                            case_sensitive,
                            words,
                            haystack@,
                        ) implies n == tally(
                        texts.len(),
                        |i: int| text_count(texts[i], !case_sensitive, words, haystack@) > 0,
                    ) by {
                        let stands_somewhere = |i: int|
                            text_count(texts[i], !case_sensitive, words, haystack@) > 0;
                        assert forall|j: int| 0 <= j < texts.len() implies #[trigger] finds(j)
                            == stands_somewhere(j) by {
                            assert(list@[j].is_expression_for(
                                texts[j],
                                case_sensitive,
                                words,
                                haystack@,
                            ));
                        }
                        lemma_same_tallies(texts.len(), finds, stands_somewhere);
                    }
                }
                n
            },
        }
    }
}

proof fn lemma_tally(n: nat, property: spec_fn(int) -> bool)
    ensures
        tally(n, property) <= n,
        tally(n, property) > 0 <==> exists|i: int| 0 <= i < n && #[trigger] property(i),
    decreases n,
{
    if n > 0 {
        lemma_tally((n - 1) as nat, property);
        if tally((n - 1) as nat, property) > 0 {
            let i = choose|i: int| 0 <= i < n - 1 && #[trigger] property(i);
            assert(property(i));
        }
        if exists|i: int| 0 <= i < n && #[trigger] property(i) {
            let i = choose|i: int| 0 <= i < n && #[trigger] property(i);
            if i < n - 1 {
                assert(property(i));
            }
        }
    }
}

pub proof fn lemma_sum(matchers: Seq<SearchMatcher>, haystack: Seq<u8>, n: nat)
    requires
        n <= matchers.len(),
    ensures
        sum_of(matchers, haystack, n) > 0 <==> exists|i: int|
            0 <= i < n && (#[trigger] matchers[i]).total(haystack) > 0,
    decreases n,
{
    if n > 0 {
        lemma_sum(matchers, haystack, (n - 1) as nat);
        if sum_of(matchers, haystack, (n - 1) as nat) > 0 {
            let i = choose|i: int| 0 <= i < n - 1 && (#[trigger] matchers[i]).total(haystack) > 0;
            assert(matchers[i].total(haystack) > 0);
        }
    }
}

/// The expression that a request makes of a text as it stands counts where the
/// text stands, as a word if the request asks for whole words. Whole words need
/// an ASCII haystack; where case is ignored, the text has to be ASCII and the
/// haystack without odd letters.
pub proof fn expressions_find_their_text(
    regex: Regex,
    req: SearchRequest,
    text: Seq<char>,
    haystack: Seq<u8>,
)
    requires
        text.len() > 0,
        !req.use_regex,
        req.whole_word ==> ascii_bytes(haystack),
        req.case_sensitive || (is_ascii_chars(text) && free_of_odd_letters(haystack)),
        regex_setting(regex) == (expression_source(req, text), !req.case_sensitive, true),
    ensures
        SearchMatcher::Regex(regex).is_expression_for(
            text,
            req.case_sensitive,
            req.whole_word,
            haystack,
        ),
{
    if req.whole_word {
        lemma_word_source(req, text);
    }
}

/// The expression for a text as a word stands between edges of words.
pub proof fn lemma_word_source(req: SearchRequest, text: Seq<char>)
    requires
        req.whole_word,
        !req.use_regex,
    ensures
        expression_source(req, text) == word_source(seq![text]),
{
    reveal_strlit("\\b(?:");
    reveal_strlit(")\\b");
    reveal_strlit("\\b");
    reveal_strlit("(?:");
    reveal_strlit(")");
    assert("\\b(?:"@ =~= "\\b"@ + "(?:"@);
    assert(")\\b"@ =~= ")"@ + "\\b"@);
    assert(seq![text].map_values(|l: Seq<char>| escaped(l)) =~= seq![escaped(text)]);
    assert(expression_source(req, text) =~= word_source(seq![text]));
}

/// A search for whole words in an ASCII haystack searches for the query's
/// terms as words. Where case is ignored, the terms have to be ASCII.
pub proof fn whole_word_searches_find_words(
    matchers: SearchMatchers,
    req: SearchRequest,
    haystack: Seq<u8>,
)
    requires
        are_matchers_for(matchers, req),
        req.whole_word,
        !req.use_regex,
        ascii_bytes(haystack),
        req.case_sensitive || forall|i: int|
            0 <= i < query_terms(req.query@).len() ==> is_ascii_chars(
                #[trigger] query_terms(req.query@)[i],
            ),
    ensures
        matchers.are_expressions_for(
            query_terms(req.query@),
            req.case_sensitive,
            true,
            haystack,
        ),
{
    let terms = query_terms(req.query@);
    let list = matchers->Expressions_0@;
    query_terms_are_clean(req.query@);
    ascii_has_no_odd_letters(haystack);
    assert forall|i: int| 0 <= i < terms.len() implies (#[trigger] list[i]).is_expression_for(
        terms[i],
        req.case_sensitive,
        true,
        haystack,
    ) by {
        assert(is_matcher_for(list[i], req, terms[i]));
        assert(terms[i].len() > 0);
        expressions_find_their_text(list[i]->Regex_0, req, terms[i], haystack);
    }
}

/// Where no words are asked for, the expression for a text counts what a search
/// byte by byte counts, so that one can take the place of the other.
pub proof fn texts_count_alike_as_expressions(
    text: Seq<char>,
    case_sensitive: bool,
    haystack: Seq<u8>,
)
    requires
        text.len() > 0,
    ensures
        text_count(text, !case_sensitive, false, haystack) == literal_count(
            haystack,
            encode_utf8(text),
            case_sensitive,
        ),
{
    let term = encode_utf8(text);
    assert(term.len() > 0);
    assert(utf8_of(seq![text]) =~= seq![term]);
    one_literal_is_a_plain_search(term, !case_sensitive, haystack, 0);
}

/// ASCII text has no odd letters.
pub proof fn ascii_has_no_odd_letters(haystack: Seq<u8>)
    requires
        ascii_bytes(haystack),
    ensures
        free_of_odd_letters(haystack),
{
    let kelvin = seq![0xe2u8, 0x84u8, 0xaau8];
    let long_s = seq![0xc5u8, 0xbfu8];
    if occurs(haystack, kelvin, false) {
        let at = choose|at: int| occurs_at(haystack, kelvin, false, at);
        assert(same_byte(haystack[at + 0], kelvin[0], false));
    }
    if occurs(haystack, long_s, false) {
        let at = choose|at: int| occurs_at(haystack, long_s, false, at);
        assert(same_byte(haystack[at + 0], long_s[0], false));
    }
}

/// One hit more makes at most one term more a reported one.
proof fn lemma_reported_bounded(n: nat, all: Seq<(int, int, int)>)
    ensures
        tally(n, |t: int| reported(all, t)) <= all.len(),
    decreases all.len(),
{
    let now = |t: int| reported(all, t);
    if all.len() == 0 {
        lemma_tally(n, now);
    } else {
        let shorter = all.drop_last();
        let before = |t: int| reported(shorter, t);
        lemma_reported_bounded(n, shorter);
        assert forall|t: int| t != all.last().0 implies #[trigger] now(t) == before(t) by {
            if now(t) {
                let k = choose|k: int| 0 <= k < all.len() && (#[trigger] all[k]).0 == t;
                assert(shorter[k].0 == t);
            }
            if before(t) {
                let k = choose|k: int| 0 <= k < shorter.len() && (#[trigger] shorter[k]).0 == t;
                assert(all[k].0 == t);
            }
        }
        lemma_tally_but_one(n, now, before, all.last().0);
    }
}

/// Properties that differ at one number only are had by almost as many.
proof fn lemma_tally_but_one(
    n: nat,
    p: spec_fn(int) -> bool,
    q: spec_fn(int) -> bool,
    odd: int,
)
    requires
        forall|t: int| t != odd ==> #[trigger] p(t) == q(t),
    ensures
        tally(n, p) <= tally(n, q) + 1,
        odd < 0 || odd >= n ==> tally(n, p) == tally(n, q),
    decreases n,
{
    if n > 0 {
        lemma_tally_but_one((n - 1) as nat, p, q, odd);
        if odd != n - 1 {
            assert(p(n - 1) == q(n - 1));
        }
    }
}

/// No more matchers match than there are matches.
proof fn lemma_matching_bounded(matchers: Seq<SearchMatcher>, haystack: Seq<u8>, n: nat)
    requires
        n <= matchers.len(),
    ensures
        tally(n, |i: int| matchers[i].total(haystack) > 0) <= sum_of(matchers, haystack, n),
    decreases n,
{
    if n > 0 {
        lemma_matching_bounded(matchers, haystack, (n - 1) as nat);
    }
}

/// Counting matches and counting terms agree on whether there is anything, and
/// no more terms are found than there are terms, or than there are matches.
pub proof fn counts_agree(matchers: SearchMatchers, haystack: Seq<u8>)
    requires
        matchers.wf(),
    ensures
        matchers.total(haystack) > 0 <==> tally(
            matchers.terms(),
            |i: int| matchers.finds(haystack, i),
        ) > 0,
        tally(matchers.terms(), |i: int| matchers.finds(haystack, i)) <= matchers.terms(),
        tally(matchers.terms(), |i: int| matchers.finds(haystack, i)) <= matchers.total(haystack),
{
    let finds = |i: int| matchers.finds(haystack, i);
    lemma_tally(matchers.terms(), finds);
    match matchers {
        SearchMatchers::Literals(automaton) => {
            let terms = automaton_terms(automaton);
            let fold = automaton_folds(automaton);
            let all = hits(terms, fold, haystack, 0);
            hits_are_apart(terms, fold, haystack, 0);
            lemma_reported_bounded(matchers.terms(), all);
            assert(finds =~= (|t: int| reported(all, t)));
            if all.len() > 0 {
                assert(is_hit(terms, fold, haystack, 0, all[0]));
                assert(reported(all, all[0].0));
                assert(finds(all[0].0));
            }
            if exists|i: int| 0 <= i < matchers.terms() && #[trigger] finds(i) {
                let i = choose|i: int| 0 <= i < matchers.terms() && #[trigger] finds(i);
                assert(reported(all, i));
            }
        },
        SearchMatchers::Expressions(list) => {
            lemma_sum(list@, haystack, list@.len());
            lemma_matching_bounded(list@, haystack, list@.len());
            assert(finds =~= (|i: int| list@[i].total(haystack) > 0));
            if exists|i: int| 0 <= i < list@.len() && (#[trigger] list@[i]).total(haystack) > 0 {
                let i = choose|i: int|
                    0 <= i < list@.len() && (#[trigger] list@[i]).total(haystack) > 0;
                assert(finds(i));
            }
            if exists|i: int| 0 <= i < list@.len() && #[trigger] finds(i) {
                let i = choose|i: int| 0 <= i < list@.len() && #[trigger] finds(i);
                assert(list@[i].total(haystack) > 0);
            }
        },
    }
}

/// A search byte by byte finds something exactly where one of the query's
/// terms occurs, ASCII case ignored unless the request regards it.
pub proof fn literal_searches_find_terms(
    matchers: SearchMatchers,
    req: SearchRequest,
    haystack: Seq<u8>,
)
    requires
        literal_search(req),
        are_matchers_for(matchers, req),
        matchers.wf(),
    ensures
        matchers.total(haystack) > 0 <==> exists|i: int|
            0 <= i < query_terms(req.query@).len() && occurs(
                haystack,
                encode_utf8(#[trigger] query_terms(req.query@)[i]),
                !req.case_sensitive,
            ),
{
    let terms = query_terms(req.query@);
    let bytes = utf8_of(terms);
    let fold = !req.case_sensitive;
    hits_iff_a_term_occurs(bytes, fold, haystack);
    if exists|i: int| 0 <= i < bytes.len() && #[trigger] occurs(haystack, bytes[i], fold) {
        let i = choose|i: int| 0 <= i < bytes.len() && #[trigger] occurs(haystack, bytes[i], fold);
        assert(occurs(haystack, encode_utf8(terms[i]), fold));
    }
    if exists|i: int|
        0 <= i < terms.len() && occurs(haystack, encode_utf8(#[trigger] terms[i]), fold) {
        let i = choose|i: int|
            0 <= i < terms.len() && occurs(haystack, encode_utf8(#[trigger] terms[i]), fold);
        assert(occurs(haystack, bytes[i], fold));
    }
}

/// A search for one term byte by byte counts what a plain search for it
/// counts.
pub proof fn one_term_counts_as_a_literal(
    matchers: SearchMatchers,
    req: SearchRequest,
    haystack: Seq<u8>,
)
    requires
        literal_search(req),
        are_matchers_for(matchers, req),
        matchers.wf(),
        query_terms(req.query@).len() == 1,
    ensures
        matchers.total(haystack) == literal_count(
            haystack,
            encode_utf8(query_terms(req.query@)[0]),
            req.case_sensitive,
        ),
{
    let term = encode_utf8(query_terms(req.query@)[0]);
    let bytes = utf8_of(query_terms(req.query@));
    assert(bytes =~= seq![term]);
    assert(bytes[0].len() > 0);
    one_term_is_a_plain_search(term, !req.case_sensitive, haystack, 0);
}

} // verus!
