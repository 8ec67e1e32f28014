//! Making matchers out of requests.

use crate::engines::{
    automaton_refusals, build_automaton, compile_regex, escaped, literal_source, regex_excesses,
    regex_flaws, regex_setting, utf8_of, RegexRefusal,
};
use crate::matchers::{
    are_matchers_for, explains_automaton, explains_regex, expression_source, has_matcher,
    is_matcher_for, is_valid, lemma_same_tallies, lemma_word_source, literal_search, literal_term,
    replacement_source, sum_of, tally, tells_excess, tells_invalid_expression, tells_refusal,
    tells_refused_terms, SearchMatcher, SearchMatchers,
};
use crate::request::SearchRequest;
use crate::terms::{query_lines, query_terms, query_terms_are_clean};
use crate::text::{join, split_trimmed, texts, without_repeats};
use crate::wildcard::wildcard_source;
use aho_corasick::{AhoCorasick, BuildError};
use regex::bytes::Regex;
use vstd::prelude::*;
use vstd::utf8::is_ascii_chars;

verus! {

/// What is told of a compilation: the expression, or a prefix and the reason
/// why there is none.
pub fn expression_outcome(built: Result<Regex, RegexRefusal>, prefix: &str) -> (r: Result<
    Regex,
    String,
>)
    ensures
        match built {
            Ok(regex) => r == Ok::<Regex, String>(regex),
            Err(RegexRefusal::Invalid(error)) => r is Err && explains_regex(
                prefix@,
                error,
                r->Err_0@,
            ),
            Err(RegexRefusal::TooLarge(error)) => r is Err && explains_regex(
                prefix@,
                error,
                r->Err_0@,
            ),
        },
{
    match built {
        Ok(regex) => Ok(regex),
        Err(RegexRefusal::Invalid(error)) => Err(refusal(error, prefix)),
        Err(RegexRefusal::TooLarge(error)) => Err(refusal(error, prefix)),
    }
}

/// A prefix and what an error says.
fn refusal(error: regex::Error, prefix: &str) -> (message: String)
    ensures
        explains_regex(prefix@, error, message@),
{
    let shown = error.to_string();
    let mut message = prefix.to_owned();
    message.append(shown.as_str());
    message
}

/// Compiles a source, or tells a prefix and the reason why it is refused.
/// Literals that were escaped, and file name patterns made of such, are valid.
pub fn compile(source: &str, case_insensitive: bool, prefix: &str) -> (r: Result<Regex, String>)
    ensures
        match r {
            Ok(regex) => regex_setting(regex) == (source@, case_insensitive, true) && is_valid(
                source@,
                case_insensitive,
            ),
            Err(m) => tells_refusal(prefix@, source@, case_insensitive, m@),
        },
        forall|literals: Seq<Seq<char>>, words: bool| #[trigger]
            literal_source(source@, literals, words) ==> is_valid(source@, case_insensitive),
        forall|values: Seq<Seq<char>>|
            source@ == #[trigger] wildcard_source(values) ==> is_valid(source@, case_insensitive),
{
    let built = compile_regex(source, case_insensitive, true);
    let ghost outcome = built;
    let r = expression_outcome(built, prefix);
    proof {
        match outcome {
            Ok(_) => {},
            Err(RegexRefusal::Invalid(error)) => {
                assert(regex_flaws(source@, case_insensitive, true).contains(error));
            },
            Err(RegexRefusal::TooLarge(error)) => {
                assert(regex_excesses(source@, case_insensitive, true).contains(error));
            },
        }
    }
    r
}

/// What is told of the construction of an automaton.
pub fn automaton_outcome(built: Result<AhoCorasick, BuildError>) -> (r: Result<
    SearchMatchers,
    String,
>)
    ensures
        match built {
            Ok(automaton) => r == Ok::<SearchMatchers, String>(SearchMatchers::Literals(automaton)),
            Err(error) => r is Err && explains_automaton(error, r->Err_0@),
        },
        built is Err ==> forall|terms: Seq<Seq<char>>, folds: bool| #[trigger]
            automaton_refusals(utf8_of(terms), folds).contains(built->Err_0) ==> tells_refused_terms(
                terms,
                folds,
                r->Err_0@,
            ),
{
    match built {
        Ok(automaton) => Ok(SearchMatchers::Literals(automaton)),
        Err(error) => Err(error.to_string()),
    }
}

/// Compiles the expression that a request makes of a text.
fn text_matcher(req: &SearchRequest, text: &str) -> (r: Result<Regex, String>)
    ensures
        match r {
            Ok(regex) => regex_setting(regex) == (
                expression_source(*req, text@),
                !req.case_sensitive,
                true,
            ) && is_valid(expression_source(*req, text@), !req.case_sensitive),
            Err(m) => tells_invalid_expression(
                expression_source(*req, text@),
                !req.case_sensitive,
                m@,
            ),
        },
        !req.use_regex ==> is_valid(expression_source(*req, text@), !req.case_sensitive),
        !req.use_regex && !req.whole_word && r is Ok ==> regex_setting(r->Ok_0).0 == escaped(
            text@,
        ),
        req.use_regex && !req.whole_word && r is Ok ==> regex_setting(r->Ok_0).0 == text@,
{
    let plain = if req.use_regex {
        text.to_owned()
    } else {
        regex::escape(text)
    };
    let source = if req.whole_word {
        let mut s = "\\b(?:".to_owned();
        s.append(plain.as_str());
        s.append(")\\b");
        s
    } else {
        plain
    };
    proof {
        if !req.use_regex {
            if req.whole_word {
                lemma_word_source(*req, text@);
            }
            assert(literal_source(source@, seq![text@], req.whole_word));
        }
    }
    compile(source.as_str(), !req.case_sensitive, "Expressão inválida: ")
}

/// Compiles the expression for the whole query.
pub fn regex_matcher(req: &SearchRequest) -> (r: Result<Regex, String>)
    ensures
        match r {
            Ok(regex) => regex_setting(regex) == (
                expression_source(*req, req.query@),
                !req.case_sensitive,
                true,
            ) && is_valid(expression_source(*req, req.query@), !req.case_sensitive),
            Err(m) => tells_invalid_expression(
                expression_source(*req, req.query@),
                !req.case_sensitive,
                m@,
            ),
        },
        !req.use_regex ==> is_valid(expression_source(*req, req.query@), !req.case_sensitive),
        !req.use_regex && !req.whole_word && r is Ok ==> regex_setting(r->Ok_0).0 == escaped(
            req.query@,
        ),
        req.use_regex && !req.whole_word && r is Ok ==> regex_setting(r->Ok_0).0 == req.query@,
{
    text_matcher(req, req.query.as_str())
}

/// Compiles the expression that matches any line of the query.
pub fn replacement_matcher(req: &SearchRequest) -> (r: Result<Regex, String>)
    ensures
        match r {
            Ok(regex) => regex_setting(regex) == (
                replacement_source(req.query@, req.use_regex, req.whole_word),
                !req.case_sensitive,
                true,
            ) && is_valid(replacement_source(req.query@, req.use_regex, req.whole_word), !req.case_sensitive),
            Err(m) => tells_invalid_expression(
                replacement_source(req.query@, req.use_regex, req.whole_word),
                !req.case_sensitive,
                m@,
            ),
        },
        !req.use_regex ==> is_valid(replacement_source(req.query@, req.use_regex, req.whole_word), !req.case_sensitive),
{
    let lines = split_trimmed(req.query.as_str(), &['\n']);
    let mut parts: Vec<String> = Vec::new();
    let mut i: usize = 0;
    let ghost part = |line: Seq<char>|
        if req.use_regex {
            line
        } else {
            escaped(line)
        };
    while i < lines.len()
        invariant
            i <= lines@.len(),
            part == (|line: Seq<char>|
                if req.use_regex {
                    line
                } else {
                    escaped(line)
                }),
            texts(parts@) == texts(lines@).take(i as int).map_values(part),
        decreases lines@.len() - i,
    {
        let ghost before = texts(parts@);
        let p = if req.use_regex {
            lines[i].clone()
        } else {
            regex::escape(lines[i].as_str())
        };
        parts.push(p);
        proof {
            assert(texts(parts@) =~= before.push(p@));
            assert(texts(lines@).take(i + 1).map_values(part) =~= texts(lines@).take(
                i as int,
            ).map_values(part).push(part(lines@[i as int]@)));
        }
        i = i + 1;
    }
    proof {
        assert(texts(lines@).take(i as int) =~= texts(lines@));
        assert((&['\n'])@ =~= seq!['\n']);
    }
    let alternatives = join(&parts, "|");
    let mut source = if req.whole_word {
        "\\b(?:".to_owned()
    } else {
        "(?:".to_owned()
    };
    source.append(alternatives.as_str());
    source.append(")");
    if req.whole_word {
        source.append("\\b");
        proof {
            reveal_strlit("\\b(?:");
            reveal_strlit("\\b");
            reveal_strlit("(?:");
            assert("\\b(?:"@ =~= "\\b"@ + "(?:"@);
            assert(source@ =~= replacement_source(req.query@, req.use_regex, req.whole_word));
        }
    }
    proof {
        if !req.use_regex {
            lemma_replacement_source(req.query@, req.whole_word);
            assert(literal_source(source@, query_lines(req.query@), req.whole_word));
        }
    }
    compile(source.as_str(), !req.case_sensitive, "Expressão inválida: ")
}

/// The source of a replacement of text as it stands is that of the query's
/// lines.
pub proof fn lemma_replacement_source(query: Seq<char>, whole_word: bool)
    ensures
        literal_source(
            replacement_source(query, false, whole_word),
            query_lines(query),
            whole_word,
        ),
{
    let lines = query_lines(query);
    let use_regex = false;
    assert(lines.map_values(
        |line: Seq<char>|
            if use_regex {
                line
            } else {
                escaped(line)
            },
    ) =~= lines.map_values(|l: Seq<char>| escaped(l)));
}

/// Makes the matcher for one term.
pub fn matcher_for_term(req: &SearchRequest, term: &str) -> (r: Result<SearchMatcher, String>)
    ensures
        match r {
            Ok(matcher) => is_matcher_for(matcher, *req, term@),
            Err(m) => !literal_term(*req, term@) && tells_invalid_expression(
                expression_source(*req, term@),
                !req.case_sensitive,
                m@,
            ),
        },
        !req.use_regex && !literal_term(*req, term@) ==> is_valid(
            expression_source(*req, term@),
            !req.case_sensitive,
        ),
{
    if !req.use_regex && !req.whole_word && (req.case_sensitive || term.is_ascii()) {
        Ok(
            SearchMatcher::Literal {
                needle: term.as_bytes_vec(),
                case_sensitive: req.case_sensitive,
            },
        )
    } else {
        match text_matcher(req, term) {
            Ok(regex) => Ok(SearchMatcher::Regex(regex)),
            Err(m) => Err(m),
        }
    }
}

/// Whether a message says of a request's term that it is not valid, and a
/// matcher was made of every term before it.
pub open spec fn is_first_invalid(req: SearchRequest, i: int, message: Seq<char>) -> bool {
    let terms = query_terms(req.query@);
    &&& 0 <= i < terms.len()
    &&& !literal_term(req, terms[i])
    &&& tells_invalid_expression(expression_source(req, terms[i]), !req.case_sensitive, message)
    &&& forall|j: int| 0 <= j < i ==> has_matcher(req, #[trigger] terms[j])
}

/// Whether a message says of the first of a request's terms of which no
/// matcher was made that it is not valid.
pub open spec fn tells_invalid_term(req: SearchRequest, message: Seq<char>) -> bool {
    exists|i: int| is_first_invalid(req, i, message)
}

/// Whether a message says of one of a request's terms that its expression,
/// though valid, is too large.
pub open spec fn tells_excessive_term(req: SearchRequest, message: Seq<char>) -> bool {
    exists|i: int|
        0 <= i < query_terms(req.query@).len() && !literal_term(
            req,
            #[trigger] query_terms(req.query@)[i],
        ) && is_valid(expression_source(req, query_terms(req.query@)[i]), !req.case_sensitive)
            && tells_excess(
            "Expressão inválida: "@,
            expression_source(req, query_terms(req.query@)[i]),
            !req.case_sensitive,
            message,
        )
}

/// Whether a message says why no matchers could be made of a request's query.
/// Text as it stands is refused only for its size.
pub open spec fn tells_refused_query(req: SearchRequest, message: Seq<char>) -> bool {
    if literal_search(req) {
        tells_refused_terms(query_terms(req.query@), !req.case_sensitive, message)
    } else {
        &&& tells_invalid_term(req, message)
        &&& !req.use_regex ==> tells_excessive_term(req, message)
    }
}

/// Whether an automaton for some terms is never refused.
pub open spec fn never_refused(terms: Seq<Seq<char>>, folds: bool) -> bool {
    automaton_refusals(utf8_of(terms), folds) == Set::<BuildError>::empty()
}

/// What is answered to a request for matchers: the matchers, or why there are
/// none.
pub open spec fn answers_matchers(req: SearchRequest, r: Result<SearchMatchers, String>) -> bool {
    match r {
        Ok(matchers) => {
            &&& are_matchers_for(matchers, req)
            &&& matchers.wf()
            &&& literal_search(req) ==> never_refused(
                query_terms(req.query@),
                !req.case_sensitive,
            )
        },
        Err(m) => tells_refused_query(req, m@),
    }
}

/// Whether every text is ASCII.
fn all_ascii(terms: &Vec<String>) -> (b: bool)
    ensures
        b == forall|i: int| 0 <= i < terms@.len() ==> is_ascii_chars((#[trigger] texts(terms@)[i])),
{
    let mut i: usize = 0;
    while i < terms.len()
        invariant
            i <= terms@.len(),
            forall|j: int| 0 <= j < i ==> is_ascii_chars((#[trigger] texts(terms@)[j])),
        decreases terms@.len() - i,
    {
        if !terms[i].as_str().is_ascii() {
            assert(texts(terms@)[i as int] == terms@[i as int]@);
            return false;
        }
        i = i + 1;
    }
    true
}

/// Makes the matchers for all the terms of a query, one term after the other.
pub fn search_matchers(req: &SearchRequest) -> (r: Result<SearchMatchers, String>)
    ensures
        answers_matchers(*req, r),
{
    let lines = split_trimmed(req.query.as_str(), &['\n']);
    let terms = without_repeats(&lines);
    proof {
        assert((&['\n'])@ =~= seq!['\n']);
        assert(texts(terms@) == query_terms(req.query@));
        query_terms_are_clean(req.query@);
    }
    if !req.use_regex && !req.whole_word && (req.case_sensitive || all_ascii(&terms)) {
        proof {
            assert forall|i: int| 0 <= i < utf8_of(texts(terms@)).len() implies (
            #[trigger] utf8_of(texts(terms@))[i]).len() > 0 by {
                assert(query_terms(req.query@)[i].len() > 0);
            }
        }
        return automaton_outcome(build_automaton(&terms, !req.case_sensitive));
    }
    let mut list: Vec<SearchMatcher> = Vec::new();
    let mut i: usize = 0;
    while i < terms.len()
        invariant
            i <= terms@.len(),
            !literal_search(*req),
            texts(terms@) == query_terms(req.query@),
            list@.len() == i,
            forall|j: int|
                0 <= j < i ==> is_matcher_for(
                    #[trigger] list@[j],
                    *req,
                    query_terms(req.query@)[j],
                ),
        decreases terms@.len() - i,
    {
        assert(texts(terms@)[i as int] == terms@[i as int]@);
        match matcher_for_term(req, terms[i].as_str()) {
            Ok(matcher) => {
                list.push(matcher);
            },
            Err(m) => {
                proof {
                    assert forall|j: int| 0 <= j < i implies has_matcher(
                        *req,
                        #[trigger] query_terms(req.query@)[j],
                    ) by {
                        assert(is_matcher_for(list@[j], *req, query_terms(req.query@)[j]));
                    }
                    assert(is_first_invalid(*req, i as int, m@));
                    if !req.use_regex {
                        let term = query_terms(req.query@)[i as int];
                        assert(is_valid(expression_source(*req, term), !req.case_sensitive));
                        assert(tells_excessive_term(*req, m@));
                    }
                }
                return Err(m);
            },
        }
        i = i + 1;
    }
    Ok(SearchMatchers::Expressions(list))
}

/// Whether two requests have the same terms and ask for them in the same way.
pub open spec fn ask_alike(a: SearchRequest, b: SearchRequest) -> bool {
    &&& query_terms(a.query@) == query_terms(b.query@)
    &&& a.use_regex == b.use_regex
    &&& a.case_sensitive == b.case_sensitive
    &&& a.whole_word == b.whole_word
}

/// What requests that ask alike are searched with counts alike, matches and
/// terms, in every haystack.
pub proof fn same_terms_are_searched_alike(
    a: SearchRequest,
    b: SearchRequest,
    of_a: SearchMatchers,
    of_b: SearchMatchers,
    haystack: Seq<u8>,
)
    requires
        ask_alike(a, b),
        are_matchers_for(of_a, a),
        are_matchers_for(of_b, b),
    ensures
        of_a.total(haystack) == of_b.total(haystack),
        tally(of_a.terms(), |i: int| of_a.finds(haystack, i)) == tally(
            of_b.terms(),
            |i: int| of_b.finds(haystack, i),
        ),
{
    let terms = query_terms(a.query@);
    if !literal_search(a) {
        let list_a = of_a->Expressions_0@;
        let list_b = of_b->Expressions_0@;
        assert forall|i: int| 0 <= i < terms.len() implies #[trigger] list_a[i].total(haystack)
            == list_b[i].total(haystack) by {
            assert(is_matcher_for(list_a[i], a, terms[i]));
            assert(is_matcher_for(list_b[i], b, terms[i]));
        }
        lemma_same_sums(list_a, list_b, haystack, terms.len());
    }
    lemma_same_tallies(
        terms.len(),
        |i: int| of_a.finds(haystack, i),
        |i: int| of_b.finds(haystack, i),
    );
}

/// Requests that ask alike are both answered with matchers, or both refused.
/// Only where a valid expression exceeds the limit on its size in memory may
/// one be refused and the other not; there are no expressions in a search byte
/// by byte.
pub proof fn same_terms_succeed_alike(
    a: SearchRequest,
    b: SearchRequest,
    to_a: Result<SearchMatchers, String>,
    to_b: Result<SearchMatchers, String>,
)
    requires
        ask_alike(a, b),
        answers_matchers(a, to_a),
        answers_matchers(b, to_b),
    ensures
        literal_search(a) ==> to_a is Ok == to_b is Ok,
        to_a is Ok && to_b is Err ==> tells_excessive_term(b, to_b->Err_0@),
        to_b is Ok && to_a is Err ==> tells_excessive_term(a, to_a->Err_0@),
{
    if to_a is Ok && to_b is Err && !literal_search(a) {
        lemma_only_excess(a, b, to_a->Ok_0, to_b->Err_0@);
    }
    if to_b is Ok && to_a is Err && !literal_search(a) {
        lemma_only_excess(b, a, to_b->Ok_0, to_a->Err_0@);
    }
}

proof fn lemma_only_excess(
    a: SearchRequest,
    b: SearchRequest,
    matchers: SearchMatchers,
    message: Seq<char>,
)
    requires
        ask_alike(a, b),
        !literal_search(a),
        are_matchers_for(matchers, a),
        tells_invalid_term(b, message),
    ensures
        tells_excessive_term(b, message),
{
    let terms = query_terms(b.query@);
    let i = choose|i: int| is_first_invalid(b, i, message);
    let list = matchers->Expressions_0@;
    assert(is_matcher_for(list[i], a, terms[i]));
    assert(!literal_term(b, terms[i]));
}

/// Requests that ask alike are answered alike: what may be answered to one,
/// matchers or a refusal, may be answered to the other.
pub proof fn same_terms_are_answered_alike(
    a: SearchRequest,
    b: SearchRequest,
    r: Result<SearchMatchers, String>,
)
    requires
        ask_alike(a, b),
    ensures
        answers_matchers(a, r) == answers_matchers(b, r),
{
    assert forall|term: Seq<char>| has_matcher(a, term) == #[trigger] has_matcher(b, term) by {
        if has_matcher(a, term) {
            let matcher = choose|matcher: SearchMatcher| is_matcher_for(matcher, a, term);
            assert(is_matcher_for(matcher, b, term));
        }
        if has_matcher(b, term) {
            let matcher = choose|matcher: SearchMatcher| is_matcher_for(matcher, b, term);
            assert(is_matcher_for(matcher, a, term));
        }
    }
    match r {
        Ok(matchers) => {
            if let SearchMatchers::Expressions(list) = matchers {
                assert forall|i: int| 0 <= i < query_terms(a.query@).len() implies is_matcher_for(
                    #[trigger] list@[i],
                    a,
                    query_terms(a.query@)[i],
                ) == is_matcher_for(list@[i], b, query_terms(b.query@)[i]) by {}
            }
            assert(are_matchers_for(matchers, a) == are_matchers_for(matchers, b));
        },
        Err(m) => {
            if tells_excessive_term(a, m@) {
                let i = choose|i: int|
                    0 <= i < query_terms(a.query@).len() && !literal_term(
                        a,
                        #[trigger] query_terms(a.query@)[i],
                    ) && is_valid(
                        expression_source(a, query_terms(a.query@)[i]),
                        !a.case_sensitive,
                    ) && tells_excess(
                        "Expressão inválida: "@,
                        expression_source(a, query_terms(a.query@)[i]),
                        !a.case_sensitive,
                        m@,
                    );
                assert(!literal_term(b, query_terms(b.query@)[i]));
            }
            if tells_excessive_term(b, m@) {
                let i = choose|i: int|
                    0 <= i < query_terms(b.query@).len() && !literal_term(
                        b,
                        #[trigger] query_terms(b.query@)[i],
                    ) && is_valid(
                        expression_source(b, query_terms(b.query@)[i]),
                        !b.case_sensitive,
                    ) && tells_excess(
                        "Expressão inválida: "@,
                        expression_source(b, query_terms(b.query@)[i]),
                        !b.case_sensitive,
                        m@,
                    );
                assert(!literal_term(a, query_terms(a.query@)[i]));
            }
            if tells_invalid_term(a, m@) {
                let i = choose|i: int| is_first_invalid(a, i, m@);
                assert(is_first_invalid(b, i, m@));
            }
            if tells_invalid_term(b, m@) {
                let i = choose|i: int| is_first_invalid(b, i, m@);
                assert(is_first_invalid(a, i, m@));
            }
        },
    }
}

proof fn lemma_same_sums(
    a: Seq<SearchMatcher>,
    b: Seq<SearchMatcher>,
    haystack: Seq<u8>,
    n: nat,
)
    requires
        forall|i: int| 0 <= i < n ==> #[trigger] a[i].total(haystack) == b[i].total(haystack),
    ensures
        sum_of(a, haystack, n) == sum_of(b, haystack, n),
    decreases n,
{
    if n > 0 {
        lemma_same_sums(a, b, haystack, (n - 1) as nat);
        assert(a[n - 1].total(haystack) == b[n - 1].total(haystack));
    }
}

} // verus!
