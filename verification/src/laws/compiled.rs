//! Promises of what a request is compiled to.

use crate::compile::{
    automaton_outcome, compile, expression_outcome, is_first_invalid, matcher_for_term,
    regex_matcher, replacement_matcher, search_matchers,
};
use crate::engines::{
    automaton_folds, automaton_refusals, automaton_terms, escaped, meta_character, regex_excesses,
    regex_flaws, regex_setting, utf8_of, RegexRefusal,
};
use crate::laws::texts::{
    joining_goes_part_by_part, one_piece_is_the_trimmed_text, trimmed_pieces_go_part_by_part,
};
use crate::matchers::{
    explains_regex, expression_source, has_matcher, is_matcher_for, SearchMatcher, SearchMatchers,
};
use crate::replace::{replace_in_files, ReplaceRun};
use crate::request::{ReplaceRequest, SearchRequest};
use crate::terms::{lemma_distinct_from, query_lines, query_terms};
use crate::text::{joined, trimmed};
use aho_corasick::{AhoCorasick, BuildError};
use regex::bytes::Regex;
use vstd::prelude::*;
use vstd::string::to_string_from_display_ensures;
use vstd::utf8::{encode_utf8, is_ascii_chars};

verus! {

/// A query without line feeds is one line: the query without the white space
/// around it, unless it is blank. A line feed parts a query.
pub proof fn queries_go_line_by_line(a: Seq<char>, b: Seq<char>)
    ensures
        !a.contains('\n') ==> query_lines(a) == (if trimmed(a).len() == 0 {
            Seq::<Seq<char>>::empty()
        } else {
            seq![trimmed(a)]
        }),
        query_lines(a + seq!['\n'] + b) == query_lines(a) + query_lines(b),
{
    let separators = seq!['\n'];
    assert(separators[0] == '\n');
    assert(separators.contains('\n'));
    trimmed_pieces_go_part_by_part(a, '\n', b, separators);
    if !a.contains('\n') {
        assert forall|i: int| 0 <= i < a.len() implies !separators.contains(#[trigger] a[i]) by {
            assert(a.contains(a[i]));
        }
        one_piece_is_the_trimmed_text(a, separators);
    }
}

/// The terms of a query are its lines, each once.
pub proof fn terms_are_the_lines(query: Seq<char>)
    ensures
        query_terms(query).no_duplicates(),
        forall|t: Seq<char>| query_terms(query).contains(t) <==> query_lines(query).contains(t),
{
    lemma_distinct_from(query_lines(query));
}

/// Text is escaped part by part, and each character by itself: with a backslash
/// before it where it means something in a regular expression.
pub proof fn text_is_escaped_part_by_part(a: Seq<char>, b: Seq<char>, c: char)
    ensures
        escaped(a + b) == escaped(a) + escaped(b),
        "\\.+*?()|[]{}^$#&-~"@.contains(c) ==> escaped(seq![c]) == seq!['\\', c],
        !"\\.+*?()|[]{}^$#&-~"@.contains(c) ==> escaped(seq![c]) == seq![c],
    decreases a.len(),
{
    lemma_meta_characters(c);
    assert(seq![c].skip(1) =~= Seq::<char>::empty());
    assert(escaped(seq![c].skip(1)) =~= Seq::<char>::empty());
    if a.len() == 0 {
        assert(a + b =~= b);
    } else {
        assert((a + b).skip(1) =~= a.skip(1) + b);
        text_is_escaped_part_by_part(a.skip(1), b, c);
    }
}

proof fn lemma_meta_characters(c: char)
    ensures
        meta_character(c) <==> "\\.+*?()|[]{}^$#&-~"@.contains(c),
{
    reveal_strlit("\\.+*?()|[]{}^$#&-~");
    let all = "\\.+*?()|[]{}^$#&-~"@;
    if meta_character(c) {
        assert(all[0] == '\\' && all[1] == '.' && all[2] == '+' && all[3] == '*' && all[4] == '?');
        assert(all[5] == '(' && all[6] == ')' && all[7] == '|' && all[8] == '[' && all[9] == ']');
        assert(all[10] == '{' && all[11] == '}' && all[12] == '^' && all[13] == '$');
        assert(all[14] == '#' && all[15] == '&' && all[16] == '-' && all[17] == '~');
    }
    if all.contains(c) {
        let i = choose|i: int| 0 <= i < all.len() && all[i] == c;
        assert(0 <= i < 18);
    }
}

/// A source is compiled as it stands, without regard to case where that is asked
/// for, and reads Unicode. It is refused only if it is not valid or too large,
/// and what is told then begins with the prefix.
pub proof fn sources_are_compiled_as_they_stand(
    source: &str,
    case_insensitive: bool,
    prefix: &str,
    r: Result<Regex, String>,
)
    requires
        call_ensures(compile, (source, case_insensitive, prefix), r),
    ensures
        r is Ok ==> regex_setting(r->Ok_0) == (source@, case_insensitive, true),
        r is Err ==> prefix@.is_prefix_of(r->Err_0@),
        regex_flaws(source@, case_insensitive, true) == Set::<regex::Error>::empty()
            && regex_excesses(source@, case_insensitive, true) == Set::<regex::Error>::empty()
            ==> r is Ok,
{
    if r is Err {
        let m = r->Err_0@;
        let error = choose|error: regex::Error|
            explains_regex(prefix@, error, m);
        let shown = choose|shown: String|
            to_string_from_display_ensures::<regex::Error>(&error, shown) && m == prefix@ + shown@;
        assert(prefix@ =~= (prefix@ + shown@).subrange(0, prefix@.len() as int));
    }
}

/// What a refused compilation is answered: the prefix and what the error says.
pub proof fn refusals_say_what_the_error_says(
    built: Result<Regex, RegexRefusal>,
    prefix: &str,
    r: Result<Regex, String>,
    error: regex::Error,
)
    requires
        call_ensures(expression_outcome, (built, prefix), r),
        built is Err ==> (built->Err_0 == RegexRefusal::Invalid(error) || built->Err_0
            == RegexRefusal::TooLarge(error)),
    ensures
        built is Ok ==> r is Ok && r->Ok_0 == built->Ok_0,
        built is Err ==> r is Err && exists|shown: String|
            to_string_from_display_ensures::<regex::Error>(&error, shown) && r->Err_0@ == prefix@
                + shown@,
{
}

/// What a refused automaton is answered: what the error says.
pub proof fn refused_terms_say_what_the_error_says(
    built: Result<AhoCorasick, BuildError>,
    r: Result<SearchMatchers, String>,
)
    requires
        call_ensures(automaton_outcome, (built,), r),
    ensures
        built is Ok ==> r is Ok && r->Ok_0 == SearchMatchers::Literals(built->Ok_0),
        built is Err ==> r is Err && exists|shown: String|
            to_string_from_display_ensures::<BuildError>(&built->Err_0, shown) && r->Err_0@
                == shown@,
{
}

/// A query is compiled to just what was asked for. Where neither expressions nor
/// whole words were, that is the escaped text, whatever the text is and whether
/// or not case matters; only where whole words were, it stands between edges of
/// words.
pub proof fn a_query_is_compiled_as_asked(req: SearchRequest, r: Result<Regex, String>)
    requires
        call_ensures(regex_matcher, (&req,), r),
    ensures
        !req.use_regex && !req.whole_word && r is Ok ==> regex_setting(r->Ok_0).0 == escaped(
            req.query@,
        ),
        !req.use_regex && req.whole_word && r is Ok ==> regex_setting(r->Ok_0).0 == "\\b(?:"@
            + escaped(req.query@) + ")\\b"@,
        req.use_regex && !req.whole_word && r is Ok ==> regex_setting(r->Ok_0).0 == req.query@,
        req.use_regex && req.whole_word && r is Ok ==> regex_setting(r->Ok_0).0 == "\\b(?:"@
            + req.query@ + ")\\b"@,
        r is Ok ==> regex_setting(r->Ok_0).1 == !req.case_sensitive,
        r is Ok ==> regex_setting(r->Ok_0).2,
        r is Err ==> "Expressão inválida: "@.is_prefix_of(r->Err_0@),
{
    if r is Err {
        lemma_refusal_begins("Expressão inválida: "@, r->Err_0@);
    }
}

/// What a refusal tells begins with the prefix.
proof fn lemma_refusal_begins(prefix: Seq<char>, message: Seq<char>)
    requires
        exists|error: regex::Error| explains_regex(prefix, error, message),
    ensures
        prefix.is_prefix_of(message),
{
    let error = choose|error: regex::Error|
        explains_regex(prefix, error, message);
    let shown = choose|shown: String|
        to_string_from_display_ensures::<regex::Error>(&error, shown) && message == prefix + shown@;
    assert(prefix =~= (prefix + shown@).subrange(0, prefix.len() as int));
}

/// A query is refused only if the source that it is compiled from is not valid,
/// or too large.
pub proof fn a_query_is_refused_for_its_source(
    req: SearchRequest,
    source: Seq<char>,
    r: Result<Regex, String>,
)
    requires
        call_ensures(regex_matcher, (&req,), r),
        !req.use_regex && !req.whole_word ==> source == escaped(req.query@),
        !req.use_regex && req.whole_word ==> source == "\\b(?:"@ + escaped(req.query@) + ")\\b"@,
        req.use_regex && !req.whole_word ==> source == req.query@,
        req.use_regex && req.whole_word ==> source == "\\b(?:"@ + req.query@ + ")\\b"@,
        regex_flaws(source, !req.case_sensitive, true) == Set::<regex::Error>::empty(),
        regex_excesses(source, !req.case_sensitive, true) == Set::<regex::Error>::empty(),
    ensures
        r is Ok,
{
}

/// Whether two matchers search for the same thing in the same way.
pub open spec fn same_matcher(a: SearchMatcher, b: SearchMatcher) -> bool {
    match (a, b) {
        (SearchMatcher::Regex(x), SearchMatcher::Regex(y)) => regex_setting(x) == regex_setting(y),
        (
            SearchMatcher::Literal { needle: x, case_sensitive: s },
            SearchMatcher::Literal { needle: y, case_sensitive: t },
        ) => x@ == y@ && s == t,
        _ => false,
    }
}

/// A term is searched for byte by byte exactly if neither expressions nor whole
/// words were asked for, and case matters or the term is ASCII. Every other is
/// compiled like a query that consists of it.
pub proof fn a_term_is_searched_for_as_asked(
    req: SearchRequest,
    term: &str,
    r: Result<SearchMatcher, String>,
)
    requires
        call_ensures(matcher_for_term, (&req, term), r),
    ensures
        !req.use_regex && !req.whole_word && (req.case_sensitive || is_ascii_chars(term@)) ==> {
            &&& r is Ok
            &&& r->Ok_0 matches SearchMatcher::Literal { needle, case_sensitive }
            &&& needle@ == encode_utf8(term@)
            &&& case_sensitive == req.case_sensitive
        },
        req.use_regex || req.whole_word || (!req.case_sensitive && !is_ascii_chars(term@)) ==> {
            &&& r is Ok ==> r->Ok_0 is Regex
            &&& r is Ok && !req.use_regex && !req.whole_word ==> regex_setting(r->Ok_0->Regex_0)
                == (escaped(term@), !req.case_sensitive, true)
            &&& r is Ok && !req.use_regex && req.whole_word ==> regex_setting(r->Ok_0->Regex_0)
                == ("\\b(?:"@ + escaped(term@) + ")\\b"@, !req.case_sensitive, true)
            &&& r is Ok && req.use_regex && !req.whole_word ==> regex_setting(r->Ok_0->Regex_0)
                == (term@, !req.case_sensitive, true)
            &&& r is Ok && req.use_regex && req.whole_word ==> regex_setting(r->Ok_0->Regex_0)
                == ("\\b(?:"@ + term@ + ")\\b"@, !req.case_sensitive, true)
            &&& r is Err ==> "Expressão inválida: "@.is_prefix_of(r->Err_0@)
        },
{
    if r is Err {
        lemma_refusal_begins("Expressão inválida: "@, r->Err_0@);
    }
}

/// A query of one line gets, as a term, the expression that it gets as a query.
pub proof fn terms_and_queries_are_compiled_alike(
    req: SearchRequest,
    term: &str,
    matcher: SearchMatcher,
    regex: Regex,
)
    requires
        req.query@ == term@,
        call_ensures(regex_matcher, (&req,), Ok(regex)),
        call_ensures(matcher_for_term, (&req, term), Ok(matcher)),
        matcher is Regex,
    ensures
        regex_setting(matcher->Regex_0) == regex_setting(regex),
{
}

/// The terms of a query are searched for all at once exactly if each is searched
/// for byte by byte; else each has the matcher that it has by itself.
pub proof fn every_term_has_its_matcher(
    req: SearchRequest,
    matchers: SearchMatchers,
    i: int,
    term: &str,
    matcher: SearchMatcher,
)
    requires
        call_ensures(search_matchers, (&req,), Ok(matchers)),
        0 <= i < query_terms(req.query@).len(),
        term@ == query_terms(req.query@)[i],
        call_ensures(matcher_for_term, (&req, term), Ok(matcher)),
    ensures
        matchers is Literals <==> !req.use_regex && !req.whole_word && (req.case_sensitive
            || forall|k: int|
            0 <= k < query_terms(req.query@).len() ==> is_ascii_chars(
                #[trigger] query_terms(req.query@)[k],
            )),
        matchers matches SearchMatchers::Literals(automaton) ==> automaton_terms(automaton)
            == utf8_of(query_terms(req.query@)) && automaton_folds(automaton)
            == !req.case_sensitive,
        matchers matches SearchMatchers::Expressions(list) ==> {
            &&& list@.len() == query_terms(req.query@).len()
            &&& same_matcher(list@[i], matcher)
        },
{
}

/// A query is refused only if one of its terms is by itself: where each of them
/// has a valid expression that is not too large, and no automaton is refused,
/// there are matchers.
pub proof fn queries_are_refused_for_their_terms(
    req: SearchRequest,
    r: Result<SearchMatchers, String>,
)
    requires
        call_ensures(search_matchers, (&req,), r),
        automaton_refusals(utf8_of(query_terms(req.query@)), !req.case_sensitive)
            == Set::<BuildError>::empty(),
        forall|i: int|
            #![trigger query_terms(req.query@)[i]]
            0 <= i < query_terms(req.query@).len() ==> {
                let term = query_terms(req.query@)[i];
                let plain = if req.use_regex {
                    term
                } else {
                    escaped(term)
                };
                let source = if req.whole_word {
                    "\\b(?:"@ + plain + ")\\b"@
                } else {
                    plain
                };
                &&& regex_flaws(source, !req.case_sensitive, true) == Set::<regex::Error>::empty()
                &&& regex_excesses(source, !req.case_sensitive, true) == Set::<
                    regex::Error,
                >::empty()
            },
    ensures
        r is Ok,
{
}

/// Of the terms that are not valid, it is the first that is told: its flaw,
/// where the expressions of those before it are valid and not too large.
pub proof fn the_first_invalid_term_is_told(
    req: SearchRequest,
    r: Result<SearchMatchers, String>,
    first: int,
    sources: Seq<Seq<char>>,
)
    requires
        call_ensures(search_matchers, (&req,), r),
        req.use_regex,
        sources == query_terms(req.query@).map_values(
            |term: Seq<char>|
                if req.whole_word {
                    "\\b(?:"@ + term + ")\\b"@
                } else {
                    term
                },
        ),
        0 <= first < sources.len(),
        regex_flaws(sources[first], !req.case_sensitive, true) != Set::<regex::Error>::empty(),
        forall|i: int|
            0 <= i < first ==> regex_flaws(#[trigger] sources[i], !req.case_sensitive, true)
                == Set::<regex::Error>::empty() && regex_excesses(
                sources[i],
                !req.case_sensitive,
                true,
            ) == Set::<regex::Error>::empty(),
    ensures
        r is Err,
        exists|error: regex::Error, shown: String|
            regex_flaws(sources[first], !req.case_sensitive, true).contains(error)
                && #[trigger] to_string_from_display_ensures::<regex::Error>(&error, shown)
                && r->Err_0@ == "Expressão inválida: "@ + shown@,
{
    let terms = query_terms(req.query@);
    assert(sources[first] == expression_source(req, terms[first]));
    if r is Ok {
        let list = r->Ok_0->Expressions_0@;
        assert(is_matcher_for(list[first], req, terms[first]));
    }
    let m = r->Err_0@;
    let k = choose|k: int| is_first_invalid(req, k, m);
    assert(sources[k] == expression_source(req, terms[k]));
    if k > first {
        assert(has_matcher(req, terms[first]));
    }
    assert(k == first);
    let error = choose|error: regex::Error|
        regex_flaws(sources[first], !req.case_sensitive, true).contains(error) && explains_regex(
            "Expressão inválida: "@,
            error,
            m,
        );
    let shown = choose|shown: String|
        to_string_from_display_ensures::<regex::Error>(&error, shown) && m
            == "Expressão inválida: "@ + shown@;
    assert(to_string_from_display_ensures::<regex::Error>(&error, shown));
}

/// The expression for a replacement of a blank query: a group with nothing in
/// it.
pub proof fn blank_queries_are_an_empty_group(req: SearchRequest, r: Result<Regex, String>)
    requires
        query_lines(req.query@).len() == 0,
        call_ensures(replacement_matcher, (&req,), r),
    ensures
        r is Ok && !req.whole_word ==> regex_setting(r->Ok_0).0 == "(?:"@ + ")"@,
        r is Ok && req.whole_word ==> regex_setting(r->Ok_0).0 == "\\b"@ + ("(?:"@ + ")"@)
            + "\\b"@,
{
    let parts = query_lines(req.query@).map_values(
        |l: Seq<char>|
            if req.use_regex {
                l
            } else {
                escaped(l)
            },
    );
    assert(joined(parts, "|"@) =~= Seq::<char>::empty());
    assert("(?:"@ + Seq::<char>::empty() + ")"@ =~= "(?:"@ + ")"@);
}

/// The expression for a replacement in which there is nothing but one line: the
/// line, escaped unless it is an expression, in a group that stands between
/// edges of words only where whole words were asked for.
pub proof fn one_line_is_replaced_as_asked(
    req: SearchRequest,
    line: Seq<char>,
    r: Result<Regex, String>,
)
    requires
        !req.query@.contains('\n'),
        trimmed(req.query@).len() > 0,
        req.use_regex ==> line == trimmed(req.query@),
        !req.use_regex ==> line == escaped(trimmed(req.query@)),
        call_ensures(replacement_matcher, (&req,), r),
    ensures
        r is Ok && !req.whole_word ==> regex_setting(r->Ok_0).0 == "(?:"@ + line + ")"@,
        r is Ok && req.whole_word ==> regex_setting(r->Ok_0).0 == "\\b"@ + ("(?:"@ + line + ")"@)
            + "\\b"@,
        r is Ok ==> regex_setting(r->Ok_0).1 == !req.case_sensitive && regex_setting(r->Ok_0).2,
        r is Err ==> "Expressão inválida: "@.is_prefix_of(r->Err_0@),
{
    queries_go_line_by_line(req.query@, Seq::empty());
    let lines = query_lines(req.query@);
    let parts = lines.map_values(
        |l: Seq<char>|
            if req.use_regex {
                l
            } else {
                escaped(l)
            },
    );
    assert(parts =~= seq![line]);
    assert(joined(parts, "|"@) == line);
    if r is Err {
        lemma_refusal_begins("Expressão inválida: "@, r->Err_0@);
    }
}

/// The expressions for replacements of two queries and of both in one: blank
/// queries add nothing, and else what the one looks for is followed by what the
/// other looks for, as another choice.
pub proof fn replacements_go_line_by_line(
    a: SearchRequest,
    b: SearchRequest,
    both: SearchRequest,
    of_a: Regex,
    of_b: Regex,
    of_both: Regex,
    inner_a: Seq<char>,
    inner_b: Seq<char>,
    front: Seq<char>,
    back: Seq<char>,
)
    requires
        both.query@ == a.query@ + seq!['\n'] + b.query@,
        a.use_regex == both.use_regex,
        b.use_regex == both.use_regex,
        a.whole_word == both.whole_word,
        b.whole_word == both.whole_word,
        front == (if both.whole_word {
            "\\b"@ + "(?:"@
        } else {
            "(?:"@
        }),
        back == (if both.whole_word {
            ")"@ + "\\b"@
        } else {
            ")"@
        }),
        call_ensures(replacement_matcher, (&a,), Ok(of_a)),
        call_ensures(replacement_matcher, (&b,), Ok(of_b)),
        call_ensures(replacement_matcher, (&both,), Ok(of_both)),
        regex_setting(of_a).0 == front + inner_a + back,
        regex_setting(of_b).0 == front + inner_b + back,
    ensures
        query_lines(a.query@).len() == 0 ==> regex_setting(of_both).0 == regex_setting(of_b).0,
        query_lines(b.query@).len() == 0 ==> regex_setting(of_both).0 == regex_setting(of_a).0,
        query_lines(a.query@).len() > 0 && query_lines(b.query@).len() > 0 ==> regex_setting(
            of_both,
        ).0 == front + inner_a + "|"@ + inner_b + back,
{
    queries_go_line_by_line(a.query@, b.query@);
    let part = |l: Seq<char>|
        if both.use_regex {
            l
        } else {
            escaped(l)
        };
    let x = query_lines(a.query@);
    let y = query_lines(b.query@);
    lemma_inside_of(a, of_a, inner_a, front, back, part);
    lemma_inside_of(b, of_b, inner_b, front, back, part);
    let inner = joined((x + y).map_values(part), "|"@);
    assert(regex_setting(of_both).0 =~= front + inner + back);
    if x.len() == 0 {
        assert(x + y =~= y);
    } else if y.len() == 0 {
        assert(x + y =~= x);
    } else {
        assert((x + y).map_values(part) =~= x.map_values(part) + y.map_values(part));
        joining_goes_part_by_part(x.map_values(part), y.map_values(part), "|"@);
        assert(front + (inner_a + "|"@ + inner_b) + back =~= front + inner_a + "|"@ + inner_b
            + back);
    }
}

proof fn lemma_inside_of(
    req: SearchRequest,
    regex: Regex,
    inner: Seq<char>,
    front: Seq<char>,
    back: Seq<char>,
    part: spec_fn(Seq<char>) -> Seq<char>,
)
    requires
        front == (if req.whole_word {
            "\\b"@ + "(?:"@
        } else {
            "(?:"@
        }),
        back == (if req.whole_word {
            ")"@ + "\\b"@
        } else {
            ")"@
        }),
        part == (|l: Seq<char>|
            if req.use_regex {
                l
            } else {
                escaped(l)
            }),
        call_ensures(replacement_matcher, (&req,), Ok(regex)),
        regex_setting(regex).0 == front + inner + back,
    ensures
        inner == joined(query_lines(req.query@).map_values(part), "|"@),
{
    let found = joined(query_lines(req.query@).map_values(part), "|"@);
    let whole = regex_setting(regex).0;
    assert(whole =~= front + found + back);
    let n = front.len() as int;
    assert(whole.len() == n + inner.len() + back.len());
    assert(whole.len() == n + found.len() + back.len());
    assert(inner =~= (front + inner + back).subrange(n, n + inner.len()));
    assert(found =~= (front + found + back).subrange(n, n + found.len()));
}

/// Whether a request for a replacement and one for a search ask for the same.
pub open spec fn ask_for_the_same(a: ReplaceRequest, b: SearchRequest) -> bool {
    &&& a.query@ == b.query@
    &&& a.use_regex == b.use_regex
    &&& a.case_sensitive == b.case_sensitive
    &&& a.whole_word == b.whole_word
}

/// What is replaced in files is what the expression for the request's query
/// finds; nothing of the request is changed, and no file is done with yet.
pub proof fn replacements_begin_as_asked(
    req: ReplaceRequest,
    alike: SearchRequest,
    run: ReplaceRun,
    regex: Regex,
)
    requires
        ask_for_the_same(req, alike),
        call_ensures(replace_in_files, (req,), Ok(run)),
        call_ensures(replacement_matcher, (&alike,), Ok(regex)),
    ensures
        regex_setting(run.expression) == regex_setting(regex),
        run.paths@ == req.paths@,
        run.replacement@ == req.replacement@,
        run.use_regex == req.use_regex,
        run.create_backup == req.create_backup,
        run.current == 0,
        run.changed == 0,
        run.phase is Read,
        req.paths@.len() > 0,
{
}

/// A replacement in no files is refused, and one in some files only for its
/// expression.
pub proof fn replacements_are_refused_with_a_reason(
    req: ReplaceRequest,
    alike: SearchRequest,
    regex: Regex,
    r: Result<ReplaceRun, String>,
)
    requires
        ask_for_the_same(req, alike),
        call_ensures(replace_in_files, (req,), r),
    ensures
        req.paths@.len() == 0 ==> r is Err && r->Err_0@ == "Selecione ao menos um arquivo."@,
        req.paths@.len() > 0 && r is Err ==> "Expressão inválida: "@.is_prefix_of(r->Err_0@),
        req.paths@.len() > 0 && call_ensures(replacement_matcher, (&alike,), Ok(regex))
            && regex_excesses(regex_setting(regex).0, !req.case_sensitive, true) == Set::<
            regex::Error,
        >::empty() ==> r is Ok,
{
    if req.paths@.len() > 0 && r is Err {
        lemma_refusal_begins("Expressão inválida: "@, r->Err_0@);
    }
}

} // verus!
