//! The search engines of other crates, each call with what is relied on.

use crate::hits::{all_filled, hits, leftmost_spans};
use crate::occurrences::{next_occurrence, occurrences, occurs};
use crate::text::{joined, texts};
use crate::wildcard::{fits_one, wildcard_source};
use aho_corasick::{AhoCorasick, AhoCorasickBuilder, BuildError};
use base64::engine::general_purpose::STANDARD;
use base64::Engine;
use memchr::memmem;
use regex::bytes::{Matches, NoExpand, Regex, RegexBuilder};
use vstd::prelude::*;
use vstd::utf8::{encode_utf8, is_ascii_chars};

verus! {

/// The Aho-Corasick automaton.
#[verifier::external_type_specification]
#[verifier::external_body]
pub struct ExAhoCorasick(AhoCorasick);

/// Why an automaton could not be built.
#[verifier::external_type_specification]
#[verifier::external_body]
pub struct ExBuildError(BuildError);

/// The matches of an automaton that are still to come.
#[verifier::external_type_specification]
#[verifier::external_body]
pub struct ExAutomatonMatches<'a, 'h>(aho_corasick::FindIter<'a, 'h>);

/// A compiled regular expression.
#[verifier::external_type_specification]
#[verifier::external_body]
pub struct ExRegex(Regex);

/// Why a regular expression could not be compiled.
#[verifier::external_type_specification]
#[verifier::external_body]
pub struct ExRegexError(regex::Error);

/// The matches of a regular expression that are still to come.
#[verifier::external_type_specification]
#[verifier::external_body]
pub struct ExRegexMatches<'r, 'h>(Matches<'r, 'h>);

/// The occurrences of a substring that are still to come.
#[verifier::external_type_specification]
#[verifier::external_body]
pub struct ExSubstringMatches<'h, 'n>(memmem::FindIter<'h, 'n>);

/// The byte strings that an automaton searches for, in the order given.
pub uninterp spec fn automaton_terms(automaton: AhoCorasick) -> Seq<Seq<u8>>;

/// Whether an automaton was made to ignore ASCII case.
pub uninterp spec fn automaton_folds(automaton: AhoCorasick) -> bool;

/// What an automaton's iterator has left: term, start and end of each match.
pub uninterp spec fn automaton_pending(matches: aho_corasick::FindIter<'_, '_>) -> Seq<
    (int, int, int),
>;

/// What a regular expression was compiled from: its source, whether it
/// ignores case, and whether it reads Unicode.
pub uninterp spec fn regex_setting(regex: Regex) -> (Seq<char>, bool, bool);

/// The errors of a source that is not a valid regular expression; a valid one
/// has none.
pub uninterp spec fn regex_flaws(source: Seq<char>, case_insensitive: bool, unicode: bool) -> Set<
    regex::Error,
>;

/// The errors with which the compiled form of a source may be refused as too
/// large, on whatever machine.
pub uninterp spec fn regex_excesses(
    source: Seq<char>,
    case_insensitive: bool,
    unicode: bool,
) -> Set<regex::Error>;

/// The errors with which an automaton for some byte strings is refused.
pub uninterp spec fn automaton_refusals(terms: Seq<Seq<u8>>, folds: bool) -> Set<BuildError>;

/// Where a regular expression matches in a haystack, from left to right
/// without overlap: start and end of each match.
pub uninterp spec fn regex_spans(
    source: Seq<char>,
    case_insensitive: bool,
    unicode: bool,
    haystack: Seq<u8>,
) -> Seq<(int, int)>;

/// A haystack in which every match of a regular expression is replaced, with
/// the replacement's references to groups filled in.
pub uninterp spec fn regex_expansion(
    source: Seq<char>,
    case_insensitive: bool,
    unicode: bool,
    haystack: Seq<u8>,
    replacement: Seq<u8>,
) -> Seq<u8>;

/// What a regular expression's iterator has left.
pub uninterp spec fn regex_pending(matches: Matches<'_, '_>) -> Seq<(int, int)>;

/// What a substring search's iterator has left.
pub uninterp spec fn substring_pending(matches: memmem::FindIter<'_, '_>) -> Seq<int>;

/// Where a compiled regular expression matches.
pub open spec fn spans_of(regex: Regex, haystack: Seq<u8>) -> Seq<(int, int)> {
    let (source, case_insensitive, unicode) = regex_setting(regex);
    regex_spans(source, case_insensitive, unicode, haystack)
}

/// Spans in order, each within the haystack, none overlapping the one before,
/// and each ending after it.
pub open spec fn in_order(spans: Seq<(int, int)>, length: int) -> bool {
    &&& forall|i: int|
        0 <= i < spans.len() ==> 0 <= (#[trigger] spans[i]).0 <= spans[i].1 <= length
    &&& forall|i: int, j: int|
        0 <= i < j < spans.len() ==> (#[trigger] spans[i]).1 <= (#[trigger] spans[j]).0
            && spans[i].1 < spans[j].1
}

/// The haystack from `from` on with each span replaced.
pub open spec fn spliced(
    haystack: Seq<u8>,
    spans: Seq<(int, int)>,
    replacement: Seq<u8>,
    from: int,
) -> Seq<u8>
    decreases spans.len(),
{
    if spans.len() == 0 {
        haystack.skip(from)
    } else {
        haystack.subrange(from, spans[0].0) + replacement + spliced(
            haystack,
            spans.skip(1),
            replacement,
            spans[0].1,
        )
    }
}

/// The haystack from `from` on with each span replaced by a part of its own.
pub open spec fn filled(
    haystack: Seq<u8>,
    spans: Seq<(int, int)>,
    parts: Seq<Seq<u8>>,
    from: int,
) -> Seq<u8>
    decreases spans.len(),
{
    if spans.len() == 0 {
        haystack.skip(from)
    } else {
        haystack.subrange(from, spans[0].0) + parts[0] + filled(
            haystack,
            spans.skip(1),
            parts.skip(1),
            spans[0].1,
        )
    }
}

/// Whether one sequence is another in which nothing but some spans is replaced,
/// each by whatever it may be.
pub open spec fn only_spans_replaced(
    haystack: Seq<u8>,
    spans: Seq<(int, int)>,
    result: Seq<u8>,
) -> bool {
    exists|parts: Seq<Seq<u8>>|
        parts.len() == spans.len() && result == #[trigger] filled(haystack, spans, parts, 0)
}

/// The characters that mean something in a regular expression.
pub open spec fn meta_character(c: char) -> bool {
    ||| c == '\\'
    ||| c == '.'
    ||| c == '+'
    ||| c == '*'
    ||| c == '?'
    ||| c == '('
    ||| c == ')'
    ||| c == '|'
    ||| c == '['
    ||| c == ']'
    ||| c == '{'
    ||| c == '}'
    ||| c == '^'
    ||| c == '$'
    ||| c == '#'
    ||| c == '&'
    ||| c == '-'
    ||| c == '~'
}

/// A character with a backslash before it where it means something in a
/// regular expression.
pub open spec fn escaped_char(c: char) -> Seq<char> {
    if meta_character(c) {
        seq!['\\', c]
    } else {
        seq![c]
    }
}

/// A text with a backslash before each character that means something in a
/// regular expression.
pub open spec fn escaped(s: Seq<char>) -> Seq<char>
    decreases s.len(),
{
    if s.len() == 0 {
        Seq::empty()
    } else {
        escaped_char(s[0]) + escaped(s.skip(1))
    }
}

/// The source of a regular expression that matches one of several literals,
/// the first ones preferred.
pub open spec fn literal_alternation(literals: Seq<Seq<char>>) -> Seq<char> {
    "(?:"@ + joined(literals.map_values(|l: Seq<char>| escaped(l)), "|"@) + ")"@
}

/// The bytes of several texts.
pub open spec fn utf8_of(parts: Seq<Seq<char>>) -> Seq<Seq<u8>> {
    parts.map_values(|t: Seq<char>| encode_utf8(t))
}

/// Whether a haystack is free of the two characters outside of ASCII that
/// differ from ASCII letters in case only: the Kelvin sign and the long s.
pub open spec fn free_of_odd_letters(haystack: Seq<u8>) -> bool {
    &&& !occurs(haystack, seq![0xe2u8, 0x84u8, 0xaau8], false)
    &&& !occurs(haystack, seq![0xc5u8, 0xbfu8], false)
}

/// Whether a haystack is plain ASCII.
pub open spec fn ascii_bytes(haystack: Seq<u8>) -> bool {
    forall|i: int| 0 <= i < haystack.len() ==> #[trigger] haystack[i] < 128
}

/// The source of a regular expression that matches one of several literals
/// between two edges of words, the first ones preferred.
pub open spec fn word_source(literals: Seq<Seq<char>>) -> Seq<char> {
    "\\b"@ + literal_alternation(literals) + "\\b"@
}

/// Whether a source is that of some literals: of one alone, or of several in
/// a group, which stands between edges of words where words are asked for.
pub open spec fn literal_source(source: Seq<char>, literals: Seq<Seq<char>>, words: bool) -> bool {
    if words {
        source == word_source(literals)
    } else {
        source == literal_alternation(literals) || (literals.len() == 1 && source == escaped(
            literals[0],
        ))
    }
}

/// Whether a compiled regular expression is one of some non-empty literals,
/// and what it matches in a haystack is these literals byte by byte, ASCII
/// case ignored when `fold` is set, and only as words when `words` is.
pub open spec fn finds_literals(
    regex: Regex,
    literals: Seq<Seq<char>>,
    fold: bool,
    words: bool,
    haystack: Seq<u8>,
) -> bool {
    &&& literal_source(regex_setting(regex).0, literals, words)
    &&& regex_setting(regex).1 == fold
    &&& regex_setting(regex).2
    &&& literals.len() > 0
    &&& forall|i: int| 0 <= i < literals.len() ==> (#[trigger] literals[i]).len() > 0
    &&& words ==> ascii_bytes(haystack)
    &&& fold ==> free_of_odd_letters(haystack)
    &&& fold ==> forall|i: int|
        0 <= i < literals.len() ==> is_ascii_chars(#[trigger] literals[i])
}

/// Whether a compiled regular expression is a filter for names that match one
/// of some file name patterns, all of them ASCII.
pub open spec fn filters_names(regex: Regex, values: Seq<Seq<char>>) -> bool {
    &&& regex_setting(regex) == (wildcard_source(values), true, true)
    &&& values.len() > 0
    &&& forall|i: int| 0 <= i < values.len() ==> is_ascii_chars(#[trigger] values[i])
}

/// `regex::escape` puts a backslash before each meta character.
pub assume_specification[ regex::escape ](pattern: &str) -> (quoted: String)
    ensures
        quoted@ == escaped(pattern@),
;

/// Why a regular expression could not be compiled.
pub enum RegexRefusal {
    /// It is not a valid one.
    Invalid(regex::Error),
    /// Its compiled form is larger than allowed.
    TooLarge(regex::Error),
}

/// `RegexBuilder::build` compiles a regular expression from a source and two
/// of its settings. A source that is not valid is refused with its flaw; which
/// sources are valid goes by the source and the settings alone. Literals that
/// were escaped, and file name patterns made of such, are valid. A valid source
/// is compiled, unless the compiled form exceeds a limit on its size in memory;
/// when it does is not said.
#[verifier::external_body]
pub(crate) fn compile_regex(source: &str, case_insensitive: bool, unicode: bool) -> (built: Result<
    Regex,
    RegexRefusal,
>)
    ensures
        match built {
            Ok(regex) => {
                &&& regex_setting(regex) == (source@, case_insensitive, unicode)
                &&& regex_flaws(source@, case_insensitive, unicode) == Set::<regex::Error>::empty()
            },
            Err(RegexRefusal::Invalid(error)) => regex_flaws(
                source@,
                case_insensitive,
                unicode,
            ).contains(error),
            Err(RegexRefusal::TooLarge(error)) => {
                &&& regex_flaws(source@, case_insensitive, unicode) == Set::<regex::Error>::empty()
                &&& regex_excesses(source@, case_insensitive, unicode).contains(error)
            },
        },
        unicode ==> forall|literals: Seq<Seq<char>>, words: bool| #[trigger]
            literal_source(source@, literals, words) ==> !(built is Err
                && built->Err_0 is Invalid),
        unicode ==> forall|values: Seq<Seq<char>>|
            source@ == #[trigger] wildcard_source(values) ==> !(built is Err
                && built->Err_0 is Invalid),
{
    let mut builder = RegexBuilder::new(source);
    builder.case_insensitive(case_insensitive).unicode(unicode).build().map_err(
        |error| match error {
            regex::Error::CompiledTooBig(_) => RegexRefusal::TooLarge(error),
            _ => RegexRefusal::Invalid(error),
        },
    )
}

/// `Regex::is_match` tells whether there is a match anywhere. An alternation
/// of literals has one where a literal stands. An alternation between edges of
/// words has one exactly where one of its literals has, alone between them; this
/// holds whatever counts as a word in the haystack. A filter for file names, made
/// of groups of characters that stand for themselves in either case, of `.`
/// for any character but a line feed and of `.*` for any number of them, has
/// one where the whole name fits one of the patterns.
#[verifier::external_body]
pub(crate) fn regex_is_match(regex: &Regex, haystack: &[u8]) -> (found: bool)
    ensures
        found == (regex_spans(
            regex_setting(*regex).0,
            regex_setting(*regex).1,
            regex_setting(*regex).2,
            haystack@,
        ).len() > 0),
        forall|literals: Seq<Seq<char>>, fold: bool, words: bool|
            #![trigger finds_literals(*regex, literals, fold, words, haystack@)]
            finds_literals(*regex, literals, fold, words, haystack@) ==> found == (leftmost_spans(
                utf8_of(literals),
                fold,
                words,
                haystack@,
                0,
            ).len() > 0),
        forall|literals: Seq<Seq<char>>|
            #![trigger word_source(literals)]
            regex_setting(*regex).0 == word_source(literals) && literals.len() > 0 ==> found == (
            exists|i: int|
                0 <= i < literals.len() && regex_spans(
                    word_source(seq![#[trigger] literals[i]]),
                    regex_setting(*regex).1,
                    regex_setting(*regex).2,
                    haystack@,
                ).len() > 0),
        forall|values: Seq<Seq<char>>, name: Seq<char>|
            #![trigger filters_names(*regex, values), encode_utf8(name)]
            filters_names(*regex, values) && haystack@ == encode_utf8(name) && !name.contains('\n')
                ==> found == fits_one(values, name),
{
    regex.is_match(haystack)
}

/// `Regex::find_iter` walks the matches from left to right. They lie in the
/// haystack in order, and an empty match does not stand where one ended. The
/// matches of an alternation of literals are where the literals stand, the
/// first ones preferred.
#[verifier::external_body]
pub(crate) fn regex_find_iter<'r, 'h>(regex: &'r Regex, haystack: &'h [u8]) -> (matches: Matches<
    'r,
    'h,
>)
    ensures
        regex_pending(matches) == regex_spans(
            regex_setting(*regex).0,
            regex_setting(*regex).1,
            regex_setting(*regex).2,
            haystack@,
        ),
        in_order(regex_pending(matches), haystack@.len() as int),
        forall|literals: Seq<Seq<char>>, fold: bool, words: bool|
            #![trigger finds_literals(*regex, literals, fold, words, haystack@)]
            finds_literals(*regex, literals, fold, words, haystack@) ==> regex_pending(matches)
                == leftmost_spans(utf8_of(literals), fold, words, haystack@, 0),
{
    regex.find_iter(haystack)
}

/// `Iterator::next` on `regex::bytes::Matches` takes the first match that is
/// left, and gives its bounds.
#[verifier::external_body]
pub(crate) fn regex_next(matches: &mut Matches<'_, '_>) -> (found: Option<(usize, usize)>)
    ensures
        match found {
            Some(span) => {
                &&& regex_pending(*old(matches)).len() > 0
                &&& regex_pending(*old(matches))[0] == (span.0 as int, span.1 as int)
                &&& regex_pending(*final(matches)) == regex_pending(*old(matches)).skip(1)
            },
            None => {
                &&& regex_pending(*old(matches)).len() == 0
                &&& regex_pending(*final(matches)).len() == 0
            },
        },
{
    matches.next().map(|m| (m.start(), m.end()))
}

/// `Regex::replace_all` with `NoExpand` puts the replacement, as it is, in
/// the place of every match. The matches of an alternation of literals are
/// where the literals stand.
#[verifier::external_body]
pub(crate) fn regex_replace_literally(regex: &Regex, haystack: &[u8], replacement: &[u8]) -> (r: Vec<
    u8,
>)
    ensures
        r@ == spliced(haystack@, spans_of(*regex, haystack@), replacement@, 0),
        forall|literals: Seq<Seq<char>>, fold: bool, words: bool|
            #![trigger finds_literals(*regex, literals, fold, words, haystack@)]
            finds_literals(*regex, literals, fold, words, haystack@) ==> r@ == spliced(
                haystack@,
                leftmost_spans(utf8_of(literals), fold, words, haystack@, 0),
                replacement@,
                0,
            ),
{
    regex.replace_all(haystack, NoExpand(replacement)).into_owned()
}

/// `Regex::replace_all` with a byte string puts the replacement, with its
/// references to groups filled in, in the place of every match. A reference
/// starts with a dollar sign; without one the replacement is put as it is. What
/// stands outside of the matches is kept.
#[verifier::external_body]
pub(crate) fn regex_replace_expanding(regex: &Regex, haystack: &[u8], replacement: &[u8]) -> (r: Vec<
    u8,
>)
    ensures
        r@ == regex_expansion(
            regex_setting(*regex).0,
            regex_setting(*regex).1,
            regex_setting(*regex).2,
            haystack@,
            replacement@,
        ),
        !replacement@.contains(36u8) ==> r@ == spliced(
            haystack@,
            spans_of(*regex, haystack@),
            replacement@,
            0,
        ),
        spans_of(*regex, haystack@).len() == 0 ==> r@ == haystack@,
        only_spans_replaced(haystack@, spans_of(*regex, haystack@), r@),
{
    regex.replace_all(haystack, replacement).into_owned()
}

/// `AhoCorasickBuilder::build` makes an automaton that searches for the given
/// texts. It refuses them where there are too many, or too long ones, for the
/// numbers in its tables; that goes by the texts and the setting alone, so that
/// the same ones are always refused or never. When they are is not said.
#[verifier::external_body]
pub(crate) fn build_automaton(terms: &Vec<String>, ascii_case_insensitive: bool) -> (built: Result<
    AhoCorasick,
    BuildError,
>)
    ensures
        built is Ok ==> automaton_terms(built->Ok_0) == utf8_of(texts(terms@)),
        built is Ok ==> automaton_folds(built->Ok_0) == ascii_case_insensitive,
        built is Ok ==> automaton_refusals(utf8_of(texts(terms@)), ascii_case_insensitive)
            == Set::<BuildError>::empty(),
        built is Err ==> automaton_refusals(
            utf8_of(texts(terms@)),
            ascii_case_insensitive,
        ).contains(built->Err_0),
{
    AhoCorasickBuilder::new().ascii_case_insensitive(ascii_case_insensitive).build(terms)
}

/// `AhoCorasick::patterns_len` is the number of byte strings searched for.
#[verifier::external_body]
pub(crate) fn automaton_terms_len(automaton: &AhoCorasick) -> (n: usize)
    ensures
        n == automaton_terms(*automaton).len(),
{
    automaton.patterns_len()
}

/// `AhoCorasick::find_iter` reports matches as they are seen: each search
/// starts where the match before it ended and stops at the first byte that
/// ends a term; of the terms that end there it gives the longest, and of
/// equal ones the first.
#[verifier::external_body]
pub(crate) fn automaton_find_iter<'a, 'h>(automaton: &'a AhoCorasick, haystack: &'h [u8]) -> (matches:
    aho_corasick::FindIter<'a, 'h>)
    requires
        all_filled(automaton_terms(*automaton)),
    ensures
        automaton_pending(matches) == hits(
            automaton_terms(*automaton),
            automaton_folds(*automaton),
            haystack@,
            0,
        ),
{
    automaton.find_iter(haystack)
}

/// `Iterator::next` on `aho_corasick::FindIter` takes the first match that is
/// left, and gives its term and its bounds.
#[verifier::external_body]
pub(crate) fn automaton_next(matches: &mut aho_corasick::FindIter<'_, '_>) -> (found: Option<
    (usize, usize, usize),
>)
    ensures
        match found {
            Some(hit) => {
                &&& automaton_pending(*old(matches)).len() > 0
                &&& automaton_pending(*old(matches))[0] == (hit.0 as int, hit.1 as int, hit.2 as int)
                &&& automaton_pending(*final(matches)) == automaton_pending(*old(matches)).skip(1)
            },
            None => {
                &&& automaton_pending(*old(matches)).len() == 0
                &&& automaton_pending(*final(matches)).len() == 0
            },
        },
{
    matches.next().map(|m| (m.pattern().as_usize(), m.start(), m.end()))
}

/// `memmem::find` gives the leftmost occurrence of a substring.
pub assume_specification[ memmem::find ](haystack: &[u8], needle: &[u8]) -> (found: Option<usize>)
    ensures
        match next_occurrence(haystack@, needle@, false, 0) {
            Some(at) => found is Some && found->0 == at,
            None => found is None,
        },
;

/// `memmem::find_iter` walks the occurrences of a substring from left to
/// right without overlap; the empty one stands before each byte and at the
/// end.
#[verifier::external_body]
pub(crate) fn substring_find_iter<'h, 'n>(haystack: &'h [u8], needle: &'n [u8]) -> (matches:
    memmem::FindIter<'h, 'n>)
    ensures
        substring_pending(matches) == occurrences(haystack@, needle@, false, 0),
{
    memmem::find_iter(haystack, needle)
}

/// `Iterator::next` on `memmem::FindIter` takes the first occurrence that is
/// left.
#[verifier::external_body]
pub(crate) fn substring_next(matches: &mut memmem::FindIter<'_, '_>) -> (found: Option<usize>)
    ensures
        match found {
            Some(at) => {
                &&& substring_pending(*old(matches)).len() > 0
                &&& substring_pending(*old(matches))[0] == at
                &&& substring_pending(*final(matches)) == substring_pending(*old(matches)).skip(1)
            },
            None => {
                &&& substring_pending(*old(matches)).len() == 0
                &&& substring_pending(*final(matches)).len() == 0
            },
        },
{
    matches.next()
}

/// How many characters `n` bytes become in Base64.
pub open spec fn base64_len(n: nat) -> nat {
    (n + 2) / 3 * 4
}

/// The Base64 digit of a number below 64.
pub open spec fn base64_digit(v: int) -> char {
    if v < 26 {
        (65 + v) as char
    } else if v < 52 {
        (71 + v) as char
    } else if v < 62 {
        (v - 4) as char
    } else if v == 62 {
        '+'
    } else {
        '/'
    }
}

/// A byte of a sequence, or zero past its end.
pub open spec fn byte_or_zero(bytes: Seq<u8>, i: int) -> int {
    if i < bytes.len() {
        bytes[i] as int
    } else {
        0
    }
}

/// The character at position `i` in Base64: three bytes make four digits, and
/// a digit that no byte reaches is a padding sign.
pub open spec fn base64_char(bytes: Seq<u8>, i: int) -> char {
    let first = i / 4 * 3;
    let group = byte_or_zero(bytes, first) * 65536 + byte_or_zero(bytes, first + 1) * 256
        + byte_or_zero(bytes, first + 2);
    if i % 4 > bytes.len() - first {
        '='
    } else if i % 4 == 0 {
        base64_digit(group / 262144)
    } else if i % 4 == 1 {
        base64_digit(group / 4096 % 64)
    } else if i % 4 == 2 {
        base64_digit(group / 64 % 64)
    } else {
        base64_digit(group % 64)
    }
}

/// Bytes in Base64 with the standard alphabet and padding.
pub open spec fn base64_text(bytes: Seq<u8>) -> Seq<char> {
    Seq::new(base64_len(bytes.len()), |i: int| base64_char(bytes, i))
}

/// `Engine::encode` of `general_purpose::STANDARD` writes bytes in Base64. It
/// makes a buffer of the length of its result, which has to be possible.
#[verifier::external_body]
pub(crate) fn encode_base64(bytes: &[u8]) -> (s: String)
    requires
        base64_len(bytes@.len()) <= isize::MAX,
    ensures
        s@ == base64_text(bytes@),
{
    STANDARD.encode(bytes)
}

} // verus!
