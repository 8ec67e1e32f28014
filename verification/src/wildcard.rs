//! File name patterns with `*` and `?`.

use crate::compile::compile;
use crate::engines::{escaped, escaped_char, meta_character, regex_setting};
use crate::matchers::{is_valid, tells_excess};
use crate::text::{join, joined, replace, replaced, same_text, split_trimmed, texts, trimmed_pieces};
use regex::bytes::Regex;
use vstd::prelude::*;

verus! {

/// The patterns in a list separated by `;` and `,`, without those that every
/// name matches.
pub open spec fn wildcard_values(patterns: Seq<char>) -> Seq<Seq<char>> {
    trimmed_pieces(patterns, seq![';', ',']).filter(|v: Seq<char>| v != "*"@)
}

/// A character of a pattern as a regular expression: `*` stands for any
/// characters, `?` for any one, and every other for itself.
pub open spec fn wildcard_char(c: char) -> Seq<char> {
    if c == '*' {
        seq!['.', '*']
    } else if c == '?' {
        seq!['.']
    } else {
        escaped_char(c)
    }
}

/// A pattern as a regular expression.
pub open spec fn wildcard_expression(value: Seq<char>) -> Seq<char>
    decreases value.len(),
{
    if value.len() == 0 {
        Seq::empty()
    } else {
        wildcard_char(value[0]) + wildcard_expression(value.skip(1))
    }
}

/// The regular expression for whole names that match one of several patterns.
pub open spec fn wildcard_source(values: Seq<Seq<char>>) -> Seq<char> {
    "^(?:"@ + joined(
        values.map_values(|v: Seq<char>| "(?:"@ + wildcard_expression(v) + ")"@),
        "|"@,
    ) + ")$"@
}

/// A character made small where it is an ASCII letter, or one of the two
/// characters outside of ASCII that differ from one in case only.
pub open spec fn small(c: char) -> char {
    if 'A' <= c <= 'Z' {
        (c as int + 32) as char
    } else if c == '\u{212a}' {
        'k'
    } else if c == '\u{17f}' {
        's'
    } else {
        c
    }
}

/// Whether a name fits a pattern: `*` stands for any characters, `?` for any
/// one, and every other for itself in either case.
pub open spec fn fits(pattern: Seq<char>, name: Seq<char>) -> bool
    decreases pattern.len(), name.len(),
{
    if pattern.len() == 0 {
        name.len() == 0
    } else if pattern[0] == '*' {
        fits(pattern.skip(1), name) || (name.len() > 0 && fits(pattern, name.skip(1)))
    } else {
        &&& name.len() > 0
        &&& pattern[0] == '?' || small(pattern[0]) == small(name[0])
        &&& fits(pattern.skip(1), name.skip(1))
    }
}

/// Whether a name fits one of some patterns.
pub open spec fn fits_one(patterns: Seq<Seq<char>>, name: Seq<char>) -> bool {
    exists|i: int| 0 <= i < patterns.len() && fits(#[trigger] patterns[i], name)
}

/// Whether a list of patterns selects a name. A list without patterns, or
/// with `*` alone, selects every one.
pub open spec fn selects(patterns: Seq<char>, name: Seq<char>) -> bool {
    wildcard_values(patterns).len() == 0 || fits_one(wildcard_values(patterns), name)
}

/// A star fits every name.
pub proof fn a_star_fits_every_name(name: Seq<char>)
    ensures
        fits(seq!['*'], name),
    decreases name.len(),
{
    let star = seq!['*'];
    assert(star.skip(1) =~= Seq::<char>::empty());
    assert(fits(Seq::<char>::empty(), Seq::<char>::empty()));
    if name.len() > 0 {
        a_star_fits_every_name(name.skip(1));
    } else {
        assert(name =~= Seq::<char>::empty());
    }
}

/// A pattern that begins with a star fits the names of which an ending fits
/// the rest of it.
pub proof fn a_star_before_a_pattern_fits_endings(pattern: Seq<char>, name: Seq<char>)
    ensures
        fits(seq!['*'] + pattern, name) <==> exists|k: int|
            0 <= k <= name.len() && fits(pattern, #[trigger] name.skip(k)),
    decreases name.len(),
{
    let starred = seq!['*'] + pattern;
    assert(starred.skip(1) =~= pattern);
    assert(starred[0] == '*');
    assert(name.skip(0) =~= name);
    if name.len() > 0 {
        let rest = name.skip(1);
        a_star_before_a_pattern_fits_endings(pattern, rest);
        if fits(starred, rest) {
            let k = choose|k: int| 0 <= k <= rest.len() && fits(pattern, #[trigger] rest.skip(k));
            assert(rest.skip(k) =~= name.skip(k + 1));
        }
        if exists|k: int| 0 <= k <= name.len() && fits(pattern, #[trigger] name.skip(k)) {
            let k = choose|k: int| 0 <= k <= name.len() && fits(pattern, #[trigger] name.skip(k));
            if k > 0 {
                assert(rest.skip(k - 1) =~= name.skip(k));
                assert(fits(pattern, rest.skip(k - 1)));
            }
        }
    } else if exists|k: int| 0 <= k <= name.len() && fits(pattern, #[trigger] name.skip(k)) {
        let k = choose|k: int| 0 <= k <= name.len() && fits(pattern, #[trigger] name.skip(k));
        assert(name.skip(k) =~= name);
    }
}

/// A pattern without stars and question marks fits just the names that are
/// the same but for case.
pub proof fn a_plain_pattern_fits_itself(pattern: Seq<char>, name: Seq<char>)
    requires
        !pattern.contains('*'),
        !pattern.contains('?'),
    ensures
        fits(pattern, name) <==> pattern.map_values(|c: char| small(c)) == name.map_values(
            |c: char| small(c),
        ),
    decreases pattern.len(),
{
    let low = |c: char| small(c);
    if pattern.len() == 0 {
        assert(pattern.map_values(low) =~= Seq::<char>::empty());
        if name.len() == 0 {
            assert(name.map_values(low) =~= Seq::<char>::empty());
        } else {
            assert(name.map_values(low).len() > 0);
        }
    } else {
        assert(pattern.contains(pattern[0]));
        let rest = pattern.skip(1);
        assert forall|c: char| rest.contains(c) implies pattern.contains(c) by {
            let i = choose|i: int| 0 <= i < rest.len() && rest[i] == c;
            assert(pattern[i + 1] == c);
        }
        if name.len() > 0 {
            a_plain_pattern_fits_itself(rest, name.skip(1));
            let p = pattern.map_values(low);
            let n = name.map_values(low);
            assert(p =~= seq![small(pattern[0])] + rest.map_values(low));
            assert(n =~= seq![small(name[0])] + name.skip(1).map_values(low));
            assert(p.skip(1) =~= rest.map_values(low));
            assert(n.skip(1) =~= name.skip(1).map_values(low));
            assert(p[0] == small(pattern[0]) && n[0] == small(name[0]));
        } else {
            assert(pattern.map_values(low).len() != name.map_values(low).len());
        }
    }
}

/// A pattern in which `*` is replaced and every other character escaped.
spec fn half_translated(value: Seq<char>) -> Seq<char>
    decreases value.len(),
{
    if value.len() == 0 {
        Seq::empty()
    } else {
        (if value[0] == '*' {
            seq!['.', '*']
        } else {
            escaped_char(value[0])
        }) + half_translated(value.skip(1))
    }
}

/// A character that does not begin what is replaced stays.
proof fn lemma_stays(c: char, rest: Seq<char>, from: Seq<char>, to: Seq<char>)
    requires
        from.len() == 2,
        c != from[0] || rest.len() == 0 || rest[0] != from[1],
    ensures
        replaced(seq![c] + rest, from, to) == seq![c] + replaced(rest, from, to),
{
    let s = seq![c] + rest;
    assert(s.skip(1) =~= rest);
    if s.len() >= 2 {
        assert(s.take(2)[0] == c && s.take(2)[1] == rest[0]);
    } else {
        assert(rest =~= Seq::empty());
        assert(s =~= seq![c] + replaced(rest, from, to));
    }
}

/// What begins with the replaced text goes on behind it.
proof fn lemma_goes(rest: Seq<char>, from: Seq<char>, to: Seq<char>)
    requires
        from.len() == 2,
    ensures
        replaced(from + rest, from, to) == to + replaced(rest, from, to),
{
    let s = from + rest;
    assert(s.take(2) =~= from);
    assert(s.skip(2) =~= rest);
}

proof fn lemma_star_replaced(value: Seq<char>)
    ensures
        replaced(escaped(value), seq!['\\', '*'], seq!['.', '*']) == half_translated(value),
        escaped(value).len() > 0 ==> escaped(value)[0] != '*',
    decreases value.len(),
{
    let from = seq!['\\', '*'];
    let to = seq!['.', '*'];
    if value.len() > 0 {
        let c = value[0];
        let rest = escaped(value.skip(1));
        lemma_star_replaced(value.skip(1));
        if c == '*' {
            assert(escaped_char(c) =~= from);
            lemma_goes(rest, from, to);
        } else if meta_character(c) {
            lemma_stays(c, rest, from, to);
            lemma_stays('\\', seq![c] + rest, from, to);
            assert(escaped(value) =~= seq!['\\'] + (seq![c] + rest));
            assert(half_translated(value) =~= seq!['\\'] + (seq![c] + half_translated(
                value.skip(1),
            )));
        } else {
            lemma_stays(c, rest, from, to);
        }
    }
}

proof fn lemma_mark_replaced(value: Seq<char>)
    ensures
        replaced(half_translated(value), seq!['\\', '?'], seq!['.']) == wildcard_expression(value),
        half_translated(value).len() > 0 ==> half_translated(value)[0] != '?',
    decreases value.len(),
{
    let from = seq!['\\', '?'];
    let to = seq!['.'];
    if value.len() > 0 {
        let c = value[0];
        let rest = half_translated(value.skip(1));
        lemma_mark_replaced(value.skip(1));
        if c == '*' {
            lemma_stays('*', rest, from, to);
            lemma_stays('.', seq!['*'] + rest, from, to);
            assert(half_translated(value) =~= seq!['.'] + (seq!['*'] + rest));
            assert(wildcard_expression(value) =~= seq!['.'] + (seq!['*'] + wildcard_expression(
                value.skip(1),
            )));
        } else if c == '?' {
            assert(escaped_char(c) =~= from);
            lemma_goes(rest, from, to);
        } else if meta_character(c) {
            lemma_stays(c, rest, from, to);
            lemma_stays('\\', seq![c] + rest, from, to);
            assert(half_translated(value) =~= seq!['\\'] + (seq![c] + rest));
            assert(wildcard_expression(value) =~= seq!['\\'] + (seq![c] + wildcard_expression(
                value.skip(1),
            )));
        } else {
            lemma_stays(c, rest, from, to);
        }
    }
}

/// Escaping a pattern and then replacing what became of `*` and `?` gives
/// each character's own translation.
pub proof fn translation_goes_by_character(value: Seq<char>)
    ensures
        replaced(
            replaced(escaped(value), seq!['\\', '*'], seq!['.', '*']),
            seq!['\\', '?'],
            seq!['.'],
        ) == wildcard_expression(value),
{
    lemma_star_replaced(value);
    lemma_mark_replaced(value);
}

/// The regular expression for one pattern, in a group.
fn wildcard_part(value: &str) -> (s: String)
    ensures
        s@ == "(?:"@ + wildcard_expression(value@) + ")"@,
{
    proof {
        reveal_strlit("\\*");
        reveal_strlit(".*");
        reveal_strlit("\\?");
        reveal_strlit(".");
        assert("\\*"@ =~= seq!['\\', '*']);
        assert(".*"@ =~= seq!['.', '*']);
        assert("\\?"@ =~= seq!['\\', '?']);
        assert("."@ =~= seq!['.']);
        translation_goes_by_character(value@);
    }
    let quoted = regex::escape(value);
    let starred = replace(quoted.as_str(), "\\*", ".*");
    let translated = replace(starred.as_str(), "\\?", ".");
    let mut s = "(?:".to_owned();
    s.append(translated.as_str());
    s.append(")");
    s
}

/// Compiles the filter for file names, or nothing where every name passes. A
/// filter is refused only where it is too large.
pub fn wildcard_regex(patterns: &str) -> (r: Result<Option<Regex>, String>)
    ensures
        match r {
            Ok(None) => wildcard_values(patterns@).len() == 0,
            Ok(Some(regex)) => wildcard_values(patterns@).len() > 0 && regex_setting(regex) == (
                wildcard_source(wildcard_values(patterns@)),
                true,
                true,
            ) && is_valid(wildcard_source(wildcard_values(patterns@)), true),
            Err(m) => wildcard_values(patterns@).len() > 0 && tells_excess(
                ""@,
                wildcard_source(wildcard_values(patterns@)),
                true,
                m@,
            ),
        },
{
    let values = split_trimmed(patterns, &[';', ',']);
    let mut parts: Vec<String> = Vec::new();
    let mut i: usize = 0;
    let ghost other = |v: Seq<char>| v != "*"@;
    let ghost part = |v: Seq<char>| "(?:"@ + wildcard_expression(v) + ")"@;
    proof {
        assert((&[';', ','])@ =~= seq![';', ',']);
        reveal(Seq::filter);
        assert(texts(values@).take(0).filter(other).map_values(part) =~= Seq::empty());
    }
    while i < values.len()
        invariant
            i <= values@.len(),
            other == (|v: Seq<char>| v != "*"@),
            part == (|v: Seq<char>| "(?:"@ + wildcard_expression(v) + ")"@),
            texts(parts@) == texts(values@).take(i as int).filter(other).map_values(part),
        decreases values@.len() - i,
    {
        let ghost before = texts(values@).take(i as int);
        let ghost built = texts(parts@);
        proof {
            let next = texts(values@).take(i + 1);
            assert(next.drop_last() =~= before);
            assert(next.last() == values@[i as int]@);
            reveal(Seq::filter);
        }
        if !same_text(values[i].as_str(), "*") {
            let p = wildcard_part(values[i].as_str());
            parts.push(p);
            proof {
                assert(texts(parts@) =~= built.push(p@));
                assert(before.filter(other).push(values@[i as int]@).map_values(part)
                    =~= before.filter(other).map_values(part).push(p@));
            }
        }
        i = i + 1;
    }
    proof {
        assert(texts(values@).take(i as int) =~= texts(values@));
        assert(texts(parts@).len() == wildcard_values(patterns@).len());
    }
    if parts.len() == 0 {
        return Ok(None);
    }
    let alternatives = join(&parts, "|");
    let mut source = "^(?:".to_owned();
    source.append(alternatives.as_str());
    source.append(")$");
    match compile(source.as_str(), true, "") {
        Ok(regex) => Ok(Some(regex)),
        Err(m) => Err(m),
    }
}

} // verus!
