//! Promises of the file name patterns.

use crate::engines::{meta_character, regex_excesses, regex_setting};
use crate::laws::texts::{
    joining_goes_part_by_part, one_piece_is_the_trimmed_text, trimmed_pieces_go_part_by_part,
    trimming_takes_white_space_off,
};
use crate::search::ascii_patterns;
use crate::text::{joined, pieces, trimmed, trimmed_pieces, white_space};
use crate::wildcard::{
    a_star_fits_every_name, fits, fits_one, selects, small, wildcard_expression, wildcard_regex,
    wildcard_source, wildcard_values,
};
use regex::bytes::Regex;
use vstd::prelude::*;
use vstd::utf8::is_ascii_chars;

verus! {

/// A list that holds neither of the separators is one pattern: the list without
/// the white space around it, unless it is blank or a star alone.
pub proof fn a_list_without_separators_is_one_pattern(list: Seq<char>)
    requires
        !list.contains(';'),
        !list.contains(','),
    ensures
        wildcard_values(list) == (if trimmed(list).len() == 0 || trimmed(list) == "*"@ {
            Seq::<Seq<char>>::empty()
        } else {
            seq![trimmed(list)]
        }),
{
    let separators = seq![';', ','];
    assert forall|i: int| 0 <= i < list.len() implies !separators.contains(#[trigger] list[i]) by {
        assert(list.contains(list[i]));
        if separators.contains(list[i]) {
            let k = choose|k: int| 0 <= k < separators.len() && separators[k] == list[i];
            assert(k == 0 || k == 1);
        }
    }
    one_piece_is_the_trimmed_text(list, separators);
    reveal(Seq::filter);
    if trimmed(list).len() > 0 {
        let one = seq![trimmed(list)];
        let other = |v: Seq<char>| v != "*"@;
        assert(one.drop_last() =~= Seq::<Seq<char>>::empty());
        assert(one.drop_last().filter(other) =~= Seq::<Seq<char>>::empty());
        assert(one.last() == trimmed(list));
        if trimmed(list) != "*"@ {
            assert(wildcard_values(list) =~= one);
        }
    }
}

/// The patterns of a list in two parts are those of the first and then those of
/// the second, whichever separator stands between.
pub proof fn patterns_go_part_by_part(a: Seq<char>, separator: char, b: Seq<char>)
    requires
        separator == ';' || separator == ',',
    ensures
        wildcard_values(a + seq![separator] + b) == wildcard_values(a) + wildcard_values(b),
{
    let separators = seq![';', ','];
    assert(separators[0] == ';' && separators[1] == ',');
    assert(separators.contains(separator));
    trimmed_pieces_go_part_by_part(a, separator, b, separators);
    Seq::filter_distributes_over_add(
        trimmed_pieces(a, separators),
        trimmed_pieces(b, separators),
        |v: Seq<char>| v != "*"@,
    );
}

/// A pattern is translated part by part, and each character by itself: a star
/// to any characters, a question mark to any one, one that means something in
/// a regular expression to itself with a backslash before, every other to
/// itself.
pub proof fn patterns_are_translated_part_by_part(a: Seq<char>, b: Seq<char>, c: char)
    ensures
        wildcard_expression(a + b) == wildcard_expression(a) + wildcard_expression(b),
        wildcard_expression(seq!['*']) == seq!['.', '*'],
        wildcard_expression(seq!['?']) == seq!['.'],
        c != '*' && c != '?' && meta_character(c) ==> wildcard_expression(seq![c]) == seq!['\\', c],
        c != '*' && c != '?' && !meta_character(c) ==> wildcard_expression(seq![c]) == seq![c],
    decreases a.len(),
{
    assert forall|d: char| #[trigger] seq![d].skip(1) =~= Seq::<char>::empty() by {}
    assert(wildcard_expression(Seq::<char>::empty()) =~= Seq::<char>::empty());
    assert(wildcard_expression(seq!['*']) =~= seq!['.', '*']) by {
        assert(seq!['*'].skip(1) =~= Seq::<char>::empty());
    }
    assert(wildcard_expression(seq!['?']) =~= seq!['.']) by {
        assert(seq!['?'].skip(1) =~= Seq::<char>::empty());
    }
    assert(seq![c].skip(1) =~= Seq::<char>::empty());
    if a.len() == 0 {
        assert(a + b =~= b);
    } else {
        assert((a + b).skip(1) =~= a.skip(1) + b);
        patterns_are_translated_part_by_part(a.skip(1), b, c);
    }
}

/// The filter for a list that holds neither of the separators: where it has a
/// pattern in it that is no star alone, the whole name has to be what the
/// pattern stands for, in either case. It is refused only for its size.
pub proof fn one_pattern_is_one_group(
    list: &str,
    before: Seq<char>,
    pattern: Seq<char>,
    behind: Seq<char>,
    r: Result<Option<Regex>, String>,
)
    requires
        !list@.contains(';'),
        !list@.contains(','),
        list@ == before + pattern + behind,
        forall|k: int| 0 <= k < before.len() ==> white_space(#[trigger] before[k]),
        forall|k: int| 0 <= k < behind.len() ==> white_space(#[trigger] behind[k]),
        pattern.len() > 0 ==> !white_space(pattern[0]) && !white_space(pattern.last()),
        call_ensures(wildcard_regex, (list,), r),
    ensures
        pattern.len() == 0 || pattern == "*"@ ==> r == Ok::<Option<Regex>, String>(None),
        pattern.len() > 0 && pattern != "*"@ ==> {
            &&& r is Ok ==> r->Ok_0 is Some
            &&& r is Ok ==> regex_setting(r->Ok_0->0) == (
                "^(?:"@ + ("(?:"@ + wildcard_expression(pattern) + ")"@) + ")$"@,
                true,
                true,
            )
            &&& r is Err ==> regex_excesses(
                "^(?:"@ + ("(?:"@ + wildcard_expression(pattern) + ")"@) + ")$"@,
                true,
                true,
            ) != Set::<regex::Error>::empty()
        },
{
    a_list_without_separators_is_one_pattern(list@);
    lemma_trimmed_between(before, pattern, behind);
    if pattern.len() > 0 && pattern != "*"@ {
        lemma_one_value(pattern);
    }
}

proof fn lemma_one_value(pattern: Seq<char>)
    ensures
        wildcard_source(seq![pattern]) == "^(?:"@ + ("(?:"@ + wildcard_expression(pattern) + ")"@)
            + ")$"@,
{
    let part = |v: Seq<char>| "(?:"@ + wildcard_expression(v) + ")"@;
    let parts = seq![pattern].map_values(part);
    assert(parts[0] == part(pattern));
    joining_goes_part_by_part(parts, Seq::empty(), "|"@);
}

/// What stands between white space is what trimming leaves.
proof fn lemma_trimmed_between(before: Seq<char>, s: Seq<char>, behind: Seq<char>)
    requires
        forall|k: int| 0 <= k < before.len() ==> white_space(#[trigger] before[k]),
        forall|k: int| 0 <= k < behind.len() ==> white_space(#[trigger] behind[k]),
        s.len() > 0 ==> !white_space(s[0]) && !white_space(s.last()),
    ensures
        trimmed(before + s + behind) == s,
{
    let whole = before + s + behind;
    let (i, j) = trimming_takes_white_space_off(whole);
    if s.len() == 0 {
        if i < j {
            if i < before.len() {
                assert(whole[i] == before[i]);
            } else {
                assert(whole[i] == behind[i - before.len()]);
            }
        }
        assert(whole.subrange(i, j) =~= s);
    } else {
        let from = before.len() as int;
        let to = (before.len() + s.len()) as int;
        assert(whole[from] == s[0]);
        assert(whole[to - 1] == s.last());
        assert(i <= from && to <= j);
        if i < from {
            assert(whole[i] == before[i]);
        }
        if to < j {
            assert(whole[j - 1] == behind[j - 1 - to]);
        }
        assert(whole.subrange(i, j) =~= s);
    }
}

/// A list that is all ASCII holds ASCII patterns only.
pub proof fn ascii_lists_hold_ascii_patterns(list: Seq<char>)
    requires
        is_ascii_chars(list),
    ensures
        forall|i: int|
            0 <= i < wildcard_values(list).len() ==> is_ascii_chars(
                #[trigger] wildcard_values(list)[i],
            ),
        ascii_patterns(list),
{
    let separators = seq![';', ','];
    let cut = pieces(list, separators).map_values(|p: Seq<char>| trimmed(p));
    let full = |p: Seq<char>| p.len() > 0;
    let other = |v: Seq<char>| v != "*"@;
    lemma_ascii_pieces(list, separators);
    assert forall|i: int| 0 <= i < cut.len() implies is_ascii_chars(#[trigger] cut[i]) by {
        let piece = pieces(list, separators)[i];
        assert(is_ascii_chars(piece));
        let (from, to) = trimming_takes_white_space_off(piece);
        assert forall|k: int| 0 <= k < cut[i].len() implies '\0' <= #[trigger] cut[i][k]
            <= '\u{7f}' by {
            assert(cut[i][k] == piece[from + k]);
        }
    }
    lemma_ascii_filtered(cut, full);
    lemma_ascii_filtered(cut.filter(full), other);
}

proof fn lemma_ascii_pieces(s: Seq<char>, separators: Seq<char>)
    requires
        is_ascii_chars(s),
    ensures
        pieces(s, separators).len() > 0,
        forall|i: int|
            0 <= i < pieces(s, separators).len() ==> is_ascii_chars(
                #[trigger] pieces(s, separators)[i],
            ),
    decreases s.len(),
{
    if s.len() > 0 {
        let shorter = s.drop_last();
        assert(is_ascii_chars(shorter));
        lemma_ascii_pieces(shorter, separators);
        let before = pieces(shorter, separators);
        assert(is_ascii_chars(before.last()));
        assert(is_ascii_chars(before.last().push(s.last())));
        assert forall|i: int| 0 <= i < pieces(s, separators).len() implies is_ascii_chars(
            #[trigger] pieces(s, separators)[i],
        ) by {
            if i < before.len() - 1 {
                assert(pieces(s, separators)[i] == before[i]);
            }
        }
    }
}

proof fn lemma_ascii_filtered(parts: Seq<Seq<char>>, keep: spec_fn(Seq<char>) -> bool)
    requires
        forall|i: int| 0 <= i < parts.len() ==> is_ascii_chars(#[trigger] parts[i]),
    ensures
        forall|i: int|
            0 <= i < parts.filter(keep).len() ==> is_ascii_chars(#[trigger] parts.filter(keep)[i]),
    decreases parts.len(),
{
    reveal(Seq::filter);
    if parts.len() > 0 {
        let shorter = parts.drop_last();
        assert forall|i: int| 0 <= i < shorter.len() implies is_ascii_chars(
            #[trigger] shorter[i],
        ) by {
            assert(shorter[i] == parts[i]);
        }
        lemma_ascii_filtered(shorter, keep);
        let before = shorter.filter(keep);
        let kept = parts.filter(keep);
        assert(is_ascii_chars(parts[parts.len() - 1]));
        assert(kept == if keep(parts.last()) {
            before.push(parts.last())
        } else {
            before
        });
        assert forall|i: int| 0 <= i < kept.len() implies is_ascii_chars(#[trigger] kept[i]) by {
            if i < before.len() {
                assert(kept[i] == before[i]);
            }
        }
    }
}

/// The filters for two lists and for both in one: what lets everything pass adds
/// nothing, and else the groups of the one are followed by those of the other.
pub proof fn filters_go_part_by_part(
    a: &str,
    separator: char,
    b: &str,
    both: &str,
    of_a: Option<Regex>,
    of_b: Option<Regex>,
    of_both: Option<Regex>,
    groups_a: Seq<char>,
    groups_b: Seq<char>,
)
    requires
        separator == ';' || separator == ',',
        both@ == a@ + seq![separator] + b@,
        call_ensures(wildcard_regex, (a,), Ok(of_a)),
        call_ensures(wildcard_regex, (b,), Ok(of_b)),
        call_ensures(wildcard_regex, (both,), Ok(of_both)),
        of_a is Some ==> regex_setting(of_a->0).0 == "^(?:"@ + groups_a + ")$"@,
        of_b is Some ==> regex_setting(of_b->0).0 == "^(?:"@ + groups_b + ")$"@,
    ensures
        of_both is None <==> of_a is None && of_b is None,
        of_both is Some ==> regex_setting(of_both->0).1 && regex_setting(of_both->0).2,
        of_a is None && of_b is Some ==> regex_setting(of_both->0).0 == regex_setting(of_b->0).0,
        of_b is None && of_a is Some ==> regex_setting(of_both->0).0 == regex_setting(of_a->0).0,
        of_a is Some && of_b is Some ==> regex_setting(of_both->0).0 == "^(?:"@ + groups_a + "|"@
            + groups_b + ")$"@,
{
    patterns_go_part_by_part(a@, separator, b@);
    let x = wildcard_values(a@);
    let y = wildcard_values(b@);
    if x.len() == 0 {
        assert(x + y =~= y);
    } else if y.len() == 0 {
        assert(x + y =~= x);
    } else {
        let part = |v: Seq<char>| "(?:"@ + wildcard_expression(v) + ")"@;
        let p = x.map_values(part);
        let q = y.map_values(part);
        assert((x + y).map_values(part) =~= p + q);
        joining_goes_part_by_part(p, q, "|"@);
        lemma_same_inside("^(?:"@, joined(p, "|"@), groups_a, ")$"@);
        lemma_same_inside("^(?:"@, joined(q, "|"@), groups_b, ")$"@);
        assert("^(?:"@ + (groups_a + "|"@ + groups_b) + ")$"@ =~= "^(?:"@ + groups_a + "|"@
            + groups_b + ")$"@);
    }
}

proof fn lemma_same_inside(front: Seq<char>, x: Seq<char>, y: Seq<char>, back: Seq<char>)
    requires
        front + x + back == front + y + back,
    ensures
        x == y,
{
    let whole = front + x + back;
    assert(whole.len() == (front + y + back).len());
    let n = front.len() as int;
    assert(x =~= whole.subrange(n, n + x.len()));
    assert(y =~= (front + y + back).subrange(n, n + y.len()));
}

/// A name fits two patterns in a row where it can be cut so that each part fits
/// one of them.
pub proof fn names_fit_part_by_part(a: Seq<char>, b: Seq<char>, name: Seq<char>)
    ensures
        fits(a + b, name) <==> exists|k: int|
            0 <= k <= name.len() && fits(a, #[trigger] name.take(k)) && fits(b, name.skip(k)),
    decreases a.len(), name.len(),
{
    let whole = a + b;
    if a.len() == 0 {
        assert(whole =~= b);
        assert(name.take(0) =~= Seq::<char>::empty());
        assert(name.skip(0) =~= name);
        if exists|k: int|
            0 <= k <= name.len() && fits(a, #[trigger] name.take(k)) && fits(b, name.skip(k)) {
            let k = choose|k: int|
                0 <= k <= name.len() && fits(a, #[trigger] name.take(k)) && fits(b, name.skip(k));
            assert(name.take(k).len() == 0);
        }
        if fits(whole, name) {
            assert(fits(a, name.take(0)) && fits(b, name.skip(0)));
        }
    } else {
        assert(whole.skip(1) =~= a.skip(1) + b);
        assert(whole[0] == a[0]);
        let rest = name.skip(1);
        if a[0] == '*' {
            names_fit_part_by_part(a.skip(1), b, name);
            if name.len() > 0 {
                names_fit_part_by_part(a, b, rest);
            }
            if fits(whole, name) {
                if fits(a.skip(1) + b, name) {
                    let k = choose|k: int|
                        0 <= k <= name.len() && fits(a.skip(1), #[trigger] name.take(k)) && fits(
                            b,
                            name.skip(k),
                        );
                    assert(fits(a, name.take(k)));
                } else {
                    let k = choose|k: int|
                        0 <= k <= rest.len() && fits(a, #[trigger] rest.take(k)) && fits(
                            b,
                            rest.skip(k),
                        );
                    assert(name.take(k + 1).skip(1) =~= rest.take(k));
                    assert(name.skip(k + 1) =~= rest.skip(k));
                    assert(fits(a, name.take(k + 1)));
                }
            }
            if exists|k: int|
                0 <= k <= name.len() && fits(a, #[trigger] name.take(k)) && fits(b, name.skip(k)) {
                let k = choose|k: int|
                    0 <= k <= name.len() && fits(a, #[trigger] name.take(k)) && fits(
                        b,
                        name.skip(k),
                    );
                if !fits(a.skip(1), name.take(k)) {
                    assert(name.take(k).skip(1) =~= rest.take(k - 1));
                    assert(name.skip(k) =~= rest.skip(k - 1));
                    assert(fits(a, rest.take(k - 1)) && fits(b, rest.skip(k - 1)));
                }
            }
        } else if name.len() > 0 {
            names_fit_part_by_part(a.skip(1), b, rest);
            if fits(whole, name) {
                let k = choose|k: int|
                    0 <= k <= rest.len() && fits(a.skip(1), #[trigger] rest.take(k)) && fits(
                        b,
                        rest.skip(k),
                    );
                assert(name.take(k + 1).skip(1) =~= rest.take(k));
                assert(name.skip(k + 1) =~= rest.skip(k));
                assert(name.take(k + 1)[0] == name[0]);
                assert(fits(a, name.take(k + 1)));
            }
            if exists|k: int|
                0 <= k <= name.len() && fits(a, #[trigger] name.take(k)) && fits(b, name.skip(k)) {
                let k = choose|k: int|
                    0 <= k <= name.len() && fits(a, #[trigger] name.take(k)) && fits(
                        b,
                        name.skip(k),
                    );
                assert(k > 0);
                assert(name.take(k)[0] == name[0]);
                assert(name.take(k).skip(1) =~= rest.take(k - 1));
                assert(name.skip(k) =~= rest.skip(k - 1));
                assert(fits(a.skip(1), rest.take(k - 1)) && fits(b, rest.skip(k - 1)));
            }
        }
    }
}

/// What one character of a pattern fits: a star any name, a question mark any
/// name of one character, an ASCII character itself, and a letter what differs
/// from it in case only.
pub proof fn each_character_fits_by_itself(c: char, name: Seq<char>)
    requires
        c < '\u{80}',
    ensures
        fits(Seq::<char>::empty(), name) <==> name.len() == 0,
        c == '*' ==> fits(seq![c], name),
        c == '?' ==> (fits(seq![c], name) <==> name.len() == 1),
        c != '*' && c != '?' && name.len() != 1 ==> !fits(seq![c], name),
        c != '*' && c != '?' && name == seq![c] ==> fits(seq![c], name),
        c != '*' && c != '?' && name.len() == 1 ==> (fits(seq![c], name) <==> {
            ||| name[0] == c
            ||| 'A' <= c <= 'Z' && name[0] as int == c as int + 32
            ||| 'a' <= c <= 'z' && name[0] as int == c as int - 32
            ||| (c == 'k' || c == 'K') && name[0] == '\u{212a}'
            ||| (c == 's' || c == 'S') && name[0] == '\u{17f}'
        }),
{
    assert(seq![c].skip(1) =~= Seq::<char>::empty());
    if c == '*' {
        a_star_fits_every_name(name);
    } else if name.len() > 0 {
        lemma_small(c, name[0]);
        assert(fits(seq![c].skip(1), name.skip(1)) <==> name.skip(1).len() == 0);
    }
}

proof fn lemma_small(c: char, d: char)
    requires
        c < '\u{80}',
    ensures
        small(c) == small(d) <==> {
            ||| d == c
            ||| 'A' <= c <= 'Z' && d as int == c as int + 32
            ||| 'a' <= c <= 'z' && d as int == c as int - 32
            ||| (c == 'k' || c == 'K') && d == '\u{212a}'
            ||| (c == 's' || c == 'S') && d == '\u{17f}'
        },
{
}

/// What lists of patterns select: one that is blank or a star alone selects
/// every name, one without separators what fits the list without the white
/// space around it, and two lists in one what either selects, where neither
/// selects all.
pub proof fn lists_select_part_by_part(
    a: Seq<char>,
    separator: char,
    b: Seq<char>,
    name: Seq<char>,
)
    requires
        separator == ';' || separator == ',',
    ensures
        !a.contains(';') && !a.contains(',') ==> selects(a, name) == (trimmed(a).len() == 0
            || trimmed(a) == "*"@ || fits(trimmed(a), name)),
        wildcard_values(a).len() == 0 ==> selects(a + seq![separator] + b, name) == selects(b, name),
        wildcard_values(b).len() == 0 ==> selects(a + seq![separator] + b, name) == selects(a, name),
        wildcard_values(a).len() > 0 && wildcard_values(b).len() > 0 ==> selects(
            a + seq![separator] + b,
            name,
        ) == (selects(a, name) || selects(b, name)),
{
    let x = wildcard_values(a);
    let y = wildcard_values(b);
    patterns_go_part_by_part(a, separator, b);
    let both = x + y;
    if x.len() == 0 {
        assert(both =~= y);
    } else if y.len() == 0 {
        assert(both =~= x);
    } else {
        if fits_one(both, name) {
            let i = choose|i: int| 0 <= i < both.len() && fits(#[trigger] both[i], name);
            if i < x.len() {
                assert(x[i] == both[i]);
            } else {
                assert(y[i - x.len()] == both[i]);
            }
        }
        if fits_one(x, name) {
            let i = choose|i: int| 0 <= i < x.len() && fits(#[trigger] x[i], name);
            assert(both[i] == x[i]);
        }
        if fits_one(y, name) {
            let i = choose|i: int| 0 <= i < y.len() && fits(#[trigger] y[i], name);
            assert(both[i + x.len()] == y[i]);
        }
    }
    if !a.contains(';') && !a.contains(',') {
        a_list_without_separators_is_one_pattern(a);
        if x.len() > 0 {
            assert(x[0] == trimmed(a));
            assert(fits_one(x, name) == fits(x[0], name));
        }
    }
}

} // verus!
