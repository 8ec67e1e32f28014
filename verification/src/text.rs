//! Text as a sequence of characters: the string handling that the rest of the
//! crate is built from, each function stated over `Seq<char>`.

use vstd::hash_set::StringHashSet;
use vstd::prelude::*;

verus! {

/// `String::push` appends one character to the end of a string.
pub assume_specification[ String::push ](string: &mut String, ch: char)
    ensures
        final(string)@ == old(string)@.push(ch),
;

/// The texts that a sequence of strings holds.
pub open spec fn texts(strings: Seq<String>) -> Seq<Seq<char>> {
    strings.map_values(|s: String| s@)
}

/// The characters with Unicode's `White_Space` property.
pub open spec fn white_space(c: char) -> bool {
    ||| '\u{9}' <= c <= '\u{d}'
    ||| c == ' '
    ||| c == '\u{85}'
    ||| c == '\u{a0}'
    ||| c == '\u{1680}'
    ||| '\u{2000}' <= c <= '\u{200a}'
    ||| c == '\u{2028}'
    ||| c == '\u{2029}'
    ||| c == '\u{202f}'
    ||| c == '\u{205f}'
    ||| c == '\u{3000}'
}

/// A text without its leading white space.
pub open spec fn trim_start(s: Seq<char>) -> Seq<char>
    decreases s.len(),
{
    if s.len() > 0 && white_space(s[0]) {
        trim_start(s.skip(1))
    } else {
        s
    }
}

/// A text without its trailing white space.
pub open spec fn trim_end(s: Seq<char>) -> Seq<char>
    decreases s.len(),
{
    if s.len() > 0 && white_space(s.last()) {
        trim_end(s.drop_last())
    } else {
        s
    }
}

/// A text without white space at either end.
pub open spec fn trimmed(s: Seq<char>) -> Seq<char> {
    trim_end(trim_start(s))
}

/// The pieces between separators; a text without separators is one piece.
pub open spec fn pieces(s: Seq<char>, separators: Seq<char>) -> Seq<Seq<char>>
    decreases s.len(),
{
    if s.len() == 0 {
        seq![Seq::<char>::empty()]
    } else {
        let before = pieces(s.drop_last(), separators);
        if separators.contains(s.last()) {
            before.push(Seq::<char>::empty())
        } else {
            before.drop_last().push(before.last().push(s.last()))
        }
    }
}

/// The pieces between separators, trimmed, without those that are blank.
pub open spec fn trimmed_pieces(s: Seq<char>, separators: Seq<char>) -> Seq<Seq<char>> {
    pieces(s, separators).map_values(|p: Seq<char>| trimmed(p)).filter(
        |p: Seq<char>| p.len() > 0,
    )
}

/// The parts in order, each only where it stands first.
pub open spec fn distinct(parts: Seq<Seq<char>>) -> Seq<Seq<char>>
    decreases parts.len(),
{
    if parts.len() == 0 {
        Seq::empty()
    } else {
        let before = distinct(parts.drop_last());
        if before.contains(parts.last()) {
            before
        } else {
            before.push(parts.last())
        }
    }
}

/// The parts one after the other, with `separator` between neighbours.
pub open spec fn joined(parts: Seq<Seq<char>>, separator: Seq<char>) -> Seq<char>
    decreases parts.len(),
{
    if parts.len() == 0 {
        Seq::empty()
    } else if parts.len() == 1 {
        parts[0]
    } else {
        joined(parts.drop_last(), separator) + separator + parts.last()
    }
}

/// `s` with every occurrence of `from`, taken from left to right without
/// overlap, replaced by `to`.
pub open spec fn replaced(s: Seq<char>, from: Seq<char>, to: Seq<char>) -> Seq<char>
    decreases s.len(),
{
    if from.len() == 0 || s.len() < from.len() {
        s
    } else if s.take(from.len() as int) == from {
        to + replaced(s.skip(from.len() as int), from, to)
    } else {
        seq![s[0]] + replaced(s.skip(1), from, to)
    }
}

/// The decimal digit of a number below ten.
pub open spec fn digit(n: nat) -> char {
    (48 + n) as char
}

/// A number in decimal notation.
pub open spec fn decimal(n: nat) -> Seq<char>
    decreases n,
{
    if n < 10 {
        seq![digit(n)]
    } else {
        decimal(n / 10).push(digit(n % 10))
    }
}

/// Whether a character is white space.
pub fn is_white_space(c: char) -> (b: bool)
    ensures
        b == white_space(c),
{
    ('\u{9}' <= c && c <= '\u{d}') || c == ' ' || c == '\u{85}' || c == '\u{a0}' || c == '\u{1680}'
        || ('\u{2000}' <= c && c <= '\u{200a}') || c == '\u{2028}' || c == '\u{2029}' || c
        == '\u{202f}' || c == '\u{205f}' || c == '\u{3000}'
}

/// Whether two texts are the same.
pub fn same_text(a: &str, b: &str) -> (same: bool)
    ensures
        same == (a@ == b@),
{
    a.to_owned() == b.to_owned()
}

/// The characters of a text.
pub fn characters(s: &str) -> (v: Vec<char>)
    ensures
        v@ == s@,
{
    let mut v: Vec<char> = Vec::new();
    for c in it: s.chars()
        invariant
            it.seq() == s@,
            v@ == it.seq().take(it.index()),
    {
        v.push(c);
    }
    v
}

/// The text made of the characters `v[from..to]`.
pub fn text_of(v: &Vec<char>, from: usize, to: usize) -> (s: String)
    requires
        from <= to <= v@.len(),
    ensures
        s@ == v@.subrange(from as int, to as int),
{
    let mut s = String::new();
    let mut i: usize = from;
    while i < to
        invariant
            from <= i <= to <= v@.len(),
            s@ == v@.subrange(from as int, i as int),
        decreases to - i,
    {
        s.push(v[i]);
        i = i + 1;
    }
    s
}

proof fn lemma_trim_start_skips(v: Seq<char>, from: int, to: int)
    requires
        0 <= from < to <= v.len(),
        white_space(v[from]),
    ensures
        trim_start(v.subrange(from, to)) == trim_start(v.subrange(from + 1, to)),
{
    assert(v.subrange(from, to).skip(1) =~= v.subrange(from + 1, to));
}

proof fn lemma_trim_end_drops(v: Seq<char>, from: int, to: int)
    requires
        0 <= from < to <= v.len(),
        white_space(v[to - 1]),
    ensures
        trim_end(v.subrange(from, to)) == trim_end(v.subrange(from, to - 1)),
{
    assert(v.subrange(from, to).drop_last() =~= v.subrange(from, to - 1));
}

/// The text `v[from..to]` without white space at either end.
pub fn trim_range(v: &Vec<char>, from: usize, to: usize) -> (s: String)
    requires
        from <= to <= v@.len(),
    ensures
        s@ == trimmed(v@.subrange(from as int, to as int)),
{
    let mut start: usize = from;
    while start < to && is_white_space(v[start])
        invariant
            from <= start <= to <= v@.len(),
            trim_start(v@.subrange(from as int, to as int)) == trim_start(
                v@.subrange(start as int, to as int),
            ),
        decreases to - start,
    {
        proof {
            lemma_trim_start_skips(v@, start as int, to as int);
        }
        start = start + 1;
    }
    let mut end: usize = to;
    while start < end && is_white_space(v[end - 1])
        invariant
            start <= end <= to <= v@.len(),
            trim_end(v@.subrange(start as int, to as int)) == trim_end(
                v@.subrange(start as int, end as int),
            ),
        decreases end,
    {
        proof {
            lemma_trim_end_drops(v@, start as int, end as int);
        }
        end = end - 1;
    }
    text_of(v, start, end)
}

/// Whether a separator is among the given ones.
fn is_separator(separators: &[char], c: char) -> (b: bool)
    ensures
        b == separators@.contains(c),
{
    let mut i: usize = 0;
    while i < separators.len()
        invariant
            i <= separators@.len(),
            forall|j: int| 0 <= j < i ==> separators@[j] != c,
        decreases separators@.len() - i,
    {
        if separators[i] == c {
            return true;
        }
        i = i + 1;
    }
    false
}

/// Splits a text at the separators and keeps the trimmed pieces that are not
/// blank, in order.
pub fn split_trimmed(text: &str, separators: &[char]) -> (parts: Vec<String>)
    ensures
        texts(parts@) == trimmed_pieces(text@, separators@),
{
    let v = characters(text);
    let mut parts: Vec<String> = Vec::new();
    let mut start: usize = 0;
    let mut i: usize = 0;
    let ghost trim = |p: Seq<char>| trimmed(p);
    let ghost full = |p: Seq<char>| p.len() > 0;
    proof {
        assert(v@.take(0).len() == 0);
        reveal(Seq::filter);
        assert(pieces(v@.take(0), separators@).drop_last() =~= Seq::empty());
    }
    while i < v.len()
        invariant
            start <= i <= v@.len(),
            trim == (|p: Seq<char>| trimmed(p)),
            full == (|p: Seq<char>| p.len() > 0),
            pieces(v@.take(i as int), separators@).len() > 0,
            pieces(v@.take(i as int), separators@).last() == v@.subrange(start as int, i as int),
            texts(parts@) == pieces(v@.take(i as int), separators@).drop_last().map_values(
                trim,
            ).filter(full),
        decreases v@.len() - i,
    {
        let ghost before = pieces(v@.take(i as int), separators@);
        proof {
            assert(v@.take(i + 1).drop_last() =~= v@.take(i as int));
            assert(v@.take(i + 1).last() == v@[i as int]);
        }
        if is_separator(separators, v[i]) {
            let part = trim_range(&v, start, i);
            proof {
                assert(before.push(Seq::<char>::empty()).drop_last() =~= before);
                assert(before.map_values(trim).drop_last() =~= before.drop_last().map_values(trim));
                assert(before.map_values(trim).last() == part@);
                reveal(Seq::filter);
            }
            if part.as_str().is_empty() {
            } else {
                let ghost old_parts = parts@;
                parts.push(part);
                assert(texts(parts@) =~= texts(old_parts).push(part@));
            }
            i = i + 1;
            start = i;
            assert(v@.subrange(start as int, i as int) =~= Seq::<char>::empty());
        } else {
            proof {
                assert(v@.subrange(start as int, i + 1) =~= v@.subrange(start as int, i as int).push(
                    v@[i as int],
                ));
                assert(before.drop_last().push(before.last().push(v@[i as int])).drop_last()
                    =~= before.drop_last());
            }
            i = i + 1;
        }
    }
    let part = trim_range(&v, start, i);
    proof {
        assert(v@.take(i as int) =~= v@);
        let before = pieces(v@, separators@);
        assert(before.map_values(trim).drop_last() =~= before.drop_last().map_values(trim));
        assert(before.map_values(trim).last() == part@);
        reveal(Seq::filter);
    }
    if part.as_str().is_empty() {
    } else {
        let ghost old_parts = parts@;
        parts.push(part);
        assert(texts(parts@) =~= texts(old_parts).push(part@));
    }
    parts
}

/// The parts in order, each only where it stands first.
pub fn without_repeats(parts: &Vec<String>) -> (kept: Vec<String>)
    ensures
        texts(kept@) == distinct(texts(parts@)),
{
    let mut seen = StringHashSet::new();
    let mut kept: Vec<String> = Vec::new();
    let mut i: usize = 0;
    assert(texts(parts@).take(0).len() == 0);
    while i < parts.len()
        invariant
            i <= parts@.len(),
            texts(kept@) == distinct(texts(parts@).take(i as int)),
            forall|t: Seq<char>| #[trigger] seen@.contains(t) <==> texts(kept@).contains(t),
        decreases parts@.len() - i,
    {
        let ghost before = texts(kept@);
        proof {
            let next = texts(parts@).take(i + 1);
            assert(next.drop_last() =~= texts(parts@).take(i as int));
            assert(next.last() == parts@[i as int]@);
        }
        if seen.insert(parts[i].clone()) {
            kept.push(parts[i].clone());
            proof {
                let last = parts@[i as int]@;
                assert(texts(kept@) =~= before.push(last));
                assert(before.push(last)[before.len() as int] == last);
                assert forall|t: Seq<char>| #[trigger] seen@.contains(t) implies texts(
                    kept@,
                ).contains(t) by {
                    if t != last {
                        let k = choose|k: int| 0 <= k < before.len() && before[k] == t;
                        assert(before.push(last)[k] == t);
                    }
                }
                assert forall|t: Seq<char>| texts(kept@).contains(t) implies #[trigger] seen@.contains(
                t) by {
                    let k = choose|k: int| 0 <= k < texts(kept@).len() && texts(kept@)[k] == t;
                    if k < before.len() {
                        assert(before[k] == t);
                    }
                }
            }
        }
        i = i + 1;
    }
    assert(texts(parts@).take(i as int) =~= texts(parts@));
    kept
}

/// The parts one after the other, with `separator` between neighbours.
pub fn join(parts: &Vec<String>, separator: &str) -> (s: String)
    ensures
        s@ == joined(texts(parts@), separator@),
{
    let mut s = String::new();
    let mut i: usize = 0;
    while i < parts.len()
        invariant
            i <= parts@.len(),
            s@ == joined(texts(parts@).take(i as int), separator@),
        decreases parts@.len() - i,
    {
        if i > 0 {
            s.append(separator);
        }
        s.append(parts[i].as_str());
        proof {
            let next = texts(parts@).take(i + 1);
            assert(next.drop_last() =~= texts(parts@).take(i as int));
            assert(next.last() == parts@[i as int]@);
        }
        i = i + 1;
    }
    assert(texts(parts@).take(i as int) =~= texts(parts@));
    s
}

/// Whether `v[at..]` starts with `pattern`.
fn starts_at(v: &Vec<char>, at: usize, pattern: &Vec<char>) -> (b: bool)
    requires
        at <= v@.len(),
        pattern@.len() <= v@.len() - at,
    ensures
        b == (v@.skip(at as int).take(pattern@.len() as int) == pattern@),
{
    let length: usize = v.len();
    let mut i: usize = 0;
    while i < pattern.len()
        invariant
            length == v@.len(),
            i <= pattern@.len() <= length - at,
            at <= length,
            v@.skip(at as int).take(i as int) == pattern@.take(i as int),
        decreases pattern@.len() - i,
    {
        if v[at + i] != pattern[i] {
            assert(v@.skip(at as int).take(pattern@.len() as int)[i as int] != pattern@[i as int]);
            return false;
        }
        assert(v@.skip(at as int).take(i + 1) =~= pattern@.take(i + 1));
        i = i + 1;
    }
    assert(pattern@.take(i as int) =~= pattern@);
    true
}

/// Replaces every occurrence of `from`, taken from left to right without
/// overlap.
pub fn replace(text: &str, from: &str, to: &str) -> (s: String)
    requires
        from@.len() > 0,
    ensures
        s@ == replaced(text@, from@, to@),
{
    let v = characters(text);
    let pattern = characters(from);
    let mut s = String::new();
    let mut i: usize = 0;
    assert(v@.skip(0) =~= v@);
    while i < v.len() && pattern.len() <= v.len() - i
        invariant
            i <= v@.len(),
            pattern@ == from@,
            from@.len() > 0,
            s@ + replaced(v@.skip(i as int), from@, to@) == replaced(v@, from@, to@),
        decreases v@.len() - i,
    {
        let ghost rest = v@.skip(i as int);
        if starts_at(&v, i, &pattern) {
            let ghost built = s@;
            s.append(to);
            assert(rest.skip(from@.len() as int) =~= v@.skip(i + from@.len()));
            assert(built + (to@ + replaced(v@.skip(i + from@.len()), from@, to@)) =~= s@ + replaced(
                v@.skip(i + from@.len()),
                from@,
                to@,
            ));
            i = i + pattern.len();
        } else {
            let ghost built = s@;
            s.push(v[i]);
            assert(rest.skip(1) =~= v@.skip(i + 1));
            assert(built + (seq![rest[0]] + replaced(v@.skip(i + 1), from@, to@)) =~= s@ + replaced(
                v@.skip(i + 1),
                from@,
                to@,
            ));
            i = i + 1;
        }
    }
    let tail = text_of(&v, i, v.len());
    assert(v@.skip(i as int) =~= tail@);
    s.append(tail.as_str());
    s
}

/// A number in decimal notation.
pub fn decimal_text(n: u128) -> (s: String)
    ensures
        s@ == decimal(n as nat),
    decreases n,
{
    let last: u8 = (n % 10) as u8;
    let c: char = (48 + last) as char;
    let mut s = if n < 10 {
        String::new()
    } else {
        decimal_text(n / 10)
    };
    s.push(c);
    assert(n < 10 ==> s@ =~= decimal(n as nat));
    s
}

/// Two numbers written alike are the same number.
pub proof fn decimal_is_injective(a: nat, b: nat)
    requires
        decimal(a) == decimal(b),
    ensures
        a == b,
    decreases a,
{
    let last = decimal(a).last();
    assert(last == digit(a % 10));
    assert(last == digit(b % 10));
    assert(a % 10 == b % 10);
    if a >= 10 && b >= 10 {
        assert(decimal(a).drop_last() =~= decimal(a / 10));
        assert(decimal(b).drop_last() =~= decimal(b / 10));
        decimal_is_injective(a / 10, b / 10);
    } else if a >= 10 {
        assert(decimal(a).drop_last() =~= decimal(a / 10));
        decimal_is_not_empty(a / 10);
    } else if b >= 10 {
        assert(decimal(b).drop_last() =~= decimal(b / 10));
        decimal_is_not_empty(b / 10);
    }
}

proof fn decimal_is_not_empty(n: nat)
    ensures
        decimal(n).len() > 0,
    decreases n,
{
    if n >= 10 {
        decimal_is_not_empty(n / 10);
    }
}

/// What follows `prefix` in a text that starts with it.
pub fn strip_prefix(text: &str, prefix: &str) -> (rest: Option<String>)
    ensures
        match rest {
            Some(r) => prefix@.is_prefix_of(text@) && r@ == text@.skip(prefix@.len() as int),
            None => !prefix@.is_prefix_of(text@),
        },
{
    let v = characters(text);
    let p = characters(prefix);
    assert(v@.skip(0) =~= v@);
    if p.len() <= v.len() && starts_at(&v, 0, &p) {
        let rest = text_of(&v, p.len(), v.len());
        assert(rest@ =~= text@.skip(prefix@.len() as int));
        Some(rest)
    } else {
        None
    }
}

/// A message followed by the reason for it.
pub fn with_reason(message: &str, reason: &str) -> (s: String)
    ensures
        s@ == message@ + reason@,
{
    let mut s = message.to_owned();
    s.append(reason);
    s
}

/// A message about something, followed by the reason for it.
pub fn about(message: &str, subject: &str, reason: &str) -> (s: String)
    ensures
        s@ == message@ + subject@ + ": "@ + reason@,
{
    let mut s = message.to_owned();
    s.append(subject);
    s.append(": ");
    s.append(reason);
    s
}

} // verus!
