//! The terms that a query holds: its lines, trimmed, without the blank ones.

use crate::text::{
    distinct, joined, pieces, trim_end, trim_start, trimmed, trimmed_pieces, white_space,
};
use vstd::prelude::*;

verus! {

/// The lines of a query, trimmed, without the blank ones.
pub open spec fn query_lines(query: Seq<char>) -> Seq<Seq<char>> {
    trimmed_pieces(query, seq!['\n'])
}

/// The terms of a query: its lines, each once.
pub open spec fn query_terms(query: Seq<char>) -> Seq<Seq<char>> {
    distinct(query_lines(query))
}

/// What is left without repeats is all different, and just what there was.
pub proof fn lemma_distinct_from(parts: Seq<Seq<char>>)
    ensures
        distinct(parts).no_duplicates(),
        forall|t: Seq<char>| distinct(parts).contains(t) <==> parts.contains(t),
    decreases parts.len(),
{
    if parts.len() > 0 {
        let before = distinct(parts.drop_last());
        let last = parts.last();
        lemma_distinct_from(parts.drop_last());
        assert forall|t: Seq<char>| distinct(parts).contains(t) <==> parts.contains(t) by {
            assert(before.contains(t) <==> parts.drop_last().contains(t));
            if distinct(parts).contains(t) {
                if before.contains(t) {
                    let k = choose|k: int|
                        0 <= k < parts.drop_last().len() && parts.drop_last()[k] == t;
                    assert(parts[k] == t);
                } else {
                    assert(t == last);
                    assert(parts[parts.len() - 1] == t);
                }
            }
            if parts.contains(t) {
                let k = choose|k: int| 0 <= k < parts.len() && parts[k] == t;
                if k < parts.len() - 1 {
                    assert(parts.drop_last()[k] == t);
                    let m = choose|m: int| 0 <= m < before.len() && before[m] == t;
                    assert(distinct(parts)[m] == t);
                } else if !before.contains(last) {
                    assert(distinct(parts)[before.len() as int] == t);
                }
            }
        }
    }
}

proof fn lemma_trim_end_keeps_front(s: Seq<char>)
    ensures
        trim_end(s).len() > 0 ==> s.len() > 0 && trim_end(s)[0] == s[0],
        trim_end(trim_end(s)) == trim_end(s),
        trim_end(s).len() > 0 ==> !white_space(trim_end(s).last()),
    decreases s.len(),
{
    if s.len() > 0 && white_space(s.last()) {
        lemma_trim_end_keeps_front(s.drop_last());
    }
}

proof fn lemma_trim_start_front(s: Seq<char>)
    ensures
        trim_start(s).len() > 0 ==> !white_space(trim_start(s)[0]),
    decreases s.len(),
{
    if s.len() > 0 && white_space(s[0]) {
        lemma_trim_start_front(s.skip(1));
    }
}

proof fn lemma_trimmed_twice(s: Seq<char>)
    ensures
        trimmed(trimmed(s)) == trimmed(s),
{
    lemma_trim_start_front(s);
    lemma_trim_end_keeps_front(trim_start(s));
}

/// The terms of a query are not blank, have no white space at either end, and
/// are all different.
pub proof fn query_terms_are_clean(query: Seq<char>)
    ensures
        forall|i: int|
            0 <= i < query_terms(query).len() ==> (#[trigger] query_terms(query)[i]).len() > 0,
        forall|i: int|
            0 <= i < query_terms(query).len() ==> trimmed(#[trigger] query_terms(query)[i])
                == query_terms(query)[i],
        query_terms(query).no_duplicates(),
{
    let cut = pieces(query, seq!['\n']).map_values(|p: Seq<char>| trimmed(p));
    let full = |p: Seq<char>| p.len() > 0;
    let lines = query_lines(query);
    assert(lines == cut.filter(full));
    lemma_distinct_from(lines);
    assert forall|i: int| 0 <= i < query_terms(query).len() implies (#[trigger] query_terms(
        query,
    )[i]).len() > 0 && trimmed(query_terms(query)[i]) == query_terms(query)[i] by {
        let t = query_terms(query)[i];
        assert(query_terms(query).contains(t));
        assert(lines.contains(t));
        let k = choose|k: int| 0 <= k < lines.len() && lines[k] == t;
        lemma_filter_from(cut, full, k);
        let m = choose|m: int| 0 <= m < cut.len() && cut[m] == t;
        lemma_trimmed_twice(pieces(query, seq!['\n'])[m]);
    }
}

/// No line of a query is empty.
pub proof fn lemma_query_lines_filled(query: Seq<char>)
    ensures
        forall|i: int|
            0 <= i < query_lines(query).len() ==> (#[trigger] query_lines(query)[i]).len() > 0,
{
    let cut = pieces(query, seq!['\n']).map_values(|p: Seq<char>| trimmed(p));
    let full = |p: Seq<char>| p.len() > 0;
    assert forall|i: int| 0 <= i < query_lines(query).len() implies (#[trigger] query_lines(
        query,
    )[i]).len() > 0 by {
        lemma_filter_from(cut, full, i);
    }
}

proof fn lemma_filter_from(s: Seq<Seq<char>>, keep: spec_fn(Seq<char>) -> bool, i: int)
    requires
        0 <= i < s.filter(keep).len(),
    ensures
        keep(s.filter(keep)[i]),
        s.contains(s.filter(keep)[i]),
    decreases s.len(),
{
    reveal(Seq::filter);
    let before = s.drop_last().filter(keep);
    let t = s.filter(keep)[i];
    if i < before.len() {
        lemma_filter_from(s.drop_last(), keep, i);
        assert(before[i] == t);
        let k = choose|k: int| 0 <= k < s.drop_last().len() && s.drop_last()[k] == t;
        assert(s[k] == t);
    } else {
        assert(s[s.len() - 1] == t);
    }
}

/// Text without separators is added to the last piece.
proof fn lemma_last_piece_grows(s: Seq<char>, separators: Seq<char>, line: Seq<char>)
    requires
        forall|i: int| 0 <= i < line.len() ==> !separators.contains(#[trigger] line[i]),
    ensures
        pieces(s, separators).len() > 0,
        pieces(s + line, separators) == pieces(s, separators).drop_last().push(
            pieces(s, separators).last() + line,
        ),
    decreases s.len() + line.len(),
{
    if line.len() == 0 {
        if s.len() > 0 {
            let none = Seq::<char>::empty();
            lemma_last_piece_grows(s.drop_last(), separators, none);
        }
        assert(s + line =~= s);
        assert(pieces(s, separators).last() + line =~= pieces(s, separators).last());
        assert(pieces(s, separators) =~= pieces(s, separators).drop_last().push(
            pieces(s, separators).last(),
        ));
    } else {
        let shorter = line.drop_last();
        assert forall|i: int| 0 <= i < shorter.len() implies !separators.contains(
            #[trigger] shorter[i],
        ) by {
            assert(shorter[i] == line[i]);
        }
        lemma_last_piece_grows(s, separators, shorter);
        assert((s + line).drop_last() =~= s + shorter);
        assert((s + line).last() == line[line.len() - 1]);
        let before = pieces(s, separators);
        let grown = before.drop_last().push(before.last() + shorter);
        assert(grown.drop_last() =~= before.drop_last());
        assert((before.last() + shorter).push(line.last()) =~= before.last() + line);
    }
}

/// A further line is a further piece.
proof fn lemma_another_piece(query: Seq<char>, line: Seq<char>)
    requires
        !line.contains('\n'),
    ensures
        pieces(query + seq!['\n'] + line, seq!['\n']) == pieces(query, seq!['\n']).push(line),
{
    let separators = seq!['\n'];
    let ended = query.push('\n');
    assert forall|i: int| 0 <= i < line.len() implies !separators.contains(#[trigger] line[i]) by {
        if separators.contains(line[i]) {
            assert(line[i] == '\n');
        }
    }
    lemma_last_piece_grows(ended, separators, line);
    assert(query + seq!['\n'] + line =~= ended + line);
    assert(ended.drop_last() =~= query);
    assert(separators[0] == '\n');
    assert(separators.contains('\n'));
    let before = pieces(query, separators);
    assert(pieces(ended, separators) == before.push(Seq::<char>::empty()));
    assert(before.push(Seq::<char>::empty()).drop_last() =~= before);
    assert(Seq::<char>::empty() + line =~= line);
}

/// A query that is made of some lines.
pub open spec fn query_of(lines: Seq<Seq<char>>) -> Seq<char> {
    joined(lines, seq!['\n'])
}

/// Whether some texts can be the lines of a query: there is one at least, and
/// none is broken.
pub open spec fn are_lines(lines: Seq<Seq<char>>) -> bool {
    &&& lines.len() > 0
    &&& forall|i: int| 0 <= i < lines.len() ==> !(#[trigger] lines[i]).contains('\n')
}

/// The lines that are not blank, trimmed.
pub open spec fn filled_lines(lines: Seq<Seq<char>>) -> Seq<Seq<char>> {
    lines.map_values(|l: Seq<char>| trimmed(l)).filter(|l: Seq<char>| l.len() > 0)
}

/// Every query is made of the lines between its line feeds.
pub proof fn every_query_has_lines(query: Seq<char>)
    ensures
        are_lines(pieces(query, seq!['\n'])),
        query_of(pieces(query, seq!['\n'])) == query,
    decreases query.len(),
{
    let separators = seq!['\n'];
    let lines = pieces(query, separators);
    if query.len() == 0 {
        assert(lines[0] =~= query);
    } else {
        let c = query.last();
        let before = pieces(query.drop_last(), separators);
        every_query_has_lines(query.drop_last());
        assert(query =~= query.drop_last().push(c));
        if separators.contains(c) {
            assert(c == '\n');
            assert(lines.drop_last() =~= before);
            assert(query_of(lines) =~= query);
            assert forall|i: int| 0 <= i < lines.len() implies !(#[trigger] lines[i]).contains(
                '\n',
            ) by {
                if i < before.len() {
                    assert(lines[i] == before[i]);
                }
            }
        } else {
            assert(separators[0] == '\n');
            assert(c != '\n');
            assert(lines.drop_last() =~= before.drop_last());
            assert(query_of(lines) =~= query_of(before).push(c));
            assert forall|i: int| 0 <= i < lines.len() implies !(#[trigger] lines[i]).contains(
                '\n',
            ) by {
                if i < before.len() - 1 {
                    assert(lines[i] == before[i]);
                } else {
                    assert(!before[i].contains('\n'));
                    assert forall|k: int| 0 <= k < lines[i].len() implies lines[i][k] != '\n' by {
                        if k < before[i].len() {
                            assert(before[i][k] == lines[i][k]);
                        }
                    }
                }
            }
        }
    }
}

/// The pieces of a query that is made of some lines are these lines.
proof fn lemma_pieces_are_lines(lines: Seq<Seq<char>>)
    requires
        are_lines(lines),
    ensures
        pieces(query_of(lines), seq!['\n']) == lines,
    decreases lines.len(),
{
    let none = Seq::<char>::empty();
    if lines.len() == 1 {
        let line = lines[0];
        let separators = seq!['\n'];
        assert forall|i: int| 0 <= i < line.len() implies !separators.contains(
            #[trigger] line[i],
        ) by {
            if separators.contains(line[i]) {
                assert(line[i] == '\n');
            }
        }
        lemma_last_piece_grows(none, separators, line);
        assert(none + line =~= line);
        assert(pieces(line, separators) =~= lines);
    } else {
        let shorter = lines.drop_last();
        assert forall|i: int| 0 <= i < shorter.len() implies !(#[trigger] shorter[i]).contains(
            '\n',
        ) by {
            assert(shorter[i] == lines[i]);
        }
        lemma_pieces_are_lines(shorter);
        assert(!lines[lines.len() - 1].contains('\n'));
        lemma_another_piece(query_of(shorter), lines.last());
        assert(shorter.push(lines.last()) =~= lines);
    }
}

/// The terms of a query go by its lines: they are what is left of them once
/// they are trimmed and blank lines and repeats are left out.
pub proof fn terms_go_by_lines(lines: Seq<Seq<char>>)
    requires
        are_lines(lines),
    ensures
        query_lines(query_of(lines)) == filled_lines(lines),
        query_terms(query_of(lines)) == distinct(filled_lines(lines)),
{
    lemma_pieces_are_lines(lines);
}

/// Filled lines come from the parts of a query in order.
proof fn lemma_filled_lines_add(a: Seq<Seq<char>>, b: Seq<Seq<char>>)
    ensures
        filled_lines(a + b) == filled_lines(a) + filled_lines(b),
{
    let trim = |l: Seq<char>| trimmed(l);
    let full = |l: Seq<char>| l.len() > 0;
    assert((a + b).map_values(trim) =~= a.map_values(trim) + b.map_values(trim));
    Seq::filter_distributes_over_add(a.map_values(trim), b.map_values(trim), full);
}

/// What one line gives.
proof fn lemma_one_filled_line(line: Seq<char>)
    ensures
        filled_lines(seq![line]) == (if trimmed(line).len() > 0 {
            seq![trimmed(line)]
        } else {
            Seq::<Seq<char>>::empty()
        }),
{
    let cut = seq![line].map_values(|l: Seq<char>| trimmed(l));
    reveal(Seq::filter);
    assert(cut.drop_last() =~= Seq::<Seq<char>>::empty());
    assert(cut.drop_last().filter(|l: Seq<char>| l.len() > 0) =~= Seq::<Seq<char>>::empty());
    assert(cut.last() == trimmed(line));
    if trimmed(line).len() > 0 {
        assert(filled_lines(seq![line]) =~= seq![trimmed(line)]);
    }
}

/// What was there before is not added again.
proof fn lemma_repeat_left_out(a: Seq<Seq<char>>, t: Seq<char>, b: Seq<Seq<char>>)
    requires
        a.contains(t),
    ensures
        distinct(a + seq![t] + b) == distinct(a + b),
    decreases b.len(),
{
    if b.len() == 0 {
        lemma_distinct_from(a);
        assert(distinct(a).contains(t));
        assert((a + seq![t] + b).drop_last() =~= a);
        assert((a + seq![t] + b).last() == t);
        assert(a + b =~= a);
    } else {
        lemma_repeat_left_out(a, t, b.drop_last());
        assert((a + seq![t] + b).drop_last() =~= a + seq![t] + b.drop_last());
        assert((a + b).drop_last() =~= a + b.drop_last());
        assert((a + seq![t] + b).last() == b.last());
        assert((a + b).last() == b.last());
    }
}

/// A line anywhere in a query that is blank, or that repeats a line before it
/// but for white space around it, does not change the terms.
pub proof fn blank_and_repeated_lines_do_not_matter(
    before: Seq<Seq<char>>,
    line: Seq<char>,
    after: Seq<Seq<char>>,
)
    requires
        are_lines(before + seq![line] + after),
        trimmed(line).len() == 0 || exists|j: int|
            0 <= j < before.len() && trimmed(#[trigger] before[j]) == trimmed(line),
    ensures
        query_terms(query_of(before + seq![line] + after)) == query_terms(query_of(before + after)),
{
    let whole = before + seq![line] + after;
    let rest = before + after;
    assert forall|i: int| 0 <= i < rest.len() implies !(#[trigger] rest[i]).contains('\n') by {
        if i < before.len() {
            assert(rest[i] == whole[i]);
        } else {
            assert(rest[i] == whole[i + 1]);
        }
    }
    terms_go_by_lines(whole);
    if rest.len() > 0 {
        terms_go_by_lines(rest);
    } else {
        let none = Seq::<char>::empty();
        assert(query_of(rest) =~= query_of(seq![none]));
        assert(are_lines(seq![none]));
        terms_go_by_lines(seq![none]);
        lemma_one_filled_line(none);
        assert(rest.map_values(|l: Seq<char>| trimmed(l)) =~= Seq::<Seq<char>>::empty());
        reveal(Seq::filter);
        assert(filled_lines(rest) =~= Seq::<Seq<char>>::empty());
    }
    lemma_filled_lines_add(before + seq![line], after);
    lemma_filled_lines_add(before, seq![line]);
    lemma_filled_lines_add(before, after);
    lemma_one_filled_line(line);
    let a = filled_lines(before);
    let b = filled_lines(after);
    if trimmed(line).len() == 0 {
        assert(a + Seq::<Seq<char>>::empty() =~= a);
    } else {
        let j = choose|j: int|
            0 <= j < before.len() && trimmed(#[trigger] before[j]) == trimmed(line);
        let cut = before.map_values(|l: Seq<char>| trimmed(l));
        assert(cut[j] == trimmed(line));
        cut.lemma_filter_contains(|l: Seq<char>| l.len() > 0, j);
        assert(a.contains(trimmed(line)));
        lemma_repeat_left_out(a, trimmed(line), b);
    }
}

/// White space around a line anywhere in a query does not change the terms:
/// spaces, tabs, or the carriage return of a line break of two characters.
pub proof fn white_space_around_a_line_does_not_matter(
    before: Seq<Seq<char>>,
    front: Seq<char>,
    line: Seq<char>,
    back: Seq<char>,
    after: Seq<Seq<char>>,
)
    requires
        are_lines(before + seq![front + line + back] + after),
        all_white(front),
        all_white(back),
    ensures
        query_terms(query_of(before + seq![front + line + back] + after)) == query_terms(
            query_of(before + seq![line] + after),
        ),
{
    let wide = before + seq![front + line + back] + after;
    let plain = before + seq![line] + after;
    assert forall|i: int| 0 <= i < plain.len() implies !(#[trigger] plain[i]).contains('\n') by {
        if i == before.len() {
            assert(!wide[i].contains('\n'));
            assert forall|k: int| 0 <= k < line.len() implies line[k] != '\n' by {
                assert(wide[i][front.len() + k] == line[k]);
            }
        } else {
            assert(plain[i] == wide[i]);
        }
    }
    terms_go_by_lines(wide);
    terms_go_by_lines(plain);
    white_space_is_trimmed(front, line, back);
    assert(wide.map_values(|l: Seq<char>| trimmed(l)) =~= plain.map_values(
        |l: Seq<char>| trimmed(l),
    ));
}

/// A further line adds its term to those of a query, unless it is blank or
/// the term is there already.
pub proof fn another_line_adds_its_term(query: Seq<char>, line: Seq<char>)
    requires
        !line.contains('\n'),
    ensures
        query_terms(query + seq!['\n'] + line) == (if trimmed(line).len() == 0 || query_terms(
            query,
        ).contains(trimmed(line)) {
            query_terms(query)
        } else {
            query_terms(query).push(trimmed(line))
        }),
{
    let before = pieces(query, seq!['\n']);
    lemma_another_piece(query, line);
    assert(before.push(line) =~= before + seq![line]);
    lemma_filled_lines_add(before, seq![line]);
    lemma_one_filled_line(line);
    let a = filled_lines(before);
    if trimmed(line).len() == 0 {
        assert(a + Seq::<Seq<char>>::empty() =~= a);
    } else {
        assert((a + seq![trimmed(line)]).drop_last() =~= a);
    }
}

/// Whether a text is nothing but white space.
pub open spec fn all_white(s: Seq<char>) -> bool {
    forall|i: int| 0 <= i < s.len() ==> white_space(#[trigger] s[i])
}

proof fn lemma_trim_start_before(s: Seq<char>, c: char)
    requires
        white_space(c),
    ensures
        trim_start(s).len() > 0 ==> trim_start(s.push(c)) == trim_start(s).push(c),
        trim_start(s).len() == 0 ==> trim_start(s.push(c)).len() == 0,
    decreases s.len(),
{
    if s.len() == 0 {
        assert(s.push(c).skip(1) =~= Seq::<char>::empty());
        assert(trim_start(Seq::<char>::empty()).len() == 0);
    } else if white_space(s[0]) {
        assert(s.push(c).skip(1) =~= s.skip(1).push(c));
        lemma_trim_start_before(s.skip(1), c);
    }
}

proof fn lemma_trimmed_before(s: Seq<char>, c: char)
    requires
        white_space(c),
    ensures
        trimmed(s.push(c)) == trimmed(s),
{
    lemma_trim_start_before(s, c);
    let kept = trim_start(s);
    if kept.len() > 0 {
        assert(kept.push(c).drop_last() =~= kept);
    } else {
        assert(trim_start(s.push(c)) =~= kept);
    }
}

/// White space around a text is trimmed.
pub proof fn white_space_is_trimmed(front: Seq<char>, text: Seq<char>, back: Seq<char>)
    requires
        all_white(front),
        all_white(back),
    ensures
        trimmed(front + text + back) == trimmed(text),
    decreases front.len() + back.len(),
{
    let whole = front + text + back;
    if back.len() > 0 {
        let shorter = back.drop_last();
        assert forall|i: int| 0 <= i < shorter.len() implies white_space(#[trigger] shorter[i]) by {
            assert(shorter[i] == back[i]);
        }
        assert(white_space(back[back.len() - 1]));
        white_space_is_trimmed(front, text, shorter);
        lemma_trimmed_before(front + text + shorter, back.last());
        assert((front + text + shorter).push(back.last()) =~= whole);
    } else if front.len() > 0 {
        let shorter = front.skip(1);
        assert forall|i: int| 0 <= i < shorter.len() implies white_space(#[trigger] shorter[i]) by {
            assert(shorter[i] == front[i + 1]);
        }
        white_space_is_trimmed(shorter, text, back);
        assert(white_space(front[0]));
        assert(whole[0] == front[0]);
        assert(whole.skip(1) =~= shorter + text + back);
    } else {
        assert(whole =~= text);
    }
}

} // verus!
