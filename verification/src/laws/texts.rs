//! Promises of the string handling.

use crate::terms::lemma_distinct_from;
use crate::text::{
    decimal, decimal_text, distinct, join, joined, pieces, replace, replaced, split_trimmed, texts,
    trim_end, trim_range, trim_start, trimmed, trimmed_pieces, white_space, without_repeats,
};
use vstd::prelude::*;

verus! {

/// A text without separators is one piece.
pub proof fn a_text_without_separators_is_one_piece(s: Seq<char>, separators: Seq<char>)
    requires
        forall|i: int| 0 <= i < s.len() ==> !separators.contains(#[trigger] s[i]),
    ensures
        pieces(s, separators) == seq![s],
    decreases s.len(),
{
    if s.len() > 0 {
        let shorter = s.drop_last();
        assert forall|i: int| 0 <= i < shorter.len() implies !separators.contains(
            #[trigger] shorter[i],
        ) by {
            assert(shorter[i] == s[i]);
        }
        a_text_without_separators_is_one_piece(shorter, separators);
        assert(!separators.contains(s[s.len() - 1]));
        assert(shorter.push(s.last()) =~= s);
        assert(pieces(s, separators) =~= seq![s]);
    } else {
        assert(s =~= Seq::<char>::empty());
    }
}

/// A separator parts a text: its pieces are those before it and those behind.
pub proof fn a_separator_parts_a_text(
    a: Seq<char>,
    separator: char,
    b: Seq<char>,
    separators: Seq<char>,
)
    requires
        separators.contains(separator),
    ensures
        pieces(a + seq![separator] + b, separators) == pieces(a, separators) + pieces(
            b,
            separators,
        ),
        pieces(b, separators).len() > 0,
    decreases b.len(),
{
    let whole = a + seq![separator] + b;
    let before = pieces(a, separators);
    if b.len() == 0 {
        assert(whole.drop_last() =~= a);
        assert(whole.last() == separator);
        assert(before.push(Seq::<char>::empty()) =~= before + seq![Seq::<char>::empty()]);
        assert(pieces(b, separators) == seq![Seq::<char>::empty()]);
    } else {
        let shorter = b.drop_last();
        a_separator_parts_a_text(a, separator, shorter, separators);
        assert(whole.drop_last() =~= a + seq![separator] + shorter);
        assert(whole.last() == b.last());
        let behind = pieces(shorter, separators);
        assert((before + behind).drop_last() =~= before + behind.drop_last());
        assert((before + behind).last() == behind.last());
        assert(pieces(whole, separators) =~= before + pieces(b, separators));
    }
}

/// Trimming takes white space off both ends, all of it and nothing else.
pub proof fn trimming_takes_white_space_off(s: Seq<char>) -> (r: (int, int))
    ensures
        0 <= r.0 <= r.1 <= s.len(),
        trimmed(s) == s.subrange(r.0, r.1),
        forall|k: int| 0 <= k < r.0 ==> white_space(#[trigger] s[k]),
        forall|k: int| r.1 <= k < s.len() ==> white_space(#[trigger] s[k]),
        r.0 < r.1 ==> !white_space(s[r.0]) && !white_space(s[r.1 - 1]),
{
    let i = lemma_trim_start(s);
    let rest = s.skip(i);
    let n = lemma_trim_end(rest);
    assert(rest.take(n) =~= s.subrange(i, i + n));
    assert forall|k: int| i + n <= k < s.len() implies white_space(#[trigger] s[k]) by {
        assert(rest[k - i] == s[k]);
    }
    if n > 0 {
        assert(rest[0] == s[i]);
        assert(rest[n - 1] == s[i + n - 1]);
    }
    (i, i + n)
}

proof fn lemma_trim_start(s: Seq<char>) -> (i: int)
    ensures
        0 <= i <= s.len(),
        trim_start(s) == s.skip(i),
        forall|k: int| 0 <= k < i ==> white_space(#[trigger] s[k]),
        i < s.len() ==> !white_space(s[i]),
    decreases s.len(),
{
    if s.len() > 0 && white_space(s[0]) {
        let rest = s.skip(1);
        let i = lemma_trim_start(rest);
        assert(rest.skip(i) =~= s.skip(i + 1));
        assert forall|k: int| 0 <= k < i + 1 implies white_space(#[trigger] s[k]) by {
            if k > 0 {
                assert(rest[k - 1] == s[k]);
            }
        }
        if i + 1 < s.len() {
            assert(rest[i] == s[i + 1]);
        }
        i + 1
    } else {
        assert(s.skip(0) =~= s);
        0
    }
}

proof fn lemma_trim_end(s: Seq<char>) -> (n: int)
    ensures
        0 <= n <= s.len(),
        trim_end(s) == s.take(n),
        forall|k: int| n <= k < s.len() ==> white_space(#[trigger] s[k]),
        n > 0 ==> !white_space(s[n - 1]),
    decreases s.len(),
{
    if s.len() > 0 && white_space(s.last()) {
        let rest = s.drop_last();
        let n = lemma_trim_end(rest);
        assert(rest.take(n) =~= s.take(n));
        assert forall|k: int| n <= k < s.len() implies white_space(#[trigger] s[k]) by {
            if k < s.len() - 1 {
                assert(rest[k] == s[k]);
            }
        }
        if n > 0 {
            assert(rest[n - 1] == s[n - 1]);
        }
        n
    } else {
        assert(s.take(s.len() as int) =~= s);
        s.len() as int
    }
}

/// The trimmed pieces of a text without separators: the trimmed text, unless
/// it is blank.
pub proof fn one_piece_is_the_trimmed_text(s: Seq<char>, separators: Seq<char>)
    requires
        forall|i: int| 0 <= i < s.len() ==> !separators.contains(#[trigger] s[i]),
    ensures
        trimmed_pieces(s, separators) == (if trimmed(s).len() == 0 {
            Seq::<Seq<char>>::empty()
        } else {
            seq![trimmed(s)]
        }),
{
    a_text_without_separators_is_one_piece(s, separators);
    let cut = seq![s].map_values(|p: Seq<char>| trimmed(p));
    reveal(Seq::filter);
    assert(cut.drop_last() =~= Seq::<Seq<char>>::empty());
    assert(cut.drop_last().filter(|p: Seq<char>| p.len() > 0) =~= Seq::<Seq<char>>::empty());
    assert(cut.last() == trimmed(s));
    if trimmed(s).len() > 0 {
        assert(trimmed_pieces(s, separators) =~= seq![trimmed(s)]);
    }
}

/// The trimmed pieces of a text that is parted are those before the separator
/// and those behind.
pub proof fn trimmed_pieces_go_part_by_part(
    a: Seq<char>,
    separator: char,
    b: Seq<char>,
    separators: Seq<char>,
)
    requires
        separators.contains(separator),
    ensures
        trimmed_pieces(a + seq![separator] + b, separators) == trimmed_pieces(a, separators)
            + trimmed_pieces(b, separators),
{
    a_separator_parts_a_text(a, separator, b, separators);
    let trim = |p: Seq<char>| trimmed(p);
    let full = |p: Seq<char>| p.len() > 0;
    let x = pieces(a, separators);
    let y = pieces(b, separators);
    assert((x + y).map_values(trim) =~= x.map_values(trim) + y.map_values(trim));
    Seq::filter_distributes_over_add(x.map_values(trim), y.map_values(trim), full);
}

/// Splitting a text that is parted gives what splitting the parts gives.
pub proof fn splitting_goes_part_by_part(
    whole: &str,
    a: &str,
    separator: char,
    b: &str,
    separators: &[char],
    of_whole: Vec<String>,
    of_a: Vec<String>,
    of_b: Vec<String>,
)
    requires
        separators@.contains(separator),
        whole@ == a@ + seq![separator] + b@,
        call_ensures(split_trimmed, (whole, separators), of_whole),
        call_ensures(split_trimmed, (a, separators), of_a),
        call_ensures(split_trimmed, (b, separators), of_b),
    ensures
        texts(of_whole@) == texts(of_a@) + texts(of_b@),
{
    trimmed_pieces_go_part_by_part(a@, separator, b@, separators@);
}

/// Splitting a text without separators gives the text without the white space
/// around it, or nothing where it is blank.
pub proof fn splitting_one_piece_trims_it(
    text: &str,
    separators: &[char],
    parts: Vec<String>,
) -> (r: (int, int))
    requires
        forall|i: int| 0 <= i < text@.len() ==> !separators@.contains(#[trigger] text@[i]),
        call_ensures(split_trimmed, (text, separators), parts),
    ensures
        0 <= r.0 <= r.1 <= text@.len(),
        forall|k: int| 0 <= k < r.0 ==> white_space(#[trigger] text@[k]),
        forall|k: int| r.1 <= k < text@.len() ==> white_space(#[trigger] text@[k]),
        r.0 < r.1 ==> !white_space(text@[r.0]) && !white_space(text@[r.1 - 1]),
        texts(parts@) == (if r.0 == r.1 {
            Seq::<Seq<char>>::empty()
        } else {
            seq![text@.subrange(r.0, r.1)]
        }),
{
    one_piece_is_the_trimmed_text(text@, separators@);
    trimming_takes_white_space_off(text@)
}

/// Trimming a range takes white space off both ends, all of it and nothing
/// else.
pub proof fn a_trimmed_range_is_what_is_left(
    v: Vec<char>,
    from: usize,
    to: usize,
    s: String,
) -> (r: (int, int))
    requires
        from <= to <= v@.len(),
        call_ensures(trim_range, (&v, from, to), s),
    ensures
        from <= r.0 <= r.1 <= to,
        s@ == v@.subrange(r.0, r.1),
        forall|k: int| from <= k < r.0 ==> white_space(#[trigger] v@[k]),
        forall|k: int| r.1 <= k < to ==> white_space(#[trigger] v@[k]),
        r.0 < r.1 ==> !white_space(v@[r.0]) && !white_space(v@[r.1 - 1]),
{
    let text = v@.subrange(from as int, to as int);
    let (i, j) = trimming_takes_white_space_off(text);
    assert(text.subrange(i, j) =~= v@.subrange(from + i, from + j));
    assert forall|k: int| from <= k < from + i implies white_space(#[trigger] v@[k]) by {
        assert(text[k - from] == v@[k]);
    }
    assert forall|k: int| from + j <= k < to implies white_space(#[trigger] v@[k]) by {
        assert(text[k - from] == v@[k]);
    }
    if i < j {
        assert(text[i] == v@[from + i]);
        assert(text[j - 1] == v@[from + j - 1]);
    }
    (from + i, from + j)
}

/// What is left without repeats grows at its end only.
proof fn lemma_distinct_grows(a: Seq<Seq<char>>, b: Seq<Seq<char>>)
    ensures
        distinct(a).is_prefix_of(distinct(a + b)),
    decreases b.len(),
{
    if b.len() == 0 {
        assert(a + b =~= a);
        assert(distinct(a) =~= distinct(a).subrange(0, distinct(a).len() as int));
    } else {
        lemma_distinct_grows(a, b.drop_last());
        assert((a + b).drop_last() =~= a + b.drop_last());
        let shorter = distinct(a + b.drop_last());
        assert(distinct(a + b).subrange(0, shorter.len() as int) =~= shorter);
        assert(distinct(a) =~= distinct(a + b).subrange(0, distinct(a).len() as int)) by {
            assert(distinct(a) =~= shorter.subrange(0, distinct(a).len() as int));
        }
    }
}

/// Leaving out repeats keeps every text once, and what comes first stays
/// first: for a longer list there is nothing new before what was there.
pub proof fn repeats_are_left_out(
    list: Vec<String>,
    longer: Vec<String>,
    kept: Vec<String>,
    kept_longer: Vec<String>,
)
    requires
        call_ensures(without_repeats, (&list,), kept),
        call_ensures(without_repeats, (&longer,), kept_longer),
        texts(list@).is_prefix_of(texts(longer@)),
    ensures
        texts(kept@).no_duplicates(),
        forall|t: Seq<char>| texts(kept@).contains(t) <==> texts(list@).contains(t),
        texts(kept@).is_prefix_of(texts(kept_longer@)),
{
    lemma_distinct_from(texts(list@));
    let rest = texts(longer@).skip(list@.len() as int);
    assert(texts(longer@) =~= texts(list@) + rest);
    lemma_distinct_grows(texts(list@), rest);
}

/// Joining goes part by part: one part stands as it is, and between two lists
/// of parts stands the separator.
pub proof fn joining_goes_part_by_part(a: Seq<Seq<char>>, b: Seq<Seq<char>>, separator: Seq<char>)
    ensures
        joined(Seq::<Seq<char>>::empty(), separator) == Seq::<char>::empty(),
        a.len() == 1 ==> joined(a, separator) == a[0],
        a.len() > 0 && b.len() > 0 ==> joined(a + b, separator) == joined(a, separator) + separator
            + joined(b, separator),
    decreases b.len(),
{
    if a.len() > 0 && b.len() > 0 {
        let shorter = b.drop_last();
        assert((a + b).drop_last() =~= a + shorter);
        assert((a + b).last() == b.last());
        if b.len() == 1 {
            assert(a + shorter =~= a);
        } else {
            joining_goes_part_by_part(a, shorter, separator);
            assert(joined(a, separator) + separator + joined(b, separator) =~= joined(a, separator)
                + separator + joined(shorter, separator) + separator + b.last());
        }
    }
}

/// Joining two lists of parts gives what joining each gives, with the
/// separator between.
pub proof fn joined_lists_have_a_separator_between(
    a: Vec<String>,
    b: Vec<String>,
    whole: Vec<String>,
    separator: &str,
    of_a: String,
    of_b: String,
    of_whole: String,
)
    requires
        a@.len() > 0,
        b@.len() > 0,
        whole@ == a@ + b@,
        call_ensures(join, (&a, separator), of_a),
        call_ensures(join, (&b, separator), of_b),
        call_ensures(join, (&whole, separator), of_whole),
    ensures
        of_whole@ == of_a@ + separator@ + of_b@,
        a@.len() == 1 ==> of_a@ == a@[0]@,
{
    assert(texts(whole@) =~= texts(a@) + texts(b@));
    joining_goes_part_by_part(texts(a@), texts(b@), separator@);
}

/// Whether a text stands somewhere in another at `at`.
pub open spec fn text_at(s: Seq<char>, part: Seq<char>, at: int) -> bool {
    0 <= at && at + part.len() <= s.len() && s.subrange(at, at + part.len()) == part
}

/// Replacing leaves a text in which there is nothing to replace as it is.
pub proof fn nothing_to_replace_changes_nothing(s: Seq<char>, from: Seq<char>, to: Seq<char>)
    requires
        from.len() > 0,
        forall|k: int| !text_at(s, from, k),
    ensures
        replaced(s, from, to) == s,
    decreases s.len(),
{
    let n = from.len() as int;
    if s.len() >= n {
        assert(!text_at(s, from, 0));
        assert(s.take(n) =~= s.subrange(0, n));
        let rest = s.skip(1);
        assert forall|k: int| !text_at(rest, from, k) by {
            if text_at(rest, from, k) {
                assert(s.subrange(k + 1, k + 1 + n) =~= rest.subrange(k, k + n));
                assert(text_at(s, from, k + 1));
            }
        }
        nothing_to_replace_changes_nothing(rest, from, to);
        assert(seq![s[0]] + rest =~= s);
    }
}

/// What stands first is replaced, and replacing goes on behind it.
pub proof fn what_stands_first_is_replaced(
    front: Seq<char>,
    from: Seq<char>,
    to: Seq<char>,
    rest: Seq<char>,
)
    requires
        from.len() > 0,
        forall|k: int| 0 <= k < front.len() ==> !text_at(front + from + rest, from, k),
    ensures
        replaced(front + from + rest, from, to) == front + to + replaced(rest, from, to),
    decreases front.len(),
{
    let n = from.len() as int;
    let whole = front + from + rest;
    let done = replaced(rest, from, to);
    if front.len() == 0 {
        assert(whole.take(n) =~= from);
        assert(whole.skip(n) =~= rest);
        assert(front + to + done =~= to + done);
    } else {
        let shorter = front.skip(1);
        let later = shorter + from + rest;
        assert(whole.skip(1) =~= later);
        assert forall|k: int| 0 <= k < shorter.len() implies !text_at(later, from, k) by {
            if text_at(later, from, k) {
                assert(whole.subrange(k + 1, k + 1 + n) =~= later.subrange(k, k + n));
                assert(text_at(whole, from, k + 1));
            }
        }
        what_stands_first_is_replaced(shorter, from, to, rest);
        assert(!text_at(whole, from, 0));
        assert(whole.take(n) =~= whole.subrange(0, n));
        assert(whole[0] == front[0]);
        assert(seq![front[0]] + (shorter + to + done) =~= front + to + done);
    }
}

/// Replacing in a text: what stands first is replaced, and the rest is
/// replaced as if it stood alone; where there is nothing to replace in it, it
/// stays.
pub proof fn replacing_takes_what_stands_first(
    whole: &str,
    front: Seq<char>,
    from: &str,
    to: &str,
    rest: &str,
    of_whole: String,
    of_rest: String,
)
    requires
        from@.len() > 0,
        whole@ == front + from@ + rest@,
        forall|k: int| 0 <= k < front.len() ==> !text_at(whole@, from@, k),
        call_ensures(replace, (whole, from, to), of_whole),
        call_ensures(replace, (rest, from, to), of_rest),
    ensures
        of_whole@ == front + to@ + of_rest@,
        (forall|k: int| !text_at(rest@, from@, k)) ==> of_rest@ == rest@,
{
    if forall|k: int| !text_at(rest@, from@, k) {
        nothing_to_replace_changes_nothing(rest@, from@, to@);
    }
    what_stands_first_is_replaced(front, from@, to@, rest@);
}

/// The number that a text of digits stands for.
pub open spec fn number_read(s: Seq<char>) -> int
    decreases s.len(),
{
    if s.len() == 0 {
        0
    } else {
        number_read(s.drop_last()) * 10 + (s.last() as int - '0' as int)
    }
}

proof fn lemma_decimal_read(n: nat)
    ensures
        number_read(decimal(n)) == n,
        decimal(n).len() > 0,
        forall|i: int| 0 <= i < decimal(n).len() ==> '0' <= #[trigger] decimal(n)[i] <= '9',
        decimal(n).len() > 1 ==> decimal(n)[0] != '0',
    decreases n,
{
    if n >= 10 {
        lemma_decimal_read(n / 10);
        assert(decimal(n).drop_last() =~= decimal(n / 10));
        assert(n / 10 > 0);
        if decimal(n / 10).len() == 1 {
            assert(decimal(n / 10)[0] != '0') by {
                assert(decimal(n / 10).drop_last().len() == 0);
                assert(number_read(decimal(n / 10).drop_last()) == 0);
            }
        }
    } else {
        assert(decimal(n).drop_last().len() == 0);
        assert(number_read(decimal(n).drop_last()) == 0);
    }
}

/// A number is written in digits that are read back as the number, without
/// zeros in front.
pub proof fn numbers_are_read_back(n: u128, s: String)
    requires
        call_ensures(decimal_text, (n,), s),
    ensures
        number_read(s@) == n,
        forall|i: int| 0 <= i < s@.len() ==> '0' <= #[trigger] s@[i] <= '9',
        s@.len() > 1 ==> s@[0] != '0',
{
    lemma_decimal_read(n as nat);
}

} // verus!
