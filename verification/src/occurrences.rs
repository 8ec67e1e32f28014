//! Where a byte string occurs in another: the meaning of a literal search.

use vstd::prelude::*;

verus! {

/// A byte with ASCII capitals made small.
pub open spec fn ascii_lower(b: u8) -> u8 {
    if 65 <= b <= 90 {
        (b + 32) as u8
    } else {
        b
    }
}

/// Whether two bytes count as the same, ASCII case ignored when `fold` is set.
pub open spec fn same_byte(a: u8, b: u8, fold: bool) -> bool {
    if fold {
        ascii_lower(a) == ascii_lower(b)
    } else {
        a == b
    }
}

/// Whether `needle` stands in `haystack` at position `at`.
pub open spec fn occurs_at(haystack: Seq<u8>, needle: Seq<u8>, fold: bool, at: int) -> bool {
    &&& 0 <= at
    &&& at + needle.len() <= haystack.len()
    &&& forall|j: int|
        0 <= j < needle.len() ==> same_byte(haystack[at + j], #[trigger] needle[j], fold)
}

/// Whether `needle` stands anywhere in `haystack`.
pub open spec fn occurs(haystack: Seq<u8>, needle: Seq<u8>, fold: bool) -> bool {
    exists|at: int| occurs_at(haystack, needle, fold, at)
}

/// Whether `at` is the leftmost occurrence that starts at `from` or later.
pub open spec fn is_next_occurrence(
    haystack: Seq<u8>,
    needle: Seq<u8>,
    fold: bool,
    from: int,
    at: int,
) -> bool {
    &&& from <= at
    &&& occurs_at(haystack, needle, fold, at)
    &&& forall|k: int| from <= k < at ==> !occurs_at(haystack, needle, fold, k)
}

/// The leftmost occurrence that starts at `from` or later, if there is one.
pub open spec fn next_occurrence(
    haystack: Seq<u8>,
    needle: Seq<u8>,
    fold: bool,
    from: int,
) -> Option<int> {
    if exists|at: int| is_next_occurrence(haystack, needle, fold, from, at) {
        Some(choose|at: int| is_next_occurrence(haystack, needle, fold, from, at))
    } else {
        None
    }
}

/// How far a search moves past an occurrence: its length, or one byte for the
/// empty needle.
pub open spec fn stride(needle: Seq<u8>) -> int {
    if needle.len() == 0 {
        1
    } else {
        needle.len() as int
    }
}

/// The occurrences found from left to right without overlap, from `from` on.
pub open spec fn occurrences(haystack: Seq<u8>, needle: Seq<u8>, fold: bool, from: int) -> Seq<int>
    decreases haystack.len() + 1 - from,
{
    match next_occurrence(haystack, needle, fold, from) {
        Some(at) => seq![at] + occurrences(haystack, needle, fold, at + stride(needle)),
        None => Seq::empty(),
    }
}

/// How often a literal needle is counted. A needle that is compared without
/// regard to case has to hold at least one byte to be found at all.
pub open spec fn literal_count(haystack: Seq<u8>, needle: Seq<u8>, case_sensitive: bool) -> nat {
    if !case_sensitive && needle.len() == 0 {
        0
    } else {
        occurrences(haystack, needle, !case_sensitive, 0).len()
    }
}

/// If there is an occurrence at `at`, the leftmost one from `from` on exists.
pub proof fn lemma_next_exists(
    haystack: Seq<u8>,
    needle: Seq<u8>,
    fold: bool,
    from: int,
    at: int,
)
    requires
        from <= at,
        occurs_at(haystack, needle, fold, at),
    ensures
        next_occurrence(haystack, needle, fold, from) is Some,
    decreases at - from,
{
    if exists|k: int| from <= k < at && occurs_at(haystack, needle, fold, k) {
        let k = choose|k: int| from <= k < at && occurs_at(haystack, needle, fold, k);
        lemma_next_exists(haystack, needle, fold, from, k);
    } else {
        assert(is_next_occurrence(haystack, needle, fold, from, at));
    }
}

/// The leftmost occurrence is unique.
pub proof fn lemma_next_is(haystack: Seq<u8>, needle: Seq<u8>, fold: bool, from: int, at: int)
    requires
        is_next_occurrence(haystack, needle, fold, from, at),
    ensures
        next_occurrence(haystack, needle, fold, from) == Some(at),
{
}

/// Positions that hold no occurrence can be passed over.
pub proof fn lemma_skip(haystack: Seq<u8>, needle: Seq<u8>, fold: bool, from: int, to: int)
    requires
        from <= to,
        forall|k: int| from <= k < to ==> !occurs_at(haystack, needle, fold, k),
    ensures
        next_occurrence(haystack, needle, fold, from) == next_occurrence(
            haystack,
            needle,
            fold,
            to,
        ),
        occurrences(haystack, needle, fold, from) == occurrences(haystack, needle, fold, to),
{
    match next_occurrence(haystack, needle, fold, to) {
        Some(at) => {
            assert(is_next_occurrence(haystack, needle, fold, from, at));
            lemma_next_is(haystack, needle, fold, from, at);
        },
        None => {
            if next_occurrence(haystack, needle, fold, from) is Some {
                let at = next_occurrence(haystack, needle, fold, from)->0;
                lemma_next_exists(haystack, needle, fold, to, at);
            }
        },
    }
}

/// A needle longer than what is left does not occur any more.
pub proof fn lemma_too_long(haystack: Seq<u8>, needle: Seq<u8>, fold: bool, from: int)
    requires
        from + needle.len() > haystack.len(),
    ensures
        occurrences(haystack, needle, fold, from) == Seq::<int>::empty(),
{
    if next_occurrence(haystack, needle, fold, from) is Some {
        let at = next_occurrence(haystack, needle, fold, from)->0;
        assert(occurs_at(haystack, needle, fold, at));
    }
}

/// Occurrences without overlap fit into the haystack.
pub proof fn lemma_occurrences_bounded(
    haystack: Seq<u8>,
    needle: Seq<u8>,
    fold: bool,
    from: int,
)
    requires
        0 <= from <= haystack.len() + 1,
    ensures
        occurrences(haystack, needle, fold, from).len() <= haystack.len() + 1 - from,
        needle.len() > 0 && from <= haystack.len() ==> occurrences(
            haystack,
            needle,
            fold,
            from,
        ).len() <= haystack.len() - from,
    decreases haystack.len() + 1 - from,
{
    match next_occurrence(haystack, needle, fold, from) {
        Some(at) => {
            assert(occurs_at(haystack, needle, fold, at));
            lemma_occurrences_bounded(haystack, needle, fold, at + stride(needle));
        },
        None => {},
    }
}

/// A byte with ASCII capitals made small.
fn to_lower(b: u8) -> (r: u8)
    ensures
        r == ascii_lower(b),
{
    if 65 <= b && b <= 90 {
        b + 32
    } else {
        b
    }
}

/// A byte with small ASCII letters made capital.
fn to_upper(b: u8) -> (r: u8)
    ensures
        r == (if 97 <= b <= 122 {
            (b - 32) as u8
        } else {
            b
        }),
{
    if 97 <= b && b <= 122 {
        b - 32
    } else {
        b
    }
}

/// Whether `needle` stands at `at`, ASCII case ignored.
fn stands_at(haystack: &[u8], needle: &[u8], at: usize) -> (b: bool)
    requires
        at + needle@.len() <= haystack@.len(),
    ensures
        b == occurs_at(haystack@, needle@, true, at as int),
{
    let length: usize = haystack.len();
    let mut i: usize = 0;
    while i < needle.len()
        invariant
            length == haystack@.len(),
            i <= needle@.len(),
            at + needle@.len() <= length,
            forall|j: int|
                0 <= j < i ==> same_byte(haystack@[at + j], #[trigger] needle@[j], true),
        decreases needle@.len() - i,
    {
        if to_lower(haystack[at + i]) != to_lower(needle[i]) {
            assert(!same_byte(haystack@[at + i], needle@[i as int], true));
            return false;
        }
        i = i + 1;
    }
    true
}

/// `memchr::memchr` gives the position of the first byte equal to `needle`,
/// and nothing if no byte is.
pub assume_specification[ memchr::memchr ](needle: u8, haystack: &[u8]) -> (found: Option<usize>)
    ensures
        match found {
            Some(i) => i < haystack@.len() && haystack@[i as int] == needle && forall|k: int|
                0 <= k < i ==> haystack@[k] != needle,
            None => forall|k: int| 0 <= k < haystack@.len() ==> haystack@[k] != needle,
        },
;

/// `memchr::memchr2` gives the position of the first byte equal to one of the
/// two needles, and nothing if no byte is.
pub assume_specification[ memchr::memchr2 ](needle1: u8, needle2: u8, haystack: &[u8]) -> (found:
    Option<usize>)
    ensures
        match found {
            Some(i) => i < haystack@.len() && (haystack@[i as int] == needle1
                || haystack@[i as int] == needle2) && forall|k: int|
                0 <= k < i ==> haystack@[k] != needle1 && haystack@[k] != needle2,
            None => forall|k: int|
                0 <= k < haystack@.len() ==> haystack@[k] != needle1 && haystack@[k] != needle2,
        },
;

/// Counts the occurrences of a needle from left to right without overlap,
/// ASCII case ignored.
pub fn count_ascii_case_insensitive(haystack: &[u8], needle: &[u8]) -> (count: usize)
    ensures
        count == literal_count(haystack@, needle@, false),
{
    if needle.len() == 0 || haystack.len() < needle.len() {
        proof {
            if needle@.len() > 0 {
                lemma_too_long(haystack@, needle@, true, 0);
            }
        }
        return 0;
    }
    let length: usize = haystack.len();
    let lower = to_lower(needle[0]);
    let upper = to_upper(needle[0]);
    let mut offset: usize = 0;
    let mut count: usize = 0;
    let ghost total = occurrences(haystack@, needle@, true, 0).len();
    proof {
        lemma_occurrences_bounded(haystack@, needle@, true, 0);
    }
    while needle.len() <= length - offset
        invariant_except_break
            0 < needle@.len(),
        invariant
            length == haystack@.len(),
            offset <= length,
            total <= length,
            lower == ascii_lower(needle@[0]),
            forall|b: u8| same_byte(b, needle@[0], true) <==> b == lower || b == upper,
            count + occurrences(haystack@, needle@, true, offset as int).len() == total,
        ensures
            count == total,
        decreases length - offset,
    {
        let rest = vstd::slice::slice_subrange(haystack, offset, length);
        let next = if lower == upper {
            memchr::memchr(lower, rest)
        } else {
            memchr::memchr2(lower, upper, rest)
        };
        match next {
            None => {
                proof {
                    assert forall|k: int| offset <= k < length + 1 implies !occurs_at(
                        haystack@,
                        needle@,
                        true,
                        k,
                    ) by {
                        if occurs_at(haystack@, needle@, true, k) {
                            assert(same_byte(haystack@[k + 0], needle@[0], true));
                            assert(rest@[k - offset] == haystack@[k]);
                        }
                    }
                    lemma_skip(haystack@, needle@, true, offset as int, length + 1);
                    lemma_too_long(haystack@, needle@, true, length + 1);
                }
                break;
            },
            Some(relative) => {
                let position: usize = offset + relative;
                proof {
                    assert forall|k: int| offset <= k < position implies !occurs_at(
                        haystack@,
                        needle@,
                        true,
                        k,
                    ) by {
                        if occurs_at(haystack@, needle@, true, k) {
                            assert(same_byte(haystack@[k + 0], needle@[0], true));
                            assert(rest@[k - offset] == haystack@[k]);
                        }
                    }
                    lemma_skip(haystack@, needle@, true, offset as int, position as int);
                }
                if needle.len() <= length - position && stands_at(haystack, needle, position) {
                    proof {
                        assert(is_next_occurrence(
                            haystack@,
                            needle@,
                            true,
                            position as int,
                            position as int,
                        ));
                        lemma_next_is(haystack@, needle@, true, position as int, position as int);
                    }
                    count = count + 1;
                    offset = position + needle.len();
                } else {
                    proof {
                        assert(!occurs_at(haystack@, needle@, true, position as int));
                        lemma_skip(haystack@, needle@, true, position as int, position + 1);
                    }
                    offset = position + 1;
                }
            },
        }
    }
    count
}

} // verus!
