//! Promises of replacing text in files.

use crate::engines::{
    filled, in_order, only_spans_replaced, regex_expansion, regex_setting, spans_of, spliced,
};
use crate::replace::{ReplacePhase, ReplaceRun};
use crate::text::decimal;
use vstd::prelude::*;
use vstd::utf8::encode_utf8;

verus! {

/// What is written is the original with each match in it replaced once. Where an
/// expression is replaced, and the replacement has a dollar sign in it, that is
/// one expansion of the original; whatever the replacement is, what stands
/// outside of the original's matches is kept. Nothing is written exactly if
/// there is no match.
pub proof fn each_match_is_replaced_once(run: ReplaceRun, original: &[u8], r: Option<Vec<u8>>)
    requires
        call_ensures(ReplaceRun::replaced_content, (&run, original), r),
    ensures
        r is None <==> spans_of(run.expression, original@).len() == 0,
        r is Some && !encode_utf8(run.replacement@).contains(36u8) ==> r->0@ == spliced(
            original@,
            spans_of(run.expression, original@),
            encode_utf8(run.replacement@),
            0,
        ),
        r is Some && !run.use_regex ==> r->0@ == spliced(
            original@,
            spans_of(run.expression, original@),
            encode_utf8(run.replacement@),
            0,
        ),
        r is Some && run.use_regex ==> r->0@ == regex_expansion(
            regex_setting(run.expression).0,
            regex_setting(run.expression).1,
            regex_setting(run.expression).2,
            original@,
            encode_utf8(run.replacement@),
        ),
        r is Some ==> only_spans_replaced(
            original@,
            spans_of(run.expression, original@),
            r->0@,
        ),
{
}

/// Where the replacement has no dollar sign in it, it does not matter whether it
/// is one for an expression.
pub proof fn plain_replacements_are_put_as_they_are(
    a: ReplaceRun,
    b: ReplaceRun,
    original: &[u8],
    of_a: Option<Vec<u8>>,
    of_b: Option<Vec<u8>>,
)
    requires
        regex_setting(a.expression) == regex_setting(b.expression),
        a.replacement@ == b.replacement@,
        !encode_utf8(a.replacement@).contains(36u8),
        call_ensures(ReplaceRun::replaced_content, (&a, original), of_a),
        call_ensures(ReplaceRun::replaced_content, (&b, original), of_b),
    ensures
        of_a is Some <==> of_b is Some,
        of_a is Some ==> of_a->0@ == of_b->0@,
{
}

/// What stands before the first of some spans is kept, and so is what stands
/// behind the last one, whatever the spans are replaced by.
pub proof fn what_stands_around_is_kept(
    haystack: Seq<u8>,
    spans: Seq<(int, int)>,
    result: Seq<u8>,
)
    requires
        in_order(spans, haystack.len() as int),
        only_spans_replaced(haystack, spans, result),
    ensures
        spans.len() == 0 ==> result == haystack,
        spans.len() > 0 ==> haystack.take(spans[0].0).is_prefix_of(result),
        spans.len() > 0 ==> haystack.skip(spans.last().1).is_suffix_of(result),
{
    let parts = choose|parts: Seq<Seq<u8>>|
        parts.len() == spans.len() && result == #[trigger] filled(haystack, spans, parts, 0);
    if spans.len() == 0 {
        assert(haystack.skip(0) =~= haystack);
    } else {
        let first = spans[0];
        assert(0 <= first.0 <= first.1 <= haystack.len());
        assert(haystack.take(first.0) =~= haystack.subrange(0, first.0));
        assert(result.subrange(0, first.0) =~= haystack.take(first.0));
        lemma_filled_ends(haystack, spans, parts, 0);
    }
}

proof fn lemma_filled_ends(
    haystack: Seq<u8>,
    spans: Seq<(int, int)>,
    parts: Seq<Seq<u8>>,
    from: int,
)
    requires
        in_order(spans, haystack.len() as int),
        parts.len() == spans.len() > 0,
        0 <= from <= spans[0].0,
    ensures
        haystack.skip(spans.last().1).is_suffix_of(filled(haystack, spans, parts, from)),
    decreases spans.len(),
{
    let rest = spans.skip(1);
    let whole = filled(haystack, spans, parts, from);
    let later = filled(haystack, rest, parts.skip(1), spans[0].1);
    let end = haystack.skip(spans.last().1);
    assert(0 <= spans[0].0 <= spans[0].1 <= haystack.len());
    if spans.len() == 1 {
        assert(later == end);
    } else {
        lemma_rest_in_order(spans, haystack.len() as int);
        assert(rest[0] == spans[1]);
        assert(spans[0].1 <= spans[1].0);
        lemma_filled_ends(haystack, rest, parts.skip(1), spans[0].1);
        assert(rest.last() == spans.last());
    }
    assert(whole.subrange(whole.len() - later.len(), whole.len() as int) =~= later);
    assert(later.subrange(later.len() - end.len(), later.len() as int) =~= end);
    assert(whole.subrange(whole.len() - end.len(), whole.len() as int) =~= end);
}

proof fn lemma_rest_in_order(spans: Seq<(int, int)>, length: int)
    requires
        in_order(spans, length),
        spans.len() > 0,
    ensures
        in_order(spans.skip(1), length),
{
    let rest = spans.skip(1);
    assert forall|i: int| 0 <= i < rest.len() implies 0 <= (#[trigger] rest[i]).0 <= rest[i].1
        <= length by {
        assert(rest[i] == spans[i + 1]);
    }
    assert forall|i: int, j: int| 0 <= i < j < rest.len() implies (#[trigger] rest[i]).1 <= (
    #[trigger] rest[j]).0 && rest[i].1 < rest[j].1 by {
        assert(rest[i] == spans[i + 1] && rest[j] == spans[j + 1]);
    }
}

/// The last of some spans is replaced like the first: what stands behind it is
/// kept, and what stands before it is replaced as if it were all there is.
pub proof fn the_last_span_is_replaced_by_itself(
    haystack: Seq<u8>,
    spans: Seq<(int, int)>,
    last: (int, int),
    replacement: Seq<u8>,
    from: int,
)
    requires
        in_order(spans.push(last), haystack.len() as int),
        0 <= from <= spans.push(last)[0].0,
    ensures
        spliced(haystack, spans.push(last), replacement, from) == spliced(
            haystack.take(last.0),
            spans,
            replacement,
            from,
        ) + replacement + haystack.skip(last.1),
    decreases spans.len(),
{
    let all = spans.push(last);
    assert(all[spans.len() as int] == last);
    assert(0 <= last.0 <= last.1 <= haystack.len());
    let front = haystack.take(last.0);
    let done = spliced(front, spans, replacement, from);
    if spans.len() == 0 {
        let none = Seq::<(int, int)>::empty();
        assert(all.skip(1) =~= none);
        assert(spliced(haystack, none, replacement, last.1) == haystack.skip(last.1));
        assert(done == front.skip(from));
        assert(front.skip(from) =~= haystack.subrange(from, last.0));
    } else {
        let rest = spans.skip(1);
        assert(all.skip(1) =~= rest.push(last));
        lemma_rest_in_order(all, haystack.len() as int);
        assert(all[0] == spans[0]);
        assert(all[0].1 <= all[spans.len() as int].0);
        let later = rest.push(last);
        assert(later[0] == all[1]);
        assert(all[0].1 <= all[1].0);
        the_last_span_is_replaced_by_itself(haystack, rest, last, replacement, spans[0].1);
        assert(front.subrange(from, spans[0].0) =~= haystack.subrange(from, spans[0].0));
        assert(spliced(haystack, all, replacement, from) =~= done + replacement + haystack.skip(
            last.1,
        ));
    }
}

/// Whether two states are of one replacement: nothing that was asked for has
/// changed.
pub open spec fn same_replacement(a: ReplaceRun, b: ReplaceRun) -> bool {
    &&& a.paths@ == b.paths@
    &&& a.expression == b.expression
    &&& a.replacement@ == b.replacement@
    &&& a.use_regex == b.use_regex
    &&& a.create_backup == b.create_backup
}

/// What follows once a file was read: where it could not be, the replacement
/// ends with a message about it. Where nothing is to be replaced in it, the next
/// file follows, or the end with the number of files changed. Else what is to be
/// written is what takes the content's place, and the file is backed up before,
/// behind its own path, if that was asked for.
pub proof fn files_read_are_replaced(
    run: ReplaceRun,
    content: Result<Vec<u8>, String>,
    original: &[u8],
    replaced: Option<Vec<u8>>,
    next: ReplaceRun,
)
    requires
        call_ensures(ReplaceRun::file_read, (run, content), next),
        content is Ok ==> original@ == content->Ok_0@,
        content is Ok ==> call_ensures(ReplaceRun::replaced_content, (&run, original), replaced),
    ensures
        same_replacement(next, run),
        content is Err ==> next.current == run.current && next.changed == run.changed && (
        next.phase matches ReplacePhase::Done(Err(m)) && m@ == "Erro ao ler "@
            + run.paths@[run.current as int]@ + ": "@ + content->Err_0@),
        content is Ok && replaced is None ==> next.current == run.current + 1 && next.changed
            == run.changed,
        content is Ok && replaced is None && next.current < run.paths@.len() ==> next.phase is Read,
        content is Ok && replaced is None && next.current == run.paths@.len() ==> next.phase
            == ReplacePhase::Done(Ok(run.changed)),
        content is Ok && replaced is Some ==> next.current == run.current && next.changed
            == run.changed,
        content is Ok && replaced is Some && !run.create_backup ==> (
        next.phase matches ReplacePhase::Write(bytes) && bytes@ == replaced->0@),
        content is Ok && replaced is Some && run.create_backup ==> (
        next.phase matches ReplacePhase::Probe { bytes, taken, place } && bytes@ == replaced->0@
            && taken == 0 && place@ == run.paths@[run.current as int]@ + ".bak"@),
{
}

/// What follows once a place for a backup was looked at: one that is free is
/// used. Behind the first the places have numbers from two on; where the last of
/// them is taken too, the first is used. What is to be written stays.
pub proof fn places_are_tried_by_number(run: ReplaceRun, exists: bool, next: ReplaceRun)
    requires
        run.phase is Probe,
        run.phase->Probe_taken <= 9_998,
        call_ensures(ReplaceRun::place_probed, (run, exists), next),
    ensures
        same_replacement(next, run),
        next.current == run.current,
        next.changed == run.changed,
        !exists ==> (next.phase matches ReplacePhase::BackUp { bytes, place } && bytes@
            == run.phase->Probe_bytes@ && place@ == run.phase->Probe_place@),
        exists && run.phase->Probe_taken < 9_998 ==> (
        next.phase matches ReplacePhase::Probe { bytes, taken, place } && bytes@
            == run.phase->Probe_bytes@ && taken == run.phase->Probe_taken + 1 && place@
            == run.paths@[run.current as int]@ + ".bak."@ + decimal(
            (run.phase->Probe_taken + 2) as nat,
        )),
        exists && run.phase->Probe_taken == 9_998 ==> (
        next.phase matches ReplacePhase::BackUp { bytes, place } && bytes@
            == run.phase->Probe_bytes@ && place@ == run.paths@[run.current as int]@ + ".bak"@),
{
}

/// What follows once a file was backed up: it is written, or, where it could not
/// be backed up, the replacement ends with a message about it.
pub proof fn files_backed_up_are_written(
    run: ReplaceRun,
    copied: Result<(), String>,
    next: ReplaceRun,
)
    requires
        run.phase is BackUp,
        call_ensures(ReplaceRun::file_backed_up, (run, copied), next),
    ensures
        same_replacement(next, run),
        next.current == run.current,
        next.changed == run.changed,
        copied is Ok ==> (next.phase matches ReplacePhase::Write(bytes) && bytes@
            == run.phase->BackUp_bytes@),
        copied is Err ==> (next.phase matches ReplacePhase::Done(Err(m)) && m@
            == "Erro ao criar backup de "@ + run.paths@[run.current as int]@ + ": "@
            + copied->Err_0@),
{
}

/// What follows once a file was written: one more is changed, and the next file
/// follows, or the end with the number of files changed. Where it could not be
/// written, the replacement ends with a message about it.
pub proof fn files_written_are_changed(
    run: ReplaceRun,
    written: Result<(), String>,
    next: ReplaceRun,
)
    requires
        run.phase is Write,
        call_ensures(ReplaceRun::file_written, (run, written), next),
    ensures
        same_replacement(next, run),
        written is Ok ==> next.current == run.current + 1 && next.changed == run.changed + 1,
        written is Ok && next.current < run.paths@.len() ==> next.phase is Read,
        written is Ok && next.current == run.paths@.len() ==> next.phase == ReplacePhase::Done(
            Ok(next.changed),
        ),
        written is Err ==> next.current == run.current && next.changed == run.changed && (
        next.phase matches ReplacePhase::Done(Err(m)) && m@ == "Erro ao salvar "@
            + run.paths@[run.current as int]@ + ": "@ + written->Err_0@),
{
}

/// The path that is dealt with is that of the current file.
pub proof fn replacements_deal_with_the_current_file(run: ReplaceRun, path: &str)
    requires
        call_ensures(ReplaceRun::path, (&run,), path),
    ensures
        path@ == run.paths@[run.current as int]@,
{
}

} // verus!
