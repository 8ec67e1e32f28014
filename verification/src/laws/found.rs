//! Promises of a search: what it is begun with, and which files it finds.

use crate::compile::search_matchers;
use crate::engines::{
    automaton_folds, automaton_refusals, automaton_terms, escaped, regex_excesses, regex_flaws,
    regex_setting, regex_spans, utf8_of,
};
use crate::inspection::{
    inspect, modified_seconds, name_passes, FileFacts, Inspection, InspectionPhase,
};
use crate::laws::compiled::{same_matcher, terms_are_the_lines};
use crate::laws::wildcards::ascii_lists_hold_ascii_patterns;
use crate::matchers::{is_matcher_for, SearchMatchers};
use crate::request::{SearchEvent, SearchRequest};
use crate::search::{
    run_streaming_search, validate, walk_settings, worker_threads, Catalog, SearchProgress,
    SearchStage, WalkSettings,
};
use crate::terms::{query_lines, query_terms};
use crate::wildcard::{selects, wildcard_regex};
use aho_corasick::BuildError;
use regex::bytes::Regex;
use vstd::prelude::*;
use vstd::utf8::{encode_utf8, is_ascii_chars};

verus! {

/// A request for what is no directory is refused, and so is one with a blank
/// query; each is told, the directory first. Nothing else refuses a request
/// whose query and patterns can be compiled.
pub proof fn requests_are_refused_with_a_reason(
    req: SearchRequest,
    is_directory: bool,
    r: Result<(SearchMatchers, Option<Regex>), String>,
)
    requires
        call_ensures(validate, (&req, is_directory), r),
    ensures
        !is_directory ==> r is Err && r->Err_0@ == "Selecione um diretório válido."@,
        is_directory && query_lines(req.query@).len() == 0 ==> r is Err && r->Err_0@
            == "Digite o texto que deseja pesquisar."@,
{
    terms_are_the_lines(req.query@);
    let terms = query_terms(req.query@);
    if terms.len() > 0 {
        assert(terms.contains(terms[0]));
        assert(query_lines(req.query@).contains(terms[0]));
    }
}

/// What a valid request is searched with, whatever is searched: the matchers
/// that its query makes, and the filter that its list of patterns makes.
pub proof fn requests_are_searched_with_what_they_say(
    req: SearchRequest,
    is_directory: bool,
    matchers: SearchMatchers,
    filter: Option<Regex>,
    of_query: SearchMatchers,
    patterns: &str,
    of_patterns: Option<Regex>,
)
    requires
        patterns@ == req.file_pattern@,
        call_ensures(validate, (&req, is_directory), Ok((matchers, filter))),
        call_ensures(search_matchers, (&req,), Ok(of_query)),
        call_ensures(wildcard_regex, (patterns,), Ok(of_patterns)),
    ensures
        filter is Some <==> of_patterns is Some,
        filter is Some ==> regex_setting(filter->0) == regex_setting(of_patterns->0),
        matchers is Literals <==> of_query is Literals,
        matchers is Literals ==> automaton_terms(matchers->Literals_0) == automaton_terms(
            of_query->Literals_0,
        ),
        matchers is Literals ==> automaton_folds(matchers->Literals_0) == automaton_folds(
            of_query->Literals_0,
        ),
        matchers is Expressions ==> matchers->Expressions_0@.len()
            == of_query->Expressions_0@.len(),
        forall|i: int|
            matchers is Expressions && 0 <= i < matchers->Expressions_0@.len() ==> same_matcher(
                #[trigger] matchers->Expressions_0@[i],
                of_query->Expressions_0@[i],
            ),
{
    if matchers is Expressions {
        let list = matchers->Expressions_0@;
        let other = of_query->Expressions_0@;
        let terms = query_terms(req.query@);
        assert forall|i: int| 0 <= i < list.len() implies same_matcher(
            #[trigger] list[i],
            other[i],
        ) by {
            assert(is_matcher_for(list[i], req, terms[i]));
            assert(is_matcher_for(other[i], req, terms[i]));
        }
    }
}

/// A request whose query and patterns can be compiled is accepted.
pub proof fn requests_that_compile_are_accepted(
    req: SearchRequest,
    r: Result<(SearchMatchers, Option<Regex>), String>,
    patterns: &str,
    filter: Result<Option<Regex>, String>,
)
    requires
        patterns@ == req.file_pattern@,
        call_ensures(validate, (&req, true), r),
        query_lines(req.query@).len() > 0,
        automaton_refusals(utf8_of(query_terms(req.query@)), !req.case_sensitive)
            == Set::<BuildError>::empty(),
        forall|i: int|
            #![trigger query_terms(req.query@)[i]]
            0 <= i < query_terms(req.query@).len() ==> {
                let term = query_terms(req.query@)[i];
                let plain = if req.use_regex {
                    term
                } else {
                    escaped(term)
                };
                let source = if req.whole_word {
                    "\\b(?:"@ + plain + ")\\b"@
                } else {
                    plain
                };
                &&& regex_flaws(source, !req.case_sensitive, true) == Set::<regex::Error>::empty()
                &&& regex_excesses(source, !req.case_sensitive, true) == Set::<
                    regex::Error,
                >::empty()
            },
        call_ensures(wildcard_regex, (patterns,), filter),
        filter is Ok,
        filter->Ok_0 is Some ==> regex_excesses(
            regex_setting(filter->Ok_0->0).0,
            true,
            true,
        ) == Set::<regex::Error>::empty(),
    ensures
        r is Ok,
{
    terms_are_the_lines(req.query@);
    let lines = query_lines(req.query@);
    assert(lines.contains(lines[0]));
    assert(query_terms(req.query@).contains(lines[0]));
}

/// Whatever a request searches, the files it looks at are those whose names its
/// list of patterns selects, where the patterns are ASCII and the name has no
/// line feed in it.
pub proof fn filters_let_selected_names_pass(
    req: SearchRequest,
    is_directory: bool,
    matchers: SearchMatchers,
    filter: Option<Regex>,
    name: String,
    text: &str,
    pass: bool,
    start: Inspection,
)
    requires
        text@ == name@,
        call_ensures(validate, (&req, is_directory), Ok((matchers, filter))),
        is_ascii_chars(req.file_pattern@),
        !name@.contains('\n'),
        call_ensures(name_passes, (&filter, text), pass),
        call_ensures(inspect, (&filter, name), start),
    ensures
        pass == selects(req.file_pattern@, name@),
        start.name@ == name@,
        selects(req.file_pattern@, name@) ==> start.phase is Facts,
        !selects(req.file_pattern@, name@) ==> start.phase == InspectionPhase::Done(None),
{
    ascii_lists_hold_ascii_patterns(req.file_pattern@);
}

/// A file is begun with exactly if its name passes: if there is no filter, or the
/// filter matches the bytes of the name.
pub proof fn files_whose_names_pass_are_looked_at(
    filter: Option<Regex>,
    name: String,
    text: &str,
    pass: bool,
    start: Inspection,
)
    requires
        text@ == name@,
        call_ensures(name_passes, (&filter, text), pass),
        call_ensures(inspect, (&filter, name), start),
    ensures
        filter is None ==> pass,
        filter is Some ==> pass == (regex_spans(
            regex_setting(filter->0).0,
            regex_setting(filter->0).1,
            regex_setting(filter->0).2,
            encode_utf8(name@),
        ).len() > 0),
        start.name@ == name@,
        pass ==> start.phase is Facts,
        !pass ==> start.phase == InspectionPhase::Done(None),
{
}

/// Each bound of a request rules by itself: a file that is under one of the
/// lower ones, or over one of the upper ones, is no result, whatever the other
/// bounds are. A file of which nothing is known is none either, and one whose
/// time is not known counts as of 1970.
pub proof fn each_bound_rules_by_itself(
    run: Inspection,
    req: SearchRequest,
    matchers: SearchMatchers,
    facts: Option<FileFacts>,
    modified: u64,
    next: Inspection,
)
    requires
        call_ensures(Inspection::facts_known, (run, &req, &matchers, facts), next),
        facts is Some ==> call_ensures(modified_seconds, (facts->0.since_epoch,), modified),
    ensures
        facts is None ==> next.phase == InspectionPhase::Done(None),
        facts is Some && facts->0.since_epoch is Some ==> modified == facts->0.since_epoch->0,
        facts is Some && facts->0.since_epoch is None ==> modified == 0,
        facts is Some && req.min_size is Some && facts->0.size < req.min_size->0 ==> next.phase
            == InspectionPhase::Done(None),
        facts is Some && req.max_size is Some && facts->0.size > req.max_size->0 ==> next.phase
            == InspectionPhase::Done(None),
        facts is Some && req.min_modified is Some && modified < req.min_modified->0 ==> next.phase
            == InspectionPhase::Done(None),
        facts is Some && req.max_modified is Some && modified > req.max_modified->0 ==> next.phase
            == InspectionPhase::Done(None),
{
}

/// Whether no bound of a request rules out a file.
pub open spec fn no_bound_rules_out(req: SearchRequest, size: u64, modified: u64) -> bool {
    &&& req.min_size matches Some(least) ==> size >= least
    &&& req.max_size matches Some(most) ==> size <= most
    &&& req.min_modified matches Some(first) ==> modified >= first
    &&& req.max_modified matches Some(last) ==> modified <= last
}

/// In a search by name, a file that no bound rules out is a result exactly if one
/// of the terms is found in its name, with the number of them.
pub proof fn names_are_searched_for_terms(
    run: Inspection,
    req: SearchRequest,
    matchers: SearchMatchers,
    facts: FileFacts,
    modified: u64,
    name: &[u8],
    found: usize,
    next: Inspection,
)
    requires
        req.mode@ == "name"@,
        call_ensures(modified_seconds, (facts.since_epoch,), modified),
        no_bound_rules_out(req, facts.size, modified),
        call_ensures(Inspection::facts_known, (run, &req, &matchers, Some(facts)), next),
        name@ == encode_utf8(run.name@),
        call_ensures(SearchMatchers::matching_terms, (&matchers, name), found),
    ensures
        next.name@ == run.name@,
        found == 0 ==> next.phase == InspectionPhase::Done(None),
        found > 0 ==> (next.phase matches InspectionPhase::Done(Some(item)) && item.name@
            == run.name@ && item.path@ == facts.path@ && item.size == facts.size && item.modified
            == modified && item.matches == found),
{
}

/// In any other search, the content of a file that no bound rules out is read,
/// up to 256 MiB of it; up to 1 MiB into the buffer that is kept. The content of
/// larger files is not searched, and they are no results.
pub proof fn contents_are_read_by_size(
    run: Inspection,
    req: SearchRequest,
    matchers: SearchMatchers,
    facts: FileFacts,
    modified: u64,
    next: Inspection,
)
    requires
        req.mode@ != "name"@,
        call_ensures(modified_seconds, (facts.since_epoch,), modified),
        no_bound_rules_out(req, facts.size, modified),
        call_ensures(Inspection::facts_known, (run, &req, &matchers, Some(facts)), next),
    ensures
        next.name@ == run.name@,
        facts.size <= 1_048_576 ==> (next.phase matches InspectionPhase::ReadReusing(file)
            && file.path@ == facts.path@ && file.size == facts.size && file.modified == modified),
        1_048_576 < facts.size <= 268_435_456 ==> (
        next.phase matches InspectionPhase::ReadWhole(file) && file.path@ == facts.path@
            && file.size == facts.size && file.modified == modified),
        facts.size > 268_435_456 ==> next.phase == InspectionPhase::Done(None),
{
}

/// Once a file's content was read, the file is a result exactly if there is a
/// match in it, with the number of them. One that could not be read is none.
pub proof fn contents_are_searched_for_matches(
    run: Inspection,
    matchers: SearchMatchers,
    content: Option<&[u8]>,
    counted: Option<usize>,
    next: Inspection,
)
    requires
        run.phase is ReadReusing || run.phase is ReadWhole,
        call_ensures(Inspection::content_read, (run, &matchers, content), next),
        content is Some ==> call_ensures(
            SearchMatchers::try_count,
            (&matchers, content->0),
            counted,
        ),
        content is Some ==> content->0@.len() < usize::MAX,
    ensures
        next.name@ == run.name@,
        content is None ==> next.phase == InspectionPhase::Done(None),
        content is Some && counted is Some && counted->0 == 0 ==> next.phase
            == InspectionPhase::Done(None),
        content is Some && counted is Some && counted->0 > 0 ==> {
            let file = if run.phase is ReadReusing {
                run.phase->ReadReusing_0
            } else {
                run.phase->ReadWhole_0
            };
            &&& next.phase matches InspectionPhase::Done(Some(item))
            &&& item.name@ == run.name@
            &&& item.path@ == file.path@
            &&& item.size == file.size
            &&& item.modified == file.modified
            &&& item.matches == counted->0
        },
        content is Some && counted is None ==> next.phase is Overflow,
{
}

/// A search begins with a count of the files exactly if that was asked for;
/// nothing is counted or searched yet.
pub proof fn searches_begin_as_asked(req: SearchRequest, id: u64, stage: SearchStage)
    requires
        call_ensures(run_streaming_search, (&req, id), stage),
    ensures
        req.pre_count ==> (stage matches SearchStage::Count(catalog) && catalog.id == id
            && catalog.discovered == 0 && catalog.last_catalog_ms == 0),
        !req.pre_count ==> (stage matches SearchStage::Search(progress) && progress.id == id
            && progress.scanned == 0 && progress.found == 0 && progress.last_progress_ms == 0
            && progress.total == None::<usize>),
{
}

/// What is begun anew has met nothing yet.
pub proof fn new_searches_have_met_nothing(
    id: u64,
    total: Option<usize>,
    catalog: Catalog,
    progress: SearchProgress,
)
    requires
        call_ensures(Catalog::new, (id,), catalog),
        call_ensures(SearchProgress::new, (id, total), progress),
    ensures
        catalog.id == id,
        catalog.discovered == 0,
        catalog.last_catalog_ms == 0,
        progress.id == id,
        progress.scanned == 0,
        progress.found == 0,
        progress.last_progress_ms == 0,
        progress.total == total,
{
}

/// Once the files were counted, they are searched, with their number for the
/// total, unless another search has become the active one: then the search is
/// over, cancelled.
pub proof fn counts_end_in_a_search(
    catalog: Catalog,
    active: u64,
    r: Result<SearchProgress, SearchEvent>,
)
    requires
        call_ensures(Catalog::finish, (catalog, active), r),
    ensures
        active == catalog.id ==> (r matches Ok(progress) && progress.id == catalog.id
            && progress.scanned == 0 && progress.found == 0 && progress.last_progress_ms == 0
            && progress.total == Some(catalog.discovered)),
        active != catalog.id ==> (r matches Err(event) && event == (SearchEvent::Finished {
            scanned: 0,
            found: 0,
            cancelled: true,
        })),
{
}

/// A search that is over tells how many files it looked at and found, and that
/// it was cancelled exactly if another one has become the active one.
pub proof fn searches_end_with_their_counts(
    progress: SearchProgress,
    active: u64,
    event: SearchEvent,
)
    requires
        call_ensures(SearchProgress::finish, (progress, active), event),
    ensures
        event matches SearchEvent::Finished { scanned, found, cancelled } && scanned
            == progress.scanned && found == progress.found && (cancelled <==> active
            != progress.id),
{
}

/// How many threads walk a directory: for a search of content twice as many as
/// the machine has, but from 8 to 32, for any other as many as it has, but from
/// 4 to 16. Where it is not known how many it has, it counts as 8.
pub proof fn threads_go_by_the_machine(mode: &str, known: Option<usize>, threads: usize)
    requires
        call_ensures(worker_threads, (mode, known), threads),
    ensures
        mode@ == "content"@ ==> 8 <= threads <= 32,
        mode@ != "content"@ ==> 4 <= threads <= 16,
        known is None && mode@ == "content"@ ==> threads == 16,
        known is None && mode@ != "content"@ ==> threads == 8,
        known is Some && mode@ == "content"@ && 4 <= known->0 <= 16 ==> threads == 2 * known->0,
        known is Some && mode@ == "content"@ && known->0 < 4 ==> threads == 8,
        known is Some && mode@ == "content"@ && known->0 > 16 ==> threads == 32,
        known is Some && mode@ != "content"@ && 4 <= known->0 <= 16 ==> threads == known->0,
        known is Some && mode@ != "content"@ && known->0 < 4 ==> threads == 4,
        known is Some && mode@ != "content"@ && known->0 > 16 ==> threads == 16,
{
}

/// How a directory is walked: hidden files and what lies deeper only if that was
/// asked for, no links, and with as many threads as the search takes; while
/// files are counted, with as many as a search by name takes.
pub proof fn directories_are_walked_as_asked(
    req: SearchRequest,
    known: Option<usize>,
    counting: WalkSettings,
    searching: WalkSettings,
    name: &str,
    by_name: usize,
    mode: &str,
    by_mode: usize,
)
    requires
        name@ == "name"@,
        mode@ == req.mode@,
        call_ensures(walk_settings, (&req, true, known), counting),
        call_ensures(walk_settings, (&req, false, known), searching),
        call_ensures(worker_threads, (name, known), by_name),
        call_ensures(worker_threads, (mode, known), by_mode),
    ensures
        counting.threads == by_name,
        searching.threads == by_mode,
        counting.skip_hidden <==> !req.include_hidden,
        searching.skip_hidden <==> !req.include_hidden,
        req.include_subfolders ==> counting.max_depth is None && searching.max_depth is None,
        !req.include_subfolders ==> counting.max_depth == Some(1usize) && searching.max_depth
            == Some(1usize),
        !counting.follow_links && !searching.follow_links,
{
}

} // verus!
