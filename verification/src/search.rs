//! A running search: how it begins, which entries of a directory are looked
//! at, and what is told on the way.

use crate::compile::{search_matchers, tells_refused_query};
use crate::engines::regex_setting;
use crate::inspection::name_passes;
use crate::matchers::{are_matchers_for, has_matchers, tells_excess, SearchMatchers};
use crate::request::{SearchEvent, SearchRequest, SearchResult};
use crate::terms::{lemma_distinct_from, query_lines, query_terms};
use crate::text::{same_text, split_trimmed, texts};
use crate::wildcard::{selects, wildcard_regex, wildcard_source, wildcard_values};
use regex::bytes::Regex;
use vstd::prelude::*;
use vstd::utf8::is_ascii_chars;

verus! {

/// A search stops at this many results.
pub const MAX_RESULTS: usize = 100_000;

/// Progress is told at most once in this time.
pub const REPORT_INTERVAL_MS: u64 = 100;

/// Whether a filter for file names is the one that a list of patterns makes.
pub open spec fn is_filter_for(filter: Option<Regex>, patterns: Seq<char>) -> bool {
    match filter {
        None => wildcard_values(patterns).len() == 0,
        Some(regex) => wildcard_values(patterns).len() > 0 && regex_setting(regex) == (
            wildcard_source(wildcard_values(patterns)),
            true,
            true,
        ),
    }
}

/// Whether the patterns in a list are all ASCII.
pub open spec fn ascii_patterns(patterns: Seq<char>) -> bool {
    forall|i: int|
        0 <= i < wildcard_values(patterns).len() ==> is_ascii_chars(
            #[trigger] wildcard_values(patterns)[i],
        )
}

/// Whether a message says why a request's matchers could not be made, or why
/// its filter could not, the matchers having been made.
pub open spec fn tells_failed_request(req: SearchRequest, message: Seq<char>) -> bool {
    ||| tells_refused_query(req, message)
    ||| has_matchers(req) && wildcard_values(req.file_pattern@).len() > 0 && tells_excess(
        ""@,
        wildcard_source(wildcard_values(req.file_pattern@)),
        true,
        message,
    )
}

/// Whether matchers and a filter are what a valid request is searched with.
pub open spec fn accepts(
    req: SearchRequest,
    is_directory: bool,
    matchers: SearchMatchers,
    filter: Option<Regex>,
) -> bool {
    &&& is_directory
    &&& query_terms(req.query@).len() > 0
    &&& are_matchers_for(matchers, req)
    &&& matchers.wf()
    &&& is_filter_for(filter, req.file_pattern@)
}

/// Whether a message says why a request is not valid.
pub open spec fn refuses(req: SearchRequest, is_directory: bool, message: Seq<char>) -> bool {
    if !is_directory {
        message == "Selecione um diretório válido."@
    } else if query_terms(req.query@).len() == 0 {
        message == "Digite o texto que deseja pesquisar."@
    } else {
        tells_failed_request(req, message)
    }
}

/// Checks a request, and makes its matchers and then its filter for file names.
/// Whatever is searched, where the patterns are ASCII the filter lets a name
/// without line feeds pass exactly if the patterns select it.
pub fn validate(req: &SearchRequest, is_directory: bool) -> (r: Result<
    (SearchMatchers, Option<Regex>),
    String,
>)
    ensures
        match r {
            Ok((matchers, filter)) => accepts(*req, is_directory, matchers, filter),
            Err(m) => refuses(*req, is_directory, m@),
        },
        r is Ok ==> is_filter_for(r->Ok_0.1, req.file_pattern@),
        r is Ok ==> forall|name: &str, pass: bool| #[trigger]
            call_ensures(name_passes, (&r->Ok_0.1, name), pass) && ascii_patterns(
                req.file_pattern@,
            ) && !name@.contains('\n') ==> pass == selects(req.file_pattern@, name@),
{
    if !is_directory {
        return Err("Selecione um diretório válido.".to_owned());
    }
    let lines = split_trimmed(req.query.as_str(), &['\n']);
    proof {
        assert((&['\n'])@ =~= seq!['\n']);
        assert(texts(lines@) == query_lines(req.query@));
        lemma_terms_iff_lines(req.query@);
    }
    if lines.len() == 0 {
        return Err("Digite o texto que deseja pesquisar.".to_owned());
    }
    let matchers = match search_matchers(req) {
        Ok(matchers) => matchers,
        Err(m) => {
            return Err(m);
        },
    };
    assert(has_matchers(*req)) by {
        assert(are_matchers_for(matchers, *req));
    }
    match wildcard_regex(req.file_pattern.as_str()) {
        Ok(filter) => Ok((matchers, filter)),
        Err(m) => Err(m),
    }
}

proof fn lemma_terms_iff_lines(query: Seq<char>)
    ensures
        query_terms(query).len() == 0 <==> query_lines(query).len() == 0,
{
    lemma_distinct_from(query_lines(query));
    if query_lines(query).len() > 0 {
        assert(query_lines(query).contains(query_lines(query)[0]));
        assert(query_terms(query).contains(query_lines(query)[0]));
    }
    if query_terms(query).len() > 0 {
        assert(query_terms(query).contains(query_terms(query)[0]));
        assert(query_lines(query).contains(query_terms(query)[0]));
    }
}

/// How many threads walk a directory, from what is known of the machine: twice
/// as many as it has, from 8 to 32, where content is searched, and as many as
/// it has, from 4 to 16, otherwise.
pub open spec fn threads_for(mode: Seq<char>, parallelism: Option<usize>) -> int {
    let logical: int = match parallelism {
        Some(n) => n as int,
        None => 8,
    };
    let (wanted, least, most) = if mode == "content"@ {
        (logical * 2, 8int, 32int)
    } else {
        (logical, 4int, 16int)
    };
    if wanted < least {
        least
    } else if wanted > most {
        most
    } else {
        wanted
    }
}

/// How many threads walk a directory, from what is known of the machine.
pub fn worker_threads(mode: &str, parallelism: Option<usize>) -> (threads: usize)
    ensures
        threads == threads_for(mode@, parallelism),
{
    let logical: usize = match parallelism {
        Some(n) => n,
        None => 8,
    };
    if same_text(mode, "content") {
        if logical < 4 {
            8
        } else if logical > 16 {
            32
        } else {
            logical * 2
        }
    } else {
        if logical < 4 {
            4
        } else if logical > 16 {
            16
        } else {
            logical
        }
    }
}

/// Whether enough time has passed to tell progress again.
pub open spec fn report_due(elapsed_ms: u64, previous_ms: u64) -> bool {
    elapsed_ms - previous_ms >= REPORT_INTERVAL_MS
}

/// Whether enough time has passed to tell progress again.
fn is_report_due(elapsed_ms: u64, previous_ms: u64) -> (due: bool)
    ensures
        due == report_due(elapsed_ms, previous_ms),
{
    elapsed_ms.saturating_sub(previous_ms) >= REPORT_INTERVAL_MS
}

/// What an entry of a directory turns out to be.
#[derive(Clone, Copy, PartialEq, Eq, Structural)]
pub enum EntryKind {
    /// It could not be read.
    Unreadable,
    /// A directory, a link or another thing that is not a file.
    Other,
    File,
}

/// The count of files that is made before a search.
pub struct Catalog {
    pub id: u64,
    pub discovered: usize,
    pub last_catalog_ms: u64,
}

/// What follows from an entry met while counting.
pub enum CatalogStep {
    Quit,
    Continue { event: Option<SearchEvent> },
}

impl Catalog {
    /// The state that an entry leads to.
    pub open spec fn after(self, active: u64, kind: EntryKind, elapsed_ms: u64) -> Catalog {
        if active == self.id && kind == EntryKind::File {
            Catalog {
                id: self.id,
                discovered: (self.discovered + 1) as usize,
                last_catalog_ms: if report_due(elapsed_ms, self.last_catalog_ms) {
                    elapsed_ms
                } else {
                    self.last_catalog_ms
                },
            }
        } else {
            self
        }
    }

    /// What is told when an entry is met.
    pub open spec fn told(self, active: u64, kind: EntryKind, elapsed_ms: u64) -> Option<
        SearchEvent,
    > {
        if active == self.id && kind == EntryKind::File && report_due(
            elapsed_ms,
            self.last_catalog_ms,
        ) {
            Some(SearchEvent::Cataloging { discovered: (self.discovered + 1) as usize })
        } else {
            None
        }
    }

    /// Whether this is a count that has met nothing yet.
    pub open spec fn is_new(self, id: u64) -> bool {
        self == (Catalog { id, discovered: 0, last_catalog_ms: 0 })
    }

    /// A count that has met nothing yet.
    pub fn new(id: u64) -> (catalog: Catalog)
        ensures
            catalog.is_new(id),
    {
        Catalog { id, discovered: 0, last_catalog_ms: 0 }
    }

    /// Takes an entry into account. The count ends when another search has
    /// become the active one.
    pub fn visit(&mut self, active: u64, kind: EntryKind, elapsed_ms: u64) -> (step: CatalogStep)
        requires
            old(self).discovered < usize::MAX,
        ensures
            *final(self) == old(self).after(active, kind, elapsed_ms),
            match step {
                CatalogStep::Quit => active != old(self).id,
                CatalogStep::Continue { event } => active == old(self).id && event == old(
                    self,
                ).told(active, kind, elapsed_ms),
            },
            final(self).id == old(self).id,
            active != old(self).id ==> step is Quit,
            active != old(self).id || kind != EntryKind::File ==> *final(self) == *old(self),
            active == old(self).id && kind != EntryKind::File ==> step == (CatalogStep::Continue {
                event: None,
            }),
            active == old(self).id && kind == EntryKind::File ==> final(self).discovered == old(
                self,
            ).discovered + 1,
            active == old(self).id && kind == EntryKind::File && elapsed_ms >= old(
                self,
            ).last_catalog_ms + 100 ==> final(self).last_catalog_ms == elapsed_ms && step == (
            CatalogStep::Continue {
                event: Some(SearchEvent::Cataloging { discovered: final(self).discovered }),
            }),
            active == old(self).id && kind == EntryKind::File && elapsed_ms < old(
                self,
            ).last_catalog_ms + 100 ==> final(self).last_catalog_ms == old(self).last_catalog_ms
                && step == (CatalogStep::Continue { event: None }),
    {
        if active != self.id {
            return CatalogStep::Quit;
        }
        if kind == EntryKind::File {
            self.discovered = self.discovered + 1;
            if is_report_due(elapsed_ms, self.last_catalog_ms) {
                self.last_catalog_ms = elapsed_ms;
                return CatalogStep::Continue {
                    event: Some(SearchEvent::Cataloging { discovered: self.discovered }),
                };
            }
        }
        CatalogStep::Continue { event: None }
    }

    /// Ends the count: the search that follows, with the number of files, or
    /// that it was cancelled. There is no count after that.
    pub fn finish(self, active: u64) -> (r: Result<SearchProgress, SearchEvent>)
        ensures
            match r {
                Ok(progress) => active == self.id && progress.is_new(
                    self.id,
                    Some(self.discovered),
                ),
                Err(event) => active != self.id && event == cancelled_count(),
            },
    {
        if active != self.id {
            Err(SearchEvent::Finished { scanned: 0, found: 0, cancelled: true })
        } else {
            Ok(SearchProgress::new(self.id, Some(self.discovered)))
        }
    }
}

/// What is told of a search that was cancelled while its files were counted.
pub open spec fn cancelled_count() -> SearchEvent {
    SearchEvent::Finished { scanned: 0, found: 0, cancelled: true }
}

/// How far a search has come.
pub struct SearchProgress {
    pub id: u64,
    pub scanned: usize,
    pub found: usize,
    pub last_progress_ms: u64,
    pub total: Option<usize>,
}

/// What follows from an entry met while searching.
pub enum Visit {
    /// The search is over.
    Quit,
    /// The entry is no file to be looked at.
    Pass,
    /// The file is to be looked at, and this is to be told before.
    Scan { event: Option<SearchEvent> },
}

impl SearchProgress {
    /// Whether the search goes on.
    pub open spec fn goes_on(self, active: u64) -> bool {
        active == self.id && self.found < MAX_RESULTS
    }

    /// The state that an entry leads to.
    pub open spec fn after(self, active: u64, kind: EntryKind, elapsed_ms: u64) -> SearchProgress {
        if self.goes_on(active) && kind == EntryKind::File {
            SearchProgress {
                id: self.id,
                scanned: (self.scanned + 1) as usize,
                found: self.found,
                last_progress_ms: if report_due(elapsed_ms, self.last_progress_ms) {
                    elapsed_ms
                } else {
                    self.last_progress_ms
                },
                total: self.total,
            }
        } else {
            self
        }
    }

    /// What is told when an entry is met.
    pub open spec fn told(self, active: u64, kind: EntryKind, elapsed_ms: u64) -> Option<
        SearchEvent,
    > {
        if self.goes_on(active) && kind == EntryKind::File && report_due(
            elapsed_ms,
            self.last_progress_ms,
        ) {
            Some(
                SearchEvent::Progress {
                    scanned: (self.scanned + 1) as usize,
                    found: self.found,
                    total: self.total,
                },
            )
        } else {
            None
        }
    }

    /// What is told at the end.
    pub open spec fn end(self, active: u64) -> SearchEvent {
        SearchEvent::Finished {
            scanned: self.scanned,
            found: self.found,
            cancelled: active != self.id,
        }
    }

    /// The state that a result leads to.
    pub open spec fn after_result(self) -> SearchProgress {
        SearchProgress {
            id: self.id,
            scanned: self.scanned,
            found: (self.found + 1) as usize,
            last_progress_ms: self.last_progress_ms,
            total: self.total,
        }
    }

    /// Whether this is a search that has met nothing yet.
    pub open spec fn is_new(self, id: u64, total: Option<usize>) -> bool {
        self == (SearchProgress { id, scanned: 0, found: 0, last_progress_ms: 0, total })
    }

    /// A search that has met nothing yet.
    pub fn new(id: u64, total: Option<usize>) -> (progress: SearchProgress)
        ensures
            progress.is_new(id, total),
    {
        SearchProgress { id, scanned: 0, found: 0, last_progress_ms: 0, total }
    }

    /// Takes an entry into account. The search ends when another one has
    /// become the active one, or when it has found enough.
    pub fn visit(&mut self, active: u64, kind: EntryKind, elapsed_ms: u64) -> (step: Visit)
        requires
            old(self).scanned < usize::MAX,
        ensures
            *final(self) == old(self).after(active, kind, elapsed_ms),
            match step {
                Visit::Quit => !old(self).goes_on(active),
                Visit::Pass => old(self).goes_on(active) && kind != EntryKind::File,
                Visit::Scan { event } => {
                    &&& old(self).goes_on(active)
                    &&& kind == EntryKind::File
                    &&& event == old(self).told(active, kind, elapsed_ms)
                },
            },
            final(self).id == old(self).id,
            final(self).found == old(self).found,
            final(self).total == old(self).total,
            active != old(self).id || old(self).found >= 100_000 ==> step is Quit,
            active != old(self).id || old(self).found >= 100_000 || kind != EntryKind::File
                ==> *final(self) == *old(self),
            active == old(self).id && old(self).found < 100_000 && kind != EntryKind::File
                ==> step is Pass,
            active == old(self).id && old(self).found < 100_000 && kind == EntryKind::File
                ==> final(self).scanned == old(self).scanned + 1,
            active == old(self).id && old(self).found < 100_000 && kind == EntryKind::File
                && elapsed_ms >= old(self).last_progress_ms + 100 ==> final(self).last_progress_ms
                == elapsed_ms && step == (Visit::Scan {
                event: Some(
                    SearchEvent::Progress {
                        scanned: final(self).scanned,
                        found: old(self).found,
                        total: old(self).total,
                    },
                ),
            }),
            active == old(self).id && old(self).found < 100_000 && kind == EntryKind::File
                && elapsed_ms < old(self).last_progress_ms + 100 ==> final(self).last_progress_ms
                == old(self).last_progress_ms && step == (Visit::Scan { event: None }),
    {
        if active != self.id || self.found >= MAX_RESULTS {
            return Visit::Quit;
        }
        if kind != EntryKind::File {
            return Visit::Pass;
        }
        self.scanned = self.scanned + 1;
        if is_report_due(elapsed_ms, self.last_progress_ms) {
            self.last_progress_ms = elapsed_ms;
            return Visit::Scan {
                event: Some(
                    SearchEvent::Progress {
                        scanned: self.scanned,
                        found: self.found,
                        total: self.total,
                    },
                ),
            };
        }
        Visit::Scan { event: None }
    }

    /// Takes a result into account, and tells it.
    pub fn report(&mut self, item: SearchResult) -> (event: SearchEvent)
        requires
            old(self).found < usize::MAX,
        ensures
            *final(self) == old(self).after_result(),
            final(self).found == old(self).found + 1,
            final(self).id == old(self).id,
            final(self).scanned == old(self).scanned,
            final(self).last_progress_ms == old(self).last_progress_ms,
            final(self).total == old(self).total,
            event == (SearchEvent::Result { item }),
    {
        self.found = self.found + 1;
        SearchEvent::Result { item }
    }

    /// Tells that the search is over. There is no search after that.
    pub fn finish(self, active: u64) -> (event: SearchEvent)
        ensures
            event == self.end(active),
    {
        SearchEvent::Finished {
            scanned: self.scanned,
            found: self.found,
            cancelled: active != self.id,
        }
    }
}

/// What a search begins with.
pub enum SearchStage {
    /// The files are to be counted first.
    Count(Catalog),
    /// The files are to be searched.
    Search(SearchProgress),
}

/// Begins a search: with a count of the files where the request asks for one.
pub fn run_streaming_search(req: &SearchRequest, id: u64) -> (stage: SearchStage)
    ensures
        if req.pre_count {
            stage matches SearchStage::Count(catalog) && catalog.is_new(id)
        } else {
            stage matches SearchStage::Search(progress) && progress.is_new(id, None)
        },
{
    if req.pre_count {
        SearchStage::Count(Catalog::new(id))
    } else {
        SearchStage::Search(SearchProgress::new(id, None))
    }
}

/// How a directory is walked.
pub struct WalkSettings {
    pub skip_hidden: bool,
    /// How deep the walk goes: the directory's own entries are at depth one.
    pub max_depth: Option<usize>,
    pub follow_links: bool,
    pub threads: usize,
}

/// How the directory of a request is walked, to count its files or to search
/// them.
pub fn walk_settings(req: &SearchRequest, counting: bool, parallelism: Option<usize>) -> (settings:
    WalkSettings)
    ensures
        settings.skip_hidden == !req.include_hidden,
        settings.max_depth == (if req.include_subfolders {
            None
        } else {
            Some(1usize)
        }),
        !settings.follow_links,
        settings.threads == threads_for(
            if counting {
                "name"@
            } else {
                req.mode@
            },
            parallelism,
        ),
{
    let threads = if counting {
        worker_threads("name", parallelism)
    } else {
        worker_threads(req.mode.as_str(), parallelism)
    };
    WalkSettings {
        skip_hidden: !req.include_hidden,
        max_depth: if req.include_subfolders {
            None
        } else {
            Some(1)
        },
        follow_links: false,
        threads,
    }
}

/// What a worker does to the state that the workers of a search share.
pub enum WorkerStep {
    /// It takes an entry into account.
    Visit { active: u64, kind: EntryKind, elapsed_ms: u64 },
    /// It is done with a file that it looked at, and reports it if it is a
    /// result.
    Judge { result: Option<SearchResult> },
}

/// A search with the number of workers that are looking at a file.
pub struct SharedSearch {
    pub progress: SearchProgress,
    pub busy: nat,
}

impl SharedSearch {
    /// The state that a step of one of `workers` workers leads to. Only one
    /// that is not busy can visit an entry, and only one that is busy can be
    /// done with a file.
    pub open spec fn after(self, workers: nat, step: WorkerStep) -> SharedSearch {
        match step {
            WorkerStep::Visit { active, kind, elapsed_ms } => if self.busy < workers {
                SharedSearch {
                    progress: self.progress.after(active, kind, elapsed_ms),
                    busy: if self.progress.goes_on(active) && kind == EntryKind::File {
                        self.busy + 1
                    } else {
                        self.busy
                    },
                }
            } else {
                self
            },
            WorkerStep::Judge { result } => if self.busy > 0 {
                SharedSearch {
                    progress: if result is Some {
                        self.progress.after_result()
                    } else {
                        self.progress
                    },
                    busy: (self.busy - 1) as nat,
                }
            } else {
                self
            },
        }
    }

    /// What is told in a step of one of `workers` workers.
    pub open spec fn told(self, workers: nat, step: WorkerStep) -> Option<SearchEvent> {
        match step {
            WorkerStep::Visit { active, kind, elapsed_ms } => if self.busy < workers {
                self.progress.told(active, kind, elapsed_ms)
            } else {
                None
            },
            WorkerStep::Judge { result: Some(item) } => if self.busy > 0 {
                Some(SearchEvent::Result { item })
            } else {
                None
            },
            WorkerStep::Judge { result: None } => None,
        }
    }

    /// What is told in some steps.
    pub open spec fn all_told(self, workers: nat, steps: Seq<WorkerStep>) -> Seq<SearchEvent>
        decreases steps.len(),
    {
        if steps.len() == 0 {
            Seq::empty()
        } else {
            let shorter = steps.drop_last();
            self.all_told(workers, shorter) + as_seq(
                self.after_all(workers, shorter).told(workers, steps.last()),
            )
        }
    }

    /// The state that some steps lead to.
    pub open spec fn after_all(self, workers: nat, steps: Seq<WorkerStep>) -> SharedSearch
        decreases steps.len(),
    {
        if steps.len() == 0 {
            self
        } else {
            self.after_all(workers, steps.drop_last()).after(workers, steps.last())
        }
    }
}

/// In whatever order the workers of a search do what they do, they find no
/// more files than they look at, and exceed the limit by less than the number
/// of workers. A single one never exceeds it.
pub proof fn results_stay_within_limits(
    id: u64,
    total: Option<usize>,
    workers: nat,
    steps: Seq<WorkerStep>,
)
    requires
        workers > 0,
        steps.len() < usize::MAX,
    ensures
        ({
            let progress = SearchProgress { id, scanned: 0, found: 0, last_progress_ms: 0, total };
            let end = (SharedSearch { progress, busy: 0 }).after_all(workers, steps);
            &&& end.progress.found + end.busy <= end.progress.scanned <= steps.len()
            &&& end.progress.found + end.busy < MAX_RESULTS + workers
            &&& end.progress.id == id
            &&& end.progress.total == total
            &&& end.busy <= workers
        }),
    decreases steps.len(),
{
    if steps.len() > 0 {
        results_stay_within_limits(id, total, workers, steps.drop_last());
    }
}

/// Once another search is the active one, no file is looked at any more, and
/// the only results to come are of files that were being looked at.
pub proof fn a_cancellation_ends_the_search(
    start: SharedSearch,
    workers: nat,
    steps: Seq<WorkerStep>,
)
    requires
        start.progress.found + start.busy <= usize::MAX,
        forall|i: int|
            0 <= i < steps.len() ==> (#[trigger] steps[i] matches WorkerStep::Visit { active, .. }
                ==> active != start.progress.id),
    ensures
        ({
            let end = start.after_all(workers, steps);
            &&& end.progress.scanned == start.progress.scanned
            &&& start.progress.found <= end.progress.found
            &&& end.progress.found + end.busy <= start.progress.found + start.busy
            &&& end.progress.id == start.progress.id
        }),
    decreases steps.len(),
{
    if steps.len() > 0 {
        let shorter = steps.drop_last();
        assert forall|i: int| 0 <= i < shorter.len() implies (
        #[trigger] shorter[i] matches WorkerStep::Visit { active, .. } ==> active
            != start.progress.id) by {
            assert(shorter[i] == steps[i]);
        }
        a_cancellation_ends_the_search(start, workers, shorter);
        assert(steps[steps.len() - 1] == steps.last());
    }
}

/// What is told, if anything, as a sequence.
pub open spec fn as_seq(event: Option<SearchEvent>) -> Seq<SearchEvent> {
    match event {
        Some(event) => seq![event],
        None => Seq::empty(),
    }
}

/// An entry that is met while files are counted.
pub struct CountStep {
    pub active: u64,
    pub kind: EntryKind,
    pub elapsed_ms: u64,
}

impl Catalog {
    /// The state that some entries lead to.
    pub open spec fn after_all(self, steps: Seq<CountStep>) -> Catalog
        decreases steps.len(),
    {
        if steps.len() == 0 {
            self
        } else {
            let step = steps.last();
            self.after_all(steps.drop_last()).after(step.active, step.kind, step.elapsed_ms)
        }
    }

    /// What is told when some entries are met.
    pub open spec fn all_told(self, steps: Seq<CountStep>) -> Seq<SearchEvent>
        decreases steps.len(),
    {
        if steps.len() == 0 {
            Seq::empty()
        } else {
            let step = steps.last();
            let before = steps.drop_last();
            self.all_told(before) + as_seq(
                self.after_all(before).told(step.active, step.kind, step.elapsed_ms),
            )
        }
    }
}

/// A whole search: the entries met while its files are counted, which search is
/// the active one then, what its workers do, and which search is the active one
/// at the end.
pub struct SearchCourse {
    pub pre_count: bool,
    pub id: u64,
    pub counted: Seq<CountStep>,
    pub active_then: u64,
    pub workers: nat,
    pub steps: Seq<WorkerStep>,
    pub active_at_end: u64,
}

impl SearchCourse {
    /// What is told from where the files are searched on.
    pub open spec fn told_from(self, progress: SearchProgress) -> Seq<SearchEvent> {
        let start = SharedSearch { progress, busy: 0 };
        start.all_told(self.workers, self.steps).push(
            start.after_all(self.workers, self.steps).progress.end(self.active_at_end),
        )
    }

    /// All that is told, from the first event to the last.
    pub open spec fn events(self) -> Seq<SearchEvent> {
        let id = self.id;
        if self.pre_count {
            let catalog = Catalog { id, discovered: 0, last_catalog_ms: 0 };
            let counted = catalog.after_all(self.counted);
            catalog.all_told(self.counted) + (if self.active_then != id {
                seq![cancelled_count()]
            } else {
                self.told_from(
                    SearchProgress {
                        id,
                        scanned: 0,
                        found: 0,
                        last_progress_ms: 0,
                        total: Some(counted.discovered),
                    },
                )
            })
        } else {
            self.told_from(
                SearchProgress { id, scanned: 0, found: 0, last_progress_ms: 0, total: None },
            )
        }
    }
}

/// How many of some events are results.
pub open spec fn results_in(events: Seq<SearchEvent>) -> nat {
    events.filter(|e: SearchEvent| e is Result).len()
}

/// Whether none of some events says that a search is over.
pub open spec fn none_finished(events: Seq<SearchEvent>) -> bool {
    forall|i: int| 0 <= i < events.len() ==> !((#[trigger] events[i]) is Finished)
}

/// Results are counted part by part.
proof fn lemma_results_add(a: Seq<SearchEvent>, b: Seq<SearchEvent>)
    ensures
        results_in(a + b) == results_in(a) + results_in(b),
        none_finished(a) && none_finished(b) ==> none_finished(a + b),
{
    Seq::filter_distributes_over_add(a, b, |e: SearchEvent| e is Result);
}

/// A single event counts if it is a result.
proof fn lemma_results_of(event: Option<SearchEvent>)
    ensures
        results_in(as_seq(event)) == (if event is Some && event->0 is Result {
            1nat
        } else {
            0nat
        }),
        !(event is Some && event->0 is Finished) ==> none_finished(as_seq(event)),
{
    let events = as_seq(event);
    reveal(Seq::filter);
    if event is Some {
        assert(events.drop_last() =~= Seq::<SearchEvent>::empty());
        assert(events.drop_last().filter(|e: SearchEvent| e is Result).len() == 0);
    }
}

/// While files are counted, no results are told, and no end.
proof fn lemma_counting_told(catalog: Catalog, steps: Seq<CountStep>)
    ensures
        results_in(catalog.all_told(steps)) == 0,
        none_finished(catalog.all_told(steps)),
    decreases steps.len(),
{
    if steps.len() == 0 {
        lemma_results_of(None);
    } else {
        let step = steps.last();
        let before = steps.drop_last();
        let event = catalog.after_all(before).told(step.active, step.kind, step.elapsed_ms);
        lemma_counting_told(catalog, before);
        lemma_results_of(event);
        lemma_results_add(catalog.all_told(before), as_seq(event));
    }
}

/// While files are searched, as many results are told as were found, and no
/// end.
proof fn lemma_searching_told(
    id: u64,
    total: Option<usize>,
    workers: nat,
    steps: Seq<WorkerStep>,
)
    requires
        workers > 0,
        steps.len() < usize::MAX,
    ensures
        ({
            let progress = SearchProgress { id, scanned: 0, found: 0, last_progress_ms: 0, total };
            let start = SharedSearch { progress, busy: 0 };
            let told = start.all_told(workers, steps);
            &&& results_in(told) == start.after_all(workers, steps).progress.found
            &&& none_finished(told)
        }),
    decreases steps.len(),
{
    let progress = SearchProgress { id, scanned: 0, found: 0, last_progress_ms: 0, total };
    let start = SharedSearch { progress, busy: 0 };
    if steps.len() == 0 {
        lemma_results_of(None);
    } else {
        let before = steps.drop_last();
        let event = start.after_all(workers, before).told(workers, steps.last());
        lemma_searching_told(id, total, workers, before);
        results_stay_within_limits(id, total, workers, before);
        lemma_results_of(event);
        lemma_results_add(start.all_told(workers, before), as_seq(event));
    }
}

/// A search tells once that it is over, and nothing after that. What it tells
/// then is as many files found as there were results told, and no fewer files
/// looked at.
pub proof fn a_search_finishes_once_and_last(course: SearchCourse)
    requires
        course.workers > 0,
        course.steps.len() < usize::MAX,
    ensures
        ({
            let events = course.events();
            &&& events.len() > 0
            &&& none_finished(events.drop_last())
            &&& events.last() matches SearchEvent::Finished { scanned, found, cancelled: _ }
            &&& found == results_in(events)
            &&& scanned >= found
        }),
{
    let id = course.id;
    let catalog = Catalog { id, discovered: 0, last_catalog_ms: 0 };
    let events = course.events();
    let counted = if course.pre_count {
        catalog.all_told(course.counted)
    } else {
        Seq::<SearchEvent>::empty()
    };
    lemma_counting_told(catalog, course.counted);
    lemma_results_of(None);
    if course.pre_count && course.active_then != id {
        let last = cancelled_count();
        lemma_results_of(Some(last));
        lemma_results_add(counted, as_seq(Some(last)));
        assert(events.drop_last() =~= counted);
    } else {
        let total = if course.pre_count {
            Some(catalog.after_all(course.counted).discovered)
        } else {
            None
        };
        let progress = SearchProgress { id, scanned: 0, found: 0, last_progress_ms: 0, total };
        let start = SharedSearch { progress, busy: 0 };
        let told = start.all_told(course.workers, course.steps);
        let last = start.after_all(course.workers, course.steps).progress.end(course.active_at_end);
        lemma_searching_told(id, total, course.workers, course.steps);
        results_stay_within_limits(id, total, course.workers, course.steps);
        lemma_results_of(Some(last));
        lemma_results_add(counted, told);
        lemma_results_add(counted + told, as_seq(Some(last)));
        assert(events =~= counted + told + as_seq(Some(last)));
        assert(events.drop_last() =~= counted + told);
    }
}

} // verus!
