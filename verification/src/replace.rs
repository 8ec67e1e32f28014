//! Replacing text in files: one file after the other is read, backed up if
//! that is wanted, and written.

use crate::compile::{lemma_replacement_source, replacement_matcher};
use crate::engines::{
    ascii_bytes, filled, finds_literals, free_of_odd_letters, in_order, only_spans_replaced,
    regex_expansion, regex_is_match, regex_replace_expanding, regex_replace_literally,
    regex_setting, regex_spans, spans_of, spliced, utf8_of, word_source,
};
use crate::hits::{
    is_leftmost, leftmost_spans, leftmost_spans_iff_a_term_occurs, leftmost_spans_iff_a_term_stands,
    stands,
};
use crate::matchers::{
    are_matchers_for, is_matcher_for, is_valid, lemma_sum, lemma_word_source, literal_search,
    literal_searches_find_terms, replacement_source, tells_invalid_expression, text_count,
    SearchMatchers,
};
use crate::names::{backup_candidate, backup_path, NUMBER_LIMIT, BackupPlace};
use crate::occurrences::occurs;
use crate::request::{ReplaceRequest, SearchRequest};
use crate::terms::{lemma_distinct_from, lemma_query_lines_filled, query_lines, query_terms};
use crate::text::about;
use regex::bytes::Regex;
use vstd::prelude::*;
use vstd::utf8::{encode_utf8, is_ascii_chars};

verus! {

/// What is to be done next.
pub enum ReplacePhase {
    /// The current file is to be read.
    Read,
    /// It is to be found out whether there is anything in the place for a
    /// backup; those tried before are taken. The bytes will be written later.
    Probe { bytes: Vec<u8>, taken: usize, place: String },
    /// The current file is to be copied to this place; the bytes will be
    /// written then.
    BackUp { bytes: Vec<u8>, place: String },
    /// This is to be written to the current file.
    Write(Vec<u8>),
    /// Nothing: this is the outcome, with the number of files changed.
    Done(Result<usize, String>),
}

/// A replacement on its way through the files.
pub struct ReplaceRun {
    pub paths: Vec<String>,
    pub expression: Regex,
    pub replacement: String,
    pub use_regex: bool,
    pub create_backup: bool,
    pub current: usize,
    pub changed: usize,
    pub phase: ReplacePhase,
}

impl ReplaceRun {
    /// Whether there is a current file for what is to be done.
    pub open spec fn wf(self) -> bool {
        &&& self.changed <= self.current <= self.paths@.len()
        &&& self.phase is Done || self.current < self.paths@.len()
        &&& self.phase matches ReplacePhase::Probe { taken, place, .. } ==> taken < NUMBER_LIMIT - 1
            && place@ == backup_candidate(self.here(), taken as nat)
    }

    /// Whether two states are of the same replacement.
    pub open spec fn same_job(self, other: ReplaceRun) -> bool {
        &&& self.paths == other.paths
        &&& self.expression == other.expression
        &&& self.replacement == other.replacement
        &&& self.use_regex == other.use_regex
        &&& self.create_backup == other.create_backup
    }

    /// Whether two states are at the same file.
    pub open spec fn same_file(self, other: ReplaceRun) -> bool {
        &&& self.same_job(other)
        &&& self.current == other.current
        &&& self.changed == other.changed
    }

    /// The path of the current file.
    pub open spec fn here(self) -> Seq<char> {
        self.paths@[self.current as int]@
    }

    /// Whether the run has ended with a message.
    pub open spec fn failed_with(self, message: Seq<char>) -> bool {
        self.phase matches ReplacePhase::Done(Err(m)) && m@ == message
    }

    /// Whether this state comes after `before` once its file is done with.
    pub open spec fn moved_on(self, before: ReplaceRun, changed: int) -> bool {
        &&& self.same_job(before)
        &&& self.current == before.current + 1
        &&& self.changed == changed
        &&& if self.current < self.paths@.len() {
            self.phase is Read
        } else {
            self.phase matches ReplacePhase::Done(Ok(n)) && n == changed
        }
    }

    /// What becomes of a file's content.
    pub open spec fn content_after(self, original: Seq<u8>) -> Seq<u8> {
        let replacement = encode_utf8(self.replacement@);
        if self.use_regex {
            let (source, case_insensitive, unicode) = regex_setting(self.expression);
            regex_expansion(source, case_insensitive, unicode, original, replacement)
        } else {
            spliced(original, spans_of(self.expression, original), replacement, 0)
        }
    }

    /// Whether this state comes after `before` once its file was read.
    pub open spec fn after_content(self, before: ReplaceRun, content: Result<Vec<u8>, String>) -> bool {
        match content {
            Err(reason) => self.same_file(before) && self.failed_with(
                "Erro ao ler "@ + before.here() + ": "@ + reason@,
            ),
            Ok(original) => if spans_of(before.expression, original@).len() == 0 {
                self.moved_on(before, before.changed as int)
            } else {
                &&& self.same_file(before)
                &&& if before.create_backup {
                    self.phase matches ReplacePhase::Probe { bytes, taken, place } && bytes@
                        == before.content_after(original@) && taken == 0 && place@
                        == backup_candidate(before.here(), 0)
                } else {
                    self.phase matches ReplacePhase::Write(bytes) && bytes@
                        == before.content_after(original@)
                }
            },
        }
    }

    /// What is to be written to the current file, now or once it is backed up.
    pub open spec fn pending(self) -> Option<Seq<u8>> {
        match self.phase {
            ReplacePhase::Probe { bytes, .. } => Some(bytes@),
            ReplacePhase::BackUp { bytes, .. } => Some(bytes@),
            ReplacePhase::Write(bytes) => Some(bytes@),
            _ => None,
        }
    }

    /// What is to be written in place of `original` where it is literals that
    /// are replaced: nothing if none of them occurs.
    pub open spec fn literals_replaced(
        self,
        literals: Seq<Seq<char>>,
        fold: bool,
        words: bool,
        original: Seq<u8>,
    ) -> Option<Seq<u8>> {
        let found = leftmost_spans(utf8_of(literals), fold, words, original, 0);
        if found.len() == 0 {
            None
        } else {
            Some(spliced(original, found, encode_utf8(self.replacement@), 0))
        }
    }

    /// Whether this is a replacement of just what a request searches for: text
    /// as it stands, with regard to case or as whole words.
    pub open spec fn replaces_what_is_sought(self, req: SearchRequest) -> bool {
        &&& !req.use_regex
        &&& req.case_sensitive || req.whole_word
        &&& query_lines(req.query@).len() > 0
        &&& regex_setting(self.expression) == (
            replacement_source(req.query@, false, req.whole_word),
            !req.case_sensitive,
            true,
        )
    }

    /// Whether this state comes after `before` once a place for the backup was
    /// looked at. One that is free is used; after the last one that is tried,
    /// the first is used whatever is there.
    pub open spec fn after_probe(self, before: ReplaceRun, exists: bool) -> bool {
        let tried = before.phase->Probe_taken;
        &&& self.same_file(before)
        &&& self.pending() == before.pending()
        &&& if !exists {
            self.phase matches ReplacePhase::BackUp { place, .. } && place
                == before.phase->Probe_place
        } else if tried + 1 < NUMBER_LIMIT - 1 {
            self.phase matches ReplacePhase::Probe { taken, place, .. } && taken == tried + 1
                && place@ == backup_candidate(before.here(), (tried + 1) as nat)
        } else {
            self.phase matches ReplacePhase::BackUp { place, .. } && place@ == backup_candidate(
                before.here(),
                0,
            )
        }
    }

    /// Whether this state comes after `before` once its file was backed up.
    pub open spec fn after_copy(self, before: ReplaceRun, copied: Result<(), String>) -> bool {
        &&& self.same_file(before)
        &&& match copied {
            Err(reason) => self.failed_with(
                "Erro ao criar backup de "@ + before.here() + ": "@ + reason@,
            ),
            Ok(_) => self.phase matches ReplacePhase::Write(bytes) && bytes
                == before.phase->BackUp_bytes,
        }
    }

    /// Whether this state comes after `before` once its file was written.
    pub open spec fn after_write(self, before: ReplaceRun, written: Result<(), String>) -> bool {
        match written {
            Err(reason) => self.same_file(before) && self.failed_with(
                "Erro ao salvar "@ + before.here() + ": "@ + reason@,
            ),
            Ok(_) => self.moved_on(before, before.changed + 1),
        }
    }

    /// The path of the file that is to be read, backed up or written.
    pub fn path(&self) -> (path: &str)
        requires
            self.wf(),
            !(self.phase is Done),
        ensures
            path@ == self.here(),
    {
        self.paths[self.current].as_str()
    }

    /// What is written in place of a file's content, or nothing if there is
    /// no match in it. Where it is literals that are replaced, this is done
    /// where they occur, from left to right, the first of them preferred. Text
    /// as it stands, with regard to case or as whole words, is replaced in just
    /// the contents in which a search for it finds something. Each match is
    /// replaced once, and what stands outside of the matches is kept.
    pub fn replaced_content(&self, original: &[u8]) -> (r: Option<Vec<u8>>)
        ensures
            match r {
                None => spans_of(self.expression, original@).len() == 0,
                Some(bytes) => spans_of(self.expression, original@).len() > 0 && bytes@
                    == self.content_after(original@),
            },
            r is Some && self.use_regex ==> r->0@ == regex_expansion(
                regex_setting(self.expression).0,
                regex_setting(self.expression).1,
                regex_setting(self.expression).2,
                original@,
                encode_utf8(self.replacement@),
            ),
            r is Some && (!self.use_regex || !encode_utf8(self.replacement@).contains(36u8))
                ==> r->0@ == spliced(
                original@,
                spans_of(self.expression, original@),
                encode_utf8(self.replacement@),
                0,
            ),
            r is Some ==> only_spans_replaced(
                original@,
                spans_of(self.expression, original@),
                r->0@,
            ),
            forall|literals: Seq<Seq<char>>, fold: bool, words: bool|
                #![trigger finds_literals(self.expression, literals, fold, words, original@)]
                finds_literals(self.expression, literals, fold, words, original@) && !self.use_regex ==> (
                match r {
                    None => None,
                    Some(bytes) => Some(bytes@),
                }) == self.literals_replaced(literals, fold, words, original@),
            forall|matchers: SearchMatchers, req: SearchRequest|
                #![trigger are_matchers_for(matchers, req)]
                are_matchers_for(matchers, req) && matchers.wf() && self.replaces_what_is_sought(
                    req,
                ) ==> r is Some == (matchers.total(original@) > 0),
    {
        let found = regex_is_match(&self.expression, original);
        proof {
            assert forall|matchers: SearchMatchers, req: SearchRequest|
                #![trigger are_matchers_for(matchers, req)]
                are_matchers_for(matchers, req) && matchers.wf() && self.replaces_what_is_sought(
                    req,
                ) implies found == (matchers.total(original@) > 0) by {
                let lines = query_lines(req.query@);
                if req.whole_word {
                    lemma_replacement_source(req.query@, true);
                } else {
                    plain_replacements_find_lines(
                        self.expression,
                        req.query@,
                        true,
                        false,
                        original@,
                    );
                    assert(finds_literals(self.expression, lines, false, false, original@));
                }
                lemma_found_alike(matchers, req, original@, found);
            }
        }
        if !found {
            return None;
        }
        let replacement = self.replacement.as_str().as_bytes();
        if self.use_regex {
            Some(regex_replace_expanding(&self.expression, original, replacement))
        } else {
            proof {
                lemma_spliced_is_filled(
                    original@,
                    spans_of(self.expression, original@),
                    replacement@,
                    0,
                );
            }
            Some(regex_replace_literally(&self.expression, original, replacement))
        }
    }

    /// Goes on to the next file.
    fn advance(self, changed: usize) -> (next: ReplaceRun)
        requires
            self.current < self.paths@.len(),
            changed <= self.current + 1,
        ensures
            next.wf(),
            next.moved_on(self, changed as int),
    {
        let count: usize = self.paths.len();
        let current: usize = self.current + 1;
        let phase = if current < count {
            ReplacePhase::Read
        } else {
            ReplacePhase::Done(Ok(changed))
        };
        ReplaceRun { current, changed, phase, ..self }
    }

    /// What follows once the current file was read, or could not be.
    pub fn file_read(self, content: Result<Vec<u8>, String>) -> (next: ReplaceRun)
        requires
            self.wf(),
            self.phase is Read,
        ensures
            next.wf(),
            next.after_content(self, content),
            forall|literals: Seq<Seq<char>>, fold: bool, words: bool|
                #![trigger finds_literals(self.expression, literals, fold, words, content->Ok_0@)]
                content is Ok && !self.use_regex && finds_literals(
                    self.expression,
                    literals,
                    fold,
                    words,
                    content->Ok_0@,
                ) ==> next.pending() == self.literals_replaced(literals, fold, words, content->Ok_0@),
            forall|matchers: SearchMatchers, req: SearchRequest|
                #![trigger are_matchers_for(matchers, req)]
                content is Ok && are_matchers_for(matchers, req) && matchers.wf()
                    && self.replaces_what_is_sought(req) ==> next.pending() is Some == (
                matchers.total(content->Ok_0@) > 0),
    {
        match content {
            Err(reason) => {
                let message = about(
                    "Erro ao ler ",
                    self.paths[self.current].as_str(),
                    reason.as_str(),
                );
                ReplaceRun { phase: ReplacePhase::Done(Err(message)), ..self }
            },
            Ok(original) => match self.replaced_content(original.as_slice()) {
                None => {
                    let changed: usize = self.changed;
                    self.advance(changed)
                },
                Some(bytes) => {
                    let phase = if self.create_backup {
                        match backup_path(self.paths[self.current].as_str(), 0) {
                            BackupPlace::Try(place) => ReplacePhase::Probe {
                                bytes,
                                taken: 0,
                                place,
                            },
                            BackupPlace::Use(place) => ReplacePhase::BackUp { bytes, place },
                        }
                    } else {
                        ReplacePhase::Write(bytes)
                    };
                    ReplaceRun { phase, ..self }
                },
            },
        }
    }

    /// What follows once it is known whether there is anything in the place
    /// for a backup.
    pub fn place_probed(self, exists: bool) -> (next: ReplaceRun)
        requires
            self.wf(),
            self.phase is Probe,
        ensures
            next.wf(),
            next.after_probe(self, exists),
    {
        let ReplaceRun {
            paths,
            expression,
            replacement,
            use_regex,
            create_backup,
            current,
            changed,
            phase,
        } = self;
        let phase = match phase {
            ReplacePhase::Probe { bytes, taken, place } => if exists {
                match backup_path(paths[current].as_str(), taken + 1) {
                    BackupPlace::Try(place) => ReplacePhase::Probe {
                        bytes,
                        taken: taken + 1,
                        place,
                    },
                    BackupPlace::Use(place) => ReplacePhase::BackUp { bytes, place },
                }
            } else {
                ReplacePhase::BackUp { bytes, place }
            },
            other => other,
        };
        ReplaceRun {
            paths,
            expression,
            replacement,
            use_regex,
            create_backup,
            current,
            changed,
            phase,
        }
    }

    /// What follows once the current file was backed up, or could not be.
    pub fn file_backed_up(self, copied: Result<(), String>) -> (next: ReplaceRun)
        requires
            self.wf(),
            self.phase is BackUp,
        ensures
            next.wf(),
            next.after_copy(self, copied),
    {
        match copied {
            Err(reason) => {
                let message = about(
                    "Erro ao criar backup de ",
                    self.paths[self.current].as_str(),
                    reason.as_str(),
                );
                ReplaceRun { phase: ReplacePhase::Done(Err(message)), ..self }
            },
            Ok(_) => {
                let ReplaceRun {
                    paths,
                    expression,
                    replacement,
                    use_regex,
                    create_backup,
                    current,
                    changed,
                    phase,
                } = self;
                let phase = match phase {
                    ReplacePhase::BackUp { bytes, .. } => ReplacePhase::Write(bytes),
                    other => other,
                };
                ReplaceRun {
                    paths,
                    expression,
                    replacement,
                    use_regex,
                    create_backup,
                    current,
                    changed,
                    phase,
                }
            },
        }
    }

    /// What follows once the current file was written, or could not be.
    pub fn file_written(self, written: Result<(), String>) -> (next: ReplaceRun)
        requires
            self.wf(),
            self.phase is Write,
        ensures
            next.wf(),
            next.after_write(self, written),
    {
        match written {
            Err(reason) => {
                let message = about(
                    "Erro ao salvar ",
                    self.paths[self.current].as_str(),
                    reason.as_str(),
                );
                ReplaceRun { phase: ReplacePhase::Done(Err(message)), ..self }
            },
            Ok(_) => {
                let count: usize = self.paths.len();
                assert(self.changed < count);
                let changed: usize = self.changed + 1;
                self.advance(changed)
            },
        }
    }
}

/// Begins a replacement in files.
pub fn replace_in_files(req: ReplaceRequest) -> (r: Result<ReplaceRun, String>)
    ensures
        match r {
            Ok(run) => {
                &&& run.wf()
                &&& req.paths@.len() > 0
                &&& run.paths == req.paths
                &&& run.replacement == req.replacement
                &&& run.use_regex == req.use_regex
                &&& run.create_backup == req.create_backup
                &&& run.current == 0
                &&& run.changed == 0
                &&& run.phase is Read
                &&& regex_setting(run.expression) == (
                    replacement_source(req.query@, req.use_regex, req.whole_word),
                    !req.case_sensitive,
                    true,
                )
            },
            Err(m) => if req.paths@.len() == 0 {
                m@ == "Selecione ao menos um arquivo."@
            } else {
                tells_invalid_expression(
                    replacement_source(req.query@, req.use_regex, req.whole_word),
                    !req.case_sensitive,
                    m@,
                )
            },
        },
        req.paths@.len() > 0 && (r is Ok || !req.use_regex) ==> is_valid(
            replacement_source(req.query@, req.use_regex, req.whole_word),
            !req.case_sensitive,
        ),
{
    if req.paths.len() == 0 {
        return Err("Selecione ao menos um arquivo.".to_owned());
    }
    let search = SearchRequest {
        directory: ".".to_owned(),
        query: req.query,
        mode: "content".to_owned(),
        use_regex: req.use_regex,
        case_sensitive: req.case_sensitive,
        whole_word: req.whole_word,
        include_hidden: true,
        include_subfolders: true,
        pre_count: false,
        file_pattern: "*".to_owned(),
        min_size: None,
        max_size: None,
        min_modified: None,
        max_modified: None,
    };
    match replacement_matcher(&search) {
        Err(m) => Err(m),
        Ok(expression) => Ok(
            ReplaceRun {
                paths: req.paths,
                expression,
                replacement: req.replacement,
                use_regex: req.use_regex,
                create_backup: req.create_backup,
                current: 0,
                changed: 0,
                phase: ReplacePhase::Read,
            },
        ),
    }
}

/// Where each span is replaced by the same, it is replaced by a part of its own.
proof fn lemma_spliced_is_filled(
    haystack: Seq<u8>,
    spans: Seq<(int, int)>,
    replacement: Seq<u8>,
    from: int,
)
    ensures
        spliced(haystack, spans, replacement, from) == filled(
            haystack,
            spans,
            Seq::new(spans.len(), |i: int| replacement),
            from,
        ),
    decreases spans.len(),
{
    if spans.len() > 0 {
        let parts = Seq::new(spans.len(), |i: int| replacement);
        let rest = spans.skip(1);
        lemma_spliced_is_filled(haystack, rest, replacement, spans[0].1);
        assert(parts.skip(1) =~= Seq::new(rest.len(), |i: int| replacement));
    }
}

/// What is found of the query's lines is found of the query's terms.
proof fn lemma_found_alike(
    matchers: SearchMatchers,
    req: SearchRequest,
    content: Seq<u8>,
    found: bool,
)
    requires
        are_matchers_for(matchers, req),
        matchers.wf(),
        !req.use_regex,
        req.case_sensitive || req.whole_word,
        req.whole_word ==> found == (exists|i: int|
            0 <= i < query_lines(req.query@).len() && regex_spans(
                word_source(seq![#[trigger] query_lines(req.query@)[i]]),
                !req.case_sensitive,
                true,
                content,
            ).len() > 0),
        !req.whole_word ==> found == (leftmost_spans(
            utf8_of(query_lines(req.query@)),
            false,
            false,
            content,
            0,
        ).len() > 0),
    ensures
        found == (matchers.total(content) > 0),
{
    let lines = query_lines(req.query@);
    let terms = query_terms(req.query@);
    if req.whole_word {
        let list = matchers->Expressions_0@;
        lemma_distinct_from(lines);
        lemma_sum(list, content, list.len());
        assert forall|i: int| 0 <= i < terms.len() implies (#[trigger] list[i]).total(content)
            == regex_spans(
            word_source(seq![terms[i]]),
            !req.case_sensitive,
            true,
            content,
        ).len() by {
            assert(is_matcher_for(list[i], req, terms[i]));
            lemma_word_source(req, terms[i]);
        }
        if found {
            let i = choose|i: int|
                0 <= i < lines.len() && regex_spans(
                    word_source(seq![#[trigger] lines[i]]),
                    !req.case_sensitive,
                    true,
                    content,
                ).len() > 0;
            assert(lines.contains(lines[i]));
            assert(terms.contains(lines[i]));
            let j = choose|j: int| 0 <= j < terms.len() && terms[j] == lines[i];
            assert(list[j].total(content) > 0);
        }
        if matchers.total(content) > 0 {
            let j = choose|j: int| 0 <= j < list.len() && (#[trigger] list[j]).total(content) > 0;
            assert(terms.contains(terms[j]));
            assert(lines.contains(terms[j]));
            let i = choose|i: int| 0 <= i < lines.len() && lines[i] == terms[j];
            assert(regex_spans(
                word_source(seq![lines[i]]),
                !req.case_sensitive,
                true,
                content,
            ).len() > 0);
        }
    } else {
        search_and_replacement_agree(matchers, req, content);
    }
}

/// In ASCII content a term stands as a word for the search exactly where the
/// replacement of the same query has a word to replace.
pub proof fn search_and_replacement_agree_on_words(
    query: Seq<char>,
    fold: bool,
    content: Seq<u8>,
)
    ensures
        leftmost_spans(utf8_of(query_lines(query)), fold, true, content, 0).len() > 0
            <==> exists|i: int|
            0 <= i < query_terms(query).len() && text_count(
                #[trigger] query_terms(query)[i],
                fold,
                true,
                content,
            ) > 0,
{
    let terms = query_terms(query);
    let lines = query_lines(query);
    let bytes = utf8_of(lines);
    lemma_query_lines_filled(query);
    lemma_distinct_from(lines);
    assert forall|i: int| 0 <= i < bytes.len() implies (#[trigger] bytes[i]).len() > 0 by {
        assert(lines[i].len() > 0);
    }
    leftmost_spans_iff_a_term_stands(bytes, fold, true, content);
    if leftmost_spans(bytes, fold, true, content, 0).len() > 0 {
        let (i, at) = choose|i: int, at: int|
            0 <= i < bytes.len() && #[trigger] stands(content, bytes[i], fold, true, at);
        assert(lines.contains(lines[i]));
        assert(terms.contains(lines[i]));
        let j = choose|j: int| 0 <= j < terms.len() && terms[j] == lines[i];
        let one = utf8_of(seq![terms[j]]);
        assert(one[0] == bytes[i]);
        leftmost_spans_iff_a_term_stands(one, fold, true, content);
        assert(stands(content, one[0], fold, true, at));
        assert(text_count(terms[j], fold, true, content) > 0);
    }
    if exists|i: int|
        0 <= i < terms.len() && text_count(#[trigger] terms[i], fold, true, content) > 0 {
        let i = choose|i: int|
            0 <= i < terms.len() && text_count(#[trigger] terms[i], fold, true, content) > 0;
        assert(terms.contains(terms[i]));
        assert(lines.contains(terms[i]));
        let j = choose|j: int| 0 <= j < lines.len() && lines[j] == terms[i];
        let one = utf8_of(seq![terms[i]]);
        assert(one[0] == bytes[j]);
        assert(one[0].len() > 0);
        leftmost_spans_iff_a_term_stands(one, fold, true, content);
        let (k, at) = choose|k: int, at: int|
            0 <= k < one.len() && #[trigger] stands(content, one[k], fold, true, at);
        assert(stands(content, bytes[j], fold, true, at));
    }
}

/// The expression for a replacement of text as it stands finds the query's
/// lines, as words if whole words are asked for. Whole words need ASCII
/// content; where case is ignored, the lines have to be ASCII and the content
/// without odd letters.
pub proof fn plain_replacements_find_lines(
    expression: Regex,
    query: Seq<char>,
    case_sensitive: bool,
    whole_word: bool,
    content: Seq<u8>,
)
    requires
        query_lines(query).len() > 0,
        regex_setting(expression) == (
            replacement_source(query, false, whole_word),
            !case_sensitive,
            true,
        ),
        whole_word ==> ascii_bytes(content),
        case_sensitive || (free_of_odd_letters(content) && forall|i: int|
            0 <= i < query_lines(query).len() ==> is_ascii_chars(#[trigger] query_lines(query)[i])),
    ensures
        finds_literals(expression, query_lines(query), !case_sensitive, whole_word, content),
{
    let lines = query_lines(query);
    lemma_query_lines_filled(query);
    lemma_replacement_source(query, whole_word);
}

/// Where a search byte by byte finds something, a replacement of the same
/// query has something to replace, and the other way round.
pub proof fn search_and_replacement_agree(
    matchers: SearchMatchers,
    req: SearchRequest,
    content: Seq<u8>,
)
    requires
        literal_search(req),
        are_matchers_for(matchers, req),
        matchers.wf(),
    ensures
        matchers.total(content) > 0 <==> leftmost_spans(
            utf8_of(query_lines(req.query@)),
            !req.case_sensitive,
            false,
            content,
            0,
        ).len() > 0,
{
    let terms = query_terms(req.query@);
    let lines = query_lines(req.query@);
    let bytes = utf8_of(lines);
    let fold = !req.case_sensitive;
    lemma_query_lines_filled(req.query@);
    lemma_distinct_from(lines);
    literal_searches_find_terms(matchers, req, content);
    assert forall|i: int| 0 <= i < bytes.len() implies (#[trigger] bytes[i]).len() > 0 by {
        assert(lines[i].len() > 0);
    }
    leftmost_spans_iff_a_term_occurs(bytes, fold, content);
    if exists|i: int|
        0 <= i < terms.len() && occurs(content, encode_utf8(#[trigger] terms[i]), fold) {
        let i = choose|i: int|
            0 <= i < terms.len() && occurs(content, encode_utf8(#[trigger] terms[i]), fold);
        assert(terms.contains(terms[i]));
        assert(lines.contains(terms[i]));
        let j = choose|j: int| 0 <= j < lines.len() && lines[j] == terms[i];
        assert(occurs(content, bytes[j], fold));
    }
    if exists|i: int| 0 <= i < bytes.len() && #[trigger] occurs(content, bytes[i], fold) {
        let i = choose|i: int| 0 <= i < bytes.len() && #[trigger] occurs(content, bytes[i], fold);
        assert(lines.contains(lines[i]));
        assert(terms.contains(lines[i]));
        let j = choose|j: int| 0 <= j < terms.len() && terms[j] == lines[i];
        assert(occurs(content, encode_utf8(terms[j]), fold));
    }
}

/// Whether one state of a replacement follows another.
pub open spec fn follows(before: ReplaceRun, after: ReplaceRun) -> bool {
    ||| before.phase is Read && exists|content: Result<Vec<u8>, String>|
        after.after_content(before, content)
    ||| before.phase is Probe && exists|found: bool| after.after_probe(before, found)
    ||| before.phase is BackUp && exists|copied: Result<(), String>|
        after.after_copy(before, copied)
    ||| before.phase is Write && exists|written: Result<(), String>|
        after.after_write(before, written)
}

/// Where backups are wanted, a file is written only after its backup was made
/// without failure.
pub proof fn writing_waits_for_the_backup(before: ReplaceRun, after: ReplaceRun)
    requires
        follows(before, after),
        after.create_backup,
        after.phase is Write,
    ensures
        before.phase is BackUp,
        after.after_copy(before, Ok(())),
{
    if before.phase is BackUp {
        let copied = choose|copied: Result<(), String>| after.after_copy(before, copied);
        assert(copied is Ok);
    }
}

/// A backup goes to a place that was found free, or, when every place that is
/// tried was found taken, to the first one.
pub proof fn backups_go_to_free_places(before: ReplaceRun, after: ReplaceRun)
    requires
        before.wf(),
        follows(before, after),
        after.phase is BackUp,
    ensures
        before.phase is Probe,
        after.same_file(before),
        after.after_probe(before, false) || (after.after_probe(before, true)
            && before.phase->Probe_taken == NUMBER_LIMIT - 2 && after.phase->BackUp_place@
            == backup_candidate(before.here(), 0)),
{
    if before.phase is Probe {
        let found = choose|found: bool| after.after_probe(before, found);
        assert(after.after_probe(before, found));
    }
}

/// Whether states follow one another from the beginning of a replacement.
pub open spec fn is_course(states: Seq<ReplaceRun>) -> bool {
    &&& states.len() > 0
    &&& states[0].current == 0 && states[0].changed == 0 && states[0].phase is Read
    &&& forall|i: int|
        0 <= i < states.len() - 1 ==> follows(#[trigger] states[i], states[i + 1])
}

/// How many files were written in the course of a replacement.
pub open spec fn files_written(states: Seq<ReplaceRun>) -> nat
    decreases states.len(),
{
    if states.len() < 2 {
        0
    } else {
        let before = states[states.len() - 2];
        files_written(states.drop_last()) + (if before.phase is Write && states.last().current
            != before.current {
            1nat
        } else {
            0nat
        })
    }
}

/// The number of files changed is the number of files written, at every
/// state, and so in the outcome.
pub proof fn changes_are_files_written(states: Seq<ReplaceRun>)
    requires
        is_course(states),
    ensures
        states.last().changed == files_written(states),
        states.last().phase matches ReplacePhase::Done(Ok(n)) ==> n == files_written(states),
    decreases states.len(),
{
    if states.len() >= 2 {
        let before = states[states.len() - 2];
        let after = states.last();
        let shorter = states.drop_last();
        assert forall|i: int| 0 <= i < shorter.len() - 1 implies follows(
            #[trigger] shorter[i],
            shorter[i + 1],
        ) by {
            assert(follows(states[i], states[i + 1]));
        }
        changes_are_files_written(shorter);
        assert(shorter.last() == before);
        assert(follows(states[states.len() - 2], states[states.len() - 2 + 1]));
    }
}

/// What stands outside of the matches stays, so only the matches account for
/// a change of length.
pub proof fn only_matches_change(
    haystack: Seq<u8>,
    spans: Seq<(int, int)>,
    replacement: Seq<u8>,
    from: int,
)
    requires
        in_order(spans, haystack.len() as int),
        0 <= from <= haystack.len(),
        spans.len() > 0 ==> from <= spans[0].0,
    ensures
        spliced(haystack, spans, replacement, from).len() == haystack.len() - from
            + spans.len() * replacement.len() - covered(spans),
        spans.len() == 0 ==> spliced(haystack, spans, replacement, from) == haystack.skip(from),
    decreases spans.len(),
{
    if spans.len() > 0 {
        let rest = spans.skip(1);
        assert forall|i: int| 0 <= i < rest.len() implies 0 <= (#[trigger] rest[i]).0 <= rest[i].1
            <= haystack.len() by {
            assert(rest[i] == spans[i + 1]);
        }
        assert forall|i: int, j: int| 0 <= i < j < rest.len() implies (#[trigger] rest[i]).1 <= (
        #[trigger] rest[j]).0 && rest[i].1 < rest[j].1 by {
            assert(rest[i] == spans[i + 1] && rest[j] == spans[j + 1]);
        }
        assert(0 <= spans[0].0 <= spans[0].1 <= haystack.len());
        if rest.len() > 0 {
            assert(rest[0] == spans[1]);
            assert(spans[0].1 <= spans[1].0);
        }
        only_matches_change(haystack, rest, replacement, spans[0].1);
        let n = spans.len() as int;
        let r = replacement.len() as int;
        assert(n * r == (n - 1) * r + r) by (nonlinear_arith);
    }
}

/// A text that is replaced by itself, with regard to case, stays as it is, and
/// so does all around it.
pub proof fn a_text_replaced_by_itself_stays(text: Seq<u8>, haystack: Seq<u8>, from: int)
    requires
        text.len() > 0,
        0 <= from <= haystack.len(),
    ensures
        spliced(haystack, leftmost_spans(seq![text], false, false, haystack, from), text, from)
            == haystack.skip(from),
    decreases haystack.len() - from,
{
    let texts = seq![text];
    if exists|found: (int, int)| is_leftmost(texts, false, false, haystack, from, found) {
        let found = choose|found: (int, int)| is_leftmost(texts, false, false, haystack, from, found);
        let end = found.1 + text.len();
        let rest = leftmost_spans(texts, false, false, haystack, end);
        assert(texts[found.0] == text);
        assert(leftmost_spans(texts, false, false, haystack, from) == seq![(found.1, end)] + rest);
        assert((seq![(found.1, end)] + rest).skip(1) =~= rest);
        assert(haystack.subrange(found.1, end) =~= text);
        a_text_replaced_by_itself_stays(text, haystack, end);
        assert(haystack.subrange(from, found.1) + text + haystack.skip(end) =~= haystack.skip(from));
    }
}

/// How many bytes some spans cover.
pub open spec fn covered(spans: Seq<(int, int)>) -> int
    decreases spans.len(),
{
    if spans.len() == 0 {
        0
    } else {
        spans[0].1 - spans[0].0 + covered(spans.skip(1))
    }
}

} // verus!
