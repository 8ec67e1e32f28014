//! One file's way through a search: its name, then what is known of it, then
//! its content, and whether it is a result.

use crate::engines::{filters_names, regex_is_match, spans_of};
use crate::matchers::{tally, text_count, texts_counted, SearchMatchers};
use crate::request::{SearchRequest, SearchResult};
use crate::search::{ascii_patterns, is_filter_for};
use crate::text::same_text;
use crate::wildcard::{selects, wildcard_values};
use regex::bytes::Regex;
use vstd::prelude::*;
use vstd::utf8::encode_utf8;

verus! {

/// The content of larger files is not searched.
pub const MAX_CONTENT_BYTES: u64 = 256 * 1024 * 1024;

/// The content of larger files is not read into a buffer that is kept.
pub const REUSABLE_BUFFER_BYTES: u64 = 1024 * 1024;

/// What is known of a file besides its name.
pub struct FileFacts {
    pub path: String,
    pub size: u64,
    /// When it was modified, in seconds since 1970, where that is known and
    /// was not before.
    pub since_epoch: Option<u64>,
}

/// A file whose content is to be searched.
pub struct FoundFile {
    pub path: String,
    pub size: u64,
    pub modified: u64,
}

/// What is to be done next.
pub enum InspectionPhase {
    /// It is to be found out what there is to know of the file.
    Facts,
    /// The content is to be read into the buffer that is kept.
    ReadReusing(FoundFile),
    /// The content is to be read.
    ReadWhole(FoundFile),
    /// Nothing: this is the outcome, a result if the file is one.
    Done(Option<SearchResult>),
    /// Nothing: there are more matches than the machine has numbers for.
    Overflow,
}

/// A file on its way through a search.
pub struct Inspection {
    pub name: String,
    pub phase: InspectionPhase,
}

/// Whether a file's size and time are within the bounds of a request.
pub open spec fn within_bounds(req: SearchRequest, size: u64, modified: u64) -> bool {
    &&& req.min_size is Some ==> req.min_size->0 <= size
    &&& req.max_size is Some ==> size <= req.max_size->0
    &&& req.min_modified is Some ==> req.min_modified->0 <= modified
    &&& req.max_modified is Some ==> modified <= req.max_modified->0
}

/// When a file was modified, as far as it is known.
pub open spec fn modified_at(since_epoch: Option<u64>) -> u64 {
    match since_epoch {
        Some(s) => s,
        None => 0,
    }
}

/// Whether a name passes a filter.
pub open spec fn passes(filter: Option<Regex>, name: Seq<char>) -> bool {
    match filter {
        None => true,
        Some(regex) => spans_of(regex, encode_utf8(name)).len() > 0,
    }
}

/// How many matches there are in a file: in a search by name the number of
/// terms that are found in its name, in any other the number of matches in its
/// content, if it is not too large and could be read.
pub open spec fn matches_in(
    req: SearchRequest,
    matchers: SearchMatchers,
    name: Seq<char>,
    size: u64,
    content: Option<Seq<u8>>,
) -> nat {
    if req.mode@ == "name"@ {
        tally(matchers.terms(), |i: int| matchers.finds(encode_utf8(name), i))
    } else if size > MAX_CONTENT_BYTES {
        0
    } else {
        match content {
            Some(bytes) => matchers.total(bytes),
            None => 0,
        }
    }
}

/// How many matches a search is told of a file: those in it, if its name passes
/// the filter, and its size and time are known and within the bounds.
pub open spec fn matches_told(
    req: SearchRequest,
    matchers: SearchMatchers,
    filter: Option<Regex>,
    name: Seq<char>,
    facts: Option<FileFacts>,
    content: Option<Seq<u8>>,
) -> nat {
    match facts {
        None => 0,
        Some(facts) => if passes(filter, name) && within_bounds(
            req,
            facts.size,
            modified_at(facts.since_epoch),
        ) {
            matches_in(req, matchers, name, facts.size, content)
        } else {
            0
        },
    }
}

/// Whether a result tells of a file and the number of matches in it.
pub open spec fn is_result(
    item: SearchResult,
    name: Seq<char>,
    path: Seq<char>,
    size: u64,
    modified: u64,
    matches: nat,
) -> bool {
    &&& item.name@ == name
    &&& item.path@ == path
    &&& item.size == size
    &&& item.modified == modified
    &&& item.matches == matches
}

impl Inspection {
    /// Whether the file's content is to be read, and what is known of the file.
    pub open spec fn reads(self) -> Option<FoundFile> {
        match self.phase {
            InspectionPhase::ReadReusing(file) => Some(file),
            InspectionPhase::ReadWhole(file) => Some(file),
            _ => None,
        }
    }

    /// Whether this is the outcome for a file with some matches.
    pub open spec fn tells(
        self,
        path: Seq<char>,
        size: u64,
        modified: u64,
        matches: nat,
    ) -> bool {
        match self.phase {
            InspectionPhase::Done(None) => matches == 0,
            InspectionPhase::Done(Some(item)) => matches > 0 && is_result(
                item,
                self.name@,
                path,
                size,
                modified,
                matches,
            ),
            _ => false,
        }
    }

    /// Whether this is where a file of some name begins.
    pub open spec fn begins(self, filter: Option<Regex>, name: Seq<char>) -> bool {
        &&& self.name@ == name
        &&& if passes(filter, name) {
            self.phase is Facts
        } else {
            self.phase == InspectionPhase::Done(None)
        }
    }

    /// Whether this comes after `before` once it is known what there is to
    /// know of the file.
    pub open spec fn after_facts(
        self,
        before: Inspection,
        req: SearchRequest,
        matchers: SearchMatchers,
        facts: Option<FileFacts>,
    ) -> bool {
        &&& self.name == before.name
        &&& match facts {
            None => self.phase == InspectionPhase::Done(None),
            Some(facts) => {
                let modified = modified_at(facts.since_epoch);
                if !within_bounds(req, facts.size, modified) {
                    self.phase == InspectionPhase::Done(None)
                } else if req.mode@ == "name"@ || facts.size > MAX_CONTENT_BYTES {
                    self.tells(
                        facts.path@,
                        facts.size,
                        modified,
                        matches_in(req, matchers, before.name@, facts.size, None),
                    )
                } else {
                    &&& facts.size <= REUSABLE_BUFFER_BYTES ==> self.phase is ReadReusing
                    &&& facts.size > REUSABLE_BUFFER_BYTES ==> self.phase is ReadWhole
                    &&& self.reads()->0.path == facts.path
                    &&& self.reads()->0.size == facts.size
                    &&& self.reads()->0.modified == modified
                }
            },
        }
    }

    /// Whether this comes after `before` once its content was read, or could
    /// not be.
    pub open spec fn after_content(
        self,
        before: Inspection,
        matchers: SearchMatchers,
        content: Option<Seq<u8>>,
    ) -> bool {
        let file = before.reads()->0;
        &&& self.name == before.name
        &&& match content {
            None => self.phase == InspectionPhase::Done(None),
            Some(bytes) => {
                ||| self.tells(file.path@, file.size, file.modified, matchers.total(bytes))
                ||| self.phase is Overflow && !matchers.countable(bytes)
            },
        }
    }

    /// What follows once it is known what there is to know of the file, or that
    /// it cannot be known. In a search by name, the terms that the expressions
    /// for some texts find are the texts that stand in the name.
    pub fn facts_known(
        self,
        req: &SearchRequest,
        matchers: &SearchMatchers,
        facts: Option<FileFacts>,
    ) -> (next: Inspection)
        requires
            self.phase is Facts,
            matchers.wf(),
        ensures
            next.after_facts(self, *req, *matchers, facts),
            next.name@ == self.name@,
            facts is None ==> next.phase == InspectionPhase::Done(None),
            facts is Some && req.min_size is Some && facts->0.size < req.min_size->0 ==> next.phase
                == InspectionPhase::Done(None),
            facts is Some && req.max_size is Some && facts->0.size > req.max_size->0 ==> next.phase
                == InspectionPhase::Done(None),
            facts is Some && facts->0.since_epoch is Some && req.min_modified is Some
                && facts->0.since_epoch->0 < req.min_modified->0 ==> next.phase
                == InspectionPhase::Done(None),
            facts is Some && facts->0.since_epoch is Some && req.max_modified is Some
                && facts->0.since_epoch->0 > req.max_modified->0 ==> next.phase
                == InspectionPhase::Done(None),
            facts is Some && facts->0.since_epoch is None && req.min_modified is Some
                && req.min_modified->0 > 0 ==> next.phase == InspectionPhase::Done(None),
            forall|texts: Seq<Seq<char>>, case_sensitive: bool, words: bool|
                #![trigger matchers.are_expressions_for(texts, case_sensitive, words, encode_utf8(self.name@))]
                req.mode@ == "name"@ && facts is Some && within_bounds(
                    *req,
                    facts->0.size,
                    modified_at(facts->0.since_epoch),
                ) && matchers.are_expressions_for(
                    texts,
                    case_sensitive,
                    words,
                    encode_utf8(self.name@),
                ) ==> next.tells(
                    facts->0.path@,
                    facts->0.size,
                    modified_at(facts->0.since_epoch),
                    tally(
                        texts.len(),
                        |i: int|
                            text_count(
                                texts[i],
                                !case_sensitive,
                                words,
                                encode_utf8(self.name@),
                            ) > 0,
                    ),
                ),
    {
        let name = self.name;
        let facts = match facts {
            Some(facts) => facts,
            None => {
                return Inspection { name, phase: InspectionPhase::Done(None) };
            },
        };
        let modified: u64 = modified_seconds(facts.since_epoch);
        if !at_least(facts.size, req.min_size) || !at_most(facts.size, req.max_size) || !at_least(
            modified,
            req.min_modified,
        ) || !at_most(modified, req.max_modified) {
            return Inspection { name, phase: InspectionPhase::Done(None) };
        }
        let file = FoundFile { path: facts.path, size: facts.size, modified };
        if same_text(req.mode.as_str(), "name") {
            let matches: usize = matchers.matching_terms(name.as_str().as_bytes());
            return outcome(name, file, matches);
        }
        let phase = if file.size > MAX_CONTENT_BYTES {
            InspectionPhase::Done(None)
        } else if file.size <= REUSABLE_BUFFER_BYTES {
            InspectionPhase::ReadReusing(file)
        } else {
            InspectionPhase::ReadWhole(file)
        };
        Inspection { name, phase }
    }

    /// What follows once the file's content was read, or could not be. The
    /// matches of the expressions for some texts are where the texts stand.
    pub fn content_read(self, matchers: &SearchMatchers, content: Option<&[u8]>) -> (next:
        Inspection)
        requires
            self.reads() is Some,
            matchers.wf(),
        ensures
            next.after_content(
                self,
                *matchers,
                match content {
                    Some(bytes) => Some(bytes@),
                    None => None,
                },
            ),
            forall|texts: Seq<Seq<char>>, case_sensitive: bool, words: bool|
                #![trigger matchers.are_expressions_for(texts, case_sensitive, words, content->0@)]
                content is Some && !(next.phase is Overflow) && matchers.are_expressions_for(
                    texts,
                    case_sensitive,
                    words,
                    content->0@,
                ) ==> next.tells(
                    self.reads()->0.path@,
                    self.reads()->0.size,
                    self.reads()->0.modified,
                    texts_counted(texts, !case_sensitive, words, content->0@, texts.len()),
                ),
    {
        let Inspection { name, phase } = self;
        let file = match phase {
            InspectionPhase::ReadReusing(file) => file,
            InspectionPhase::ReadWhole(file) => file,
            phase => {
                return Inspection { name, phase };
            },
        };
        match content {
            None => Inspection { name, phase: InspectionPhase::Done(None) },
            Some(bytes) => match matchers.try_count(bytes) {
                Some(matches) => outcome(name, file, matches),
                None => Inspection { name, phase: InspectionPhase::Overflow },
            },
        }
    }
}

/// The outcome for a file with some matches.
fn outcome(name: String, file: FoundFile, matches: usize) -> (next: Inspection)
    ensures
        next.name == name,
        next.tells(file.path@, file.size, file.modified, matches as nat),
{
    if matches > 0 {
        let item = SearchResult {
            name: name.clone(),
            path: file.path,
            size: file.size,
            modified: file.modified,
            matches,
        };
        Inspection { name, phase: InspectionPhase::Done(Some(item)) }
    } else {
        Inspection { name, phase: InspectionPhase::Done(None) }
    }
}

/// When a file was modified, in seconds since 1970; zero where that is not
/// known or was before.
pub fn modified_seconds(since_epoch: Option<u64>) -> (seconds: u64)
    ensures
        seconds == modified_at(since_epoch),
{
    match since_epoch {
        Some(s) => s,
        None => 0,
    }
}

/// Whether a file's name passes the filter: where the patterns are ASCII, and
/// the name has no line feed in it, whether the patterns select it.
pub fn name_passes(filter: &Option<Regex>, name: &str) -> (pass: bool)
    ensures
        pass == passes(*filter, name@),
        forall|patterns: Seq<char>|
            #![trigger is_filter_for(*filter, patterns)]
            is_filter_for(*filter, patterns) && ascii_patterns(patterns) && !name@.contains('\n')
                ==> pass == selects(patterns, name@),
{
    match filter {
        None => true,
        Some(regex) => {
            proof {
                assert forall|patterns: Seq<char>|
                    #![trigger is_filter_for(*filter, patterns)]
                    is_filter_for(*filter, patterns) && ascii_patterns(
                        patterns,
                    ) implies filters_names(*regex, wildcard_values(patterns)) by {}
            }
            regex_is_match(regex, name.as_bytes())
        },
    }
}

fn at_least(value: u64, bound: Option<u64>) -> (b: bool)
    ensures
        b == (bound is Some ==> bound->0 <= value),
{
    match bound {
        Some(least) => least <= value,
        None => true,
    }
}

fn at_most(value: u64, bound: Option<u64>) -> (b: bool)
    ensures
        b == (bound is Some ==> value <= bound->0),
{
    match bound {
        Some(most) => value <= most,
        None => true,
    }
}

/// Begins with a file whose name is known. Where the patterns are ASCII, and the
/// name has no line feed in it, the file is gone on with if the patterns select
/// its name.
pub fn inspect(filter: &Option<Regex>, name: String) -> (start: Inspection)
    ensures
        start.begins(*filter, name@),
        forall|patterns: Seq<char>|
            #![trigger is_filter_for(*filter, patterns)]
            is_filter_for(*filter, patterns) && ascii_patterns(patterns) && !name@.contains('\n')
                ==> start.phase is Facts == selects(patterns, name@),
{
    let phase = if name_passes(filter, name.as_str()) {
        InspectionPhase::Facts
    } else {
        InspectionPhase::Done(None)
    };
    Inspection { name, phase }
}

/// A file is reported exactly if its name passes the filter, what there is to
/// know of it is known and within the bounds, and there is a match in its name
/// or its content, whichever is searched. What is reported is what is known of
/// it, with the number of matches.
pub proof fn files_are_reported_exactly_if_they_match(
    req: SearchRequest,
    matchers: SearchMatchers,
    filter: Option<Regex>,
    name: Seq<char>,
    facts: Option<FileFacts>,
    content: Option<Seq<u8>>,
    start: Inspection,
    middle: Inspection,
    end: Inspection,
)
    requires
        start.begins(filter, name),
        if start.phase is Facts {
            middle.after_facts(start, req, matchers, facts)
        } else {
            middle == start
        },
        if middle.reads() is Some {
            end.after_content(middle, matchers, content)
        } else {
            end == middle
        },
        content is Some ==> matchers.countable(content->0),
    ensures
        end.phase matches InspectionPhase::Done(told) && {
            let matches = matches_told(req, matchers, filter, name, facts, content);
            &&& told is Some <==> matches > 0
            &&& told is Some ==> is_result(
                told->0,
                name,
                facts->0.path@,
                facts->0.size,
                modified_at(facts->0.since_epoch),
                matches,
            )
        },
{
}

} // verus!
