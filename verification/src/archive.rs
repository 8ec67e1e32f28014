//! Compressing files into an archive.

use crate::names::{archive_candidate, is_first_free, ArchiveNames, SourceName};
use crate::text::{about, characters, with_reason};
use vstd::prelude::*;

verus! {

/// Whether a path ends in `.zip`, in small letters or capitals.
pub open spec fn ends_in_zip(path: Seq<char>) -> bool {
    let n = path.len() as int;
    &&& n >= 4
    &&& path[n - 4] == '.'
    &&& path[n - 3] == 'z' || path[n - 3] == 'Z'
    &&& path[n - 2] == 'i' || path[n - 2] == 'I'
    &&& path[n - 1] == 'p' || path[n - 1] == 'P'
}

/// The path of an archive: the one given, with `.zip` behind it if it has not
/// got that already.
pub open spec fn archive_path(destination: Seq<char>) -> Seq<char> {
    if ends_in_zip(destination) {
        destination
    } else {
        destination + ".zip"@
    }
}

/// The path of an archive ends in `.zip`, and is its own path of an archive.
pub proof fn archive_paths_end_in_zip(destination: Seq<char>)
    ensures
        ends_in_zip(archive_path(destination)),
        archive_path(archive_path(destination)) == archive_path(destination),
        destination.is_prefix_of(archive_path(destination)),
{
    reveal_strlit(".zip");
    let path = archive_path(destination);
    assert(destination =~= path.subrange(0, destination.len() as int));
}

/// The path of an archive.
fn archive_destination(destination: String) -> (path: String)
    ensures
        path@ == archive_path(destination@),
{
    let v = characters(destination.as_str());
    let n: usize = v.len();
    if n >= 4 && v[n - 4] == '.' && (v[n - 3] == 'z' || v[n - 3] == 'Z') && (v[n - 2] == 'i' || v[n
        - 2] == 'I') && (v[n - 1] == 'p' || v[n - 1] == 'P') {
        destination
    } else {
        let mut path = destination;
        path.append(".zip");
        path
    }
}

/// What is to be done next.
pub enum ArchivePhase {
    /// The archive is to be created.
    Create,
    /// It is to be found out whether the current path is that of a file.
    Check,
    /// An entry of this name is to be begun.
    Begin(String),
    /// The current file is to be opened.
    Open(String),
    /// The current file's content is to be put into the entry.
    Fill(String),
    /// The archive is to be completed.
    Close,
    /// Nothing: this is the outcome, with the number of files compressed.
    Done(Result<usize, String>),
}

/// A compression on its way through the files.
pub struct Archive {
    pub destination: String,
    pub paths: Vec<String>,
    pub names: ArchiveNames,
    pub current: usize,
    pub completed: usize,
    pub phase: ArchivePhase,
}

impl Archive {
    /// Whether a phase is about the current file.
    pub open spec fn at_file(self) -> bool {
        self.phase is Check || self.phase is Begin || self.phase is Open || self.phase is Fill
    }

    /// Whether there is a current file for what is to be done, and the names
    /// in the archive are all different.
    pub open spec fn wf(self) -> bool {
        &&& self.completed <= self.current <= self.paths@.len()
        &&& self.at_file() ==> self.current < self.paths@.len()
        &&& self.phase is Create ==> self.paths@.len() > 0 && self.current == 0
        &&& self.names.wf()
    }

    /// Whether two states are of the same archive, with the same names in it.
    pub open spec fn same_archive(self, other: Archive) -> bool {
        &&& self.destination == other.destination
        &&& self.paths == other.paths
        &&& self.names == other.names
    }

    /// Whether two states are at the same file.
    pub open spec fn same_file(self, other: Archive) -> bool {
        &&& self.same_archive(other)
        &&& self.current == other.current
        &&& self.completed == other.completed
    }

    /// The path of the current file.
    pub open spec fn here(self) -> Seq<char> {
        self.paths@[self.current as int]@
    }

    /// The name of the entry that is worked on.
    pub open spec fn entry(self) -> String {
        match self.phase {
            ArchivePhase::Begin(name) => name,
            ArchivePhase::Open(name) => name,
            ArchivePhase::Fill(name) => name,
            _ => arbitrary(),
        }
    }

    /// Whether the compression has ended with a message.
    pub open spec fn failed_with(self, message: Seq<char>) -> bool {
        self.phase matches ArchivePhase::Done(Err(m)) && m@ == message
    }

    /// Whether this state comes after `before` once its file is done with.
    pub open spec fn moved_on(self, before: Archive, completed: int) -> bool {
        &&& self.same_archive(before)
        &&& self.current == before.current + 1
        &&& self.completed == completed
        &&& if self.current < self.paths@.len() {
            self.phase is Check
        } else {
            self.phase is Close
        }
    }

    /// Whether this state comes after `before` once the archive was created.
    pub open spec fn after_create(self, before: Archive, created: Result<(), String>) -> bool {
        &&& self.same_file(before)
        &&& match created {
            Err(reason) => self.failed_with(
                "Não foi possível criar "@ + before.destination@ + ": "@ + reason@,
            ),
            Ok(_) => self.phase is Check,
        }
    }

    /// Whether this state comes after `before` once its path was checked: a
    /// file gets the first name that is not taken.
    pub open spec fn after_check(self, before: Archive, source: Option<SourceName>) -> bool {
        match source {
            None => self.moved_on(before, before.completed as int),
            Some(name) => {
                &&& self.destination == before.destination
                &&& self.paths == before.paths
                &&& self.current == before.current
                &&& self.completed == before.completed
                &&& self.phase matches ArchivePhase::Begin(given) && {
                    &&& self.names.names() == before.names.names().push(given@)
                    &&& exists|attempt: nat|
                        is_first_free(before.names.names(), name, attempt) && given@
                            == archive_candidate(name, attempt)
                }
            },
        }
    }

    /// Whether this state comes after `before` once an entry was begun.
    pub open spec fn after_begin(self, before: Archive, begun: Result<(), String>) -> bool {
        &&& self.same_file(before)
        &&& match begun {
            Err(reason) => self.failed_with(
                "Erro ao incluir "@ + before.entry()@ + ": "@ + reason@,
            ),
            Ok(_) => self.phase == ArchivePhase::Open(before.entry()),
        }
    }

    /// Whether this state comes after `before` once its file was opened.
    pub open spec fn after_open(self, before: Archive, opened: Result<(), String>) -> bool {
        &&& self.same_file(before)
        &&& match opened {
            Err(reason) => self.failed_with("Erro ao ler "@ + before.here() + ": "@ + reason@),
            Ok(_) => self.phase == ArchivePhase::Fill(before.entry()),
        }
    }

    /// Whether this state comes after `before` once its entry was filled.
    pub open spec fn after_fill(self, before: Archive, filled: Result<(), String>) -> bool {
        match filled {
            Err(reason) => self.same_file(before) && self.failed_with(
                "Erro ao compactar "@ + before.entry()@ + ": "@ + reason@,
            ),
            Ok(_) => self.moved_on(before, before.completed + 1),
        }
    }

    /// Whether this state comes after `before` once the archive was completed.
    pub open spec fn after_close(self, before: Archive, closed: Result<(), String>) -> bool {
        &&& self.same_file(before)
        &&& match closed {
            Err(reason) => self.failed_with("Erro ao finalizar o ZIP: "@ + reason@),
            Ok(_) => self.phase matches ArchivePhase::Done(Ok(n)) && n == before.completed,
        }
    }

    /// The path of the file that is dealt with.
    pub fn path(&self) -> (path: &str)
        requires
            self.wf(),
            self.at_file(),
        ensures
            path@ == self.here(),
    {
        self.paths[self.current].as_str()
    }

    /// Goes on to a phase of the same file.
    fn enter(self, phase: ArchivePhase) -> (next: Archive)
        ensures
            next.same_file(self),
            next.phase == phase,
    {
        Archive { phase, ..self }
    }

    /// Ends the compression with a message.
    fn fail(self, message: String) -> (next: Archive)
        requires
            self.wf(),
        ensures
            next.wf(),
            next.same_file(self),
            next.failed_with(message@),
    {
        self.enter(ArchivePhase::Done(Err(message)))
    }

    /// Goes on to the next file.
    fn advance(self, completed: usize) -> (next: Archive)
        requires
            self.wf(),
            self.current < self.paths@.len(),
            completed <= self.current + 1,
        ensures
            next.wf(),
            next.moved_on(self, completed as int),
    {
        let count: usize = self.paths.len();
        let current: usize = self.current + 1;
        let phase = if current < count {
            ArchivePhase::Check
        } else {
            ArchivePhase::Close
        };
        Archive { current, completed, phase, ..self }
    }

    /// What follows once the archive was created, or could not be.
    pub fn created(self, result: Result<(), String>) -> (next: Archive)
        requires
            self.wf(),
            self.phase is Create,
        ensures
            next.wf(),
            next.after_create(self, result),
    {
        match result {
            Err(reason) => {
                let message = about(
                    "Não foi possível criar ",
                    self.destination.as_str(),
                    reason.as_str(),
                );
                self.fail(message)
            },
            Ok(_) => self.enter(ArchivePhase::Check),
        }
    }

    /// What follows once it is known whether the current path is that of a
    /// file, and what its name is.
    pub fn checked(self, source: Option<SourceName>) -> (next: Archive)
        requires
            self.wf(),
            self.phase is Check,
        ensures
            next.wf(),
            next.after_check(self, source),
    {
        match source {
            None => {
                let completed: usize = self.completed;
                self.advance(completed)
            },
            Some(name) => {
                let Archive { destination, paths, names, current, completed, phase } = self;
                let mut names = names;
                let given = names.reserve(&name);
                Archive {
                    destination,
                    paths,
                    names,
                    current,
                    completed,
                    phase: ArchivePhase::Begin(given),
                }
            },
        }
    }

    /// What follows once an entry was begun, or could not be.
    pub fn begun(self, result: Result<(), String>) -> (next: Archive)
        requires
            self.wf(),
            self.phase is Begin,
        ensures
            next.wf(),
            next.after_begin(self, result),
    {
        let Archive { destination, paths, names, current, completed, phase } = self;
        let phase = match phase {
            ArchivePhase::Begin(name) => match result {
                Err(reason) => ArchivePhase::Done(
                    Err(about("Erro ao incluir ", name.as_str(), reason.as_str())),
                ),
                Ok(_) => ArchivePhase::Open(name),
            },
            other => other,
        };
        Archive { destination, paths, names, current, completed, phase }
    }

    /// What follows once the current file was opened, or could not be.
    pub fn opened(self, result: Result<(), String>) -> (next: Archive)
        requires
            self.wf(),
            self.phase is Open,
        ensures
            next.wf(),
            next.after_open(self, result),
    {
        match result {
            Err(reason) => {
                let message = about(
                    "Erro ao ler ",
                    self.paths[self.current].as_str(),
                    reason.as_str(),
                );
                self.fail(message)
            },
            Ok(_) => {
                let Archive { destination, paths, names, current, completed, phase } = self;
                let phase = match phase {
                    ArchivePhase::Open(name) => ArchivePhase::Fill(name),
                    other => other,
                };
                Archive { destination, paths, names, current, completed, phase }
            },
        }
    }

    /// What follows once the current entry was filled, or could not be.
    pub fn filled(self, result: Result<(), String>) -> (next: Archive)
        requires
            self.wf(),
            self.phase is Fill,
        ensures
            next.wf(),
            next.after_fill(self, result),
    {
        match result {
            Err(reason) => {
                let message = match &self.phase {
                    ArchivePhase::Fill(name) => about(
                        "Erro ao compactar ",
                        name.as_str(),
                        reason.as_str(),
                    ),
                    _ => reason,
                };
                self.fail(message)
            },
            Ok(_) => {
                let count: usize = self.paths.len();
                assert(self.completed < count);
                let completed: usize = self.completed + 1;
                self.advance(completed)
            },
        }
    }

    /// What follows once the archive was completed, or could not be.
    pub fn closed(self, result: Result<(), String>) -> (next: Archive)
        requires
            self.wf(),
            self.phase is Close,
        ensures
            next.wf(),
            next.after_close(self, result),
    {
        match result {
            Err(reason) => {
                let message = with_reason("Erro ao finalizar o ZIP: ", reason.as_str());
                self.fail(message)
            },
            Ok(_) => {
                let completed: usize = self.completed;
                self.enter(ArchivePhase::Done(Ok(completed)))
            },
        }
    }
}

/// Begins a compression.
pub fn zip_files(paths: Vec<String>, destination: String) -> (r: Result<Archive, String>)
    ensures
        match r {
            Ok(archive) => {
                &&& archive.wf()
                &&& paths@.len() > 0
                &&& archive.paths == paths
                &&& archive.destination@ == archive_path(destination@)
                &&& archive.names.names() == Seq::<Seq<char>>::empty()
                &&& archive.current == 0
                &&& archive.completed == 0
                &&& archive.phase is Create
            },
            Err(m) => paths@.len() == 0 && m@ == "Selecione ao menos um arquivo."@,
        },
{
    if paths.len() == 0 {
        return Err("Selecione ao menos um arquivo.".to_owned());
    }
    Ok(
        Archive {
            destination: archive_destination(destination),
            paths,
            names: ArchiveNames::new(),
            current: 0,
            completed: 0,
            phase: ArchivePhase::Create,
        },
    )
}

/// Whether one state of a compression follows another.
pub open spec fn follows(before: Archive, after: Archive) -> bool {
    ||| before.phase is Create && exists|created: Result<(), String>|
        after.after_create(before, created)
    ||| before.phase is Check && exists|source: Option<SourceName>|
        after.after_check(before, source)
    ||| before.phase is Begin && exists|begun: Result<(), String>| after.after_begin(before, begun)
    ||| before.phase is Open && exists|opened: Result<(), String>| after.after_open(before, opened)
    ||| before.phase is Fill && exists|filled: Result<(), String>| after.after_fill(before, filled)
    ||| before.phase is Close && exists|closed: Result<(), String>|
        after.after_close(before, closed)
}

/// Whether states follow one another from the beginning of a compression.
pub open spec fn is_course(states: Seq<Archive>) -> bool {
    &&& states.len() > 0
    &&& states[0].current == 0 && states[0].completed == 0 && states[0].phase is Create
    &&& states[0].names.names().len() == 0
    &&& forall|i: int|
        0 <= i < states.len() - 1 ==> follows(#[trigger] states[i], states[i + 1])
}

/// No two entries of an archive have the same name, and as many files were
/// completed as entries were begun, but for the one that is worked on or that
/// failed.
pub proof fn entries_have_different_names(states: Seq<Archive>)
    requires
        is_course(states),
    ensures
        states.last().names.names().no_duplicates(),
        states.last().completed <= states.last().names.names().len(),
        states.last().names.names().len() <= states.last().completed + 1,
        states.last().phase is Create || states.last().phase is Check || states.last().phase is Close
            ==> states.last().names.names().len() == states.last().completed,
        states.last().phase is Begin || states.last().phase is Open || states.last().phase is Fill
            ==> states.last().names.names().len() == states.last().completed + 1,
        states.last().phase matches ArchivePhase::Done(Ok(n)) ==> n
            == states.last().names.names().len() && n == states.last().completed,
    decreases states.len(),
{
    if states.len() >= 2 {
        let before = states[states.len() - 2];
        let after = states.last();
        let shorter = states.drop_last();
        assert forall|i: int| 0 <= i < shorter.len() - 1 implies follows(
            #[trigger] shorter[i],
            shorter[i + 1],
        ) by {
            assert(follows(states[i], states[i + 1]));
        }
        entries_have_different_names(shorter);
        assert(shorter.last() == before);
        assert(follows(states[states.len() - 2], states[states.len() - 2 + 1]));
        if before.phase is Check {
            let source = choose|source: Option<SourceName>| after.after_check(before, source);
            if source is Some {
                let given = after.phase->Begin_0@;
                let taken = before.names.names();
                assert(!taken.contains(given));
                assert forall|i: int, j: int|
                    0 <= i < j < taken.len() + 1 implies taken.push(given)[i] != taken.push(
                    given,
                )[j] by {
                    if j == taken.len() {
                        assert(taken[i] == taken.push(given)[i]);
                        assert(taken.contains(taken[i]));
                    }
                }
            }
        }
    }
}

} // verus!
