//! Copying and moving files into a directory.

use crate::names::{available_target, numbered_name, SourceName, TargetName, NUMBER_LIMIT};
use crate::text::{about, with_reason};
use vstd::prelude::*;

verus! {

/// What is to be done next.
pub enum TransferPhase {
    /// It is to be found out whether the current path is that of a file.
    Check,
    /// It is to be found out whether this name is taken in the directory;
    /// those tried before are.
    Probe { source: SourceName, taken: usize, target: TargetName },
    /// The current file is to be moved to this name.
    Rename(TargetName),
    /// The current file is to be copied to this name.
    Copy(TargetName),
    /// The current file is to be removed.
    Remove,
    /// Nothing: this is the outcome, with the number of files transferred.
    Done(Result<usize, String>),
}

/// A transfer on its way through the files.
pub struct Transfer {
    pub paths: Vec<String>,
    pub move_files: bool,
    pub current: usize,
    pub completed: usize,
    pub phase: TransferPhase,
}

/// Whether a name is the one that is tried after `taken` others.
pub open spec fn is_target(source: SourceName, taken: usize, target: TargetName) -> bool {
    match target {
        TargetName::Same => taken == 0,
        TargetName::Numbered(name) => 0 < taken < NUMBER_LIMIT - 1 && name@
            == numbered_name(source, (taken + 1) as nat),
    }
}

impl Transfer {
    /// Whether there is a current file for what is to be done.
    pub open spec fn wf(self) -> bool {
        &&& self.completed <= self.current <= self.paths@.len()
        &&& self.phase is Done || self.current < self.paths@.len()
        &&& self.phase matches TransferPhase::Probe { source, taken, target } ==> source.has_name
            && is_target(source, taken, target)
        &&& (self.phase is Rename || self.phase is Remove) ==> self.move_files
    }

    /// Whether two states are at the same file.
    pub open spec fn same_file(self, other: Transfer) -> bool {
        &&& self.paths == other.paths
        &&& self.move_files == other.move_files
        &&& self.current == other.current
        &&& self.completed == other.completed
    }

    /// The path of the current file.
    pub open spec fn here(self) -> Seq<char> {
        self.paths@[self.current as int]@
    }

    /// Whether the transfer has ended with a message.
    pub open spec fn failed_with(self, message: Seq<char>) -> bool {
        self.phase matches TransferPhase::Done(Err(m)) && m@ == message
    }

    /// Whether this state comes after `before` once its file is done with.
    pub open spec fn moved_on(self, before: Transfer, completed: int) -> bool {
        &&& self.paths == before.paths
        &&& self.move_files == before.move_files
        &&& self.current == before.current + 1
        &&& self.completed == completed
        &&& if self.current < self.paths@.len() {
            self.phase is Check
        } else {
            self.phase matches TransferPhase::Done(Ok(n)) && n == completed
        }
    }

    /// Whether this state tries the name that comes after `taken` others, or
    /// has ended because there is none.
    pub open spec fn tries(self, source: SourceName, taken: usize) -> bool {
        if !source.has_name {
            self.failed_with("Nome de arquivo inválido"@)
        } else if taken >= NUMBER_LIMIT - 1 {
            self.failed_with("Não foi possível escolher um nome disponível no destino."@)
        } else {
            self.phase matches TransferPhase::Probe { source: s, taken: t, target } && s == source
                && t == taken && is_target(source, taken, target)
        }
    }

    /// Whether this state comes after `before` once its path was checked.
    pub open spec fn after_check(self, before: Transfer, source: Option<SourceName>) -> bool {
        match source {
            None => self.moved_on(before, before.completed as int),
            Some(name) => self.same_file(before) && self.tries(name, 0),
        }
    }

    /// Whether this state comes after `before` once a name was tried.
    pub open spec fn after_probe(self, before: Transfer, exists: bool) -> bool {
        &&& self.same_file(before)
        &&& if exists {
            self.tries(before.phase->source, (before.phase->taken + 1) as usize)
        } else if before.move_files {
            self.phase == TransferPhase::Rename(before.phase->target)
        } else {
            self.phase == TransferPhase::Copy(before.phase->target)
        }
    }

    /// Whether this state comes after `before` once its file was moved, or
    /// could not be: then it is copied.
    pub open spec fn after_rename(self, before: Transfer, renamed: bool) -> bool {
        if renamed {
            self.moved_on(before, before.completed + 1)
        } else {
            self.same_file(before) && self.phase == TransferPhase::Copy(before.phase->Rename_0)
        }
    }

    /// Whether this state comes after `before` once its file was copied.
    pub open spec fn after_copy(self, before: Transfer, copied: Result<(), String>) -> bool {
        match copied {
            Err(reason) => self.same_file(before) && self.failed_with(
                if before.move_files {
                    "Erro ao mover "@ + before.here() + ": "@ + reason@
                } else {
                    "Erro ao copiar "@ + before.here() + ": "@ + reason@
                },
            ),
            Ok(_) => if before.move_files {
                self.same_file(before) && self.phase is Remove
            } else {
                self.moved_on(before, before.completed + 1)
            },
        }
    }

    /// Whether this state comes after `before` once its file was removed.
    pub open spec fn after_remove(self, before: Transfer, removed: Result<(), String>) -> bool {
        match removed {
            Err(reason) => self.same_file(before) && self.failed_with(
                "Erro ao concluir a movimentação: "@ + reason@,
            ),
            Ok(_) => self.moved_on(before, before.completed + 1),
        }
    }

    /// The path of the file that is dealt with.
    pub fn path(&self) -> (path: &str)
        requires
            self.wf(),
            !(self.phase is Done),
        ensures
            path@ == self.here(),
    {
        self.paths[self.current].as_str()
    }

    /// Goes on to the next file.
    fn advance(self, completed: usize) -> (next: Transfer)
        requires
            self.current < self.paths@.len(),
            completed <= self.current + 1,
        ensures
            next.wf(),
            next.moved_on(self, completed as int),
    {
        let count: usize = self.paths.len();
        let current: usize = self.current + 1;
        let phase = if current < count {
            TransferPhase::Check
        } else {
            TransferPhase::Done(Ok(completed))
        };
        Transfer { current, completed, phase, ..self }
    }

    /// Goes on to the next file, with this one transferred.
    fn complete(self) -> (next: Transfer)
        requires
            self.wf(),
            self.current < self.paths@.len(),
        ensures
            next.wf(),
            next.moved_on(self, self.completed + 1),
    {
        let count: usize = self.paths.len();
        assert(self.completed < count);
        let completed: usize = self.completed + 1;
        self.advance(completed)
    }

    /// Goes on to a phase of the same file.
    fn enter(self, phase: TransferPhase) -> (next: Transfer)
        ensures
            next.same_file(self),
            next.phase == phase,
    {
        Transfer { phase, ..self }
    }

    /// Tries the name that comes after `taken` others.
    fn try_name(self, source: SourceName, taken: usize) -> (next: Transfer)
        requires
            self.wf(),
            self.current < self.paths@.len(),
        ensures
            next.wf(),
            next.same_file(self),
            next.tries(source, taken),
    {
        match available_target(&source, taken) {
            Ok(target) => self.enter(TransferPhase::Probe { source, taken, target }),
            Err(m) => self.enter(TransferPhase::Done(Err(m))),
        }
    }

    /// What follows once it is known whether the current path is that of a
    /// file, and what its name is.
    pub fn checked(self, source: Option<SourceName>) -> (next: Transfer)
        requires
            self.wf(),
            self.phase is Check,
        ensures
            next.wf(),
            next.after_check(self, source),
    {
        match source {
            None => {
                let completed: usize = self.completed;
                self.advance(completed)
            },
            Some(name) => self.try_name(name, 0),
        }
    }

    /// What follows once it is known whether the name that was tried is taken.
    pub fn probed(self, exists: bool) -> (next: Transfer)
        requires
            self.wf(),
            self.phase is Probe,
        ensures
            next.wf(),
            next.after_probe(self, exists),
    {
        let Transfer { paths, move_files, current, completed, phase } = self;
        match phase {
            TransferPhase::Probe { source, taken, target } => {
                let here = Transfer {
                    paths,
                    move_files,
                    current,
                    completed,
                    phase: TransferPhase::Check,
                };
                if exists {
                    here.try_name(source, taken + 1)
                } else if move_files {
                    here.enter(TransferPhase::Rename(target))
                } else {
                    here.enter(TransferPhase::Copy(target))
                }
            },
            phase => Transfer { paths, move_files, current, completed, phase },
        }
    }

    /// What follows once the current file was moved, or could not be.
    pub fn renamed(self, success: bool) -> (next: Transfer)
        requires
            self.wf(),
            self.phase is Rename,
        ensures
            next.wf(),
            next.after_rename(self, success),
    {
        if success {
            return self.complete();
        }
        let Transfer { paths, move_files, current, completed, phase } = self;
        let phase = match phase {
            TransferPhase::Rename(target) => TransferPhase::Copy(target),
            other => other,
        };
        Transfer { paths, move_files, current, completed, phase }
    }

    /// What follows once the current file was copied, or could not be.
    pub fn copied(self, result: Result<(), String>) -> (next: Transfer)
        requires
            self.wf(),
            self.phase is Copy,
        ensures
            next.wf(),
            next.after_copy(self, result),
    {
        match result {
            Err(reason) => {
                let what = if self.move_files {
                    "Erro ao mover "
                } else {
                    "Erro ao copiar "
                };
                let message = about(what, self.paths[self.current].as_str(), reason.as_str());
                self.enter(TransferPhase::Done(Err(message)))
            },
            Ok(_) => if self.move_files {
                self.enter(TransferPhase::Remove)
            } else {
                self.complete()
            },
        }
    }

    /// What follows once the current file was removed, or could not be.
    pub fn removed(self, result: Result<(), String>) -> (next: Transfer)
        requires
            self.wf(),
            self.phase is Remove,
        ensures
            next.wf(),
            next.after_remove(self, result),
    {
        match result {
            Err(reason) => {
                let message = with_reason("Erro ao concluir a movimentação: ", reason.as_str());
                self.enter(TransferPhase::Done(Err(message)))
            },
            Ok(_) => self.complete(),
        }
    }
}

/// Begins a transfer into a directory.
pub fn transfer_files(paths: Vec<String>, is_directory: bool, move_files: bool) -> (start: Transfer)
    ensures
        start.wf(),
        start.paths == paths,
        start.move_files == move_files,
        start.current == 0,
        start.completed == 0,
        if !is_directory {
            start.failed_with("Selecione uma pasta de destino válida."@)
        } else if paths@.len() == 0 {
            start.phase matches TransferPhase::Done(Ok(n)) && n == 0
        } else {
            start.phase is Check
        },
{
    let phase = if !is_directory {
        TransferPhase::Done(Err("Selecione uma pasta de destino válida.".to_owned()))
    } else if paths.len() == 0 {
        TransferPhase::Done(Ok(0))
    } else {
        TransferPhase::Check
    };
    Transfer { paths, move_files, current: 0, completed: 0, phase }
}

/// Whether one state of a transfer follows another.
pub open spec fn follows(before: Transfer, after: Transfer) -> bool {
    ||| before.phase is Check && exists|source: Option<SourceName>|
        after.after_check(before, source)
    ||| before.phase is Probe && exists|found: bool| after.after_probe(before, found)
    ||| before.phase is Rename && exists|renamed: bool| after.after_rename(before, renamed)
    ||| before.phase is Copy && exists|copied: Result<(), String>| after.after_copy(before, copied)
    ||| before.phase is Remove && exists|removed: Result<(), String>|
        after.after_remove(before, removed)
}

/// A file is removed only where files are moved, and only after its copy was
/// made without failure.
pub proof fn removal_waits_for_the_copy(before: Transfer, after: Transfer)
    requires
        before.wf(),
        follows(before, after),
        after.phase is Remove,
    ensures
        after.move_files,
        before.phase is Copy,
        after.after_copy(before, Ok(())),
        after.same_file(before),
{
    if before.phase is Copy {
        let copied = choose|copied: Result<(), String>| after.after_copy(before, copied);
        assert(copied is Ok);
    }
}

/// A file is moved or copied only to a name that was tried and found free.
pub proof fn targets_were_found_free(before: Transfer, after: Transfer)
    requires
        before.wf(),
        follows(before, after),
        after.phase is Rename || after.phase is Copy,
    ensures
        before.phase is Probe ==> after.after_probe(before, false),
        before.phase is Probe || (before.phase is Rename && after.phase is Copy
            && after.phase->Copy_0 == before.phase->Rename_0),
{
    if before.phase is Probe {
        let found = choose|found: bool| after.after_probe(before, found);
        assert(!found);
    }
}

/// Whether states follow one another from the beginning of a transfer.
pub open spec fn is_course(states: Seq<Transfer>) -> bool {
    &&& states.len() > 0
    &&& states[0].current == 0 && states[0].completed == 0 && states[0].phase is Check
    &&& forall|i: int|
        0 <= i < states.len() - 1 ==> follows(#[trigger] states[i], states[i + 1])
}

/// How many files were moved or copied in the course of a transfer: those
/// that were gone on from after more than a check.
pub open spec fn files_transferred(states: Seq<Transfer>) -> nat
    decreases states.len(),
{
    if states.len() < 2 {
        0
    } else {
        let before = states[states.len() - 2];
        files_transferred(states.drop_last()) + (if !(before.phase is Check)
            && states.last().current != before.current {
            1nat
        } else {
            0nat
        })
    }
}

/// The number of files completed is the number of files moved or copied, at
/// every state, and so in the outcome.
pub proof fn completions_are_files_transferred(states: Seq<Transfer>)
    requires
        is_course(states),
    ensures
        states.last().completed == files_transferred(states),
        states.last().phase matches TransferPhase::Done(Ok(n)) ==> n == files_transferred(states),
    decreases states.len(),
{
    if states.len() >= 2 {
        let before = states[states.len() - 2];
        let shorter = states.drop_last();
        assert forall|i: int| 0 <= i < shorter.len() - 1 implies follows(
            #[trigger] shorter[i],
            shorter[i + 1],
        ) by {
            assert(follows(states[i], states[i + 1]));
        }
        completions_are_files_transferred(shorter);
        assert(shorter.last() == before);
        assert(follows(states[states.len() - 2], states[states.len() - 2 + 1]));
    }
}

} // verus!
