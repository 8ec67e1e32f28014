//! Opening files, and the folders that files are in.

use crate::terms::lemma_distinct_from;
use crate::text::{about, distinct, texts, with_reason, without_repeats};
use vstd::prelude::*;

verus! {

/// The folders there are, in order.
pub open spec fn present(parents: Seq<Option<String>>) -> Seq<Seq<char>>
    decreases parents.len(),
{
    if parents.len() == 0 {
        Seq::empty()
    } else {
        match parents.last() {
            Some(folder) => present(parents.drop_last()).push(folder@),
            None => present(parents.drop_last()),
        }
    }
}

/// What is to be done next.
pub enum FoldersPhase {
    /// The current folder is to be opened.
    Open,
    /// Nothing: this is the outcome, with the number of folders opened.
    Done(Result<usize, String>),
}

/// Folders that are opened one after the other.
pub struct Folders {
    pub folders: Vec<String>,
    pub current: usize,
    pub phase: FoldersPhase,
}

impl Folders {
    /// Whether there is a folder to be opened.
    pub open spec fn wf(self) -> bool {
        &&& texts(self.folders@).no_duplicates()
        &&& self.phase is Open ==> self.current < self.folders@.len()
    }

    /// Whether the run has ended with a message.
    pub open spec fn failed_with(self, message: Seq<char>) -> bool {
        self.phase matches FoldersPhase::Done(Err(m)) && m@ == message
    }

    /// The current folder.
    pub fn path(&self) -> (path: &str)
        requires
            self.wf(),
            self.phase is Open,
        ensures
            path@ == self.folders@[self.current as int]@,
    {
        self.folders[self.current].as_str()
    }

    /// What follows once the current folder was opened, or could not be.
    pub fn opened(self, result: Result<(), String>) -> (next: Folders)
        requires
            self.wf(),
            self.phase is Open,
        ensures
            next.wf(),
            next.folders == self.folders,
            match result {
                Err(reason) => next.current == self.current && next.failed_with(
                    "Não foi possível abrir "@ + self.folders@[self.current as int]@ + ": "@
                        + reason@,
                ),
                Ok(_) => next.current == self.current + 1 && if next.current < next.folders@.len() {
                    next.phase is Open
                } else {
                    next.phase matches FoldersPhase::Done(Ok(n)) && n == next.folders@.len()
                },
            },
    {
        match result {
            Err(reason) => {
                let message = about(
                    "Não foi possível abrir ",
                    self.folders[self.current].as_str(),
                    reason.as_str(),
                );
                Folders { phase: FoldersPhase::Done(Err(message)), ..self }
            },
            Ok(_) => {
                let count: usize = self.folders.len();
                let current: usize = self.current + 1;
                let phase = if current < count {
                    FoldersPhase::Open
                } else {
                    FoldersPhase::Done(Ok(count))
                };
                Folders { current, phase, ..self }
            },
        }
    }
}

/// Begins to open the folders that some files are in, each folder once.
pub fn open_containing_folders(parents: Vec<Option<String>>) -> (start: Folders)
    ensures
        start.wf(),
        start.current == 0,
        texts(start.folders@) == distinct(present(parents@)),
        if present(parents@).len() == 0 {
            start.failed_with("Não foi possível identificar as pastas dos arquivos."@)
        } else {
            start.phase is Open
        },
{
    let mut there: Vec<String> = Vec::new();
    let mut i: usize = 0;
    assert(parents@.take(0).len() == 0);
    while i < parents.len()
        invariant
            i <= parents@.len(),
            texts(there@) == present(parents@.take(i as int)),
        decreases parents@.len() - i,
    {
        let ghost before = texts(there@);
        proof {
            assert(parents@.take(i + 1).drop_last() =~= parents@.take(i as int));
        }
        match &parents[i] {
            Some(folder) => {
                there.push(folder.clone());
                assert(texts(there@) =~= before.push(folder@));
            },
            None => {},
        }
        i = i + 1;
    }
    let folders = without_repeats(&there);
    proof {
        assert(parents@.take(i as int) =~= parents@);
        lemma_distinct_from(texts(there@));
        if there@.len() > 0 {
            assert(texts(there@).contains(texts(there@)[0]));
            assert(distinct(texts(there@)).contains(texts(there@)[0]));
        }
    }
    let phase = if there.len() == 0 {
        FoldersPhase::Done(
            Err("Não foi possível identificar as pastas dos arquivos.".to_owned()),
        )
    } else {
        FoldersPhase::Open
    };
    assert(texts(folders@).len() == folders@.len());
    Folders { folders, current: 0, phase }
}

/// What is told of an attempt to open a file.
pub fn open_path(opened: Result<(), String>) -> (r: Result<(), String>)
    ensures
        match opened {
            Ok(_) => r is Ok,
            Err(reason) => r is Err && r->Err_0@ == "Não foi possível abrir: "@ + reason@,
        },
{
    match opened {
        Ok(_) => Ok(()),
        Err(reason) => Err(with_reason("Não foi possível abrir: ", reason.as_str())),
    }
}

} // verus!
