//! Promises of copying and moving files, of compressing them, and of opening
//! the folders they are in.

use crate::archive::{Archive, ArchivePhase};
use crate::folders::{open_containing_folders, open_path, present, Folders, FoldersPhase};
use crate::names::{archive_candidate, is_first_free, numbered_name, SourceName, TargetName};
use crate::terms::lemma_distinct_from;
use crate::text::texts;
use crate::transfer::{transfer_files, Transfer, TransferPhase};
use vstd::prelude::*;

verus! {

/// A transfer begins with its first file, unless there is none, or what it goes
/// into is no directory.
pub proof fn transfers_begin_as_asked(
    paths: Vec<String>,
    is_directory: bool,
    move_files: bool,
    start: Transfer,
)
    requires
        call_ensures(transfer_files, (paths, is_directory, move_files), start),
    ensures
        start.paths@ == paths@,
        start.move_files == move_files,
        start.current == 0,
        start.completed == 0,
        !is_directory ==> (start.phase matches TransferPhase::Done(Err(m)) && m@
            == "Selecione uma pasta de destino válida."@),
        is_directory && paths@.len() == 0 ==> start.phase == TransferPhase::Done(Ok(0)),
        is_directory && paths@.len() > 0 ==> start.phase is Check,
{
}

/// Whether a transfer is at the same file, with as many completed.
pub open spec fn same_place(a: Transfer, b: Transfer) -> bool {
    &&& a.paths@ == b.paths@
    &&& a.move_files == b.move_files
    &&& a.current == b.current
    &&& a.completed == b.completed
}

/// Whether a transfer has gone on to the next file, or to its end, with a number
/// of files completed.
pub open spec fn next_place(a: Transfer, b: Transfer, completed: int) -> bool {
    &&& b.paths@ == a.paths@
    &&& b.move_files == a.move_files
    &&& b.current == a.current + 1
    &&& b.completed == completed
    &&& b.current < a.paths@.len() ==> b.phase is Check
    &&& b.current == a.paths@.len() ==> b.phase == TransferPhase::Done(Ok(b.completed))
}

/// What follows once a path was checked: what is no file is passed over, and a
/// file is tried under its own name.
pub proof fn paths_checked_are_tried(
    run: Transfer,
    source: Option<SourceName>,
    next: Transfer,
)
    requires
        call_ensures(Transfer::checked, (run, source), next),
        next.current <= run.paths@.len(),
    ensures
        source is None ==> next_place(run, next, run.completed as int),
        source is Some ==> same_place(run, next),
        source is Some && !source->0.has_name ==> (next.phase matches TransferPhase::Done(Err(m))
            && m@ == "Nome de arquivo inválido"@),
        source is Some && source->0.has_name ==> next.phase == (TransferPhase::Probe {
            source: source->0,
            taken: 0,
            target: TargetName::Same,
        }),
{
}

/// What follows once a name was tried: where it is free, the file is moved or
/// copied to it, whichever was asked for. Else the next number is tried, and
/// after the last one the transfer ends with a message.
pub proof fn free_names_are_used(run: Transfer, exists: bool, next: Transfer)
    requires
        run.phase is Probe,
        run.phase->source.has_name,
        run.phase->taken <= 9_998,
        call_ensures(Transfer::probed, (run, exists), next),
    ensures
        same_place(run, next),
        !exists && run.move_files ==> next.phase == TransferPhase::Rename(run.phase->target),
        !exists && !run.move_files ==> next.phase == TransferPhase::Copy(run.phase->target),
        exists && run.phase->taken < 9_998 ==> (
        next.phase matches TransferPhase::Probe { source, taken, target: TargetName::Numbered(name) }
            && source == run.phase->source && taken == run.phase->taken + 1 && name@
            == numbered_name(source, (run.phase->taken + 2) as nat)),
        exists && run.phase->taken == 9_998 ==> (next.phase matches TransferPhase::Done(Err(m))
            && m@ == "Não foi possível escolher um nome disponível no destino."@),
{
}

/// What follows once a file was moved: it is completed. Where it could not be,
/// it is copied to the same name.
pub proof fn files_not_moved_are_copied(run: Transfer, success: bool, next: Transfer)
    requires
        run.phase is Rename,
        call_ensures(Transfer::renamed, (run, success), next),
        next.current <= run.paths@.len(),
    ensures
        success ==> next_place(run, next, run.completed + 1),
        !success ==> same_place(run, next) && next.phase == TransferPhase::Copy(
            run.phase->Rename_0,
        ),
{
}

/// What follows once a file was copied: it is completed where files are copied,
/// and removed where they are moved. Where it could not be copied, the transfer
/// ends with a message about it.
pub proof fn files_copied_are_removed_where_moved(
    run: Transfer,
    result: Result<(), String>,
    next: Transfer,
)
    requires
        run.phase is Copy,
        call_ensures(Transfer::copied, (run, result), next),
        next.current <= run.paths@.len(),
    ensures
        result is Ok && !run.move_files ==> next_place(run, next, run.completed + 1),
        result is Ok && run.move_files ==> same_place(run, next) && next.phase is Remove,
        result is Err ==> same_place(run, next),
        result is Err && run.move_files ==> (next.phase matches TransferPhase::Done(Err(m)) && m@
            == "Erro ao mover "@ + run.paths@[run.current as int]@ + ": "@ + result->Err_0@),
        result is Err && !run.move_files ==> (next.phase matches TransferPhase::Done(Err(m)) && m@
            == "Erro ao copiar "@ + run.paths@[run.current as int]@ + ": "@ + result->Err_0@),
{
}

/// What follows once a file was removed: it is completed. Where it could not be,
/// the transfer ends with a message.
pub proof fn files_removed_are_completed(
    run: Transfer,
    result: Result<(), String>,
    next: Transfer,
)
    requires
        run.phase is Remove,
        call_ensures(Transfer::removed, (run, result), next),
        next.current <= run.paths@.len(),
    ensures
        result is Ok ==> next_place(run, next, run.completed + 1),
        result is Err ==> same_place(run, next) && (next.phase matches TransferPhase::Done(Err(m))
            && m@ == "Erro ao concluir a movimentação: "@ + result->Err_0@),
{
}

/// Whether a compression is at the same file, with the same names taken.
pub open spec fn same_stage(a: Archive, b: Archive) -> bool {
    &&& a.destination@ == b.destination@
    &&& a.paths@ == b.paths@
    &&& a.names.names() == b.names.names()
    &&& a.current == b.current
    &&& a.completed == b.completed
}

/// Whether a compression has gone on to the next file, or to completing the
/// archive, with a number of files completed.
pub open spec fn next_stage(a: Archive, b: Archive, completed: int) -> bool {
    &&& b.destination@ == a.destination@
    &&& b.paths@ == a.paths@
    &&& b.names.names() == a.names.names()
    &&& b.current == a.current + 1
    &&& b.completed == completed
    &&& b.current < a.paths@.len() ==> b.phase is Check
    &&& b.current == a.paths@.len() ==> b.phase is Close
}

/// What follows once an archive was created, or could not be.
pub proof fn archives_created_are_filled(
    run: Archive,
    result: Result<(), String>,
    next: Archive,
)
    requires
        call_ensures(Archive::created, (run, result), next),
    ensures
        same_stage(run, next),
        result is Ok ==> next.phase is Check,
        result is Err ==> (next.phase matches ArchivePhase::Done(Err(m)) && m@
            == "Não foi possível criar "@ + run.destination@ + ": "@ + result->Err_0@),
{
}

/// What follows once a path was checked: what is no file is passed over, and for
/// a file an entry is begun, under a name that was not taken and now is.
pub proof fn files_checked_get_a_free_name(
    run: Archive,
    source: Option<SourceName>,
    next: Archive,
)
    requires
        call_ensures(Archive::checked, (run, source), next),
        next.current <= run.paths@.len(),
    ensures
        source is None ==> next_stage(run, next, run.completed as int),
        source is Some ==> {
            &&& next.destination@ == run.destination@
            &&& next.paths@ == run.paths@
            &&& next.current == run.current
            &&& next.completed == run.completed
            &&& next.phase is Begin
            &&& next.names.names() == run.names.names().push(next.phase->Begin_0@)
            &&& !run.names.names().contains(next.phase->Begin_0@)
            &&& source->0.name is Some && !run.names.names().contains(source->0.name->0@)
                ==> next.phase->Begin_0@ == source->0.name->0@
        },
{
    if source is Some && source->0.name is Some && !run.names.names().contains(
        source->0.name->0@,
    ) {
        let attempt = choose|attempt: nat|
            is_first_free(run.names.names(), source->0, attempt)
                && next.phase->Begin_0@ == archive_candidate(source->0, attempt);
        if attempt > 0 {
            assert(run.names.names().contains(archive_candidate(source->0, 0)));
        }
    }
}

/// What follows once an entry was begun, or could not be.
pub proof fn entries_begun_are_opened(run: Archive, result: Result<(), String>, next: Archive)
    requires
        run.phase is Begin,
        call_ensures(Archive::begun, (run, result), next),
    ensures
        same_stage(run, next),
        result is Ok ==> next.phase == ArchivePhase::Open(run.phase->Begin_0),
        result is Err ==> (next.phase matches ArchivePhase::Done(Err(m)) && m@
            == "Erro ao incluir "@ + run.phase->Begin_0@ + ": "@ + result->Err_0@),
{
}

/// What follows once a file was opened, or could not be.
pub proof fn files_opened_are_put_in(run: Archive, result: Result<(), String>, next: Archive)
    requires
        run.phase is Open,
        call_ensures(Archive::opened, (run, result), next),
    ensures
        same_stage(run, next),
        result is Ok ==> next.phase == ArchivePhase::Fill(run.phase->Open_0),
        result is Err ==> (next.phase matches ArchivePhase::Done(Err(m)) && m@ == "Erro ao ler "@
            + run.paths@[run.current as int]@ + ": "@ + result->Err_0@),
{
}

/// What follows once an entry was filled, or could not be.
pub proof fn entries_filled_are_completed(
    run: Archive,
    result: Result<(), String>,
    next: Archive,
)
    requires
        run.phase is Fill,
        call_ensures(Archive::filled, (run, result), next),
        next.current <= run.paths@.len(),
    ensures
        result is Ok ==> next_stage(run, next, run.completed + 1),
        result is Err ==> same_stage(run, next) && (next.phase matches ArchivePhase::Done(Err(m))
            && m@ == "Erro ao compactar "@ + run.phase->Fill_0@ + ": "@ + result->Err_0@),
{
}

/// What follows once an archive was completed, or could not be.
pub proof fn archives_closed_are_done(run: Archive, result: Result<(), String>, next: Archive)
    requires
        call_ensures(Archive::closed, (run, result), next),
    ensures
        same_stage(run, next),
        result is Ok ==> next.phase == ArchivePhase::Done(Ok(run.completed)),
        result is Err ==> (next.phase matches ArchivePhase::Done(Err(m)) && m@
            == "Erro ao finalizar o ZIP: "@ + result->Err_0@),
{
}

/// What is dealt with is always the current file.
pub proof fn the_current_file_is_dealt_with(
    transfer: Transfer,
    archive: Archive,
    moved: &str,
    packed: &str,
)
    requires
        call_ensures(Transfer::path, (&transfer,), moved),
        call_ensures(Archive::path, (&archive,), packed),
    ensures
        moved@ == transfer.paths@[transfer.current as int]@,
        packed@ == archive.paths@[archive.current as int]@,
{
}

/// The folders there are go part by part: a file without a folder has none.
pub proof fn folders_go_part_by_part(a: Seq<Option<String>>, b: Seq<Option<String>>)
    ensures
        present(a + b) == present(a) + present(b),
        a.len() == 0 ==> present(a) == Seq::<Seq<char>>::empty(),
        a.len() == 1 && a[0] is Some ==> present(a) == seq![a[0]->0@],
        a.len() == 1 && a[0] is None ==> present(a) == Seq::<Seq<char>>::empty(),
    decreases b.len(),
{
    if a.len() == 1 {
        assert(a.drop_last() =~= Seq::<Option<String>>::empty());
        assert(a.last() == a[0]);
        assert(present(a.drop_last()) =~= Seq::<Seq<char>>::empty());
    }
    if b.len() == 0 {
        assert(a + b =~= a);
    } else {
        assert((a + b).drop_last() =~= a + b.drop_last());
        folders_go_part_by_part(a, b.drop_last());
        assert(present(a + b) =~= present(a) + present(b));
    }
}

/// Each folder that one of some files is in is opened once, and nothing else.
pub proof fn each_folder_is_opened_once(parents: Vec<Option<String>>, start: Folders)
    requires
        call_ensures(open_containing_folders, (parents,), start),
    ensures
        texts(start.folders@).no_duplicates(),
        forall|folder: Seq<char>| #[trigger]
            texts(start.folders@).contains(folder) <==> exists|i: int|
                0 <= i < parents@.len() && (#[trigger] parents@[i]) is Some && parents@[i]->0@
                    == folder,
        start.current == 0,
        start.phase is Open <==> exists|i: int|
            0 <= i < parents@.len() && (#[trigger] parents@[i]) is Some,
        !(start.phase is Open) ==> (start.phase matches FoldersPhase::Done(Err(m)) && m@
            == "Não foi possível identificar as pastas dos arquivos."@),
{
    lemma_distinct_from(present(parents@));
    assert forall|folder: Seq<char>| #[trigger]
        texts(start.folders@).contains(folder) <==> exists|i: int|
            0 <= i < parents@.len() && (#[trigger] parents@[i]) is Some && parents@[i]->0@
                == folder by {
        lemma_present(parents@, folder);
        assert(texts(start.folders@).contains(folder) <==> present(parents@).contains(folder));
    }
    if present(parents@).len() > 0 {
        let folder = present(parents@)[0];
        assert(present(parents@).contains(folder));
        lemma_present(parents@, folder);
    }
    if exists|i: int| 0 <= i < parents@.len() && (#[trigger] parents@[i]) is Some {
        let i = choose|i: int| 0 <= i < parents@.len() && (#[trigger] parents@[i]) is Some;
        lemma_present(parents@, parents@[i]->0@);
    }
}

proof fn lemma_present(parents: Seq<Option<String>>, folder: Seq<char>)
    ensures
        present(parents).contains(folder) <==> exists|i: int|
            0 <= i < parents.len() && (#[trigger] parents[i]) is Some && parents[i]->0@ == folder,
    decreases parents.len(),
{
    if parents.len() > 0 {
        let shorter = parents.drop_last();
        let before = present(shorter);
        lemma_present(shorter, folder);
        if present(parents).contains(folder) {
            if before.contains(folder) {
                let i = choose|i: int|
                    0 <= i < shorter.len() && (#[trigger] shorter[i]) is Some && shorter[i]->0@
                        == folder;
                assert(parents[i] == shorter[i]);
            } else {
                assert(parents[parents.len() - 1] is Some);
            }
        }
        if exists|i: int|
            0 <= i < parents.len() && (#[trigger] parents[i]) is Some && parents[i]->0@ == folder {
            let i = choose|i: int|
                0 <= i < parents.len() && (#[trigger] parents[i]) is Some && parents[i]->0@
                    == folder;
            if i < parents.len() - 1 {
                assert(shorter[i] == parents[i]);
                let k = choose|k: int| 0 <= k < before.len() && before[k] == folder;
                assert(present(parents)[k] == folder);
            } else {
                assert(present(parents)[before.len() as int] == folder);
            }
        }
    }
}

/// Folders are opened one after the other, to the end or to the first that could
/// not be opened; what is told is how many there are, or which it was.
pub proof fn folders_are_opened_in_turn(
    run: Folders,
    result: Result<(), String>,
    next: Folders,
    path: &str,
)
    requires
        call_ensures(Folders::opened, (run, result), next),
        call_ensures(Folders::path, (&run,), path),
        next.current <= run.folders@.len(),
    ensures
        next.folders@ == run.folders@,
        path@ == run.folders@[run.current as int]@,
        result is Ok ==> next.current == run.current + 1,
        result is Ok && next.current < run.folders@.len() ==> next.phase is Open,
        result is Ok && next.current == run.folders@.len() ==> (
        next.phase matches FoldersPhase::Done(Ok(n)) && n == run.folders@.len()),
        result is Err ==> next.current == run.current && (
        next.phase matches FoldersPhase::Done(Err(m)) && m@ == "Não foi possível abrir "@ + path@
            + ": "@ + result->Err_0@),
{
}

/// A file that could not be opened is answered with the reason.
pub proof fn failures_to_open_are_told(opened: Result<(), String>, r: Result<(), String>)
    requires
        call_ensures(open_path, (opened,), r),
    ensures
        r is Ok <==> opened is Ok,
        opened is Err ==> r->Err_0@ == "Não foi possível abrir: "@ + opened->Err_0@,
{
}

} // verus!
