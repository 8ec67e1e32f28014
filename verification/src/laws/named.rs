//! Promises of the names that files are given.

use crate::archive::{zip_files, Archive};
use crate::names::{
    available_target, backup_path, numbered_name, BackupPlace, SourceName, TargetName,
};
use crate::text::{decimal, texts};
use vstd::prelude::*;

verus! {

/// A name with a number is the part before the last dot, the number between
/// brackets, and the part behind the dot where there is one. What is not text
/// has a name that stands for it.
pub proof fn numbers_stand_between_brackets(source: SourceName, number: nat)
    ensures
        source.stem is Some && source.extension is Some ==> numbered_name(source, number)
            == source.stem->0@ + " ("@ + decimal(number) + ")"@ + ("."@ + source.extension->0@),
        source.stem is Some && source.extension is None ==> numbered_name(source, number)
            == source.stem->0@ + " ("@ + decimal(number) + ")"@,
        source.stem is None && source.extension is Some ==> numbered_name(source, number)
            == "arquivo"@ + " ("@ + decimal(number) + ")"@ + ("."@ + source.extension->0@),
        source.stem is None && source.extension is None ==> numbered_name(source, number)
            == "arquivo"@ + " ("@ + decimal(number) + ")"@,
{
    let none = Seq::<char>::empty();
    if source.stem is Some {
        let name = source.stem->0@ + " ("@ + decimal(number) + ")"@;
        assert(name + none =~= name);
    } else {
        let name = "arquivo"@ + " ("@ + decimal(number) + ")"@;
        assert(name + none =~= name);
    }
}

/// A file that is put into another directory keeps its name if that is free.
/// Else names with the numbers from two on are tried, and none after 9999; a
/// path without a name is refused.
pub proof fn names_are_tried_by_number(
    source: SourceName,
    taken: usize,
    r: Result<TargetName, String>,
)
    requires
        call_ensures(available_target, (&source, taken), r),
    ensures
        !source.has_name ==> r is Err && r->Err_0@ == "Nome de arquivo inválido"@,
        source.has_name && taken == 0 ==> r == Ok::<TargetName, String>(TargetName::Same),
        source.has_name && 0 < taken <= 9_998 ==> r is Ok && (
        r->Ok_0 matches TargetName::Numbered(name) && name@ == numbered_name(
            source,
            (taken + 1) as nat,
        )),
        source.has_name && taken > 9_998 ==> r is Err && r->Err_0@
            == "Não foi possível escolher um nome disponível no destino."@,
{
}

/// A backup goes behind the file's own path, and then, with the numbers from two
/// on, none after 9999; after that the first place is used whatever is there.
pub proof fn backups_are_tried_by_number(source: &str, taken: usize, place: BackupPlace)
    requires
        call_ensures(backup_path, (source, taken), place),
    ensures
        taken == 0 ==> (place matches BackupPlace::Try(path) && path@ == source@ + ".bak"@),
        0 < taken <= 9_998 ==> (place matches BackupPlace::Try(path) && path@ == source@ + ".bak."@
            + decimal((taken + 1) as nat)),
        taken > 9_998 ==> (place matches BackupPlace::Use(path) && path@ == source@ + ".bak"@),
{
}

/// An archive's path is the one given where that ends in `.zip`, in whichever
/// case; else `.zip` is put behind it. Nothing else of what is asked for is
/// changed, and an archive of no files is refused.
pub proof fn archives_begin_as_asked(
    paths: Vec<String>,
    destination: String,
    r: Result<Archive, String>,
    front: Seq<char>,
    z: char,
    i: char,
    p: char,
)
    requires
        call_ensures(zip_files, (paths, destination), r),
    ensures
        paths@.len() == 0 ==> r is Err && r->Err_0@ == "Selecione ao menos um arquivo."@,
        paths@.len() > 0 ==> {
            &&& r is Ok
            &&& r->Ok_0.paths@ == paths@
            &&& r->Ok_0.phase is Create
            &&& r->Ok_0.current == 0
            &&& r->Ok_0.completed == 0
            &&& r->Ok_0.names.used@.len() == 0
            &&& destination@ == front + seq!['.', z, i, p] && (z == 'z' || z == 'Z') && (i == 'i' || i
                == 'I') && (p == 'p' || p == 'P') ==> r->Ok_0.destination@ == destination@
            &&& destination@.len() < 4 ==> r->Ok_0.destination@ == destination@ + ".zip"@
            &&& destination@.len() >= 4 && destination@[destination@.len() - 4] != '.'
                ==> r->Ok_0.destination@ == destination@ + ".zip"@
            &&& destination@.len() >= 4 && destination@.last() != 'p' && destination@.last() != 'P'
                ==> r->Ok_0.destination@ == destination@ + ".zip"@
            &&& destination@.len() >= 4 && destination@[destination@.len() - 2] != 'i'
                && destination@[destination@.len() - 2] != 'I' ==> r->Ok_0.destination@
                == destination@ + ".zip"@
            &&& destination@.len() >= 4 && destination@[destination@.len() - 3] != 'z'
                && destination@[destination@.len() - 3] != 'Z' ==> r->Ok_0.destination@
                == destination@ + ".zip"@
        },
{
    if paths@.len() > 0 {
        assert(texts(r->Ok_0.names.used@).len() == 0);
    }
}

} // verus!
