use acervo::archive::{zip_files, Archive, ArchivePhase};
use acervo::folders::{open_containing_folders, open_path, Folders, FoldersPhase};
use acervo::names::{
    available_target, backup_path, ArchiveNames, BackupPlace, SourceName, TargetName,
};
use acervo::transfer::{transfer_files, Transfer, TransferPhase};
use std::io::{Cursor, Read, Write};
use zip::write::SimpleFileOptions;
use zip::{CompressionMethod, ZipArchive, ZipWriter};

fn named(stem: &str, extension: &str) -> SourceName {
    SourceName {
        has_name: true,
        name: Some(format!("{stem}.{extension}")),
        stem: Some(stem.into()),
        extension: Some(extension.into()),
    }
}

fn bare(name: &str) -> SourceName {
    SourceName {
        has_name: true,
        name: Some(name.into()),
        stem: Some(name.into()),
        extension: None,
    }
}

fn unreadable() -> SourceName {
    SourceName {
        has_name: true,
        name: None,
        stem: None,
        extension: None,
    }
}

fn paths(values: &[&str]) -> Vec<String> {
    values.iter().map(|value| value.to_string()).collect()
}

fn numbered(source: &SourceName, taken: usize) -> String {
    match available_target(source, taken) {
        Ok(TargetName::Numbered(name)) => name,
        _ => panic!("a numbered name was expected"),
    }
}

#[test]
fn targets_are_numbered_from_two_on() {
    let source = named("nota", "txt");
    assert!(matches!(
        available_target(&source, 0),
        Ok(TargetName::Same)
    ));
    assert_eq!(numbered(&source, 1), "nota (2).txt");
    assert_eq!(numbered(&source, 9), "nota (10).txt");
    assert_eq!(numbered(&source, 9998), "nota (9999).txt");
    assert_eq!(
        available_target(&source, 9999).err().unwrap(),
        "Não foi possível escolher um nome disponível no destino."
    );
    assert_eq!(numbered(&bare("LEIAME"), 1), "LEIAME (2)");
    assert_eq!(numbered(&unreadable(), 2), "arquivo (3)");
}

#[test]
fn a_target_needs_a_name() {
    let mut source = named("nota", "txt");
    source.has_name = false;
    assert_eq!(
        available_target(&source, 0).err().unwrap(),
        "Nome de arquivo inválido"
    );
}

#[test]
fn backups_are_numbered_from_two_on() {
    let place = |taken: usize| match backup_path("a.txt", taken) {
        BackupPlace::Try(path) => (false, path),
        BackupPlace::Use(path) => (true, path),
    };
    assert_eq!(place(0), (false, "a.txt.bak".to_string()));
    assert_eq!(place(1), (false, "a.txt.bak.2".to_string()));
    assert_eq!(place(9998), (false, "a.txt.bak.9999".to_string()));
    assert_eq!(place(9999), (true, "a.txt.bak".to_string()));
    assert_eq!(place(usize::MAX), (true, "a.txt.bak".to_string()));
}

#[test]
fn names_in_an_archive_are_different() {
    let mut names = ArchiveNames::new();
    assert_eq!(names.reserve(&named("nota", "txt")), "nota.txt");
    assert_eq!(names.reserve(&named("nota", "txt")), "nota (2).txt");
    assert_eq!(names.reserve(&bare("nota (3).txt")), "nota (3).txt");
    assert_eq!(names.reserve(&named("nota", "txt")), "nota (4).txt");
    assert_eq!(names.reserve(&unreadable()), "arquivo");
    assert_eq!(names.reserve(&unreadable()), "arquivo (2)");
    assert_eq!(names.used.len(), 6);
}

fn is_same(phase: &TransferPhase) -> bool {
    matches!(
        phase,
        TransferPhase::Rename(TargetName::Same) | TransferPhase::Copy(TargetName::Same)
    )
}

#[test]
fn files_are_copied_under_free_names() {
    let mut run = transfer_files(paths(&["/a/nota.txt", "/pasta", "/b/nota.txt"]), true, false);
    assert_eq!(run.path(), "/a/nota.txt");
    run = run.checked(Some(named("nota", "txt"))).probed(false);
    assert!(matches!(run.phase, TransferPhase::Copy(_)) && is_same(&run.phase));
    run = run.copied(Ok(()));
    assert_eq!(run.path(), "/pasta");
    run = run.checked(None);
    assert_eq!(run.path(), "/b/nota.txt");
    run = run.checked(Some(named("nota", "txt"))).probed(true);
    assert!(
        matches!(&run.phase, TransferPhase::Probe { target: TargetName::Numbered(name), .. }
            if name == "nota (2).txt")
    );
    run = run.probed(true).probed(false);
    assert!(matches!(&run.phase, TransferPhase::Copy(TargetName::Numbered(name))
            if name == "nota (3).txt"));
    run = run.copied(Ok(()));
    assert!(matches!(run.phase, TransferPhase::Done(Ok(2))));
}

#[test]
fn files_that_cannot_be_moved_are_copied_and_removed() {
    let mut run = transfer_files(paths(&["a", "b"]), true, true);
    run = run.checked(Some(bare("a"))).probed(false);
    assert!(matches!(run.phase, TransferPhase::Rename(_)) && is_same(&run.phase));
    run = run.renamed(true);
    assert_eq!(run.path(), "b");
    run = run.checked(Some(bare("b"))).probed(false).renamed(false);
    assert!(matches!(run.phase, TransferPhase::Copy(_)) && is_same(&run.phase));
    run = run.copied(Ok(()));
    assert!(matches!(run.phase, TransferPhase::Remove));
    assert_eq!(run.completed, 1);
    run = run.removed(Ok(()));
    assert!(matches!(run.phase, TransferPhase::Done(Ok(2))));
}

#[test]
fn failures_end_a_transfer() {
    let failed = |run: Transfer| match run.phase {
        TransferPhase::Done(Err(message)) => message,
        _ => panic!("a failure was expected"),
    };
    let begin = |move_files: bool| {
        transfer_files(paths(&["a"]), true, move_files)
            .checked(Some(bare("a")))
            .probed(false)
    };
    assert_eq!(
        failed(begin(false).copied(Err("cheio".into()))),
        "Erro ao copiar a: cheio"
    );
    assert_eq!(
        failed(begin(true).renamed(false).copied(Err("cheio".into()))),
        "Erro ao mover a: cheio"
    );
    assert_eq!(
        failed(
            begin(true)
                .renamed(false)
                .copied(Ok(()))
                .removed(Err("negado".into()))
        ),
        "Erro ao concluir a movimentação: negado"
    );
    assert_eq!(
        failed(transfer_files(paths(&["a"]), false, true)),
        "Selecione uma pasta de destino válida."
    );
    let mut nameless = bare("a");
    nameless.has_name = false;
    assert_eq!(
        failed(transfer_files(paths(&["a"]), true, true).checked(Some(nameless))),
        "Nome de arquivo inválido"
    );
    let mut run = transfer_files(paths(&["a"]), true, true).checked(Some(bare("a")));
    for _ in 0..9998 {
        run = run.probed(true);
    }
    assert!(
        matches!(&run.phase, TransferPhase::Probe { target: TargetName::Numbered(name), .. }
            if name == "a (9999)")
    );
    assert_eq!(
        failed(run.probed(true)),
        "Não foi possível escolher um nome disponível no destino."
    );
}

#[test]
fn without_files_nothing_is_transferred() {
    assert!(matches!(
        transfer_files(Vec::new(), true, true).phase,
        TransferPhase::Done(Ok(0))
    ));
}

#[test]
fn creates_zip_with_selected_files() {
    let files = [
        ("/raiz/primeiro.txt", named("primeiro", "txt"), "um"),
        ("/raiz/segundo.txt", named("segundo", "txt"), "dois"),
    ];
    let mut writer = ZipWriter::new(Cursor::new(Vec::new()));
    let options = SimpleFileOptions::default().compression_method(CompressionMethod::Deflated);
    let mut sources: Vec<SourceName> = Vec::new();
    let mut contents: Vec<&str> = Vec::new();
    let mut selected: Vec<String> = Vec::new();
    for (path, source, content) in files {
        selected.push(path.into());
        sources.push(source);
        contents.push(content);
    }
    sources.reverse();
    let mut run = zip_files(selected, "/raiz/selecionados.zip".into())
        .ok()
        .unwrap();
    assert_eq!(run.destination, "/raiz/selecionados.zip");
    let mut finished = None;
    let count = loop {
        run = match run.phase {
            ArchivePhase::Create => run.created(Ok(())),
            ArchivePhase::Check => run.checked(sources.pop()),
            ArchivePhase::Begin(ref name) => {
                let begun = writer
                    .start_file(name.as_str(), options)
                    .map_err(|e| e.to_string());
                run.begun(begun)
            }
            ArchivePhase::Open(_) => run.opened(Ok(())),
            ArchivePhase::Fill(_) => {
                let filled = writer
                    .write_all(contents[run.current].as_bytes())
                    .map_err(|e| e.to_string());
                run.filled(filled)
            }
            ArchivePhase::Close => {
                let closed = writer.finish().map_err(|e| e.to_string());
                writer = ZipWriter::new(Cursor::new(Vec::new()));
                match closed {
                    Ok(cursor) => {
                        finished = Some(cursor);
                        run.closed(Ok(()))
                    }
                    Err(reason) => run.closed(Err(reason)),
                }
            }
            ArchivePhase::Done(outcome) => break outcome.unwrap(),
        };
    };
    assert_eq!(count, 2);
    let mut archive = ZipArchive::new(finished.unwrap()).unwrap();
    assert_eq!(archive.len(), 2);
    assert!(archive.by_name("primeiro.txt").is_ok());
    let mut content = String::new();
    let _ = archive
        .by_name("segundo.txt")
        .unwrap()
        .read_to_string(&mut content)
        .unwrap();
    assert_eq!(content, "dois");
}

#[test]
fn what_is_no_file_is_not_compressed() {
    let mut run = zip_files(paths(&["/x", "/y", "/z"]), "/saida".into())
        .ok()
        .unwrap();
    assert_eq!(run.destination, "/saida.zip");
    run = run.created(Ok(()));
    assert_eq!(run.path(), "/x");
    run = run.checked(None);
    assert_eq!(run.path(), "/y");
    run = run.checked(Some(named("y", "txt")));
    assert!(matches!(&run.phase, ArchivePhase::Begin(name) if name == "y.txt"));
    run = run.begun(Ok(())).opened(Ok(())).filled(Ok(()));
    run = run.checked(None);
    assert!(matches!(run.phase, ArchivePhase::Close));
    run = run.closed(Ok(()));
    assert!(matches!(run.phase, ArchivePhase::Done(Ok(1))));
}

#[test]
fn failures_end_a_compression() {
    let failed = |run: Archive| match run.phase {
        ArchivePhase::Done(Err(message)) => message,
        _ => panic!("a failure was expected"),
    };
    let begin = || zip_files(paths(&["/y.txt"]), "/s.zip".into()).ok().unwrap();
    let entry = || begin().created(Ok(())).checked(Some(named("y", "txt")));
    assert_eq!(
        failed(begin().created(Err("negado".into()))),
        "Não foi possível criar /s.zip: negado"
    );
    assert_eq!(
        failed(entry().begun(Err("cheio".into()))),
        "Erro ao incluir y.txt: cheio"
    );
    assert_eq!(
        failed(entry().begun(Ok(())).opened(Err("negado".into()))),
        "Erro ao ler /y.txt: negado"
    );
    assert_eq!(
        failed(entry().begun(Ok(())).opened(Ok(())).filled(Err("cheio".into()))),
        "Erro ao compactar y.txt: cheio"
    );
    assert_eq!(
        failed(
            entry()
                .begun(Ok(()))
                .opened(Ok(()))
                .filled(Ok(()))
                .closed(Err("cheio".into()))
        ),
        "Erro ao finalizar o ZIP: cheio"
    );
    assert_eq!(
        zip_files(Vec::new(), "/s.zip".into()).err().unwrap(),
        "Selecione ao menos um arquivo."
    );
}

#[test]
fn archives_end_in_zip() {
    let path = |destination: &str| {
        zip_files(paths(&["a"]), destination.into())
            .ok()
            .unwrap()
            .destination
    };
    assert_eq!(path("a.ZIP"), "a.ZIP");
    assert_eq!(path("a.zIp"), "a.zIp");
    assert_eq!(path(".zip"), ".zip");
    assert_eq!(path("zip"), "zip.zip");
    assert_eq!(path(""), ".zip");
    assert_eq!(path("a.zip.bak"), "a.zip.bak.zip");
    assert_eq!(path(&path("a.zip.bak")), "a.zip.bak.zip");
    for c in '\0'..=char::MAX {
        if c.is_ascii() || c.to_lowercase().any(|low| ".zip".contains(low)) {
            for destination in [
                format!("a{c}zip"),
                format!("a.{c}ip"),
                format!("a.z{c}p"),
                format!("a.zi{c}"),
            ] {
                let ends = destination.to_lowercase().ends_with(".zip");
                assert_eq!(path(&destination) == destination, ends);
            }
        }
    }
}

#[test]
fn every_folder_is_opened_once() {
    let mut run = open_containing_folders(vec![
        Some("/b".into()),
        None,
        Some("/a".into()),
        Some("/b".into()),
    ]);
    assert_eq!(run.path(), "/b");
    run = run.opened(Ok(()));
    assert_eq!(run.path(), "/a");
    run = run.opened(Ok(()));
    assert!(matches!(run.phase, FoldersPhase::Done(Ok(2))));
}

#[test]
fn folders_that_cannot_be_opened_are_told() {
    let failed = |run: Folders| match run.phase {
        FoldersPhase::Done(Err(message)) => message,
        _ => panic!("a failure was expected"),
    };
    assert_eq!(
        failed(open_containing_folders(vec![Some("/b".into())]).opened(Err("negado".into()))),
        "Não foi possível abrir /b: negado"
    );
    for parents in [vec![], vec![None, None]] {
        assert_eq!(
            failed(open_containing_folders(parents)),
            "Não foi possível identificar as pastas dos arquivos."
        );
    }
    assert!(open_path(Ok(())).is_ok());
    assert_eq!(
        open_path(Err("nada".into())).err().unwrap(),
        "Não foi possível abrir: nada"
    );
}
