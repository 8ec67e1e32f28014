use acervo::compile::search_matchers;
use acervo::replace::{replace_in_files, ReplacePhase, ReplaceRun};
use acervo::request::{ReplaceRequest, SearchRequest};

fn request(paths: &[&str], query: &str, replacement: &str) -> ReplaceRequest {
    ReplaceRequest {
        paths: paths.iter().map(|path| path.to_string()).collect(),
        query: query.into(),
        replacement: replacement.into(),
        use_regex: false,
        case_sensitive: false,
        whole_word: false,
        create_backup: false,
    }
}

fn start(req: ReplaceRequest) -> ReplaceRun {
    replace_in_files(req).ok().unwrap()
}

fn replaced(req: ReplaceRequest, content: &str) -> Option<String> {
    start(req)
        .replaced_content(content.as_bytes())
        .map(|bytes| String::from_utf8(bytes).unwrap())
}

#[test]
fn replaces_selected_file_and_creates_backup() {
    let path = "acervo-replace.txt";
    let mut req = request(&[path], "texto antigo", "texto novo");
    req.create_backup = true;
    let mut content = b"texto antigo e outro texto antigo".to_vec();
    let mut backups = Vec::new();
    let mut run = start(req);
    let changed = loop {
        run = match run.phase {
            ReplacePhase::Read => {
                assert_eq!(run.path(), path);
                run.file_read(Ok(content.clone()))
            }
            ReplacePhase::Probe { .. } => run.place_probed(false),
            ReplacePhase::BackUp { ref place, .. } => {
                backups.push((place.clone(), content.clone()));
                run.file_backed_up(Ok(()))
            }
            ReplacePhase::Write(ref bytes) => {
                content = bytes.clone();
                run.file_written(Ok(()))
            }
            ReplacePhase::Done(outcome) => break outcome.unwrap(),
        };
    };
    assert_eq!(changed, 1);
    assert_eq!(
        String::from_utf8(content).unwrap(),
        "texto novo e outro texto novo"
    );
    assert_eq!(
        backups,
        [(
            format!("{path}.bak"),
            b"texto antigo e outro texto antigo".to_vec()
        )]
    );
}

#[test]
fn every_line_of_the_query_is_replaced() {
    assert_eq!(
        replaced(request(&["a"], "um\n\n dois \n", "-"), "UM dois três").unwrap(),
        "- - três"
    );
    assert_eq!(
        replaced(request(&["a"], "ab\nabc", "-"), "abc ab").unwrap(),
        "-c -"
    );
    assert_eq!(
        replaced(request(&["a"], "abc\nab", "-"), "abc ab").unwrap(),
        "- -"
    );
    assert_eq!(replaced(request(&["a"], "zz", "-"), "abc ab"), None);
}

#[test]
fn plain_replacements_are_put_as_they_are() {
    assert_eq!(
        replaced(request(&["a"], "a.b", "$1${x}$$"), "a.b axb").unwrap(),
        "$1${x}$$ axb"
    );
    assert_eq!(replaced(request(&["a"], "aa", ""), "aaaba").unwrap(), "aba");
}

#[test]
fn expressions_fill_in_groups() {
    let mut req = request(&["a"], r"(\w+)@(\w+)", "$2 em ${1}_");
    req.use_regex = true;
    assert_eq!(
        replaced(req, "ana@casa, eva@mar").unwrap(),
        "casa em ana_, mar em eva_"
    );
    let mut plain = request(&["a"], r"\d+", "n");
    plain.use_regex = true;
    assert_eq!(replaced(plain, "1 e 23").unwrap(), "n e n");
    let mut none = request(&["a"], r"\d+", "$0$0");
    none.use_regex = true;
    assert_eq!(replaced(none, "nada"), None);
}

#[test]
fn case_and_words_are_regarded_where_asked() {
    let mut sensitive = request(&["a"], "Nota", "x");
    sensitive.case_sensitive = true;
    assert_eq!(replaced(sensitive, "nota Nota NOTA").unwrap(), "nota x NOTA");
    assert_eq!(
        replaced(request(&["a"], "Nota", "x"), "nota Nota NOTA").unwrap(),
        "x x x"
    );
    let mut words = request(&["a"], "um\numa", "x");
    words.whole_word = true;
    assert_eq!(replaced(words, "um uma umas").unwrap(), "x x umas");
}

#[test]
fn the_long_s_is_an_s_where_case_is_ignored() {
    assert_eq!(
        replaced(request(&["a"], "so", "x"), "so SO \u{17f}o").unwrap(),
        "x x x"
    );
}

#[test]
fn files_without_matches_are_left_alone() {
    let mut run = start(request(&["a", "b", "c"], "um", "dois"));
    run = run.file_read(Ok(b"nada".to_vec()));
    assert_eq!(run.path(), "b");
    run = run.file_read(Ok(b"um".to_vec()));
    assert!(matches!(&run.phase, ReplacePhase::Write(bytes) if bytes == b"dois"));
    run = run.file_written(Ok(()));
    assert_eq!(run.path(), "c");
    run = run.file_read(Ok(Vec::new()));
    assert!(matches!(run.phase, ReplacePhase::Done(Ok(1))));
}

#[test]
fn failures_end_a_replacement() {
    let failed = |run: ReplaceRun| match run.phase {
        ReplacePhase::Done(Err(message)) => message,
        _ => panic!("a failure was expected"),
    };
    let mut req = request(&["a", "b"], "um", "dois");
    req.create_backup = true;
    let unread = start(req).file_read(Err("negado".into()));
    assert_eq!(failed(unread), "Erro ao ler a: negado");
    let mut req = request(&["a", "b"], "um", "dois");
    req.create_backup = true;
    let backup = start(req)
        .file_read(Ok(b"um".to_vec()))
        .place_probed(false);
    assert!(matches!(&backup.phase, ReplacePhase::BackUp { bytes, .. } if bytes == b"dois"));
    assert_eq!(
        failed(backup.file_backed_up(Err("cheio".into()))),
        "Erro ao criar backup de a: cheio"
    );
    let write = start(request(&["a", "b"], "um", "dois")).file_read(Ok(b"um".to_vec()));
    assert_eq!(
        failed(write.file_written(Err("cheio".into()))),
        "Erro ao salvar a: cheio"
    );
}

#[test]
fn a_replacement_needs_files_and_a_valid_expression() {
    assert_eq!(
        replace_in_files(request(&[], "um", "dois")).err().unwrap(),
        "Selecione ao menos um arquivo."
    );
    let mut req = request(&["a"], "(", "");
    req.use_regex = true;
    assert!(replace_in_files(req)
        .err()
        .unwrap()
        .starts_with("Expressão inválida: "));
}

#[test]
fn the_expression_joins_the_lines() {
    let mut req = request(&["a"], "a.b\nc|d", "");
    assert_eq!(start(req).expression.as_str(), r"(?:a\.b|c\|d)");
    req = request(&["a"], "a.b\r\nc|d", "");
    req.use_regex = true;
    req.whole_word = true;
    assert_eq!(start(req).expression.as_str(), r"\b(?:a.b|c|d)\b");
}

#[test]
fn what_a_search_finds_a_replacement_changes() {
    for (query, content) in [
        ("um\ndois\num", "DOIS"),
        ("um\ndois", "tres"),
        ("b\nabc", "xabcx"),
        ("ação\né", "uma ação"),
        ("ação\né", "AÇÃO"),
        ("so", "\u{17f}o so"),
        ("pé", "pés"),
    ] {
        for (case_sensitive, whole_word) in [(true, false), (true, true), (false, true)] {
            let mut replace = request(&["a"], query, "-");
            replace.case_sensitive = case_sensitive;
            replace.whole_word = whole_word;
            let run = start(replace);
            let req = SearchRequest {
                directory: ".".into(),
                query: query.into(),
                mode: "content".into(),
                use_regex: false,
                case_sensitive,
                whole_word,
                include_hidden: true,
                include_subfolders: true,
                pre_count: false,
                file_pattern: "*".into(),
                min_size: None,
                max_size: None,
                min_modified: None,
                max_modified: None,
            };
            let matchers = search_matchers(&req).unwrap();
            assert_eq!(
                matchers.count(content.as_bytes()) > 0,
                run.replaced_content(content.as_bytes()).is_some()
            );
        }
    }
}

#[test]
fn a_text_replaced_by_itself_changes_nothing() {
    for content in ["Nota", "xNotaNotay", "NoNota Nota"] {
        let mut req = request(&["a"], "Nota", "Nota");
        req.case_sensitive = true;
        assert_eq!(replaced(req, content).unwrap(), content);
    }
}

#[test]
fn only_matches_account_for_a_change_of_length() {
    let content = "um, dois, um, três um";
    let after = replaced(request(&["a"], "um", "quatro"), content).unwrap();
    assert_eq!(after, "quatro, dois, quatro, três quatro");
    assert_eq!(after.len(), content.len() + 3 * (6 - 2));
}

#[test]
fn backups_take_no_place_that_is_taken() {
    let mut req = request(&["a.txt"], "um", "dois");
    req.create_backup = true;
    let mut run = start(req).file_read(Ok(b"um".to_vec()));
    assert!(
        matches!(&run.phase, ReplacePhase::Probe { bytes, taken: 0, place }
            if bytes == b"dois" && place == "a.txt.bak")
    );
    run = run.place_probed(true).place_probed(true);
    assert!(matches!(&run.phase, ReplacePhase::Probe { place, .. } if place == "a.txt.bak.3"));
    run = run.place_probed(false);
    assert!(matches!(&run.phase, ReplacePhase::BackUp { place, .. } if place == "a.txt.bak.3"));
    run = run.file_backed_up(Ok(()));
    assert!(matches!(&run.phase, ReplacePhase::Write(bytes) if bytes == b"dois"));
}

#[test]
fn the_first_place_is_used_when_all_are_taken() {
    let mut req = request(&["a"], "um", "dois");
    req.create_backup = true;
    let mut run = start(req).file_read(Ok(b"um".to_vec()));
    for _ in 0..9998 {
        run = run.place_probed(true);
    }
    assert!(matches!(&run.phase, ReplacePhase::Probe { place, .. } if place == "a.bak.9999"));
    run = run.place_probed(true);
    assert!(matches!(&run.phase, ReplacePhase::BackUp { place, .. } if place == "a.bak"));
}
