use acervo::defender::{
    acceleration_script, can_elevate, can_encode, check_exclusion_directory,
    defender_contextual_exclusion, elevated_powershell_arguments, normal_windows_path,
    powershell_encoded, powershell_literal, run_elevated_powershell, set_defender_acceleration,
    Acceleration, DirectoryFacts, ElevationOutcome,
};
use base64::engine::general_purpose::STANDARD;
use base64::Engine;

fn folder() -> DirectoryFacts {
    DirectoryFacts {
        absolute: true,
        directory: true,
        has_parent: true,
    }
}

fn decoded(encoded: &str) -> String {
    let bytes = STANDARD.decode(encoded).unwrap();
    let units: Vec<u16> = bytes
        .chunks(2)
        .map(|pair| u16::from_le_bytes([pair[0], pair[1]]))
        .collect();
    String::from_utf16(&units).unwrap()
}

#[test]
fn builds_a_process_scoped_defender_exclusion() {
    let exclusion = defender_contextual_exclusion(
        &folder(),
        Ok(r"\\?\C:\Temp\acervo-defender-test-0".into()),
        Ok(r"C:\Acervo\acervo.exe".into()),
    )
    .unwrap();
    assert!(exclusion.contains(r#"\:{PathType:folder,Process:""#));
    assert!(exclusion.ends_with("\"}"));
    assert_eq!(
        exclusion,
        r#"C:\Temp\acervo-defender-test-0\:{PathType:folder,Process:"C:\Acervo\acervo.exe"}"#
    );
}

#[test]
fn separators_at_the_end_are_left_out() {
    assert_eq!(
        defender_contextual_exclusion(&folder(), Ok(r"\\?\UNC\srv\dados\/\".into()), Ok("x".into()))
            .unwrap(),
        r#"\\srv\dados\:{PathType:folder,Process:"x"}"#
    );
}

#[test]
fn some_directories_are_not_excluded() {
    let invalid = "Selecione uma pasta válida antes de ativar a aceleração.";
    let mut facts = folder();
    assert!(check_exclusion_directory(&facts).is_ok());
    facts.has_parent = false;
    assert_eq!(
        check_exclusion_directory(&facts).err().unwrap(),
        "A raiz inteira de uma unidade não pode ser excluída."
    );
    facts.directory = false;
    assert_eq!(check_exclusion_directory(&facts).err().unwrap(), invalid);
    facts = folder();
    facts.absolute = false;
    assert_eq!(
        defender_contextual_exclusion(&facts, Ok("a".into()), Ok("b".into()))
            .err()
            .unwrap(),
        invalid
    );
    assert_eq!(
        defender_contextual_exclusion(&folder(), Err("sumiu".into()), Err("x".into()))
            .err()
            .unwrap(),
        "Não foi possível validar a pasta: sumiu"
    );
    assert_eq!(
        defender_contextual_exclusion(&folder(), Ok("a".into()), Err("x".into()))
            .err()
            .unwrap(),
        "Não foi possível localizar o Acervo: x"
    );
}

#[test]
fn apostrophes_are_doubled() {
    assert_eq!(powershell_literal("d'água"), "d''água");
    assert_eq!(powershell_literal("''"), "''''");
    assert_eq!(powershell_literal("pasta"), "pasta");
    assert_eq!(powershell_literal(""), "");
}

#[test]
fn verbatim_marks_are_left_out() {
    assert_eq!(normal_windows_path(r"\\?\C:\a"), r"C:\a");
    assert_eq!(normal_windows_path(r"\\?\UNC\srv\a"), r"\\srv\a");
    assert_eq!(normal_windows_path(r"C:\a"), r"C:\a");
    assert_eq!(normal_windows_path(r"\\srv\a"), r"\\srv\a");
    assert_eq!(normal_windows_path(r"\\?\UNC"), "UNC");
}

#[test]
fn scripts_are_encoded_in_utf16_and_base64() {
    assert_eq!(powershell_encoded("a"), "YQA=");
    assert_eq!(powershell_encoded("exit"), "ZQB4AGkAdAA=");
    assert_eq!(powershell_encoded(""), "");
    for script in ["a", "ab", "abc", "é?~", "\u{1f600} fim", "\u{10ffff}\u{ffff}"] {
        assert!(can_encode(script));
        assert_eq!(decoded(&powershell_encoded(script)), script);
    }
}

#[test]
fn different_scripts_are_encoded_differently() {
    let scripts = ["", "a", "b", "aa", "\u{100}", "\u{1f600}", "\u{1f601}"];
    for (i, a) in scripts.iter().enumerate() {
        for b in &scripts[i + 1..] {
            assert_ne!(powershell_encoded(a), powershell_encoded(b));
        }
    }
}

#[test]
fn the_script_adds_or_removes() {
    assert_eq!(
        acceleration_script("C:\\d'a", true),
        "$ErrorActionPreference='Stop'; Import-Module Defender; $target='C:\\d''a'; $current=@((Get-MpPreference -ErrorAction Stop).ExclusionPath); if ($current -notcontains $target) { Add-MpPreference -ExclusionPath $target -Force -ErrorAction Stop }"
    );
    assert_eq!(
        acceleration_script("x", false),
        "$ErrorActionPreference='Stop'; Import-Module Defender; $target='x'; $current=@((Get-MpPreference -ErrorAction Stop).ExclusionPath); if ($current -contains $target) { Remove-MpPreference -ExclusionPath $target -Force -ErrorAction Stop }"
    );
}

#[test]
fn scripts_are_run_with_elevated_rights() {
    assert!(can_elevate("exit"));
    let arguments = elevated_powershell_arguments("exit");
    assert_eq!(
        arguments[..3],
        ["-NoProfile", "-NonInteractive", "-EncodedCommand"]
    );
    assert_eq!(arguments.len(), 4);
    assert_eq!(
        decoded(&arguments[3]),
        "$ErrorActionPreference='Stop'; try { $ps=Join-Path $env:SystemRoot 'System32\\WindowsPowerShell\\v1.0\\powershell.exe'; $p=Start-Process -FilePath $ps -Verb RunAs -WindowStyle Hidden -Wait -PassThru -ArgumentList @('-NoProfile','-NonInteractive','-EncodedCommand','ZQB4AGkAdAA='); exit $p.ExitCode } catch { exit 1 }"
    );
}

#[test]
fn outcomes_of_an_elevation_are_told() {
    assert!(run_elevated_powershell(ElevationOutcome::Exited(true)).is_ok());
    assert_eq!(
        run_elevated_powershell(ElevationOutcome::Exited(false))
            .err()
            .unwrap(),
        "A alteração não foi autorizada ou foi bloqueada pelo Microsoft Defender."
    );
    assert_eq!(
        run_elevated_powershell(ElevationOutcome::NotStarted("x".into()))
            .err()
            .unwrap(),
        "Não foi possível abrir a confirmação do Windows: x"
    );
    assert_eq!(
        run_elevated_powershell(ElevationOutcome::Unsupported)
            .err()
            .unwrap(),
        "A aceleração do Microsoft Defender está disponível somente no Windows."
    );
}

fn outcome(run: Acceleration) -> Result<String, String> {
    match run {
        Acceleration::Done(outcome) => outcome,
        _ => panic!("an outcome was expected"),
    }
}

#[test]
fn the_folder_is_told_at_the_end() {
    let begin = || {
        set_defender_acceleration(&folder(), Ok(r"\\?\C:\a".into()), Ok("x.exe".into()), true)
    };
    match begin() {
        Acceleration::Run(script) => {
            let exclusion = r#"C:\a\:{PathType:folder,Process:"x.exe"}"#;
            assert_eq!(script, acceleration_script(exclusion, true));
        }
        _ => panic!("a script was expected"),
    }
    let resolve = || begin().ran(ElevationOutcome::Exited(true));
    assert!(matches!(resolve(), Acceleration::Resolve));
    assert_eq!(
        outcome(resolve().resolved(Ok(r"\\?\C:\a".into()))).unwrap(),
        r"C:\a"
    );
    assert_eq!(
        outcome(resolve().resolved(Err("x".into()))).err().unwrap(),
        "Não foi possível validar a pasta: x"
    );
    assert_eq!(
        outcome(begin().ran(ElevationOutcome::Exited(false)))
            .err()
            .unwrap(),
        "A alteração não foi autorizada ou foi bloqueada pelo Microsoft Defender."
    );
}

#[test]
fn no_script_is_run_for_a_refused_folder() {
    let mut facts = folder();
    facts.has_parent = false;
    assert_eq!(
        outcome(set_defender_acceleration(&facts, Ok("a".into()), Ok("b".into()), false))
            .err()
            .unwrap(),
        "A raiz inteira de uma unidade não pode ser excluída."
    );
    assert_eq!(
        outcome(set_defender_acceleration(
            &folder(),
            Ok("a".into()),
            Err("x".into()),
            true
        ))
        .err()
        .unwrap(),
        "Não foi possível localizar o Acervo: x"
    );
}
