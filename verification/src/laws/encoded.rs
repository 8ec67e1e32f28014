//! Promises of the exclusions and of the scripts that set them.

use crate::defender::{
    acceleration_script, can_elevate, can_encode, check_exclusion_directory,
    defender_contextual_exclusion, doubled, elevated_powershell_arguments, normal_windows_path,
    plain_paths_stay, powershell_encoded, powershell_literal, run_elevated_powershell,
    set_defender_acceleration, utf16_char, utf16_le, verbatim_paths_become_plain,
    verbatim_shares_become_plain, without_final_separators, Acceleration, DirectoryFacts,
    ElevationOutcome,
};
use crate::engines::base64_text;
use vstd::prelude::*;

verus! {

/// The unit of UTF-16 that two bytes make, the low one first.
pub open spec fn unit(bytes: Seq<u8>, at: int) -> int {
    bytes[at] + 256 * bytes[at + 1]
}

/// Text is written in UTF-16 part by part: a character below 65536 as one unit,
/// which is its number, and any other as a high and a low surrogate, of which
/// each holds ten bits of what is above.
pub proof fn text_is_written_in_utf16(a: Seq<char>, b: Seq<char>, c: char)
    ensures
        utf16_le(a + b) == utf16_le(a) + utf16_le(b),
        utf16_le(Seq::<char>::empty()) == Seq::<u8>::empty(),
        utf16_le(seq![c]) == utf16_char(c),
        (c as int) < 0x10000 ==> utf16_char(c).len() == 2 && unit(utf16_char(c), 0) == c as int,
        c as int >= 0x10000 ==> {
            let bytes = utf16_char(c);
            &&& bytes.len() == 4
            &&& 0xd800 <= unit(bytes, 0) < 0xdc00
            &&& 0xdc00 <= unit(bytes, 2) < 0xe000
            &&& c as int == 0x10000 + (unit(bytes, 0) - 0xd800) * 0x400 + (unit(bytes, 2) - 0xdc00)
        },
    decreases b.len(),
{
    lemma_surrogates(c);
    assert(seq![c].drop_last() =~= Seq::<char>::empty());
    assert(utf16_le(seq![c].drop_last()) =~= Seq::<u8>::empty());
    assert(utf16_le(seq![c]) =~= utf16_char(c));
    if b.len() == 0 {
        assert(a + b =~= a);
        assert(utf16_le(a) + utf16_le(b) =~= utf16_le(a));
    } else {
        assert((a + b).drop_last() =~= a + b.drop_last());
        text_is_written_in_utf16(a, b.drop_last(), c);
        assert(utf16_le(a + b) =~= utf16_le(a) + utf16_le(b));
    }
}

proof fn lemma_surrogates(c: char)
    ensures
        (c as int) < 0x10000 ==> utf16_char(c).len() == 2 && unit(utf16_char(c), 0) == c as int,
        c as int >= 0x10000 ==> {
            let bytes = utf16_char(c);
            &&& bytes.len() == 4
            &&& 0xd800 <= unit(bytes, 0) < 0xdc00
            &&& 0xdc00 <= unit(bytes, 2) < 0xe000
            &&& c as int == 0x10000 + (unit(bytes, 0) - 0xd800) * 0x400 + (unit(bytes, 2) - 0xdc00)
        },
{
    let v = c as int;
    assert(0 <= v <= 0x10ffff && !(0xd800 <= v < 0xe000));
    if v >= 0x10000 {
        let high = 0xd800 + (v - 0x10000) / 0x400;
        let low = 0xdc00 + (v - 0x10000) % 0x400;
        assert(0xd800 <= high < 0xdc00 && 0xdc00 <= low < 0xe000);
        assert(unit(utf16_char(c), 0) == high);
        assert(unit(utf16_char(c), 2) == low);
    }
}

/// A script is encoded as the Base64 of its UTF-16, and can be exactly if that
/// can be held.
pub proof fn scripts_are_encoded_for_powershell(script: &str, s: String, can: bool)
    requires
        call_ensures(powershell_encoded, (script,), s),
        call_ensures(can_encode, (script,), can),
    ensures
        s@ == base64_text(utf16_le(script@)),
        can <==> (utf16_le(script@).len() + 2) / 3 * 4 <= isize::MAX,
{
}

/// Values are made literals part by part: an apostrophe is doubled, and every
/// other character stays.
pub proof fn apostrophes_are_doubled(a: Seq<char>, b: Seq<char>, c: char)
    ensures
        doubled(a + b) == doubled(a) + doubled(b),
        doubled(Seq::<char>::empty()) == Seq::<char>::empty(),
        doubled(seq!['\'']) == seq!['\'', '\''],
        c != '\'' ==> doubled(seq![c]) == seq![c],
    decreases b.len(),
{
    let none = Seq::<char>::empty();
    assert(seq![c].drop_last() =~= none);
    assert(seq!['\''].drop_last() =~= none);
    assert(doubled(none) =~= none);
    assert(doubled(seq!['\'']) =~= seq!['\'', '\'']);
    assert(c != '\'' ==> doubled(seq![c]) =~= seq![c]);
    if b.len() == 0 {
        assert(a + b =~= a);
        assert(doubled(a) + doubled(b) =~= doubled(a));
    } else {
        assert((a + b).drop_last() =~= a + b.drop_last());
        apostrophes_are_doubled(a, b.drop_last(), c);
        assert(doubled(a + b) =~= doubled(a) + doubled(b));
    }
}

/// A literal for two values in a row is that for the one and that for the other.
pub proof fn literals_go_part_by_part(
    a: &str,
    b: &str,
    both: &str,
    of_a: String,
    of_b: String,
    of_both: String,
)
    requires
        both@ == a@ + b@,
        call_ensures(powershell_literal, (a,), of_a),
        call_ensures(powershell_literal, (b,), of_b),
        call_ensures(powershell_literal, (both,), of_both),
    ensures
        of_both@ == of_a@ + of_b@,
        a@ == seq!['\''] ==> of_a@ == seq!['\'', '\''],
        !a@.contains('\'') ==> of_a@ == a@,
{
    apostrophes_are_doubled(a@, b@, 'a');
    if !a@.contains('\'') {
        lemma_nothing_doubled(a@);
    }
}

proof fn lemma_nothing_doubled(s: Seq<char>)
    requires
        !s.contains('\''),
    ensures
        doubled(s) == s,
    decreases s.len(),
{
    if s.len() > 0 {
        let shorter = s.drop_last();
        assert(s.contains(s[s.len() - 1]));
        assert forall|c: char| shorter.contains(c) implies s.contains(c) by {
            let i = choose|i: int| 0 <= i < shorter.len() && shorter[i] == c;
            assert(s[i] == c);
        }
        lemma_nothing_doubled(shorter);
        assert(shorter.push(s.last()) =~= s);
    }
}

/// A Windows path loses the marks of its verbatim form, and nothing else: a
/// network path has two backslashes in their place.
pub proof fn verbatim_marks_are_taken_off(value: &str, rest: Seq<char>, s: String)
    requires
        call_ensures(normal_windows_path, (value,), s),
    ensures
        value@ == "\\\\?\\UNC\\"@ + rest ==> s@ == "\\\\"@ + rest,
        value@ == "\\\\?\\"@ + rest && !"UNC\\"@.is_prefix_of(rest) ==> s@ == rest,
        !"\\\\?\\"@.is_prefix_of(value@) ==> s@ == value@,
{
    verbatim_shares_become_plain(rest);
    if value@ == "\\\\?\\"@ + rest && !"UNC\\"@.is_prefix_of(rest) {
        verbatim_paths_become_plain(rest);
    }
    if !"\\\\?\\"@.is_prefix_of(value@) {
        plain_paths_stay(value@);
    }
}

/// Separators are taken off the end of a path, all of them and nothing else.
pub proof fn final_separators_are_taken_off(s: Seq<char>) -> (n: int)
    ensures
        0 <= n <= s.len(),
        without_final_separators(s) == s.take(n),
        forall|k: int| n <= k < s.len() ==> (#[trigger] s[k] == '\\' || s[k] == '/'),
        n > 0 ==> s[n - 1] != '\\' && s[n - 1] != '/',
    decreases s.len(),
{
    if s.len() > 0 && (s.last() == '\\' || s.last() == '/') {
        let shorter = s.drop_last();
        let n = final_separators_are_taken_off(shorter);
        assert(shorter.take(n) =~= s.take(n));
        assert forall|k: int| n <= k < s.len() implies (#[trigger] s[k] == '\\' || s[k] == '/') by {
            if k < s.len() - 1 {
                assert(shorter[k] == s[k]);
            }
        }
        if n > 0 {
            assert(shorter[n - 1] == s[n - 1]);
        }
        n
    } else {
        assert(s.take(s.len() as int) =~= s);
        s.len() as int
    }
}

/// The exclusion of a folder for this program only: the folder without the
/// separators at its end, and the program, each without the marks of the
/// verbatim form. What may not be excluded is refused, each for its reason: what
/// is no directory with an absolute path, what has no parent, and what could not
/// be found out.
pub proof fn folders_are_excluded_for_this_program(
    facts: DirectoryFacts,
    canonical: Result<String, String>,
    executable: Result<String, String>,
    r: Result<String, String>,
    folder: &str,
    plain_folder: String,
    program: &str,
    plain_program: String,
) -> (n: int)
    requires
        call_ensures(defender_contextual_exclusion, (&facts, canonical, executable), r),
        canonical is Ok ==> folder@ == canonical->Ok_0@,
        executable is Ok ==> program@ == executable->Ok_0@,
        call_ensures(normal_windows_path, (folder,), plain_folder),
        call_ensures(normal_windows_path, (program,), plain_program),
    ensures
        !facts.absolute || !facts.directory ==> r is Err && r->Err_0@
            == "Selecione uma pasta válida antes de ativar a aceleração."@,
        facts.absolute && facts.directory && !facts.has_parent ==> r is Err && r->Err_0@
            == "A raiz inteira de uma unidade não pode ser excluída."@,
        facts.absolute && facts.directory && facts.has_parent && canonical is Err ==> r is Err
            && r->Err_0@ == "Não foi possível validar a pasta: "@ + canonical->Err_0@,
        facts.absolute && facts.directory && facts.has_parent && canonical is Ok && executable
            is Err ==> r is Err && r->Err_0@ == "Não foi possível localizar o Acervo: "@
            + executable->Err_0@,
        facts.absolute && facts.directory && facts.has_parent && canonical is Ok && executable
            is Ok ==> {
            &&& r is Ok
            &&& 0 <= n <= plain_folder@.len()
            &&& forall|k: int|
                n <= k < plain_folder@.len() ==> (#[trigger] plain_folder@[k] == '\\'
                    || plain_folder@[k] == '/')
            &&& n > 0 ==> plain_folder@[n - 1] != '\\' && plain_folder@[n - 1] != '/'
            &&& r->Ok_0@ == plain_folder@.take(n) + "\\:{PathType:folder,Process:\""@
                + plain_program@ + "\"}"@
        },
{
    final_separators_are_taken_off(plain_folder@)
}

/// A directory may be excluded exactly if it is one, has an absolute path and
/// has a parent.
pub proof fn roots_are_not_excluded(facts: DirectoryFacts, r: Result<(), String>)
    requires
        call_ensures(check_exclusion_directory, (&facts,), r),
    ensures
        r is Ok <==> facts.absolute && facts.directory && facts.has_parent,
        !facts.absolute || !facts.directory ==> r->Err_0@
            == "Selecione uma pasta válida antes de ativar a aceleração."@,
        facts.absolute && facts.directory && !facts.has_parent ==> r->Err_0@
            == "A raiz inteira de uma unidade não pode ser excluída."@,
{
}

/// The script that adds an exclusion does so if it is not there, and the one
/// that removes it if it is; both name it as a literal.
pub proof fn scripts_add_or_remove(
    target: &str,
    literal: String,
    adding: String,
    removing: String,
)
    requires
        call_ensures(powershell_literal, (target,), literal),
        call_ensures(acceleration_script, (target, true), adding),
        call_ensures(acceleration_script, (target, false), removing),
    ensures
        adding@ == "$ErrorActionPreference='Stop'; Import-Module Defender; $target='"@ + literal@
            + "'; $current=@((Get-MpPreference -ErrorAction Stop).ExclusionPath); if ("@
            + "$current -notcontains $target"@ + ") { "@ + "Add-MpPreference"@
            + " -ExclusionPath $target -Force -ErrorAction Stop }"@,
        removing@ == "$ErrorActionPreference='Stop'; Import-Module Defender; $target='"@ + literal@
            + "'; $current=@((Get-MpPreference -ErrorAction Stop).ExclusionPath); if ("@
            + "$current -contains $target"@ + ") { "@ + "Remove-MpPreference"@
            + " -ExclusionPath $target -Force -ErrorAction Stop }"@,
{
}

/// The exclusion that is set or removed is that of the folder for this program,
/// by the script for it; where there is none, no script is run.
pub proof fn accelerations_run_their_script(
    facts: DirectoryFacts,
    canonical: Result<String, String>,
    executable: Result<String, String>,
    enabled: bool,
    start: Acceleration,
    r: Result<String, String>,
    target: &str,
    script: String,
)
    requires
        call_ensures(set_defender_acceleration, (&facts, canonical, executable, enabled), start),
        call_ensures(defender_contextual_exclusion, (&facts, canonical, executable), r),
        r is Ok ==> target@ == r->Ok_0@,
        r is Ok ==> call_ensures(acceleration_script, (target, enabled), script),
    ensures
        r is Ok ==> (start matches Acceleration::Run(text) && text@ == script@),
        r is Err ==> (start matches Acceleration::Done(Err(m)) && m@ == r->Err_0@),
{
}

/// With elevated rights a script is run by another one, in which it stands
/// encoded, and which is encoded again. It can be exactly if both can be
/// encoded.
pub proof fn elevated_scripts_are_encoded_twice(
    script: &str,
    inner: String,
    outer: &str,
    encoded: String,
    arguments: Vec<String>,
    can: bool,
    can_inner: bool,
    can_outer: bool,
)
    requires
        call_ensures(powershell_encoded, (script,), inner),
        outer@
            == "$ErrorActionPreference='Stop'; try { $ps=Join-Path $env:SystemRoot 'System32\\WindowsPowerShell\\v1.0\\powershell.exe'; $p=Start-Process -FilePath $ps -Verb RunAs -WindowStyle Hidden -Wait -PassThru -ArgumentList @('-NoProfile','-NonInteractive','-EncodedCommand','"@
            + inner@ + "'); exit $p.ExitCode } catch { exit 1 }"@,
        call_ensures(powershell_encoded, (outer,), encoded),
        call_ensures(elevated_powershell_arguments, (script,), arguments),
        call_ensures(can_elevate, (script,), can),
        call_ensures(can_encode, (script,), can_inner),
        call_ensures(can_encode, (outer,), can_outer),
    ensures
        arguments@.len() == 4,
        arguments@[0]@ == "-NoProfile"@,
        arguments@[1]@ == "-NonInteractive"@,
        arguments@[2]@ == "-EncodedCommand"@,
        arguments@[3]@ == encoded@,
        can <==> can_inner && can_outer,
{
}

/// What is told of an attempt to run a script with elevated rights, and what
/// follows: success leads on to the folder's path, and each failure is told.
pub proof fn attempts_are_told(
    run: Acceleration,
    outcome: ElevationOutcome,
    r: Result<(), String>,
    next: Acceleration,
)
    requires
        call_ensures(run_elevated_powershell, (outcome,), r),
        call_ensures(Acceleration::ran, (run, outcome), next),
    ensures
        r is Ok <==> outcome == ElevationOutcome::Exited(true),
        outcome is Unsupported ==> r->Err_0@
            == "A aceleração do Microsoft Defender está disponível somente no Windows."@,
        outcome is NotStarted ==> r->Err_0@
            == "Não foi possível abrir a confirmação do Windows: "@ + outcome->NotStarted_0@,
        outcome == ElevationOutcome::Exited(false) ==> r->Err_0@
            == "A alteração não foi autorizada ou foi bloqueada pelo Microsoft Defender."@,
        r is Ok ==> next is Resolve,
        r is Err ==> (next matches Acceleration::Done(Err(m)) && m@ == r->Err_0@),
{
}

/// Once a folder's path was found out, it is the outcome, without the marks of
/// the verbatim form; where it could not be, that is told.
pub proof fn folders_resolved_are_told(
    run: Acceleration,
    canonical: Result<String, String>,
    next: Acceleration,
    path: &str,
    plain: String,
)
    requires
        call_ensures(Acceleration::resolved, (run, canonical), next),
        canonical is Ok ==> path@ == canonical->Ok_0@,
        call_ensures(normal_windows_path, (path,), plain),
    ensures
        canonical is Ok ==> (next matches Acceleration::Done(Ok(folder)) && folder@ == plain@),
        canonical is Err ==> (next matches Acceleration::Done(Err(m)) && m@
            == "Não foi possível validar a pasta: "@ + canonical->Err_0@),
{
}

} // verus!
