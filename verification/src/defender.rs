//! Exclusions of Microsoft Defender: which folder may be excluded, how the
//! exclusion is written, and the PowerShell commands that set or remove it.

use crate::engines::{
    base64_char, base64_digit, base64_len, base64_text, byte_or_zero, encode_base64,
};
use crate::text::{characters, strip_prefix, text_of, with_reason};
use vstd::prelude::*;

verus! {

/// A character in UTF-16, each unit as two bytes with the low one first.
pub open spec fn utf16_char(c: char) -> Seq<u8> {
    let v = c as int;
    if v < 0x10000 {
        seq![(v % 256) as u8, (v / 256) as u8]
    } else {
        let high = 0xd800 + (v - 0x10000) / 0x400;
        let low = 0xdc00 + (v - 0x10000) % 0x400;
        seq![(high % 256) as u8, (high / 256) as u8, (low % 256) as u8, (low / 256) as u8]
    }
}

/// A text in UTF-16, each unit as two bytes with the low one first.
pub open spec fn utf16_le(s: Seq<char>) -> Seq<u8>
    decreases s.len(),
{
    if s.len() == 0 {
        Seq::empty()
    } else {
        utf16_le(s.drop_last()) + utf16_char(s.last())
    }
}

/// A script the way PowerShell takes it as `-EncodedCommand`.
pub open spec fn powershell_encoding(script: Seq<char>) -> Seq<char> {
    base64_text(utf16_le(script))
}

/// Whether the encoded form of a script is short enough to be held.
pub open spec fn encodable(script: Seq<char>) -> bool {
    base64_len(utf16_le(script).len()) <= isize::MAX
}

/// A text with every apostrophe doubled.
pub open spec fn doubled(s: Seq<char>) -> Seq<char>
    decreases s.len(),
{
    if s.len() == 0 {
        Seq::empty()
    } else if s.last() == '\'' {
        doubled(s.drop_last()).push('\'').push('\'')
    } else {
        doubled(s.drop_last()).push(s.last())
    }
}

/// Reads what an apostrophe opened: two apostrophes stand for one, and a
/// single one ends the text. Gives the text read and what follows it.
pub open spec fn read_quoted(s: Seq<char>) -> Option<(Seq<char>, Seq<char>)>
    decreases s.len(),
{
    if s.len() == 0 {
        None
    } else if s[0] != '\'' {
        match read_quoted(s.skip(1)) {
            Some((value, rest)) => Some((seq![s[0]] + value, rest)),
            None => None,
        }
    } else if s.len() >= 2 && s[1] == '\'' {
        match read_quoted(s.skip(2)) {
            Some((value, rest)) => Some((seq!['\''] + value, rest)),
            None => None,
        }
    } else {
        Some((Seq::empty(), s.skip(1)))
    }
}

/// A Windows path without the marks of its verbatim form.
pub open spec fn normal_path(s: Seq<char>) -> Seq<char> {
    if "\\\\?\\UNC\\"@.is_prefix_of(s) {
        "\\\\"@ + s.skip("\\\\?\\UNC\\"@.len() as int)
    } else if "\\\\?\\"@.is_prefix_of(s) {
        s.skip("\\\\?\\"@.len() as int)
    } else {
        s
    }
}

/// A path without the separators at its end.
pub open spec fn without_final_separators(s: Seq<char>) -> Seq<char>
    decreases s.len(),
{
    if s.len() > 0 && (s.last() == '\\' || s.last() == '/') {
        without_final_separators(s.drop_last())
    } else {
        s
    }
}

/// The exclusion of a folder for one program only.
pub open spec fn exclusion(folder: Seq<char>, executable: Seq<char>) -> Seq<char> {
    without_final_separators(folder) + "\\:{PathType:folder,Process:\""@ + executable + "\"}"@
}

/// The script that adds an exclusion that is not there yet, or removes one
/// that is.
pub open spec fn acceleration(exclusion: Seq<char>, enabled: bool) -> Seq<char> {
    "$ErrorActionPreference='Stop'; Import-Module Defender; $target='"@ + doubled(exclusion)
        + "'; $current=@((Get-MpPreference -ErrorAction Stop).ExclusionPath); if ("@ + (
    if enabled {
        "$current -notcontains $target"@
    } else {
        "$current -contains $target"@
    }) + ") { "@ + (if enabled {
        "Add-MpPreference"@
    } else {
        "Remove-MpPreference"@
    }) + " -ExclusionPath $target -Force -ErrorAction Stop }"@
}

/// The script that runs an encoded script with elevated rights.
pub open spec fn elevation(encoded: Seq<char>) -> Seq<char> {
    "$ErrorActionPreference='Stop'; try { $ps=Join-Path $env:SystemRoot 'System32\\WindowsPowerShell\\v1.0\\powershell.exe'; $p=Start-Process -FilePath $ps -Verb RunAs -WindowStyle Hidden -Wait -PassThru -ArgumentList @('-NoProfile','-NonInteractive','-EncodedCommand','"@
        + encoded + "'); exit $p.ExitCode } catch { exit 1 }"@
}

/// Appends a character in UTF-16.
fn push_utf16(bytes: &mut Vec<u8>, c: char)
    ensures
        final(bytes)@ == old(bytes)@ + utf16_char(c),
{
    let v: u32 = c as u32;
    if v < 0x10000 {
        bytes.push((v % 256) as u8);
        bytes.push((v / 256) as u8);
    } else {
        let high: u32 = 0xd800 + (v - 0x10000) / 0x400;
        let low: u32 = 0xdc00 + (v - 0x10000) % 0x400;
        bytes.push((high % 256) as u8);
        bytes.push((high / 256) as u8);
        bytes.push((low % 256) as u8);
        bytes.push((low / 256) as u8);
    }
    assert(bytes@ =~= old(bytes)@ + utf16_char(c));
}

/// A text in UTF-16, each unit as two bytes with the low one first.
fn utf16_bytes(text: &str) -> (bytes: Vec<u8>)
    ensures
        bytes@ == utf16_le(text@),
{
    let v = characters(text);
    let mut bytes: Vec<u8> = Vec::new();
    let mut i: usize = 0;
    while i < v.len()
        invariant
            i <= v@.len(),
            bytes@ == utf16_le(v@.take(i as int)),
        decreases v@.len() - i,
    {
        assert(v@.take(i + 1).drop_last() =~= v@.take(i as int));
        push_utf16(&mut bytes, v[i]);
        i = i + 1;
    }
    assert(v@.take(i as int) =~= v@);
    bytes
}

/// How many bytes a character takes in UTF-16.
fn utf16_len(c: char) -> (n: u128)
    ensures
        n == utf16_char(c).len(),
{
    let v: u32 = c as u32;
    if v < 0x10000 {
        2
    } else {
        4
    }
}

/// Whether the encoded form of a script is short enough to be held.
pub fn can_encode(script: &str) -> (b: bool)
    ensures
        b == encodable(script@),
{
    let v = characters(script);
    let count: usize = v.len();
    let mut bytes: u128 = 0;
    let mut i: usize = 0;
    while i < count
        invariant
            i <= count,
            count == v@.len(),
            bytes == utf16_le(v@.take(i as int)).len(),
            bytes <= 4 * i,
        decreases count - i,
    {
        assert(v@.take(i + 1).drop_last() =~= v@.take(i as int));
        bytes = bytes + utf16_len(v[i]);
        i = i + 1;
    }
    assert(v@.take(i as int) =~= v@);
    (bytes + 2) / 3 * 4 <= isize::MAX as u128
}

/// Encodes a script the way PowerShell takes it as `-EncodedCommand`.
pub fn powershell_encoded(script: &str) -> (s: String)
    requires
        encodable(script@),
    ensures
        s@ == powershell_encoding(script@),
{
    let bytes = utf16_bytes(script);
    encode_base64(bytes.as_slice())
}

/// A value in the form it has between apostrophes in a PowerShell script.
pub fn powershell_literal(value: &str) -> (s: String)
    ensures
        s@ == doubled(value@),
{
    let v = characters(value);
    let mut s = String::new();
    let mut i: usize = 0;
    while i < v.len()
        invariant
            i <= v@.len(),
            s@ == doubled(v@.take(i as int)),
        decreases v@.len() - i,
    {
        assert(v@.take(i + 1).drop_last() =~= v@.take(i as int));
        if v[i] == '\'' {
            s.push('\'');
        }
        s.push(v[i]);
        i = i + 1;
    }
    assert(v@.take(i as int) =~= v@);
    s
}

/// A Windows path without the marks of its verbatim form.
pub fn normal_windows_path(value: &str) -> (s: String)
    ensures
        s@ == normal_path(value@),
{
    match strip_prefix(value, "\\\\?\\UNC\\") {
        Some(rest) => {
            let mut s = "\\\\".to_owned();
            s.append(rest.as_str());
            s
        },
        None => match strip_prefix(value, "\\\\?\\") {
            Some(rest) => rest,
            None => value.to_owned(),
        },
    }
}

/// A path without the separators at its end.
fn trim_final_separators(path: &str) -> (s: String)
    ensures
        s@ == without_final_separators(path@),
{
    let v = characters(path);
    let mut end: usize = v.len();
    assert(v@.take(end as int) =~= v@);
    while end > 0 && (v[end - 1] == '\\' || v[end - 1] == '/')
        invariant
            end <= v@.len(),
            without_final_separators(v@.take(end as int)) == without_final_separators(v@),
        decreases end,
    {
        assert(v@.take(end as int).drop_last() =~= v@.take(end - 1));
        end = end - 1;
    }
    text_of(&v, 0, end)
}

/// What is known of a directory before it is excluded.
pub struct DirectoryFacts {
    pub absolute: bool,
    pub directory: bool,
    pub has_parent: bool,
}

/// Whether a directory may be excluded: an absolute path of a directory, and
/// not the root of a drive.
pub fn check_exclusion_directory(facts: &DirectoryFacts) -> (r: Result<(), String>)
    ensures
        match r {
            Ok(_) => facts.absolute && facts.directory && facts.has_parent,
            Err(m) => if !facts.absolute || !facts.directory {
                m@ == "Selecione uma pasta válida antes de ativar a aceleração."@
            } else {
                !facts.has_parent && m@
                    == "A raiz inteira de uma unidade não pode ser excluída."@
            },
        },
{
    if !facts.absolute || !facts.directory {
        return Err("Selecione uma pasta válida antes de ativar a aceleração.".to_owned());
    }
    if !facts.has_parent {
        return Err("A raiz inteira de uma unidade não pode ser excluída.".to_owned());
    }
    Ok(())
}

/// The exclusion of a directory for this program only, or why there is none.
pub open spec fn contextual_exclusion(
    facts: DirectoryFacts,
    canonical: Result<String, String>,
    executable: Result<String, String>,
) -> Result<Seq<char>, Seq<char>> {
    if !facts.absolute || !facts.directory {
        Err("Selecione uma pasta válida antes de ativar a aceleração."@)
    } else if !facts.has_parent {
        Err("A raiz inteira de uma unidade não pode ser excluída."@)
    } else {
        match (canonical, executable) {
            (Err(reason), _) => Err("Não foi possível validar a pasta: "@ + reason@),
            (_, Err(reason)) => Err("Não foi possível localizar o Acervo: "@ + reason@),
            (Ok(folder), Ok(program)) => Ok(
                exclusion(normal_path(folder@), normal_path(program@)),
            ),
        }
    }
}

/// The exclusion of a directory for this program only, from the directory's
/// canonical path and the program's, where they could be found out.
pub fn defender_contextual_exclusion(
    facts: &DirectoryFacts,
    canonical: Result<String, String>,
    executable: Result<String, String>,
) -> (r: Result<String, String>)
    ensures
        match contextual_exclusion(*facts, canonical, executable) {
            Ok(text) => r is Ok && r->Ok_0@ == text,
            Err(m) => r is Err && r->Err_0@ == m,
        },
{
    match check_exclusion_directory(facts) {
        Ok(_) => {},
        Err(m) => {
            return Err(m);
        },
    }
    let folder = match canonical {
        Ok(path) => normal_windows_path(path.as_str()),
        Err(reason) => {
            return Err(with_reason("Não foi possível validar a pasta: ", reason.as_str()));
        },
    };
    let program = match executable {
        Ok(path) => normal_windows_path(path.as_str()),
        Err(reason) => {
            return Err(with_reason("Não foi possível localizar o Acervo: ", reason.as_str()));
        },
    };
    let mut text = trim_final_separators(folder.as_str());
    text.append("\\:{PathType:folder,Process:\"");
    text.append(program.as_str());
    text.append("\"}");
    Ok(text)
}

/// The script that sets or removes an exclusion.
pub fn acceleration_script(exclusion: &str, enabled: bool) -> (s: String)
    ensures
        s@ == acceleration(exclusion@, enabled),
{
    let target = powershell_literal(exclusion);
    let mut s =
        "$ErrorActionPreference='Stop'; Import-Module Defender; $target='".to_owned();
    s.append(target.as_str());
    s.append("'; $current=@((Get-MpPreference -ErrorAction Stop).ExclusionPath); if (");
    if enabled {
        s.append("$current -notcontains $target");
    } else {
        s.append("$current -contains $target");
    }
    s.append(") { ");
    if enabled {
        s.append("Add-MpPreference");
    } else {
        s.append("Remove-MpPreference");
    }
    s.append(" -ExclusionPath $target -Force -ErrorAction Stop }");
    s
}

/// The script that runs an encoded script with elevated rights.
fn elevation_script(encoded: &str) -> (s: String)
    ensures
        s@ == elevation(encoded@),
{
    let mut s =
        "$ErrorActionPreference='Stop'; try { $ps=Join-Path $env:SystemRoot 'System32\\WindowsPowerShell\\v1.0\\powershell.exe'; $p=Start-Process -FilePath $ps -Verb RunAs -WindowStyle Hidden -Wait -PassThru -ArgumentList @('-NoProfile','-NonInteractive','-EncodedCommand','".to_owned();
    s.append(encoded);
    s.append("'); exit $p.ExitCode } catch { exit 1 }");
    s
}

/// Whether a script is short enough to be run with elevated rights.
pub open spec fn elevatable(script: Seq<char>) -> bool {
    encodable(script) && encodable(elevation(powershell_encoding(script)))
}

/// Whether a script is short enough to be run with elevated rights.
pub fn can_elevate(script: &str) -> (b: bool)
    ensures
        b == elevatable(script@),
{
    if !can_encode(script) {
        return false;
    }
    let inner = powershell_encoded(script);
    let outer = elevation_script(inner.as_str());
    can_encode(outer.as_str())
}

/// The arguments with which `powershell.exe` runs a script with elevated
/// rights.
pub fn elevated_powershell_arguments(script: &str) -> (arguments: Vec<String>)
    requires
        elevatable(script@),
    ensures
        arguments@.len() == 4,
        arguments@[0]@ == "-NoProfile"@,
        arguments@[1]@ == "-NonInteractive"@,
        arguments@[2]@ == "-EncodedCommand"@,
        arguments@[3]@ == powershell_encoding(elevation(powershell_encoding(script@))),
{
    let inner = powershell_encoded(script);
    let outer = elevation_script(inner.as_str());
    let mut arguments: Vec<String> = Vec::new();
    arguments.push("-NoProfile".to_owned());
    arguments.push("-NonInteractive".to_owned());
    arguments.push("-EncodedCommand".to_owned());
    arguments.push(powershell_encoded(outer.as_str()));
    arguments
}

/// What became of an attempt to run a script with elevated rights.
pub enum ElevationOutcome {
    /// The system has no such thing.
    Unsupported,
    /// PowerShell could not be started, and why.
    NotStarted(String),
    /// PowerShell ended, with success or without.
    Exited(bool),
}

/// What is told of an attempt to run a script with elevated rights that failed.
pub open spec fn elevation_failure(outcome: ElevationOutcome) -> Option<Seq<char>> {
    match outcome {
        ElevationOutcome::Unsupported => Some(
            "A aceleração do Microsoft Defender está disponível somente no Windows."@,
        ),
        ElevationOutcome::NotStarted(reason) => Some(
            "Não foi possível abrir a confirmação do Windows: "@ + reason@,
        ),
        ElevationOutcome::Exited(true) => None,
        ElevationOutcome::Exited(false) => Some(
            "A alteração não foi autorizada ou foi bloqueada pelo Microsoft Defender."@,
        ),
    }
}

/// What is told of an attempt to run a script with elevated rights.
pub fn run_elevated_powershell(outcome: ElevationOutcome) -> (r: Result<(), String>)
    ensures
        match elevation_failure(outcome) {
            Some(m) => r is Err && r->Err_0@ == m,
            None => r is Ok,
        },
{
    match outcome {
        ElevationOutcome::Unsupported => Err(
            "A aceleração do Microsoft Defender está disponível somente no Windows.".to_owned(),
        ),
        ElevationOutcome::NotStarted(reason) => Err(
            with_reason("Não foi possível abrir a confirmação do Windows: ", reason.as_str()),
        ),
        ElevationOutcome::Exited(success) => if success {
            Ok(())
        } else {
            Err(
                "A alteração não foi autorizada ou foi bloqueada pelo Microsoft Defender.".to_owned(),
            )
        },
    }
}

/// Setting or removing the exclusion of a folder.
pub enum Acceleration {
    /// This script is to be run with elevated rights.
    Run(String),
    /// The script did its work: the folder's canonical path is to be found out.
    Resolve,
    /// Nothing is left to be done: this is the outcome, with the folder's path.
    Done(Result<String, String>),
}

impl Acceleration {
    /// Whether this ends with a message.
    pub open spec fn failed_with(self, message: Seq<char>) -> bool {
        self matches Acceleration::Done(Err(m)) && m@ == message
    }

    /// What follows once the script was run, or could not be.
    pub fn ran(self, outcome: ElevationOutcome) -> (next: Acceleration)
        requires
            self is Run,
        ensures
            match elevation_failure(outcome) {
                Some(m) => next.failed_with(m),
                None => next is Resolve,
            },
    {
        match run_elevated_powershell(outcome) {
            Ok(_) => Acceleration::Resolve,
            Err(m) => Acceleration::Done(Err(m)),
        }
    }

    /// What follows once the folder's canonical path was found out, or could
    /// not be.
    pub fn resolved(self, canonical: Result<String, String>) -> (next: Acceleration)
        requires
            self is Resolve,
        ensures
            match canonical {
                Ok(path) => next matches Acceleration::Done(Ok(folder)) && folder@ == normal_path(
                    path@,
                ),
                Err(reason) => next.failed_with("Não foi possível validar a pasta: "@ + reason@),
            },
    {
        match canonical {
            Ok(path) => Acceleration::Done(Ok(normal_windows_path(path.as_str()))),
            Err(reason) => Acceleration::Done(
                Err(with_reason("Não foi possível validar a pasta: ", reason.as_str())),
            ),
        }
    }
}

/// Begins to set or remove the exclusion of a folder. Where the folder is
/// refused, that is the outcome, and no script is run.
pub fn set_defender_acceleration(
    facts: &DirectoryFacts,
    canonical: Result<String, String>,
    executable: Result<String, String>,
    enabled: bool,
) -> (start: Acceleration)
    ensures
        match contextual_exclusion(*facts, canonical, executable) {
            Ok(target) => start matches Acceleration::Run(script) && script@ == acceleration(
                target,
                enabled,
            ),
            Err(m) => start.failed_with(m),
        },
{
    match defender_contextual_exclusion(facts, canonical, executable) {
        Ok(target) => Acceleration::Run(acceleration_script(target.as_str(), enabled)),
        Err(m) => Acceleration::Done(Err(m)),
    }
}

proof fn lemma_doubled_front(s: Seq<char>)
    requires
        s.len() > 0,
    ensures
        doubled(s) == (if s[0] == '\'' {
            seq!['\'', '\'']
        } else {
            seq![s[0]]
        }) + doubled(s.skip(1)),
    decreases s.len(),
{
    let front = if s[0] == '\'' {
        seq!['\'', '\'']
    } else {
        seq![s[0]]
    };
    if s.len() == 1 {
        assert(s.drop_last() =~= Seq::empty());
        assert(s.skip(1) =~= Seq::empty());
        assert(doubled(s) =~= front + doubled(s.skip(1)));
    } else {
        lemma_doubled_front(s.drop_last());
        assert(s.drop_last().skip(1) =~= s.skip(1).drop_last());
        assert(s.skip(1).last() == s.last());
        assert(doubled(s) =~= front + doubled(s.skip(1)));
    }
}

/// A value that was made a literal is read back as it was, up to the
/// apostrophe that closes it.
pub proof fn literals_are_read_back(value: Seq<char>, rest: Seq<char>)
    requires
        rest.len() > 0 ==> rest[0] != '\'',
    ensures
        read_quoted(doubled(value) + seq!['\''] + rest) == Some((value, rest)),
    decreases value.len(),
{
    let text = doubled(value) + seq!['\''] + rest;
    if value.len() == 0 {
        assert(text =~= seq!['\''] + rest);
        assert(text.skip(1) =~= rest);
        assert(value =~= Seq::<char>::empty());
    } else {
        lemma_doubled_front(value);
        literals_are_read_back(value.skip(1), rest);
        let later = doubled(value.skip(1)) + seq!['\''] + rest;
        if value[0] == '\'' {
            assert(text.skip(2) =~= later);
        } else {
            assert(text.skip(1) =~= later);
        }
        assert(seq![value[0]] + value.skip(1) =~= value);
    }
}

/// The script sets or removes the very exclusion it was made for: that is what
/// stands between the apostrophes behind `$target=`.
pub proof fn the_script_names_its_target(target: Seq<char>, enabled: bool)
    ensures
        ({
            let before =
                "$ErrorActionPreference='Stop'; Import-Module Defender; $target='"@;
            let script = acceleration(target, enabled);
            &&& before.is_prefix_of(script)
            &&& read_quoted(script.skip(before.len() as int)) matches Some((value, _))
            &&& value == target
        }),
{
    let before = "$ErrorActionPreference='Stop'; Import-Module Defender; $target='"@;
    let script = acceleration(target, enabled);
    let close =
        "'; $current=@((Get-MpPreference -ErrorAction Stop).ExclusionPath); if ("@;
    reveal_strlit("'; $current=@((Get-MpPreference -ErrorAction Stop).ExclusionPath); if (");
    let condition = if enabled {
        "$current -notcontains $target"@
    } else {
        "$current -contains $target"@
    };
    let operation = if enabled {
        "Add-MpPreference"@
    } else {
        "Remove-MpPreference"@
    };
    let tail = condition + ") { "@ + operation
        + " -ExclusionPath $target -Force -ErrorAction Stop }"@;
    let rest = close.skip(1) + tail;
    assert(close =~= seq!['\''] + close.skip(1));
    assert(rest[0] == ';');
    assert(script =~= before + (doubled(target) + seq!['\''] + rest));
    assert(script.subrange(0, before.len() as int) =~= before);
    assert(script.skip(before.len() as int) =~= doubled(target) + seq!['\''] + rest);
    literals_are_read_back(target, rest);
}

/// A path in verbatim form becomes the plain path.
pub proof fn verbatim_paths_become_plain(path: Seq<char>)
    requires
        !"UNC\\"@.is_prefix_of(path),
    ensures
        normal_path("\\\\?\\"@ + path) == path,
{
    reveal_strlit("\\\\?\\");
    reveal_strlit("\\\\?\\UNC\\");
    reveal_strlit("UNC\\");
    let s = "\\\\?\\"@ + path;
    assert(s.subrange(0, 4) =~= "\\\\?\\"@);
    if "\\\\?\\UNC\\"@.is_prefix_of(s) {
        assert(path.subrange(0, 4) =~= s.subrange(0, 8).subrange(4, 8));
        assert(path.subrange(0, 4) =~= "UNC\\"@);
    }
    assert(s.skip(4) =~= path);
}

/// A network path in verbatim form becomes the plain network path.
pub proof fn verbatim_shares_become_plain(share: Seq<char>)
    ensures
        normal_path("\\\\?\\UNC\\"@ + share) == "\\\\"@ + share,
{
    reveal_strlit("\\\\?\\UNC\\");
    let s = "\\\\?\\UNC\\"@ + share;
    assert(s.subrange(0, 8) =~= "\\\\?\\UNC\\"@);
    assert(s.skip(8) =~= share);
}

/// A path that is not in verbatim form stays.
pub proof fn plain_paths_stay(path: Seq<char>)
    requires
        !"\\\\?\\"@.is_prefix_of(path),
    ensures
        normal_path(path) == path,
{
    reveal_strlit("\\\\?\\");
    reveal_strlit("\\\\?\\UNC\\");
    if "\\\\?\\UNC\\"@.is_prefix_of(path) {
        assert(path.subrange(0, 4) =~= path.subrange(0, 8).subrange(0, 4));
        assert("\\\\?\\UNC\\"@.subrange(0, 4) =~= "\\\\?\\"@);
    }
}

/// The unit of UTF-16 at the end of some bytes.
spec fn last_unit(bytes: Seq<u8>) -> int {
    bytes[bytes.len() - 2] + bytes[bytes.len() - 1] * 256
}

/// What the bytes of one character tell of it.
proof fn lemma_units(c: char)
    ensures
        ({
            let v = c as int;
            let end = utf16_char(c);
            if v < 0x10000 {
                end.len() == 2 && last_unit(end) == v && !(0xdc00 <= v < 0xe000)
            } else {
                end.len() == 4 && 0xdc00 <= last_unit(end) < 0xe000 && v == (end[0] + end[1] * 256
                    - 0xd800) * 0x400 + (last_unit(end) - 0xdc00) + 0x10000
            }
        }),
{
    let v = c as int;
    assert(0 <= v <= 0x10ffff && !(0xd800 <= v < 0xe000));
    if v >= 0x10000 {
        let high = 0xd800 + (v - 0x10000) / 0x400;
        let low = 0xdc00 + (v - 0x10000) % 0x400;
        assert(0xd800 <= high < 0xdc00 && 0xdc00 <= low < 0xe000);
        assert(last_unit(utf16_char(c)) == low);
        assert(utf16_char(c)[0] + utf16_char(c)[1] * 256 == high);
    }
}

proof fn lemma_last_unit(s: Seq<char>)
    requires
        s.len() > 0,
    ensures
        ({
            let end = utf16_char(s.last());
            &&& utf16_le(s) == utf16_le(s.drop_last()) + end
            &&& end.len() == 2 || end.len() == 4
            &&& last_unit(utf16_le(s)) == last_unit(end)
            &&& end.len() == 2 <==> !(0xdc00 <= last_unit(end) < 0xe000)
        }),
{
    lemma_units(s.last());
}

proof fn lemma_utf16_injective(a: Seq<char>, b: Seq<char>)
    requires
        utf16_le(a) == utf16_le(b),
    ensures
        a == b,
    decreases a.len(),
{
    if a.len() > 0 {
        lemma_last_unit(a);
    }
    if b.len() > 0 {
        lemma_last_unit(b);
    }
    if a.len() > 0 && b.len() > 0 {
        let ea = utf16_char(a.last());
        let eb = utf16_char(b.last());
        let n = utf16_le(a.drop_last()).len() as int;
        assert(ea.len() == eb.len());
        assert(ea =~= utf16_le(a).skip(n));
        assert(eb =~= utf16_le(b).skip(n));
        lemma_units(a.last());
        lemma_units(b.last());
        assert(a.last() == b.last());
        assert(utf16_le(a).take(n) =~= utf16_le(a.drop_last()));
        assert(utf16_le(b).take(n) =~= utf16_le(b.drop_last()));
        lemma_utf16_injective(a.drop_last(), b.drop_last());
        assert(a =~= a.drop_last().push(a.last()));
        assert(b =~= b.drop_last().push(b.last()));
    } else {
        assert(a =~= b);
    }
}

proof fn lemma_digits(x: int, y: int)
    requires
        0 <= x < 64,
        0 <= y < 64,
    ensures
        base64_digit(x) == base64_digit(y) ==> x == y,
        base64_digit(x) != '=',
{
}

/// The three bytes from which four digits are made, as one number.
spec fn group_of(bytes: Seq<u8>, g: int) -> int {
    byte_or_zero(bytes, 3 * g) * 65536 + byte_or_zero(bytes, 3 * g + 1) * 256 + byte_or_zero(
        bytes,
        3 * g + 2,
    )
}

/// One of the four digits made of a group, as a number.
spec fn sextet(group: int, p: int) -> int {
    if p == 0 {
        group / 262144
    } else if p == 1 {
        group / 4096 % 64
    } else if p == 2 {
        group / 64 % 64
    } else {
        group % 64
    }
}

proof fn lemma_char(bytes: Seq<u8>, g: int, p: int)
    requires
        0 <= g,
        3 * g < bytes.len(),
        0 <= p < 4,
    ensures
        base64_char(bytes, 4 * g + p) == (if p > bytes.len() - 3 * g {
            '='
        } else {
            base64_digit(sextet(group_of(bytes, g), p))
        }),
        p > bytes.len() - 3 * g ==> sextet(group_of(bytes, g), p) == 0,
        0 <= sextet(group_of(bytes, g), p) < 64,
{
    assert((4 * g + p) / 4 == g);
    assert((4 * g + p) % 4 == p);
}

proof fn lemma_group_at(bytes: Seq<u8>, g: int)
    requires
        0 <= g,
        3 * g < bytes.len(),
    ensures
        4 * g + 4 <= base64_len(bytes.len()),
        forall|p: int|
            0 <= p < 4 ==> #[trigger] base64_text(bytes)[4 * g + p] == base64_char(
                bytes,
                4 * g + p,
            ),
{
}

proof fn lemma_same_length(a: Seq<u8>, b: Seq<u8>)
    requires
        base64_text(a) == base64_text(b),
    ensures
        a.len() == b.len(),
{
    let k = base64_len(a.len()) / 4;
    assert(base64_text(a).len() == base64_len(a.len()));
    assert(base64_text(b).len() == base64_len(b.len()));
    if k > 0 {
        let g = k - 1;
        lemma_group_at(a, g);
        lemma_group_at(b, g);
        assert(base64_text(a)[4 * g + 2] == base64_char(a, 4 * g + 2));
        assert(base64_text(b)[4 * g + 2] == base64_char(b, 4 * g + 2));
        assert(base64_text(a)[4 * g + 3] == base64_char(a, 4 * g + 3));
        assert(base64_text(b)[4 * g + 3] == base64_char(b, 4 * g + 3));
        lemma_char(a, g, 2);
        lemma_char(b, g, 2);
        lemma_char(a, g, 3);
        lemma_char(b, g, 3);
        lemma_digits(sextet(group_of(a, g), 2), 0);
        lemma_digits(sextet(group_of(b, g), 2), 0);
        lemma_digits(sextet(group_of(a, g), 3), 0);
        lemma_digits(sextet(group_of(b, g), 3), 0);
    }
}

proof fn lemma_same_sextet(a: Seq<u8>, b: Seq<u8>, g: int, p: int)
    requires
        base64_text(a) == base64_text(b),
        a.len() == b.len(),
        0 <= g,
        3 * g < a.len(),
        0 <= p < 4,
    ensures
        sextet(group_of(a, g), p) == sextet(group_of(b, g), p),
{
    lemma_group_at(a, g);
    lemma_group_at(b, g);
    assert(base64_text(a)[4 * g + p] == base64_char(a, 4 * g + p));
    assert(base64_text(b)[4 * g + p] == base64_char(b, 4 * g + p));
    lemma_char(a, g, p);
    lemma_char(b, g, p);
    lemma_digits(sextet(group_of(a, g), p), sextet(group_of(b, g), p));
}

proof fn lemma_group_from_sextets(x: int, y: int)
    requires
        0 <= x < 16777216,
        0 <= y < 16777216,
        forall|p: int| 0 <= p < 4 ==> #[trigger] sextet(x, p) == sextet(y, p),
    ensures
        x == y,
{
    assert(sextet(x, 0) == sextet(y, 0));
    assert(sextet(x, 1) == sextet(y, 1));
    assert(sextet(x, 2) == sextet(y, 2));
    assert(sextet(x, 3) == sextet(y, 3));
}

proof fn lemma_base64_injective(a: Seq<u8>, b: Seq<u8>)
    requires
        base64_text(a) == base64_text(b),
    ensures
        a == b,
{
    lemma_same_length(a, b);
    assert forall|i: int| 0 <= i < a.len() implies a[i] == b[i] by {
        let g = i / 3;
        assert forall|p: int| 0 <= p < 4 implies #[trigger] sextet(group_of(a, g), p) == sextet(
            group_of(b, g),
            p,
        ) by {
            lemma_same_sextet(a, b, g, p);
        }
        lemma_group_from_sextets(group_of(a, g), group_of(b, g));
        assert(byte_or_zero(a, 3 * g) == byte_or_zero(b, 3 * g));
        assert(byte_or_zero(a, 3 * g + 1) == byte_or_zero(b, 3 * g + 1));
        assert(byte_or_zero(a, 3 * g + 2) == byte_or_zero(b, 3 * g + 2));
        assert(i == 3 * g || i == 3 * g + 1 || i == 3 * g + 2);
    }
    assert(a =~= b);
}

/// Scripts that are encoded alike are the same script.
pub proof fn encoding_loses_nothing(a: Seq<char>, b: Seq<char>)
    requires
        powershell_encoding(a) == powershell_encoding(b),
    ensures
        a == b,
{
    lemma_base64_injective(utf16_le(a), utf16_le(b));
    lemma_utf16_injective(a, b);
}

} // verus!
