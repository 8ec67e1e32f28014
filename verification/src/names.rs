//! Names for files that must not take the place of others.

use crate::text::{decimal, decimal_is_injective, decimal_text, texts};
use vstd::hash_set::StringHashSet;
use vstd::prelude::*;

verus! {

/// Numbered names are tried up to this number, which is not tried any more.
pub const NUMBER_LIMIT: usize = 10_000;

/// The name of a file, its part before the last dot and the part behind it,
/// each where there is one that is text.
pub struct SourceName {
    /// Whether the path ends in a name at all.
    pub has_name: bool,
    pub name: Option<String>,
    pub stem: Option<String>,
    pub extension: Option<String>,
}

/// A text, or what stands for a name that is not text.
pub open spec fn or_default(part: Option<String>) -> Seq<char> {
    match part {
        Some(text) => text@,
        None => "arquivo"@,
    }
}

/// A file name with a number: `stem (2).ext`.
pub open spec fn numbered_name(source: SourceName, number: nat) -> Seq<char> {
    or_default(source.stem) + " ("@ + decimal(number) + ")"@ + match source.extension {
        Some(extension) => "."@ + extension@,
        None => Seq::empty(),
    }
}

/// Where a backup of a file is looked for a place: behind its own path, and
/// then with numbers from two on.
pub open spec fn backup_candidate(source: Seq<char>, attempt: nat) -> Seq<char> {
    if attempt == 0 {
        source + ".bak"@
    } else {
        source + ".bak."@ + decimal(attempt + 1)
    }
}

/// A part of a name, or what stands for one that is not text.
fn text_or_default(part: &Option<String>) -> (s: String)
    ensures
        s@ == or_default(*part),
{
    match part {
        Some(text) => text.clone(),
        None => "arquivo".to_owned(),
    }
}

/// A file name with a number.
fn name_with_number(source: &SourceName, number: u128) -> (s: String)
    ensures
        s@ == numbered_name(*source, number as nat),
{
    let mut s = text_or_default(&source.stem);
    s.append(" (");
    let digits = decimal_text(number);
    s.append(digits.as_str());
    s.append(")");
    match &source.extension {
        Some(extension) => {
            let ghost before = s@;
            s.append(".");
            s.append(extension.as_str());
            assert(s@ =~= before + ("."@ + extension@));
        },
        None => {
            assert(s@ + Seq::<char>::empty() =~= s@);
        },
    }
    s
}

/// Names with different numbers are different.
pub proof fn numbered_names_differ(source: SourceName, a: nat, b: nat)
    requires
        a != b,
    ensures
        numbered_name(source, a) != numbered_name(source, b),
{
    if numbered_name(source, a) == numbered_name(source, b) {
        let front = or_default(source.stem) + " ("@;
        let back = ")"@ + match source.extension {
            Some(extension) => "."@ + extension@,
            None => Seq::empty(),
        };
        lemma_middle(front, decimal(a), decimal(b), back);
        assert(numbered_name(source, a) =~= front + decimal(a) + back);
        assert(numbered_name(source, b) =~= front + decimal(b) + back);
        decimal_is_injective(a, b);
    }
}

proof fn lemma_middle(front: Seq<char>, a: Seq<char>, b: Seq<char>, back: Seq<char>)
    ensures
        front + a + back == front + b + back ==> a == b,
{
    if front + a + back == front + b + back {
        let whole = front + a + back;
        assert(whole.len() == front.len() + a.len() + back.len());
        assert(whole.len() == (front + b + back).len());
        assert(whole.subrange(front.len() as int, (front.len() + a.len()) as int) =~= a);
        assert((front + b + back).subrange(
            front.len() as int,
            (front.len() + b.len()) as int,
        ) =~= b);
    }
}

/// The places that are tried for a backup are all different.
pub proof fn backup_candidates_differ(source: Seq<char>, a: nat, b: nat)
    requires
        a != b,
    ensures
        backup_candidate(source, a) != backup_candidate(source, b),
{
    reveal_strlit(".bak");
    reveal_strlit(".bak.");
    if backup_candidate(source, a) == backup_candidate(source, b) {
        if a == 0 || b == 0 {
            assert(backup_candidate(source, 0).len() == source.len() + 4);
        } else {
            let front = source + ".bak."@;
            let none = Seq::<char>::empty();
            lemma_middle(front, decimal(a + 1), decimal(b + 1), none);
            assert(backup_candidate(source, a) =~= front + decimal(a + 1) + none);
            assert(backup_candidate(source, b) =~= front + decimal(b + 1) + none);
            decimal_is_injective(a + 1, b + 1);
        }
    }
}

/// The name under which a file is put into another directory.
pub enum TargetName {
    /// The name it has.
    Same,
    /// A name with a number.
    Numbered(String),
}

/// The name that is tried next for a file in another directory, when the
/// names before it were found to be taken.
pub fn available_target(source: &SourceName, taken: usize) -> (r: Result<TargetName, String>)
    ensures
        match r {
            Ok(TargetName::Same) => source.has_name && taken == 0,
            Ok(TargetName::Numbered(name)) => source.has_name && 0 < taken < NUMBER_LIMIT - 1
                && name@ == numbered_name(*source, (taken + 1) as nat),
            Err(m) => if !source.has_name {
                m@ == "Nome de arquivo inválido"@
            } else {
                taken >= NUMBER_LIMIT - 1 && m@
                    == "Não foi possível escolher um nome disponível no destino."@
            },
        },
{
    if !source.has_name {
        return Err("Nome de arquivo inválido".to_owned());
    }
    if taken == 0 {
        return Ok(TargetName::Same);
    }
    if taken < NUMBER_LIMIT - 1 {
        return Ok(TargetName::Numbered(name_with_number(source, (taken + 1) as u128)));
    }
    Err("Não foi possível escolher um nome disponível no destino.".to_owned())
}

/// What is known of the place for a backup.
pub enum BackupPlace {
    /// This place is taken if nothing is there.
    Try(String),
    /// This place is taken whatever is there.
    Use(String),
}

/// The place that is tried next for a backup, when those before it were found
/// to be taken. After the last one the first is used.
pub fn backup_path(source: &str, taken: usize) -> (place: BackupPlace)
    ensures
        match place {
            BackupPlace::Try(path) => taken < NUMBER_LIMIT - 1 && path@ == backup_candidate(
                source@,
                taken as nat,
            ),
            BackupPlace::Use(path) => taken >= NUMBER_LIMIT - 1 && path@ == backup_candidate(
                source@,
                0,
            ),
        },
{
    let mut path = source.to_owned();
    if taken == 0 || taken >= NUMBER_LIMIT - 1 {
        path.append(".bak");
        if taken == 0 {
            return BackupPlace::Try(path);
        }
        return BackupPlace::Use(path);
    }
    path.append(".bak.");
    let digits = decimal_text((taken + 1) as u128);
    path.append(digits.as_str());
    BackupPlace::Try(path)
}

/// The names that are taken in an archive.
pub struct ArchiveNames {
    pub used: Vec<String>,
    pub lookup: StringHashSet,
}

/// The name that a file is given at the `attempt`-th try.
pub open spec fn archive_candidate(source: SourceName, attempt: nat) -> Seq<char> {
    if attempt == 0 {
        or_default(source.name)
    } else {
        numbered_name(source, attempt + 1)
    }
}

/// Whether the names of the tries before are taken and this one is not.
pub open spec fn is_first_free(names: Seq<Seq<char>>, source: SourceName, attempt: nat) -> bool {
    &&& !names.contains(archive_candidate(source, attempt))
    &&& forall|j: nat| j < attempt ==> names.contains(#[trigger] archive_candidate(source, j))
}

/// The tries that find a name taken are at most one more than the names.
proof fn lemma_tries_bounded(names: Seq<Seq<char>>, source: SourceName, attempt: nat)
    requires
        names.no_duplicates(),
        forall|j: nat| j < attempt ==> names.contains(#[trigger] archive_candidate(source, j)),
    ensures
        attempt <= names.len() + 1,
{
    if attempt > 0 {
        let tried = Seq::new((attempt - 1) as nat, |i: int| numbered_name(source, (i + 2) as nat));
        assert forall|i: int, j: int|
            0 <= i < tried.len() && 0 <= j < tried.len() && i != j implies tried[i] != tried[j] by {
            numbered_names_differ(source, (i + 2) as nat, (j + 2) as nat);
        }
        assert(tried.no_duplicates());
        tried.unique_seq_to_set();
        names.unique_seq_to_set();
        vstd::seq_lib::seq_to_set_is_finite(tried);
        vstd::seq_lib::seq_to_set_is_finite(names);
        assert forall|t: Seq<char>| tried.to_set().contains(t) implies names.to_set().contains(
            t,
        ) by {
            let i = choose|i: int| 0 <= i < tried.len() && tried[i] == t;
            assert(archive_candidate(source, (i + 1) as nat) == t);
        }
        vstd::set_lib::lemma_len_subset(tried.to_set(), names.to_set());
    }
}

impl ArchiveNames {
    /// The names in the order in which they were taken.
    pub open spec fn names(self) -> Seq<Seq<char>> {
        texts(self.used@)
    }

    /// Whether the names are all different, and the lookup holds just them.
    pub open spec fn wf(self) -> bool {
        &&& self.names().no_duplicates()
        &&& forall|t: Seq<char>| #[trigger] self.lookup@.contains(t) <==> self.names().contains(t)
    }

    /// No names yet.
    pub fn new() -> (names: ArchiveNames)
        ensures
            names.wf(),
            names.names() == Seq::<Seq<char>>::empty(),
    {
        let names = ArchiveNames { used: Vec::new(), lookup: StringHashSet::new() };
        assert(names.names() =~= Seq::<Seq<char>>::empty());
        names
    }

    /// Takes a name for a file: its own, or the first one with a number that
    /// is not taken.
    pub fn reserve(&mut self, source: &SourceName) -> (name: String)
        requires
            old(self).wf(),
        ensures
            final(self).wf(),
            final(self).names() == old(self).names().push(name@),
            exists|attempt: nat|
                is_first_free(old(self).names(), *source, attempt) && name@ == archive_candidate(
                    *source,
                    attempt,
                ),
            !old(self).names().contains(name@),
            source.name is Some && !old(self).names().contains(source.name->0@) ==> name@
                == source.name->0@,
            source.name is None && !old(self).names().contains("arquivo"@) ==> name@ == "arquivo"@,
            name@ == or_default(source.name) || exists|number: nat|
                number >= 2 && name@ == #[trigger] numbered_name(*source, number) && forall|m: nat|
                    2 <= m < number ==> old(self).names().contains(
                        #[trigger] numbered_name(*source, m),
                    ),
    {
        let mut name = text_or_default(&source.name);
        let mut attempt: u128 = 0;
        let ghost taken = self.names();
        let count: usize = self.used.len();
        while self.lookup.contains(name.as_str())
            invariant
                self.wf(),
                self.names() == taken,
                taken.len() == count,
                name@ == archive_candidate(*source, attempt as nat),
                attempt <= count + 1,
                forall|j: nat|
                    j < attempt ==> taken.contains(#[trigger] archive_candidate(*source, j)),
            decreases count + 2 - attempt,
        {
            proof {
                lemma_tries_bounded(taken, *source, (attempt + 1) as nat);
            }
            attempt = attempt + 1;
            name = name_with_number(source, attempt + 1);
        }
        proof {
            assert(is_first_free(taken, *source, attempt as nat));
            assert(archive_candidate(*source, 0) == or_default(source.name));
            if attempt > 0 {
                let number = (attempt + 1) as nat;
                assert forall|m: nat| 2 <= m < number implies taken.contains(
                    #[trigger] numbered_name(*source, m),
                ) by {
                    assert(taken.contains(archive_candidate(*source, (m - 1) as nat)));
                }
                assert(name@ == numbered_name(*source, number));
            }
        }
        let _ = self.lookup.insert(name.clone());
        self.used.push(name.clone());
        proof {
            assert(self.names() =~= taken.push(name@));
            assert forall|t: Seq<char>| #[trigger] self.lookup@.contains(t) implies self.names().contains(
            t) by {
                if t == name@ {
                    assert(taken.push(name@)[taken.len() as int] == t);
                } else {
                    let k = choose|k: int| 0 <= k < taken.len() && taken[k] == t;
                    assert(taken.push(name@)[k] == t);
                }
            }
            assert forall|t: Seq<char>| self.names().contains(t) implies #[trigger] self.lookup@.contains(
            t) by {
                let k = choose|k: int| 0 <= k < self.names().len() && self.names()[k] == t;
                if k < taken.len() {
                    assert(taken[k] == t);
                }
            }
        }
        name
    }
}

} // verus!
