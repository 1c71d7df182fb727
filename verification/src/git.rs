//! What the session asks of the repository: that nothing in the working
//! tree is dirty but what is expected to be, and a short name for a commit.

use crate::text::strings;
use vstd::prelude::*;

verus! {

/// The status flag of a file that the repository ignores.
pub const STATUS_IGNORED: u32 = 16384;

/// A path of the working tree, as the repository reports it and in its
/// canonical form.
#[derive(Debug, PartialEq, Eq)]
pub struct DirtyPath {
    pub reported: String,
    pub canonical: String,
}

/// The status of one entry of the working tree.
#[derive(Debug, PartialEq, Eq)]
pub struct StatusEntry {
    /// The status flags of the entry.
    pub status: u32,
    /// The path of the entry, where it is valid text.
    pub path: Option<DirtyPath>,
}

/// Why the working tree cannot be used.
#[derive(Debug, PartialEq, Eq)]
pub enum CleanError {
    /// The repository has no working tree.
    Bare,
    /// The working tree holds `errors` dirty entries that are not expected;
    /// `files` names those that have a path, in the order of the entries.
    DirtyRepo { errors: usize, files: Vec<String> },
}

/// Whether the flags tell of a change: any flag is set besides the one for
/// ignored files.
pub open spec fn is_dirty(status: u32) -> bool {
    status & !STATUS_IGNORED != 0
}

/// Tells whether the flags tell of a change.
pub fn has_changes(status: u32) -> (r: bool)
    ensures
        r == is_dirty(status),
{
    status & !STATUS_IGNORED != 0
}

/// Whether an entry is an error: it is dirty, and its path is not among the
/// exceptions. An entry without a path is never excepted.
pub open spec fn is_unexpected(entry: StatusEntry, exceptions: Seq<Seq<char>>) -> bool {
    is_dirty(entry.status) && match entry.path {
        Some(path) => !exceptions.contains(path.canonical@),
        None => true,
    }
}

/// How many of the entries are errors.
pub open spec fn count_unexpected(entries: Seq<StatusEntry>, exceptions: Seq<Seq<char>>) -> nat
    decreases entries.len(),
{
    if entries.len() == 0 {
        0
    } else {
        count_unexpected(entries.drop_last(), exceptions) + if is_unexpected(
            entries.last(),
            exceptions,
        ) {
            1nat
        } else {
            0nat
        }
    }
}

/// The paths of the entries that are errors and have a path, as the
/// repository reports them, in the order of the entries.
pub open spec fn unexpected_files(entries: Seq<StatusEntry>, exceptions: Seq<Seq<char>>) -> Seq<
    Seq<char>,
>
    decreases entries.len(),
{
    if entries.len() == 0 {
        Seq::empty()
    } else {
        let earlier = unexpected_files(entries.drop_last(), exceptions);
        if is_unexpected(entries.last(), exceptions) && entries.last().path is Some {
            earlier.push(entries.last().path->0.reported@)
        } else {
            earlier
        }
    }
}

/// No more entries are errors than there are entries.
pub proof fn lemma_count_unexpected_bound(entries: Seq<StatusEntry>, exceptions: Seq<Seq<char>>)
    ensures
        count_unexpected(entries, exceptions) <= entries.len(),
    decreases entries.len(),
{
    if entries.len() > 0 {
        lemma_count_unexpected_bound(entries.drop_last(), exceptions);
    }
}

fn is_excepted(exceptions: &[String], canonical: &String) -> (r: bool)
    ensures
        r == strings(exceptions@).contains(canonical@),
{
    let mut i: usize = 0;
    while i < exceptions.len()
        invariant
            0 <= i <= exceptions.len(),
            forall|j: int| 0 <= j < i ==> (#[trigger] exceptions@[j])@ != canonical@,
        decreases exceptions.len() - i,
    {
        if exceptions[i] == *canonical {
            proof {
                assert(strings(exceptions@)[i as int] == canonical@);
            }
            return true;
        }
        i += 1;
    }
    proof {
        assert forall|j: int| 0 <= j < strings(exceptions@).len() implies strings(exceptions@)[j]
            != canonical@ by {
            assert(strings(exceptions@)[j] == exceptions@[j]@);
        }
    }
    false
}

/// Checks that the working tree is clean but for the exceptions, which are
/// paths in canonical form. Every dirty entry with another path, or without
/// a path, is an error.
pub fn check_clean(
    has_workdir: bool,
    entries: &[StatusEntry],
    exceptions: &[String],
) -> (r: Result<(), CleanError>)
    ensures
        match r {
            Ok(()) => has_workdir && count_unexpected(entries@, strings(exceptions@)) == 0,
            Err(CleanError::Bare) => !has_workdir,
            Err(CleanError::DirtyRepo { errors, files }) => {
                &&& has_workdir
                &&& errors > 0
                &&& errors == count_unexpected(entries@, strings(exceptions@))
                &&& strings(files@) == unexpected_files(entries@, strings(exceptions@))
            },
        },
{
    if !has_workdir {
        return Err(CleanError::Bare);
    }
    let ghost excepted = strings(exceptions@);
    let mut errors: usize = 0;
    let mut files: Vec<String> = Vec::new();
    let mut i: usize = 0;
    proof {
        assert(entries@.take(0) =~= Seq::empty());
        assert(strings(files@) =~= Seq::empty());
    }
    while i < entries.len()
        invariant
            0 <= i <= entries.len(),
            excepted == strings(exceptions@),
            errors == count_unexpected(entries@.take(i as int), excepted),
            strings(files@) == unexpected_files(entries@.take(i as int), excepted),
        decreases entries.len() - i,
    {
        proof {
            assert(entries@.take(i + 1).drop_last() =~= entries@.take(i as int));
            assert(entries@.take(i + 1).last() == entries@[i as int]);
            lemma_count_unexpected_bound(entries@.take(i as int), excepted);
        }
        let entry = &entries[i];
        if has_changes(entry.status) {
            match &entry.path {
                Some(path) => {
                    if !is_excepted(exceptions, &path.canonical) {
                        let file = path.reported.clone();
                        proof {
                            assert(strings(files@.push(file)) =~= strings(files@).push(file@));
                        }
                        files.push(file);
                        errors += 1;
                    }
                },
                None => {
                    errors += 1;
                },
            }
        }
        i += 1;
    }
    proof {
        assert(entries@.take(i as int) =~= entries@);
    }
    if errors > 0 {
        Err(CleanError::DirtyRepo { errors, files })
    } else {
        Ok(())
    }
}

/// The short name of an object: its abbreviated identifier, or the full
/// identifier where the repository could give no abbreviation.
pub fn short_id(abbreviated: Option<String>, full: String) -> (id: String)
    ensures
        id@ == match abbreviated {
            Some(short) => short@,
            None => full@,
        },
{
    match abbreviated {
        Some(short) => short,
        None => full,
    }
}

} // verus!
