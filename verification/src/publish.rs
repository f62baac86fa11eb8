//! Putting a file that was written under a temporary name in its place, with
//! the old one kept as a backup where that is wanted.

use vstd::prelude::*;

verus! {

/// What is done, in this order, once the new file is complete.
#[derive(Debug, Clone, Copy, PartialEq, Eq, Structural)]
pub enum PublishStep {
    /// Rename the old file to the name of the backup.
    KeepBackup,
    /// Rename the new file to the name of the old one.
    Replace,
}

/// The files by name, after `from` was renamed to `to`. What was there under
/// that name is gone.
pub open spec fn renamed(files: Map<Seq<char>, Seq<u8>>, from: Seq<char>, to: Seq<char>) -> Map<
    Seq<char>,
    Seq<u8>,
> {
    if from == to {
        files
    } else {
        files.insert(to, files[from]).remove(from)
    }
}

/// The names that saving a file deals with.
#[verifier::ext_equal]
pub struct Names {
    /// The name of the file that is saved.
    pub dest: Seq<char>,
    /// The name that it is written under first.
    pub temp: Seq<char>,
    /// The name of the backup.
    pub backup: Seq<char>,
}

/// The files by name, after the first `n` of `steps`.
pub open spec fn published(
    files: Map<Seq<char>, Seq<u8>>,
    names: Names,
    steps: Seq<PublishStep>,
    n: int,
) -> Map<Seq<char>, Seq<u8>>
    decreases n,
{
    if n <= 0 {
        files
    } else {
        let before = published(files, names, steps, n - 1);
        match steps[n - 1] {
            PublishStep::KeepBackup => renamed(before, names.dest, names.backup),
            PublishStep::Replace => renamed(before, names.temp, names.dest),
        }
    }
}

/// The steps that are to be taken.
pub open spec fn steps(backup: bool, dest_exists: bool) -> Seq<PublishStep> {
    if backup && dest_exists {
        seq![PublishStep::KeepBackup, PublishStep::Replace]
    } else {
        seq![PublishStep::Replace]
    }
}

/// The steps that are to be taken once the new file is complete.
pub fn publish_steps(backup: bool, dest_exists: bool) -> (result: Vec<PublishStep>)
    ensures
        result@ == steps(backup, dest_exists),
{
    let mut result: Vec<PublishStep> = Vec::new();
    if backup && dest_exists {
        result.push(PublishStep::KeepBackup);
    }
    result.push(PublishStep::Replace);
    assert(result@ =~= steps(backup, dest_exists));
    result
}

/// Once all steps are taken, the file holds what was written, the temporary
/// name is free, and with a backup the old content is kept under the name of
/// the backup. No other file changes.
pub proof fn law_publish(
    files: Map<Seq<char>, Seq<u8>>,
    names: Names,
    backup: bool,
)
    requires
        files.contains_key(names.temp),
        names.temp != names.dest,
        names.temp != names.backup,
        names.backup != names.dest,
    ensures
        ({
            let old_exists = files.contains_key(names.dest);
            let taken = steps(backup, old_exists);
            let after = published(files, names, taken, taken.len() as int);
            &&& after.contains_key(names.dest) && after[names.dest] == files[names.temp]
            &&& !after.contains_key(names.temp)
            &&& backup && old_exists ==> after.contains_key(names.backup) && after[names.backup]
                == files[names.dest]
            &&& !(backup && old_exists) ==> (after.contains_key(names.backup)
                == files.contains_key(names.backup)) && after[names.backup] == files[names.backup]
            &&& forall|name: Seq<char>|
                name != names.dest && name != names.temp && name != names.backup ==> (
                #[trigger] after.contains_key(name) == files.contains_key(name)) && after[name]
                    == files[name]
        }),
{
    reveal_with_fuel(published, 3);
}

/// Whatever step was taken last, the old content and the new one are there
/// under one of the names, if a backup is wanted: nothing is lost on the way.
pub proof fn law_backup_loses_nothing(files: Map<Seq<char>, Seq<u8>>, names: Names, n: int)
    requires
        files.contains_key(names.temp),
        files.contains_key(names.dest),
        names.temp != names.dest,
        names.temp != names.backup,
        names.backup != names.dest,
        0 <= n <= steps(true, true).len(),
    ensures
        ({
            let after = published(files, names, steps(true, true), n);
            &&& exists|name: Seq<char>| #[trigger]
                after.contains_key(name) && after[name] == files[names.dest]
            &&& exists|name: Seq<char>| #[trigger]
                after.contains_key(name) && after[name] == files[names.temp]
        }),
{
    reveal_with_fuel(published, 3);
    let after = published(files, names, steps(true, true), n);
    let old_name = if n == 0 {
        names.dest
    } else {
        names.backup
    };
    let new_name = if n == 2 {
        names.dest
    } else {
        names.temp
    };
    assert(after.contains_key(old_name) && after[old_name] == files[names.dest]);
    assert(after.contains_key(new_name) && after[new_name] == files[names.temp]);
}

} // verus!
