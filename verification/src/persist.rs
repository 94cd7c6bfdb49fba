//! The rules of keeping a store on disk: in which order a store is written
//! so that the file is replaced as a whole, and which file counts when the
//! store is read back.

use vstd::prelude::*;

verus! {

/// The file of the feed list.
pub const FEEDS_FILE: &'static str = "feeds.json";

/// The file of the read marks.
pub const READ_FILE: &'static str = "read_store.json";

/// The file of the article cache.
pub const ARTICLES_FILE: &'static str = "articles_store.json";

/// The file of the seen store.
pub const SEEN_FILE: &'static str = "seen_store.json";

/// The name of the temporary file that stands beside a store's file while
/// the store is written.
pub fn temp_name(file_name: &str) -> (name: String)
    ensures
        name@ == file_name@ + ".tmp"@,
{
    let mut name = String::from_str(file_name);
    name.append(".tmp");
    name
}

/// What reading one file and parsing its bytes gave.
#[derive(Debug, Clone, Copy, PartialEq, Eq)]
pub enum Loaded<T> {
    /// The file could not be read.
    Missing,
    /// The file was read and does not parse.
    Corrupt,
    /// The file was read and holds this value.
    Parsed(T),
}

/// What to do after the primary file was tried.
#[derive(Debug, Clone, Copy, PartialEq, Eq)]
pub enum LoadStep<T> {
    /// Try the temporary file beside the primary one.
    ReadTemp,
    /// Loading is over: with this value, or with the default where there
    /// is none.
    Done(Option<T>),
}

/// The rule for the primary file: its value counts where it parses; where
/// it cannot be read the default counts; only a primary file that does not
/// parse sends the loader to the temporary file.
pub open spec fn primary_rule<T>(primary: Loaded<T>) -> LoadStep<T> {
    match primary {
        Loaded::Missing => LoadStep::Done(None),
        Loaded::Corrupt => LoadStep::ReadTemp,
        Loaded::Parsed(value) => LoadStep::Done(Some(value)),
    }
}

/// The rule for the temporary file: its value counts where it parses, and
/// the default otherwise.
pub open spec fn temp_rule<T>(temp: Loaded<T>) -> Option<T> {
    match temp {
        Loaded::Parsed(value) => Some(value),
        _ => None,
    }
}

/// Decides what follows the attempt on the primary file.
pub fn after_primary<T>(primary: Loaded<T>) -> (step: LoadStep<T>)
    ensures
        step == primary_rule(primary),
{
    match primary {
        Loaded::Missing => LoadStep::Done(None),
        Loaded::Corrupt => LoadStep::ReadTemp,
        Loaded::Parsed(value) => LoadStep::Done(Some(value)),
    }
}

/// Whether the temporary file is to be read after this reading of the
/// primary file.
pub fn temp_needed<T>(primary: &Loaded<T>) -> (needed: bool)
    ensures
        needed == (primary_rule(*primary) is ReadTemp),
{
    match primary {
        Loaded::Corrupt => true,
        _ => false,
    }
}

/// Decides what the attempt on the temporary file gives.
pub fn after_temp<T>(temp: Loaded<T>) -> (value: Option<T>)
    ensures
        value == temp_rule(temp),
{
    match temp {
        Loaded::Parsed(value) => Some(value),
        _ => None,
    }
}

/// The two files of a store, by what reading them would give.
pub struct Files<T> {
    pub primary: Loaded<T>,
    pub temp: Loaded<T>,
}

/// The value that loading recovers from the two files; `None` stands for
/// the default.
pub open spec fn recovered<T>(files: Files<T>) -> Option<T> {
    match primary_rule(files.primary) {
        LoadStep::Done(value) => value,
        LoadStep::ReadTemp => temp_rule(files.temp),
    }
}

/// A step of writing a store.
#[derive(Debug, Clone, Copy, PartialEq, Eq, Structural)]
pub enum PersistAction {
    /// Make sure the directory of the file exists.
    CreateParent,
    /// Write the serialized store to the temporary file.
    WriteTemp,
    /// Rename the temporary file to the primary one.
    Rename,
}

/// What follows a step of writing a store.
#[derive(Debug, Clone, Copy, PartialEq, Eq, Structural)]
pub enum PersistNext {
    /// This step is to be taken next.
    Take(PersistAction),
    /// The store is written: the primary file holds it.
    Written,
    /// The write is given up because this step failed; the primary file is
    /// as it was.
    GivenUp(PersistAction),
}

/// The order of writing, given the step just taken and whether it
/// succeeded (`None` at the start): directory, temporary file, rename. The
/// rename is made only after the temporary file was written in full; a
/// failed write of the temporary file or a failed rename ends the write. A
/// directory that could not be made does not: it may be there already.
pub open spec fn persist_order(done: Option<(PersistAction, bool)>) -> PersistNext {
    match done {
        None => PersistNext::Take(PersistAction::CreateParent),
        Some((PersistAction::CreateParent, _)) => PersistNext::Take(PersistAction::WriteTemp),
        Some((PersistAction::WriteTemp, true)) => PersistNext::Take(PersistAction::Rename),
        Some((PersistAction::WriteTemp, false)) => PersistNext::GivenUp(PersistAction::WriteTemp),
        Some((PersistAction::Rename, true)) => PersistNext::Written,
        Some((PersistAction::Rename, false)) => PersistNext::GivenUp(PersistAction::Rename),
    }
}

/// Decides what follows the step just taken, given whether it succeeded,
/// or which step comes first after `None`.
pub fn next_persist_action(done: Option<(PersistAction, bool)>) -> (next: PersistNext)
    ensures
        next == persist_order(done),
{
    match done {
        None => PersistNext::Take(PersistAction::CreateParent),
        Some((PersistAction::CreateParent, _)) => PersistNext::Take(PersistAction::WriteTemp),
        Some((PersistAction::WriteTemp, true)) => PersistNext::Take(PersistAction::Rename),
        Some((PersistAction::WriteTemp, false)) => PersistNext::GivenUp(PersistAction::WriteTemp),
        Some((PersistAction::Rename, true)) => PersistNext::Written,
        Some((PersistAction::Rename, false)) => PersistNext::GivenUp(PersistAction::Rename),
    }
}

/// Where a store is written: its file, and the temporary file beside it.
#[derive(Debug, Clone, PartialEq, Eq)]
pub struct WriteTarget {
    pub path: String,
    pub temp_path: String,
}

/// The target for the store kept at `path`; the temporary file is named
/// as [`temp_name`] names it.
pub fn write_target(path: &str) -> (target: WriteTarget)
    ensures
        target.path@ == path@,
        target.temp_path@ == path@ + ".tmp"@,
{
    WriteTarget { path: String::from_str(path), temp_path: temp_name(path) }
}

/// What a step does to the two files while `value` is written. Making the
/// directory changes neither. A write of the temporary file that succeeds
/// leaves it holding `value`; one that fails leaves it as `torn`, which may
/// be anything. A rename that succeeds makes the temporary file the
/// primary one; one that fails changes nothing.
pub open spec fn step_effect<T>(
    files: Files<T>,
    value: T,
    action: PersistAction,
    ok: bool,
    torn: Loaded<T>,
) -> Files<T> {
    match action {
        PersistAction::CreateParent => files,
        PersistAction::WriteTemp => Files {
            primary: files.primary,
            temp: if ok {
                Loaded::Parsed(value)
            } else {
                torn
            },
        },
        PersistAction::Rename => if ok {
            Files { primary: files.temp, temp: Loaded::Missing }
        } else {
            files
        },
    }
}

/// The files after the steps that [`persist_order`] prescribes have been
/// taken with the given outcomes, one outcome per step, starting behind the
/// step `done`. Where the outcomes run out before the write has ended, the
/// write was cut short there; a write of the temporary file that was cut
/// short counts as failed.
pub open spec fn files_after<T>(
    files: Files<T>,
    value: T,
    done: Option<(PersistAction, bool)>,
    outcomes: Seq<bool>,
    torn: Loaded<T>,
) -> Files<T>
    decreases outcomes.len(),
{
    match persist_order(done) {
        PersistNext::Take(action) => if outcomes.len() == 0 {
            files
        } else {
            files_after(
                step_effect(files, value, action, outcomes[0], torn),
                value,
                Some((action, outcomes[0])),
                outcomes.drop_first(),
                torn,
            )
        },
        _ => files,
    }
}

/// Whether a run of outcomes reaches a successful rename: the temporary
/// file was written in full and then renamed.
pub open spec fn renamed(outcomes: Seq<bool>) -> bool {
    outcomes.len() >= 3 && outcomes[1] && outcomes[2]
}

/// A store whose primary file does not parse, beside a temporary file that
/// does, is recovered from the temporary file.
pub proof fn lemma_corrupt_primary_falls_back<T>(files: Files<T>, value: T)
    requires
        files.primary is Corrupt,
        files.temp == Loaded::Parsed(value),
    ensures
        recovered(files) == Some(value),
{
}

/// Writing is atomic: whatever the outcomes of the steps, and wherever the
/// write is cut short, the primary file holds what it held before or the
/// value that was written, and it holds that value exactly when the
/// temporary file was written in full and then renamed. Whatever a failed
/// or interrupted write leaves in the temporary file never reaches the
/// primary one.
pub proof fn lemma_write_is_atomic<T>(
    before: Files<T>,
    value: T,
    outcomes: Seq<bool>,
    torn: Loaded<T>,
)
    ensures
        files_after(before, value, None, outcomes, torn).primary == if renamed(outcomes) {
            Loaded::Parsed(value)
        } else {
            before.primary
        },
{
    reveal_with_fuel(files_after, 5);
    if outcomes.len() >= 1 {
        let second = outcomes.drop_first();
        if second.len() >= 1 {
            assert(second[0] == outcomes[1]);
            let third = second.drop_first();
            if third.len() >= 1 {
                assert(third[0] == outcomes[2]);
            }
        }
    }
}

/// To the loader a write is all or nothing: after any run of the steps,
/// loading recovers the value that was written if the rename was made, and
/// what it would have recovered before if not. This holds of a primary
/// file that was sound before the write.
pub proof fn lemma_load_after_write<T>(
    before: Files<T>,
    value: T,
    outcomes: Seq<bool>,
    torn: Loaded<T>,
)
    requires
        !(before.primary is Corrupt),
    ensures
        recovered(files_after(before, value, None, outcomes, torn)) == if renamed(outcomes) {
            Some(value)
        } else {
            recovered(before)
        },
{
    lemma_write_is_atomic(before, value, outcomes, torn);
}

/// A run in which every step succeeds ends with the store written.
pub proof fn lemma_write_completes<T>(before: Files<T>, value: T, torn: Loaded<T>)
    ensures
        files_after(before, value, None, seq![true, true, true], torn) == (Files {
            primary: Loaded::Parsed(value),
            temp: Loaded::Missing,
        }),
        persist_order(Some((PersistAction::Rename, true))) == PersistNext::Written,
{
    reveal_with_fuel(files_after, 5);
    let outcomes = seq![true, true, true];
    let second = outcomes.drop_first();
    let third = second.drop_first();
    assert(second[0] == true);
    assert(third[0] == true);
    assert(third.drop_first().len() == 0);
}

} // verus!
