//! How the state file is read and replaced.
use vstd::prelude::*;

use crate::audio_ducking::state_file;
use crate::audio_ducking::state::{Baseline, SharedState, StateView};
use crate::single::Single;

verus! {

// ---------------------------------------------------------------------------
// Reading
// ---------------------------------------------------------------------------

/// What came of an attempt to read the state file.
#[derive(Debug)]
pub enum FileRead {
    Content(String),
    Missing,
    /// The file is there but could not be read.
    Unreadable,
}

/// The state that a file stands for: a missing file is the blank state.
pub open spec fn file_state(
    content: Option<Seq<char>>,
    read: spec_fn(Seq<char>) -> Option<Single>,
) -> StateView {
    match content {
        Some(content) => state_file::parsed(content, read),
        None => StateView::blank(),
    }
}

/// Reads the state. The flag is false where the file is there but could not be read.
/// What is on record is then unknown: that a session has no baseline here does not mean
/// that it was never ducked, so no new baseline may be taken.
pub fn read_from<F: Fn(&str) -> Option<Single>>(file: &FileRead, single: &F) -> (res: (
    SharedState,
    bool,
))
    requires
        forall|t: &str| call_requires(*single, (t,)),
    ensures
        res.0.wf(),
        res.1 == !(file is Unreadable),
        forall|read: spec_fn(Seq<char>) -> Option<Single>| #[trigger]
            state_file::reads_as(*single, read) ==> res.0@ == file_state(
                match *file {
                    FileRead::Content(content) => Some(content@),
                    _ => None,
                },
                read,
            ),
{
    match file {
        FileRead::Content(content) => (state_file::parse(content.as_str(), single), true),
        FileRead::Missing => (SharedState::new(), true),
        FileRead::Unreadable => (SharedState::new(), false),
    }
}

// ---------------------------------------------------------------------------
// Writing
// ---------------------------------------------------------------------------

/// What the state file is to become.
#[derive(Debug)]
pub enum Publication {
    Remove,
    Replace(String),
}

/// Nobody ducks, nothing is owed, and no repair window is open or was: no file is kept.
pub open spec fn nothing_to_keep(state: StateView) -> bool {
    &&& state.duckers.len() == 0
    &&& state.baselines == Map::<Seq<char>, Baseline>::empty()
    &&& state.migration_deadline_ms is None
}

/// What the state file becomes for a state.
pub fn write_to<F: Fn(Single) -> String>(state: &SharedState, text: &F) -> (res: Publication)
    requires
        state.wf(),
        forall|x: Single| call_requires(*text, (x,)),
    ensures
        match res {
            Publication::Remove => nothing_to_keep(state@),
            Publication::Replace(content) => !nothing_to_keep(state@) && forall|
                write: spec_fn(Single) -> Seq<char>,
            | #[trigger]
                state_file::writes_as(*text, write) ==> state_file::is_file_of(content@, state@, write),
        },
{
    let no_duckers = state.duckers().len() == 0;
    let list = state.baselines();
    let no_baselines = list.len() == 0;
    proof {
        if no_baselines {
            assert(state@.baselines.dom() =~= Set::<Seq<char>>::empty());
            assert(state@.baselines =~= Map::<Seq<char>, Baseline>::empty());
        } else {
            assert(state@.baselines.contains_key(list@[0].0@));
        }
    }
    if no_duckers && no_baselines && state.migration_deadline_ms().is_none() {
        Publication::Remove
    } else {
        Publication::Replace(state_file::render(state, text))
    }
}

/// What is published is what the next process reads: the file, or its absence, stands
/// for the state that was written. `published` is the content of the file, or nothing
/// where the file was removed.
pub proof fn law_published_state_reads_back(
    published: Option<Seq<char>>,
    state: StateView,
    write: spec_fn(Single) -> Seq<char>,
    read: spec_fn(Seq<char>) -> Option<Single>,
)
    requires
        match published {
            None => nothing_to_keep(state),
            Some(content) => state_file::is_file_of(content, state, write),
        },
        nothing_to_keep(state) ==> state.migrated == Set::<Seq<char>>::empty(),
        state_file::can_be_written(state, write, read),
    ensures
        file_state(published, read) == state,
{
    match published {
        None => {
            assert(state =~= StateView::blank());
        },
        Some(content) => {
            state_file::law_file_reads_back(content, state, write, read);
        },
    }
}

/// Every number is written as a field of a line, and read from it again.
pub open spec fn numbers_read_back(
    write: spec_fn(Single) -> Seq<char>,
    read: spec_fn(Seq<char>) -> Option<Single>,
) -> bool {
    forall|x: Single| !x.is_nan() ==> #[trigger] state_file::reads_back(x, write, read)
}

/// The state holds numbers only, its instances hold neither spaces nor line feeds, and its
/// session identifiers, which may hold spaces, no line feeds and no carriage return at the
/// end.
pub open spec fn is_plain(state: StateView) -> bool {
    &&& forall|i: int|
        0 <= i < state.duckers.len() ==> state_file::fits_in_field(
            (#[trigger] state.duckers[i]).instance,
        ) && !state.duckers[i].ratio.is_nan()
    &&& forall|id: Seq<char>| #[trigger]
        state.baselines.contains_key(id) ==> state_file::fits_in_line(id)
            && !state.baselines[id].volume.is_nan() && !state.baselines[id].ducked_to.is_nan()
    &&& forall|id: Seq<char>| #[trigger]
        state.migrated.contains(id) ==> id.len() > 0 && state_file::fits_in_line(id)
}

/// A plain state that there is something to keep of is read as it was written, once numbers
/// are: the duckers in their order, every baseline, the deadline and who was repaired.
pub proof fn law_plain_state_reads_back(
    content: Seq<char>,
    state: StateView,
    write: spec_fn(Single) -> Seq<char>,
    read: spec_fn(Seq<char>) -> Option<Single>,
)
    requires
        numbers_read_back(write, read),
        is_plain(state),
        !nothing_to_keep(state),
        state_file::is_file_of(content, state, write),
    ensures
        file_state(Some(content), read) == state,
{
    law_published_state_reads_back(Some(content), state, write, read);
}

// ---------------------------------------------------------------------------
// The steps of a publication
// ---------------------------------------------------------------------------

/// What came of one step on the file system.
#[derive(Clone, Copy, Debug, PartialEq, Eq, Structural)]
pub enum IoOutcome {
    Done,
    NotFound,
    Failed,
}

/// The steps that bring a publication about. New content goes to a temporary file first,
/// which then takes the place of the state file, so that a crash in the middle leaves no
/// truncated state file behind.
#[derive(Clone, Copy, Debug, PartialEq, Eq, Structural)]
pub enum PublishStep {
    RemoveFile,
    CreateTemp,
    WriteTemp,
    SyncTemp,
    RenameTemp,
    DiscardTemp,
    WriteInPlace,
    /// The flag says whether the state was made durable.
    Finished(bool),
}

/// The step that follows one that was tried.
pub open spec fn following(step: PublishStep, outcome: IoOutcome) -> PublishStep {
    let done = outcome == IoOutcome::Done;
    match step {
        PublishStep::RemoveFile => PublishStep::Finished(outcome != IoOutcome::Failed),
        PublishStep::CreateTemp => if done {
            PublishStep::WriteTemp
        } else {
            PublishStep::DiscardTemp
        },
        PublishStep::WriteTemp => if done {
            PublishStep::SyncTemp
        } else {
            PublishStep::DiscardTemp
        },
        PublishStep::SyncTemp => if done {
            PublishStep::RenameTemp
        } else {
            PublishStep::DiscardTemp
        },
        PublishStep::RenameTemp => if done {
            PublishStep::Finished(true)
        } else {
            PublishStep::DiscardTemp
        },
        PublishStep::DiscardTemp => PublishStep::WriteInPlace,
        PublishStep::WriteInPlace => PublishStep::Finished(done),
        PublishStep::Finished(durable) => PublishStep::Finished(durable),
    }
}

impl Publication {
    /// The step that a publication begins with.
    pub fn first_step(&self) -> (step: PublishStep)
        ensures
            step == (match *self {
                Publication::Remove => PublishStep::RemoveFile,
                Publication::Replace(_) => PublishStep::CreateTemp,
            }),
    {
        match self {
            Publication::Remove => PublishStep::RemoveFile,
            Publication::Replace(_) => PublishStep::CreateTemp,
        }
    }
}

impl PublishStep {
    /// The step to take after this one came out as `outcome`.
    pub fn next(self, outcome: IoOutcome) -> (step: PublishStep)
        ensures
            step == following(self, outcome),
    {
        let done = match outcome {
            IoOutcome::Done => true,
            _ => false,
        };
        match self {
            PublishStep::RemoveFile => match outcome {
                IoOutcome::Failed => PublishStep::Finished(false),
                _ => PublishStep::Finished(true),
            },
            PublishStep::CreateTemp if done => PublishStep::WriteTemp,
            PublishStep::WriteTemp if done => PublishStep::SyncTemp,
            PublishStep::SyncTemp if done => PublishStep::RenameTemp,
            PublishStep::RenameTemp if done => PublishStep::Finished(true),
            PublishStep::CreateTemp
            | PublishStep::WriteTemp
            | PublishStep::SyncTemp
            | PublishStep::RenameTemp => PublishStep::DiscardTemp,
            PublishStep::DiscardTemp => PublishStep::WriteInPlace,
            PublishStep::WriteInPlace => PublishStep::Finished(done),
            PublishStep::Finished(durable) => PublishStep::Finished(durable),
        }
    }
}

/// The step that is reached from `step` by some outcomes.
pub open spec fn publish_run(step: PublishStep, outcomes: Seq<IoOutcome>) -> PublishStep
    decreases outcomes.len(),
{
    if outcomes.len() == 0 {
        step
    } else {
        following(publish_run(step, outcomes.drop_last()), outcomes.last())
    }
}

/// The state counts as durable only right after the file was removed, replaced or
/// written; and the file is written in place only after the temporary one was given up.
pub proof fn law_publish_steps(step: PublishStep, outcome: IoOutcome)
    requires
        !(step is Finished),
    ensures
        following(step, outcome) == PublishStep::Finished(true) ==> {
            ||| step == PublishStep::RemoveFile && outcome != IoOutcome::Failed
            ||| step == PublishStep::RenameTemp && outcome == IoOutcome::Done
            ||| step == PublishStep::WriteInPlace && outcome == IoOutcome::Done
        },
        following(step, outcome) == PublishStep::WriteInPlace ==> step == PublishStep::DiscardTemp,
        following(step, outcome) == PublishStep::DiscardTemp ==> outcome != IoOutcome::Done,
{
}

/// Whatever the outcomes, a publication is over after six steps at most.
pub proof fn law_publish_ends(step: PublishStep, outcomes: Seq<IoOutcome>)
    requires
        outcomes.len() >= 6,
    ensures
        publish_run(step, outcomes) is Finished,
    decreases outcomes.len(),
{
    if outcomes.len() > 6 {
        law_publish_ends(step, outcomes.drop_last());
    } else {
        reveal_with_fuel(publish_run, 7);
    }
}

/// No file is kept exactly when nobody ducks, nothing is owed and there is no deadline; and
/// no file, or one that could not be read, stands for a state that holds nothing.
pub proof fn law_what_no_file_means(
    state: StateView,
    read: spec_fn(Seq<char>) -> Option<Single>,
)
    ensures
        nothing_to_keep(state) <==> state.duckers.len() == 0 && (forall|id: Seq<char>|
            !#[trigger] state.baselines.contains_key(id)) && state.migration_deadline_ms is None,
        file_state(None, read).duckers.len() == 0,
        file_state(None, read).baselines == Map::<Seq<char>, Baseline>::empty(),
        file_state(None, read).migration_deadline_ms is None,
        file_state(None, read).migrated == Set::<Seq<char>>::empty(),
{
    if forall|id: Seq<char>| !#[trigger] state.baselines.contains_key(id) {
        assert(state.baselines =~= Map::<Seq<char>, Baseline>::empty());
    }
}

/// A replacement that goes well is created, written, synced and renamed, and then done; one
/// that fails at any of these is discarded, written in place, and done as that went. A
/// removal is done unless it fails.
pub proof fn law_how_the_file_is_replaced(outcome: IoOutcome)
    ensures
        following(PublishStep::CreateTemp, IoOutcome::Done) == PublishStep::WriteTemp,
        following(PublishStep::WriteTemp, IoOutcome::Done) == PublishStep::SyncTemp,
        following(PublishStep::SyncTemp, IoOutcome::Done) == PublishStep::RenameTemp,
        following(PublishStep::RenameTemp, IoOutcome::Done) == PublishStep::Finished(true),
        outcome != IoOutcome::Done ==> {
            &&& following(PublishStep::CreateTemp, outcome) == PublishStep::DiscardTemp
            &&& following(PublishStep::WriteTemp, outcome) == PublishStep::DiscardTemp
            &&& following(PublishStep::SyncTemp, outcome) == PublishStep::DiscardTemp
            &&& following(PublishStep::RenameTemp, outcome) == PublishStep::DiscardTemp
            &&& following(PublishStep::WriteInPlace, outcome) == PublishStep::Finished(false)
        },
        following(PublishStep::DiscardTemp, outcome) == PublishStep::WriteInPlace,
        following(PublishStep::WriteInPlace, IoOutcome::Done) == PublishStep::Finished(true),
        following(PublishStep::RemoveFile, outcome) == PublishStep::Finished(
            outcome != IoOutcome::Failed,
        ),
{
}

} // verus!
