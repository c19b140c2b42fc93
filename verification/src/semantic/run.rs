//! The course of an index run: what is done next, and what is undone where a
//! step fails. A generation becomes the current one only after it was checked,
//! and a run that fails leaves the current one as it was.

use crate::error::Error;
use vstd::prelude::*;

verus! {

/// What is asked for.
#[derive(Debug, Clone, Copy, PartialEq, Eq, Structural)]
pub enum IndexStage {
    /// To take the lock, so that no other run writes.
    Lock,
    /// To make the staging directory and to write the documents into it.
    Stage,
    /// To plan the vectors, to carry over those that are kept, and to tell how
    /// many batches are to be embedded.
    Plan,
    /// To embed a batch and to store its vectors.
    Embed { done: usize, total: usize },
    /// To write the record of the generation.
    Save,
    /// To check what was staged against the archive.
    Check,
    /// To give the staging directory the name of the generation.
    Commit,
    /// To make the generation the current one.
    Publish,
    /// To remove the generations before it.
    Clean,
    /// To remove the staging directory of a run that failed.
    DropStaging,
    /// To remove the generation of a run that failed.
    DropGeneration,
}

/// What came of it.
#[derive(Debug)]
pub enum IndexEvent {
    /// The step is done, or why not.
    Done(Result<(), Error>),
    /// The vectors are planned: so many batches are to be embedded.
    Planned(Result<usize, Error>),
}

/// How far a run has come.
#[derive(Debug)]
pub struct IndexRun {
    pub stage: IndexStage,
    /// Why the run failed, while it is being undone.
    pub failure: Option<Error>,
}

/// One step of a run.
#[derive(Debug)]
pub enum IndexStep {
    Ask(IndexRun),
    Finished(Result<(), Error>),
}

/// A run at a stage, with nothing gone wrong.
pub open spec fn at_stage(stage: IndexStage) -> IndexStep {
    IndexStep::Ask(IndexRun { stage, failure: None })
}

/// A run that is undone.
pub open spec fn undoing(stage: IndexStage, failure: Error) -> IndexStep {
    IndexStep::Ask(IndexRun { stage, failure: Some(failure) })
}

/// The stage after `done` of `total` batches.
pub open spec fn embed_from(done: int, total: usize) -> IndexStage {
    if done < total {
        IndexStage::Embed { done: done as usize, total }
    } else {
        IndexStage::Save
    }
}

/// The stage after one that succeeded.
pub open spec fn after(stage: IndexStage) -> IndexStage {
    match stage {
        IndexStage::Lock => IndexStage::Stage,
        IndexStage::Stage => IndexStage::Plan,
        IndexStage::Embed { done, total } => embed_from(done + 1, total),
        IndexStage::Save => IndexStage::Check,
        IndexStage::Check => IndexStage::Commit,
        IndexStage::Commit => IndexStage::Publish,
        IndexStage::Publish => IndexStage::Clean,
        _ => stage,
    }
}

/// The step after one that failed: what was made by then is removed.
pub open spec fn on_failure(stage: IndexStage, error: Error) -> IndexStep {
    match stage {
        IndexStage::Lock => IndexStep::Finished(Err(error)),
        IndexStage::Publish => undoing(IndexStage::DropGeneration, error),
        _ => undoing(IndexStage::DropStaging, error),
    }
}

/// The step after an event. An event that was not asked for changes nothing.
pub open spec fn index_next(run: IndexRun, event: IndexEvent) -> IndexStep {
    match (run.stage, event) {
        (IndexStage::DropStaging, IndexEvent::Done(_)) => IndexStep::Finished(
            match run.failure {
                Some(error) => Err(error),
                None => Ok(()),
            },
        ),
        (IndexStage::DropGeneration, IndexEvent::Done(_)) => IndexStep::Finished(
            match run.failure {
                Some(error) => Err(error),
                None => Ok(()),
            },
        ),
        (IndexStage::Clean, IndexEvent::Done(_)) => IndexStep::Finished(Ok(())),
        (IndexStage::Plan, IndexEvent::Planned(Ok(total))) => at_stage(embed_from(0, total)),
        (IndexStage::Plan, IndexEvent::Planned(Err(error))) => on_failure(run.stage, error),
        (IndexStage::Plan, IndexEvent::Done(_)) => IndexStep::Ask(run),
        (_, IndexEvent::Done(Ok(_))) => at_stage(after(run.stage)),
        (_, IndexEvent::Done(Err(error))) => on_failure(run.stage, error),
        _ => IndexStep::Ask(run),
    }
}

/// The first step of a run.
pub fn begin_index() -> (run: IndexRun)
    ensures
        run == (IndexRun { stage: IndexStage::Lock, failure: None }),
{
    IndexRun { stage: IndexStage::Lock, failure: None }
}

/// Exec form of [`embed_from`].
fn stage_from(done: usize, total: usize) -> (stage: IndexStage)
    ensures
        stage == embed_from(done as int, total),
{
    if done < total {
        IndexStage::Embed { done, total }
    } else {
        IndexStage::Save
    }
}

/// Exec form of [`on_failure`].
fn undo(stage: IndexStage, error: Error) -> (step: IndexStep)
    ensures
        step == on_failure(stage, error),
{
    match stage {
        IndexStage::Lock => IndexStep::Finished(Err(error)),
        IndexStage::Publish => IndexStep::Ask(
            IndexRun { stage: IndexStage::DropGeneration, failure: Some(error) },
        ),
        _ => IndexStep::Ask(IndexRun { stage: IndexStage::DropStaging, failure: Some(error) }),
    }
}

/// The result of a run that was undone.
fn failed_with(failure: Option<Error>) -> (step: IndexStep)
    ensures
        step == IndexStep::Finished(
            match failure {
                Some(error) => Err(error),
                None => Ok(()),
            },
        ),
{
    match failure {
        Some(error) => IndexStep::Finished(Err(error)),
        None => IndexStep::Finished(Ok(())),
    }
}

/// The step after an event.
pub fn advance_index(run: IndexRun, event: IndexEvent) -> (step: IndexStep)
    ensures
        step == index_next(run, event),
{
    let stage = run.stage;
    match event {
        IndexEvent::Planned(r) => match stage {
            IndexStage::Plan => match r {
                Ok(total) => IndexStep::Ask(
                    IndexRun { stage: stage_from(0, total), failure: None },
                ),
                Err(error) => undo(stage, error),
            },
            _ => IndexStep::Ask(run),
        },
        IndexEvent::Done(r) => match stage {
            IndexStage::DropStaging => failed_with(run.failure),
            IndexStage::DropGeneration => failed_with(run.failure),
            IndexStage::Clean => IndexStep::Finished(Ok(())),
            IndexStage::Plan => IndexStep::Ask(run),
            _ => match r {
                Err(error) => undo(stage, error),
                Ok(_) => {
                    let next = match stage {
                        IndexStage::Lock => IndexStage::Stage,
                        IndexStage::Stage => IndexStage::Plan,
                        IndexStage::Embed { done, total } => if done < total {
                            stage_from(done + 1, total)
                        } else {
                            IndexStage::Save
                        },
                        IndexStage::Save => IndexStage::Check,
                        IndexStage::Check => IndexStage::Commit,
                        IndexStage::Commit => IndexStage::Publish,
                        _ => IndexStage::Clean,
                    };
                    IndexStep::Ask(IndexRun { stage: next, failure: None })
                },
            },
        },
    }
}

// ---------------------------------------------------------------------------
// Laws
// ---------------------------------------------------------------------------

/// What a run has on disk, as far as its steps say.
#[verifier::ext_equal]
pub struct Disk {
    /// The staging directory is there.
    pub staging: bool,
    /// The generation of this run is there.
    pub generation: bool,
    /// It was checked.
    pub checked: bool,
    /// It is the current one.
    pub current: bool,
}

/// The disk before a run.
pub open spec fn untouched() -> Disk {
    Disk { staging: false, generation: false, checked: false, current: false }
}

/// The disk after what a stage asked for ended in an event.
pub open spec fn disk_after(disk: Disk, stage: IndexStage, event: IndexEvent) -> Disk {
    match (stage, event) {
        // A directory may be there even where filling it failed.
        (IndexStage::Stage, IndexEvent::Done(_)) => Disk { staging: true, ..disk },
        (IndexStage::Check, IndexEvent::Done(Ok(_))) => Disk { checked: true, ..disk },
        (IndexStage::Commit, IndexEvent::Done(Ok(_))) => Disk {
            staging: false,
            generation: true,
            ..disk
        },
        (IndexStage::Publish, IndexEvent::Done(Ok(_))) => Disk { current: true, ..disk },
        (IndexStage::DropStaging, IndexEvent::Done(_)) => Disk { staging: false, ..disk },
        (IndexStage::DropGeneration, IndexEvent::Done(_)) => Disk { generation: false, ..disk },
        _ => disk,
    }
}

/// The step and the disk after a course of events.
pub open spec fn index_after(events: Seq<IndexEvent>) -> (IndexStep, Disk)
    decreases events.len(),
{
    if events.len() == 0 {
        (at_stage(IndexStage::Lock), untouched())
    } else {
        let (step, disk) = index_after(events.drop_last());
        match step {
            IndexStep::Ask(run) => (
                index_next(run, events.last()),
                disk_after(disk, run.stage, events.last()),
            ),
            IndexStep::Finished(_) => (step, disk),
        }
    }
}

/// What holds between the step and the disk at every moment of a run.
pub open spec fn consistent(step: IndexStep, disk: Disk) -> bool {
    match step {
        IndexStep::Ask(run) => match run.stage {
            IndexStage::Lock => run.failure is None && disk == untouched(),
            IndexStage::Stage => run.failure is None && disk == untouched(),
            IndexStage::Plan | IndexStage::Save | IndexStage::Check => run.failure is None && disk
                == Disk { staging: true, ..untouched() },
            IndexStage::Embed { done, total } => done < total && run.failure is None && disk
                == Disk { staging: true, ..untouched() },
            IndexStage::Commit => run.failure is None && disk == Disk {
                staging: true,
                checked: true,
                ..untouched()
            },
            IndexStage::Publish => run.failure is None && disk == Disk {
                generation: true,
                checked: true,
                ..untouched()
            },
            IndexStage::Clean => run.failure is None && disk == Disk {
                staging: false,
                generation: true,
                checked: true,
                current: true,
            },
            IndexStage::DropStaging => run.failure is Some && disk.staging && !disk.generation
                && !disk.current,
            IndexStage::DropGeneration => run.failure is Some && !disk.staging && !disk.current
                && disk.generation,
        },
        IndexStep::Finished(Ok(_)) => disk == Disk {
            staging: false,
            generation: true,
            checked: true,
            current: true,
        },
        IndexStep::Finished(Err(_)) => !disk.staging && !disk.generation && !disk.current,
    }
}

proof fn lemma_consistent(events: Seq<IndexEvent>)
    ensures
        consistent(index_after(events).0, index_after(events).1),
    decreases events.len(),
{
    if events.len() > 0 {
        lemma_consistent(events.drop_last());
    }
}

/// A run makes a generation the current one only after that generation was
/// checked and put in its place.
pub proof fn law_only_checked_generations_become_current(events: Seq<IndexEvent>)
    ensures
        index_after(events).1.current ==> index_after(events).1.checked && index_after(
            events,
        ).1.generation,
        index_after(events).0 matches IndexStep::Ask(run) ==> (run.stage == IndexStage::Publish
            ==> index_after(events).1.checked && index_after(events).1.generation),
{
    lemma_consistent(events);
}

/// A run that fails, at whichever step, leaves the current generation as it
/// was and nothing of its own behind.
pub proof fn law_failed_run_changes_nothing(events: Seq<IndexEvent>)
    ensures
        index_after(events).0 matches IndexStep::Finished(Err(_)) ==> !index_after(
            events,
        ).1.current && !index_after(events).1.generation && !index_after(events).1.staging,
{
    lemma_consistent(events);
}

/// A run that succeeds has made its generation the current one, and left no
/// staging directory.
pub proof fn law_finished_run_is_current(events: Seq<IndexEvent>)
    ensures
        index_after(events).0 matches IndexStep::Finished(Ok(_)) ==> index_after(events).1.current
            && index_after(events).1.checked && index_after(events).1.generation && !index_after(
            events,
        ).1.staging,
{
    lemma_consistent(events);
}

/// Every batch is embedded, one after the other, before a generation is
/// recorded: after so many successes, so many are done.
pub proof fn law_every_batch_is_embedded(total: usize, done: int)
    requires
        0 <= done <= total,
    ensures
        embed_from(done, total) == IndexStage::Save <==> done == total,
        done < total ==> after(embed_from(done, total)) == embed_from(done + 1, total),
{
}

/// A step that fails ends the run with its error, at once or after what was made
/// is removed, whatever comes of the removal.
pub proof fn law_a_failure_is_reported(run: IndexRun, error: Error, removal: Result<(), Error>)
    requires
        run.stage != IndexStage::Clean,
        run.stage != IndexStage::DropStaging,
        run.stage != IndexStage::DropGeneration,
    ensures
        ({
            let event = if run.stage == IndexStage::Plan {
                IndexEvent::Planned(Err(error))
            } else {
                IndexEvent::Done(Err(error))
            };
            match index_next(run, event) {
                IndexStep::Finished(result) => result == Err::<(), Error>(error),
                IndexStep::Ask(next) => index_next(next, IndexEvent::Done(removal))
                    == IndexStep::Finished(Err(error)),
            }
        }),
{
}

/// Whether what a stage asked for was done at some time.
pub open spec fn was_done(events: Seq<IndexEvent>, stage: IndexStage) -> bool {
    exists|i: int| #[trigger] done_at(events, stage, i)
}

/// Whether what a stage asked for was done by the event at `i`.
pub open spec fn done_at(events: Seq<IndexEvent>, stage: IndexStage, i: int) -> bool {
    &&& 0 <= i < events.len()
    &&& index_after(events.take(i)).0 matches IndexStep::Ask(run) && run.stage == stage
    &&& is_ok(events[i])
}

/// What was done stays done.
proof fn lemma_was_done(events: Seq<IndexEvent>, stage: IndexStage)
    requires
        events.len() > 0,
        was_done(events.drop_last(), stage),
    ensures
        was_done(events, stage),
{
    let front = events.drop_last();
    let i = choose|i: int| #[trigger] done_at(front, stage, i);
    assert(front.take(i) =~= events.take(i));
    assert(done_at(events, stage, i));
}

/// The stages that come before another.
pub open spec fn earlier_stages(stage: IndexStage) -> Seq<IndexStage> {
    match stage {
        IndexStage::Lock => seq![],
        IndexStage::Stage => seq![IndexStage::Lock],
        IndexStage::Plan => seq![IndexStage::Lock, IndexStage::Stage],
        IndexStage::Embed { .. } | IndexStage::Save => seq![
            IndexStage::Lock,
            IndexStage::Stage,
            IndexStage::Plan,
        ],
        IndexStage::Check => seq![
            IndexStage::Lock,
            IndexStage::Stage,
            IndexStage::Plan,
            IndexStage::Save,
        ],
        IndexStage::Commit => seq![
            IndexStage::Lock,
            IndexStage::Stage,
            IndexStage::Plan,
            IndexStage::Save,
            IndexStage::Check,
        ],
        IndexStage::Publish => seq![
            IndexStage::Lock,
            IndexStage::Stage,
            IndexStage::Plan,
            IndexStage::Save,
            IndexStage::Check,
            IndexStage::Commit,
        ],
        IndexStage::Clean => seq![
            IndexStage::Lock,
            IndexStage::Stage,
            IndexStage::Plan,
            IndexStage::Save,
            IndexStage::Check,
            IndexStage::Commit,
            IndexStage::Publish,
        ],
        _ => seq![],
    }
}

/// Nothing is asked for before everything that it needs was done: the lock, the
/// documents, the plan, the record, the check, the place and the pointer, in this
/// order.
pub proof fn law_every_stage_needs_those_before_it(events: Seq<IndexEvent>)
    ensures
        index_after(events).0 matches IndexStep::Ask(run) ==> forall|k: int|
            0 <= k < earlier_stages(run.stage).len() ==> was_done(
                events,
                #[trigger] earlier_stages(run.stage)[k],
            ),
    decreases events.len(),
{
    if events.len() > 0 {
        let front = events.drop_last();
        law_every_stage_needs_those_before_it(front);
        lemma_consistent(front);
        if let IndexStep::Ask(run) = index_after(events).0 {
            if let IndexStep::Ask(before) = index_after(front).0 {
                assert forall|k: int| 0 <= k < earlier_stages(run.stage).len() implies was_done(
                    events,
                    #[trigger] earlier_stages(run.stage)[k],
                ) by {
                    let stage = earlier_stages(run.stage)[k];
                    lemma_one_more_stage(before, events.last(), run, k);
                    if stage == before.stage && is_ok(events.last()) {
                        let n = events.len() - 1;
                        assert(events.take(n) =~= front);
                        assert(done_at(events, stage, n));
                    } else {
                        assert(was_done(front, earlier_stages(before.stage)[k]));
                        lemma_was_done(events, stage);
                    }
                }
            }
        }
    }
}

/// Whether an event tells of something done.
pub open spec fn is_ok(event: IndexEvent) -> bool {
    match event {
        IndexEvent::Done(r) => r is Ok,
        IndexEvent::Planned(r) => r is Ok,
    }
}

/// What a stage needs is what the one before it needs, and that one.
proof fn lemma_one_more_stage(before: IndexRun, event: IndexEvent, run: IndexRun, k: int)
    requires
        index_next(before, event) == IndexStep::Ask(run),
        before.stage matches IndexStage::Embed { done, total } ==> done < total,
        0 <= k < earlier_stages(run.stage).len(),
    ensures
        (earlier_stages(run.stage)[k] == before.stage && is_ok(event)) || (k < earlier_stages(
            before.stage,
        ).len() && earlier_stages(run.stage)[k] == earlier_stages(before.stage)[k]),
{
    match before.stage {
        IndexStage::Lock => {},
        IndexStage::Stage => {},
        IndexStage::Plan => {},
        IndexStage::Embed { done, total } => {},
        IndexStage::Save => {},
        IndexStage::Check => {},
        IndexStage::Commit => {},
        IndexStage::Publish => {},
        IndexStage::Clean => {},
        IndexStage::DropStaging => {},
        IndexStage::DropGeneration => {},
    }
}

} // verus!
