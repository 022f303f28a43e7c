//! What holds of a pass as a whole.

use vstd::prelude::*;
use crate::block_stream::{begin_job, job_step, JobStepView};
use crate::config::{IndexerConfigView, StreamInfoView};
use crate::job_laws::lemma_job_calls;
use crate::matching::{distinct_ids, lemma_unmatched, matched, unmatched};
use crate::model::{
    calls_left, job_run, lemma_run_unfolds, pass_run, reported, run, sync_job, Run, World,
};
use crate::protocol::{ActionView, EventView, SyncError};
use crate::synchronise::{
    advance, failure_of, pass_step, stop_next, FailedJob, PassView, Phase,
};

verus! {

/// The end of a pass: the streams that no job took are stopped in the
/// order of the list, and the pass is complete.
pub open spec fn orphan_stops(jobs: Seq<IndexerConfigView>, active: Seq<StreamInfoView>, world: World) -> Run
    decreases active.len(),
{
    if active.len() == 0 {
        Run { actions: seq![ActionView::Done], failures: Seq::empty(), world }
    } else {
        let stop = ActionView::Stop { stream_id: active[0].stream_id };
        let rest = orphan_stops(jobs, active.drop_first(), world.after(jobs, stop));
        Run { actions: seq![stop] + rest.actions, ..rest }
    }
}

/// The part of a pass from the job at `cursor` on: each job is
/// synchronised with the first stream of its key among those that no
/// earlier job took, one job after the other; then the streams that are
/// left are stopped.
pub open spec fn jobs_from(
    jobs: Seq<IndexerConfigView>,
    active: Seq<StreamInfoView>,
    cursor: int,
    world: World,
) -> Run
    decreases jobs.len() - cursor,
{
    if 0 <= cursor < jobs.len() {
        let key = jobs[cursor].key();
        let one = sync_job(jobs, cursor, matched(active, key), world);
        let rest = jobs_from(jobs, unmatched(active, key), cursor + 1, one.world);
        Run {
            actions: one.actions + rest.actions,
            failures: reported(failure_of(cursor, one.result)) + rest.failures,
            world: rest.world,
        }
    } else {
        orphan_stops(jobs, active, world)
    }
}

proof fn lemma_run_of_orphans(jobs: Seq<IndexerConfigView>, active: Seq<StreamInfoView>, world: World)
    ensures
        ({
            let (pass, pending) = stop_next(jobs, active);
            run(pass, pending, world) == orphan_stops(jobs, active, world)
        }),
    decreases active.len(),
{
    let (pass, pending) = stop_next(jobs, active);
    if active.len() > 0 {
        let after = world.after(jobs, pending);
        lemma_run_of_orphans(jobs, active.drop_first(), after);
        let (next, step) = pass_step(pass, world.answer(jobs, pending));
        assert((next, step.action) == stop_next(jobs, active.drop_first()));
        let rest = run(next, step.action, after);
        assert(reported(step.failure) + rest.failures =~= rest.failures);
    }
}

proof fn lemma_run_of_jobs(
    jobs: Seq<IndexerConfigView>,
    active: Seq<StreamInfoView>,
    cursor: int,
    world: World,
)
    requires
        0 <= cursor <= jobs.len(),
    ensures
        ({
            let (pass, pending) = advance(jobs, active, cursor);
            run(pass, pending, world) == jobs_from(jobs, active, cursor, world)
        }),
    decreases jobs.len() - cursor, 7nat,
{
    if cursor < jobs.len() {
        let key = jobs[cursor].key();
        let rest = unmatched(active, key);
        match begin_job(cursor, jobs[cursor], matched(active, key)) {
            JobStepView::Finished(result) => {
                lemma_run_of_jobs(jobs, rest, cursor + 1, world);
                let tail = jobs_from(jobs, rest, cursor + 1, world);
                assert(Seq::<ActionView>::empty() + tail.actions =~= tail.actions);
                assert(reported(failure_of(cursor, result)) + tail.failures =~= tail.failures);
            },
            JobStepView::Next(stage, action) => {
                lemma_run_of_job(jobs, rest, cursor, stage, action, world);
            },
        }
    } else {
        lemma_run_of_orphans(jobs, active, world);
    }
}

proof fn lemma_run_of_job(
    jobs: Seq<IndexerConfigView>,
    active: Seq<StreamInfoView>,
    cursor: int,
    stage: crate::block_stream::JobStage,
    pending: ActionView,
    world: World,
)
    requires
        0 <= cursor < jobs.len(),
    ensures
        ({
            let pass = PassView { jobs, active, cursor, phase: Phase::Job(stage) };
            let one = job_run(JobStepView::Next(stage, pending), jobs, cursor, world);
            let rest = jobs_from(jobs, active, cursor + 1, one.world);
            run(pass, pending, world) == (Run {
                actions: one.actions + rest.actions,
                failures: reported(failure_of(cursor, one.result)) + rest.failures,
                world: rest.world,
            })
        }),
    decreases jobs.len() - cursor, calls_left(JobStepView::Next(stage, pending)),
{
    let pass = PassView { jobs, active, cursor, phase: Phase::Job(stage) };
    let after = world.after(jobs, pending);
    let step = job_step(stage, cursor, jobs[cursor], world.answer(jobs, pending));
    let one = job_run(JobStepView::Next(stage, pending), jobs, cursor, world);
    let then = job_run(step, jobs, cursor, after);
    assert(one.actions == seq![pending] + then.actions);
    let tail = jobs_from(jobs, active, cursor + 1, one.world);
    let (next, taken) = pass_step(pass, world.answer(jobs, pending));
    let remaining = run(next, taken.action, after);
    lemma_run_unfolds(pass, pending, world);
    match step {
        JobStepView::Next(stage, action) => {
            lemma_run_of_job(jobs, active, cursor, stage, action, after);
            assert(reported(taken.failure) + remaining.failures =~= remaining.failures);
        },
        JobStepView::Finished(result) => {
            lemma_run_of_jobs(jobs, active, cursor + 1, after);
            assert(then.actions + tail.actions =~= tail.actions);
        },
    }
    assert(seq![pending] + remaining.actions =~= one.actions + tail.actions);
}

/// A pass is the list of the running streams, then its jobs one by one,
/// then the stop of every stream that is left: what [`jobs_from`] says.
pub proof fn lemma_pass_goes_job_by_job(jobs: Seq<IndexerConfigView>, streams: Seq<StreamInfoView>, world: World)
    ensures
        ({
            let whole = pass_run(jobs, streams, world);
            let parts = jobs_from(jobs, streams, 0, world);
            &&& whole.actions == seq![ActionView::List] + parts.actions
            &&& whole.failures == parts.failures
            &&& whole.world == parts.world
        }),
{
    lemma_run_of_jobs(jobs, streams, 0, world);
}

/// How often `action` stands in `actions`.
pub open spec fn occurrences(actions: Seq<ActionView>, action: ActionView) -> nat
    decreases actions.len(),
{
    if actions.len() == 0 {
        0
    } else {
        occurrences(actions.drop_last(), action) + if actions.last() == action {
            1nat
        } else {
            0nat
        }
    }
}

proof fn lemma_occurrences_add(before: Seq<ActionView>, behind: Seq<ActionView>, action: ActionView)
    ensures
        occurrences(before + behind, action) == occurrences(before, action) + occurrences(
            behind,
            action,
        ),
    decreases behind.len(),
{
    if behind.len() == 0 {
        assert(before + behind =~= before);
    } else {
        assert((before + behind).drop_last() =~= before + behind.drop_last());
        lemma_occurrences_add(before, behind.drop_last(), action);
    }
}

proof fn lemma_occurrences_none(actions: Seq<ActionView>, action: ActionView)
    requires
        forall|at: int| 0 <= at < actions.len() ==> #[trigger] actions[at] != action,
    ensures
        occurrences(actions, action) == 0,
    decreases actions.len(),
{
    if actions.len() > 0 {
        lemma_occurrences_none(actions.drop_last(), action);
    }
}

/// Whether a start in `actions` is for the job at position `job` alone.
pub open spec fn starts_only(actions: Seq<ActionView>, from: int, to: int) -> bool {
    forall|at: int|
        0 <= at < actions.len() ==> (#[trigger] actions[at] matches ActionView::Start { job, .. }
            ==> from <= job < to)
}

/// A job stops no stream but the one that runs it, and starts none but
/// its own.
proof fn lemma_job_touches_its_own(
    jobs: Seq<IndexerConfigView>,
    job: int,
    active: Option<StreamInfoView>,
    world: World,
    stream_id: Seq<char>,
)
    requires
        0 <= job < jobs.len(),
        active matches Some(stream) ==> stream.stream_id != stream_id,
    ensures
        occurrences(sync_job(jobs, job, active, world).actions, ActionView::Stop { stream_id }) == 0,
        starts_only(sync_job(jobs, job, active, world).actions, job, job + 1),
{
    lemma_job_calls(jobs, job, active, world);
    lemma_occurrences_none(
        sync_job(jobs, job, active, world).actions,
        ActionView::Stop { stream_id },
    );
}

proof fn lemma_orphans_stopped(
    jobs: Seq<IndexerConfigView>,
    active: Seq<StreamInfoView>,
    world: World,
    stream_id: Seq<char>,
)
    requires
        distinct_ids(active),
    ensures
        occurrences(orphan_stops(jobs, active, world).actions, ActionView::Stop { stream_id }) == (
        if exists|at: int| 0 <= at < active.len() && (#[trigger] active[at]).stream_id == stream_id {
            1nat
        } else {
            0nat
        }),
        starts_only(orphan_stops(jobs, active, world).actions, 0, 0),
    decreases active.len(),
{
    reveal_with_fuel(occurrences, 2);
    let target = ActionView::Stop { stream_id };
    if active.len() > 0 {
        let stop = ActionView::Stop { stream_id: active[0].stream_id };
        let rest = orphan_stops(jobs, active.drop_first(), world.after(jobs, stop));
        assert forall|one: int, other: int|
            0 <= one < other < active.drop_first().len() implies (#[trigger] active.drop_first()[one]).stream_id
            != (#[trigger] active.drop_first()[other]).stream_id by {
            assert(active[one + 1].stream_id != active[other + 1].stream_id);
        }
        lemma_orphans_stopped(jobs, active.drop_first(), world.after(jobs, stop), stream_id);
        lemma_occurrences_add(seq![stop], rest.actions, target);
        assert(seq![stop].drop_last() =~= Seq::<ActionView>::empty());
        if active[0].stream_id == stream_id {
            assert forall|at: int| 0 <= at < active.drop_first().len() implies (
            #[trigger] active.drop_first()[at]).stream_id != stream_id by {
                assert(active[0].stream_id != active[at + 1].stream_id);
            }
        } else {
            if exists|at: int| 0 <= at < active.len() && (#[trigger] active[at]).stream_id == stream_id {
                let at = choose|at: int| 0 <= at < active.len() && (#[trigger] active[at]).stream_id
                    == stream_id;
                assert(active.drop_first()[at - 1].stream_id == stream_id);
            } else {
                assert forall|at: int| 0 <= at < active.drop_first().len() implies (
                #[trigger] active.drop_first()[at]).stream_id != stream_id by {
                    assert(active[at + 1].stream_id != stream_id);
                }
            }
        }
    } else {
        assert(seq![ActionView::Done].drop_last() =~= Seq::<ActionView>::empty());
    }
}

proof fn lemma_orphan_outlasts_jobs(
    jobs: Seq<IndexerConfigView>,
    active: Seq<StreamInfoView>,
    cursor: int,
    world: World,
    orphan: StreamInfoView,
)
    requires
        0 <= cursor <= jobs.len(),
        distinct_ids(active),
        active.contains(orphan),
        forall|job: int| 0 <= job < jobs.len() ==> (#[trigger] jobs[job]).key() != orphan.key(),
    ensures
        occurrences(
            jobs_from(jobs, active, cursor, world).actions,
            ActionView::Stop { stream_id: orphan.stream_id },
        ) == 1,
        starts_only(jobs_from(jobs, active, cursor, world).actions, 0, jobs.len() as int),
    decreases jobs.len() - cursor,
{
    let target = ActionView::Stop { stream_id: orphan.stream_id };
    if cursor < jobs.len() {
        let key = jobs[cursor].key();
        let taken = matched(active, key);
        let one = sync_job(jobs, cursor, taken, world);
        let rest = jobs_from(jobs, unmatched(active, key), cursor + 1, one.world);
        lemma_unmatched(active, |stream: StreamInfoView| stream.stream_id, key);
        if let Some(stream) = taken {
            assert(stream.key() != orphan.key());
            let at = choose|at: int| 0 <= at < active.len() && active[at] == stream;
            let place = choose|place: int| 0 <= place < active.len() && active[place] == orphan;
            if at < place {
                assert(active[at].stream_id != active[place].stream_id);
            }
            if place < at {
                assert(active[place].stream_id != active[at].stream_id);
            }
        }
        lemma_job_touches_its_own(jobs, cursor, taken, world, orphan.stream_id);
        lemma_orphan_outlasts_jobs(jobs, unmatched(active, key), cursor + 1, one.world, orphan);
        lemma_occurrences_add(one.actions, rest.actions, target);
    } else {
        lemma_orphans_stopped(jobs, active, world, orphan.stream_id);
        let at = choose|at: int| 0 <= at < active.len() && active[at] == orphan;
        assert(active[at].stream_id == orphan.stream_id);
    }
}

/// A running stream whose job the registry does not declare is stopped
/// exactly once in a pass, and no stream is started for its job, where the
/// identifiers of the running streams are distinct.
pub proof fn lemma_unregistered_stream_is_stopped_once(
    jobs: Seq<IndexerConfigView>,
    streams: Seq<StreamInfoView>,
    world: World,
    orphan: int,
)
    requires
        distinct_ids(streams),
        0 <= orphan < streams.len(),
        forall|job: int| 0 <= job < jobs.len() ==> (#[trigger] jobs[job]).key() != streams[orphan].key(),
    ensures
        ({
            let actions = pass_run(jobs, streams, world).actions;
            &&& occurrences(actions, ActionView::Stop { stream_id: streams[orphan].stream_id }) == 1
            &&& forall|at: int|
                0 <= at < actions.len() ==> (#[trigger] actions[at] matches ActionView::Start {
                    job,
                    ..
                } ==> 0 <= job < jobs.len() && jobs[job].key() != streams[orphan].key())
        }),
{
    let target = ActionView::Stop { stream_id: streams[orphan].stream_id };
    let parts = jobs_from(jobs, streams, 0, world);
    lemma_pass_goes_job_by_job(jobs, streams, world);
    assert(streams.contains(streams[orphan]));
    lemma_orphan_outlasts_jobs(jobs, streams, 0, world, streams[orphan]);
    lemma_occurrences_add(seq![ActionView::List], parts.actions, target);
    reveal_with_fuel(occurrences, 2);
    assert(seq![ActionView::List].drop_last() =~= Seq::<ActionView>::empty());
    let actions = pass_run(jobs, streams, world).actions;
    assert forall|at: int| 0 <= at < actions.len() implies (#[trigger] actions[at] matches ActionView::Start {
        job,
        ..
    } ==> 0 <= job < jobs.len() && jobs[job].key() != streams[orphan].key()) by {
        if at > 0 {
            assert(actions[at] == parts.actions[at - 1]);
        }
    }
}

/// Whether no start in `actions` is for the job at position `job`.
pub open spec fn never_starts(actions: Seq<ActionView>, job: int) -> bool {
    forall|at: int|
        0 <= at < actions.len() ==> (#[trigger] actions[at] matches ActionView::Start { job: started, .. }
            ==> started != job)
}

proof fn lemma_synced_stream_outlasts_jobs(
    jobs: Seq<IndexerConfigView>,
    active: Seq<StreamInfoView>,
    cursor: int,
    world: World,
    job: int,
    stream: StreamInfoView,
)
    requires
        0 <= cursor <= jobs.len(),
        0 <= job < jobs.len(),
        forall|other: int|
            0 <= other < jobs.len() && other != job ==> (#[trigger] jobs[other]).key() != jobs[job].key(),
        distinct_ids(active),
        jobs[job].key() == stream.key(),
        stream.version == jobs[job].registry_version(),
        cursor <= job ==> active.contains(stream),
        cursor <= job ==> forall|at: int|
            0 <= at < active.len() && (#[trigger] active[at]).key() == stream.key() ==> active[at]
                == stream,
        cursor > job ==> forall|at: int|
            0 <= at < active.len() ==> (#[trigger] active[at]).stream_id != stream.stream_id,
    ensures
        occurrences(
            jobs_from(jobs, active, cursor, world).actions,
            ActionView::Stop { stream_id: stream.stream_id },
        ) == 0,
        never_starts(jobs_from(jobs, active, cursor, world).actions, job) || cursor > job,
        starts_only(jobs_from(jobs, active, cursor, world).actions, cursor, jobs.len() as int),
    decreases jobs.len() - cursor,
{
    let target = ActionView::Stop { stream_id: stream.stream_id };
    if cursor < jobs.len() {
        let key = jobs[cursor].key();
        let taken = matched(active, key);
        let rest = unmatched(active, key);
        let one = sync_job(jobs, cursor, taken, world);
        let then = jobs_from(jobs, rest, cursor + 1, one.world);
        lemma_unmatched(active, |stream: StreamInfoView| stream.stream_id, key);
        lemma_job_calls(jobs, cursor, taken, world);
        if cursor <= job {
            let place = choose|place: int| 0 <= place < active.len() && active[place] == stream;
            if let Some(other) = taken {
                let at = choose|at: int| 0 <= at < active.len() && active[at] == other;
                if at < place {
                    assert(active[at].stream_id != active[place].stream_id);
                }
                if place < at {
                    assert(active[place].stream_id != active[at].stream_id);
                }
            }
            assert forall|at: int|
                0 <= at < rest.len() && (#[trigger] rest[at]).key() == stream.key() implies rest[at]
                == stream by {
                assert(rest.contains(rest[at]));
                let from = choose|from: int| 0 <= from < active.len() && active[from] == rest[at];
                assert(active[from].key() == stream.key());
            }
            if cursor == job {
                crate::matching::lemma_no_match(active, key);
                assert(taken == Some(stream));
                assert forall|at: int| 0 <= at < rest.len() implies (#[trigger] rest[at]).stream_id
                    != stream.stream_id by {
                    assert(rest.contains(rest[at]));
                }
                lemma_occurrences_none(one.actions, target);
            } else {
                lemma_job_touches_its_own(jobs, cursor, taken, world, stream.stream_id);
                assert(rest.contains(stream));
            }
        } else {
            if let Some(other) = taken {
                let at = choose|at: int| 0 <= at < active.len() && active[at] == other;
                assert(active[at].stream_id != stream.stream_id);
            }
            lemma_job_touches_its_own(jobs, cursor, taken, world, stream.stream_id);
            assert forall|at: int| 0 <= at < rest.len() implies (#[trigger] rest[at]).stream_id
                != stream.stream_id by {
                assert(rest.contains(rest[at]));
                let from = choose|from: int| 0 <= from < active.len() && active[from] == rest[at];
                assert(active[from].stream_id != stream.stream_id);
            }
        }
        lemma_synced_stream_outlasts_jobs(jobs, rest, cursor + 1, one.world, job, stream);
        lemma_occurrences_add(one.actions, then.actions, target);
        assert(starts_only(one.actions, cursor, cursor + 1)) by {
            if taken is Some && taken->0.stream_id == stream.stream_id {
                assert(one.actions.len() == 0);
            } else {
                lemma_job_touches_its_own(jobs, cursor, taken, world, stream.stream_id);
            }
        }
    } else {
        lemma_orphans_stopped(jobs, active, world, stream.stream_id);
    }
}

/// A job whose stream reports the registry's version is left alone by the
/// whole pass: its stream is not stopped and none is started for it. It
/// holds where no other job has its key, no other stream runs it, and no
/// two running streams share an identifier.
pub proof fn lemma_synced_job_is_left_alone(
    jobs: Seq<IndexerConfigView>,
    streams: Seq<StreamInfoView>,
    world: World,
    job: int,
    running: int,
)
    requires
        0 <= job < jobs.len(),
        0 <= running < streams.len(),
        forall|other: int|
            0 <= other < jobs.len() && other != job ==> (#[trigger] jobs[other]).key() != jobs[job].key(),
        distinct_ids(streams),
        forall|other: int|
            0 <= other < streams.len() && other != running ==> (#[trigger] streams[other]).key()
                != jobs[job].key(),
        streams[running].key() == jobs[job].key(),
        streams[running].version == jobs[job].registry_version(),
    ensures
        ({
            let actions = pass_run(jobs, streams, world).actions;
            &&& occurrences(actions, ActionView::Stop { stream_id: streams[running].stream_id }) == 0
            &&& never_starts(actions, job)
        }),
{
    let target = ActionView::Stop { stream_id: streams[running].stream_id };
    let parts = jobs_from(jobs, streams, 0, world);
    lemma_pass_goes_job_by_job(jobs, streams, world);
    assert(streams.contains(streams[running]));
    lemma_synced_stream_outlasts_jobs(jobs, streams, 0, world, job, streams[running]);
    lemma_occurrences_add(seq![ActionView::List], parts.actions, target);
    reveal_with_fuel(occurrences, 2);
    assert(seq![ActionView::List].drop_last() =~= Seq::<ActionView>::empty());
    let actions = pass_run(jobs, streams, world).actions;
    assert forall|at: int| 0 <= at < actions.len() implies (#[trigger] actions[at] matches ActionView::Start {
        job: started,
        ..
    } ==> started != job) by {
        if at > 0 {
            assert(actions[at] == parts.actions[at - 1]);
        }
    }
}

/// A failed call while a job is under way ends that job and no more: the
/// failure is reported for the job, and the pass goes on behind it.
pub proof fn lemma_job_failure_is_isolated(pass: PassView, stage: crate::block_stream::JobStage)
    requires
        pass.well_formed(),
        pass.phase == Phase::Job(stage),
    ensures
        ({
            let (next, step) = pass_step(pass, EventView::Failed);
            &&& step.failure == Some(
                FailedJob { job: pass.cursor, error: SyncError::CallFailed },
            )
            &&& !(step.action is Abort)
            &&& !(next.phase is Aborted)
            &&& next.cursor > pass.cursor
            &&& (next, step.action) == advance(pass.jobs, pass.active, pass.cursor + 1)
        }),
{
    crate::model::lemma_advance_moves_on(pass.jobs, pass.active, pass.cursor + 1);
}

/// A failed list, and a failed stop of a stream that no job took, end the
/// pass: nothing is issued after it.
pub proof fn lemma_fleet_failure_ends_the_pass(pass: PassView)
    requires
        pass.phase is Listing || pass.phase is Orphans,
    ensures
        ({
            let (next, step) = pass_step(pass, EventView::Failed);
            &&& step.action is Abort
            &&& next.phase is Aborted
            &&& forall|event: EventView| (#[trigger] pass_step(next, event)).1.action is Abort
        }),
{
}

/// The new version is recorded only in answer to a start that succeeded.
pub proof fn lemma_version_is_recorded_after_start(
    stage: crate::block_stream::JobStage,
    job: int,
    config: IndexerConfigView,
    event: EventView,
)
    ensures
        job_step(stage, job, config, event) matches JobStepView::Next(_, action) && action
            is SetStreamVersion ==> stage is Starting && event is Done,
{
}

} // verus!
