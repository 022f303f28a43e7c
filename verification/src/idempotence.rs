//! A second pass right after a first one finds nothing to do.

use vstd::prelude::*;
use crate::config::{IndexerConfigView, JobKey, StreamInfoView};
use crate::job_laws::{in_sync, job_starts, lemma_job_calls};
use crate::matching::{
    distinct_ids, distinct_keys, has_match, lemma_no_match, lemma_unmatched, matched, unmatched,
};
use crate::model::{pass_run, sync_job, World};
use crate::pass_laws::{jobs_from, lemma_pass_goes_job_by_job, orphan_stops};
use crate::protocol::ActionView;
use crate::status::{start_height, stream_status};

verus! {

/// No two declared jobs have one key.
pub open spec fn distinct_jobs(jobs: Seq<IndexerConfigView>) -> bool {
    forall|one: int, other: int|
        0 <= one < other < jobs.len() ==> (#[trigger] jobs[one]).key() != (#[trigger] jobs[other]).key()
}

/// The list names every stream of the fleet, each once.
pub open spec fn lists(streams: Seq<StreamInfoView>, fleet: Set<StreamInfoView>) -> bool {
    &&& streams.no_duplicates()
    &&& forall|stream: StreamInfoView| #[trigger] streams.contains(stream) <==> fleet.contains(stream)
}

/// The stream runs the job under the registry's version.
pub open spec fn serves(config: IndexerConfigView, stream: StreamInfoView) -> bool {
    config.key() == stream.key() && stream.version == config.registry_version()
}

/// The stream runs one of the jobs from `from` up to `upto`, under the
/// registry's version.
pub open spec fn good(jobs: Seq<IndexerConfigView>, from: int, upto: int, stream: StreamInfoView) -> bool {
    exists|job: int| from <= job < upto && #[trigger] serves(jobs[job], stream)
}

/// The job cannot be started: it has to resume and published no block.
pub open spec fn blocked(config: IndexerConfigView, world: World) -> bool {
    start_height(
        stream_status(config.registry_version(), world.version(config.key())),
        config,
        world.last_published(config.key()),
    ) is Err
}

/// No other stream of the fleet runs the job that `stream` runs.
pub open spec fn sole(world: World, stream: StreamInfoView) -> bool {
    forall|other: StreamInfoView| #[trigger]
        world.streams.contains(other) && other.key() == stream.key() ==> other == stream
}

/// The fleet gives a stream that it starts for one of the jobs from `from`
/// on an identifier that no running stream has, unless that stream is the
/// only one that runs the job; and to the streams of two jobs it gives two
/// identifiers.
pub open spec fn fresh_ids(jobs: Seq<IndexerConfigView>, world: World, from: int) -> bool {
    &&& forall|stream: StreamInfoView, job: int| #[trigger]
        world.streams.contains(stream) && from <= job < jobs.len() && stream.stream_id == (
        world.stream_ids)(#[trigger] jobs[job].key()) ==> stream.key() == jobs[job].key() && sole(
            world,
            stream,
        )
    &&& forall|one: int, other: int|
        0 <= one < other < jobs.len() ==> (world.stream_ids)((#[trigger] jobs[one]).key()) != (
        world.stream_ids)((#[trigger] jobs[other]).key())
}

/// No two streams of the fleet share an identifier.
pub open spec fn identified(world: World) -> bool {
    forall|one: StreamInfoView, other: StreamInfoView| #[trigger]
        world.streams.contains(one) && #[trigger] world.streams.contains(other) && one.stream_id
            == other.stream_id ==> one == other
}

/// A stream that no job is still to take runs the job at position `job`
/// under the registry's version.
pub open spec fn kept(
    jobs: Seq<IndexerConfigView>,
    active: Seq<StreamInfoView>,
    world: World,
    job: int,
) -> bool {
    exists|stream: StreamInfoView| #[trigger]
        world.streams.contains(stream) && !active.contains(stream) && serves(jobs[job], stream)
}

/// Nothing is left to do from the job at `cursor` on: every stream of the
/// list runs one of those jobs under the registry's version, and every one
/// of those jobs that has no stream cannot be started.
pub open spec fn settled(
    jobs: Seq<IndexerConfigView>,
    active: Seq<StreamInfoView>,
    cursor: int,
    world: World,
) -> bool {
    &&& distinct_keys(active)
    &&& forall|at: int|
        0 <= at < active.len() ==> good(jobs, cursor, jobs.len() as int, #[trigger] active[at])
    &&& forall|job: int|
        cursor <= job < jobs.len() && !has_match(active, (#[trigger] jobs[job]).key()) ==> blocked(
            jobs[job],
            world,
        )
}

/// Whether no action of the list starts or stops a stream.
pub open spec fn quiet(actions: Seq<ActionView>) -> bool {
    forall|at: int| 0 <= at < actions.len() ==> !(#[trigger] actions[at]).touches_fleet()
}

/// From a settled state the rest of a pass starts and stops nothing, and
/// leaves the fleet and the store as they are.
pub proof fn lemma_settled_pass_is_quiet(
    jobs: Seq<IndexerConfigView>,
    active: Seq<StreamInfoView>,
    cursor: int,
    world: World,
)
    requires
        0 <= cursor <= jobs.len(),
        distinct_jobs(jobs),
        settled(jobs, active, cursor, world),
    ensures
        quiet(jobs_from(jobs, active, cursor, world).actions),
        jobs_from(jobs, active, cursor, world).world == world,
    decreases jobs.len() - cursor,
{
    if cursor < jobs.len() {
        let key = jobs[cursor].key();
        let taken = matched(active, key);
        let rest = unmatched(active, key);
        let one = sync_job(jobs, cursor, taken, world);
        lemma_unmatched(active, |stream: StreamInfoView| stream.key(), key);
        lemma_job_calls(jobs, cursor, taken, world);
        lemma_no_match(active, key);
        match taken {
            Some(stream) => {
                let at = choose|at: int| 0 <= at < active.len() && active[at] == stream;
                assert(good(jobs, cursor, jobs.len() as int, active[at]));
                let job = choose|job: int|
                    cursor <= job < jobs.len() && #[trigger] serves(jobs[job], active[at]);
                assert(job == cursor) by {
                    if cursor < job {
                        assert(jobs[cursor].key() != jobs[job].key());
                    }
                }
                assert(in_sync(jobs[cursor], taken));
            },
            None => {
                assert(blocked(jobs[cursor], world));
                assert(!job_starts(jobs, cursor, taken, world));
                assert(one.world == world);
            },
        }
        assert(one.world == world);
        assert(quiet(one.actions));
        assert(settled(jobs, rest, cursor + 1, world)) by {
            assert forall|at: int| 0 <= at < rest.len() implies good(
                jobs,
                cursor + 1,
                jobs.len() as int,
                #[trigger] rest[at],
            ) by {
                assert(rest.contains(rest[at]));
                let from = choose|from: int| 0 <= from < active.len() && active[from] == rest[at];
                assert(good(jobs, cursor, jobs.len() as int, active[from]));
                let job = choose|job: int|
                    cursor <= job < jobs.len() && #[trigger] serves(jobs[job], active[from]);
                if job == cursor {
                        if taken is Some {
                        let place = choose|place: int|
                            0 <= place < active.len() && active[place] == taken->0;
                        if place < from {
                            assert(active[place].key() != active[from].key());
                        }
                        if from < place {
                            assert(active[from].key() != active[place].key());
                        }
                    }
                }
                assert(serves(jobs[job], rest[at]));
            }
            assert forall|job: int|
                cursor + 1 <= job < jobs.len() && !has_match(rest, (#[trigger] jobs[job]).key()) implies blocked(
                jobs[job],
                world,
            ) by {
                lemma_no_match(rest, jobs[job].key());
                lemma_no_match(active, jobs[job].key());
                assert(jobs[cursor].key() != jobs[job].key());
                if has_match(active, jobs[job].key()) {
                    let at = choose|at: int|
                        0 <= at < active.len() && (#[trigger] active[at]).key() == jobs[job].key();
                    assert(active.contains(active[at]));
                    assert(rest.contains(active[at]));
                    let to = choose|to: int| 0 <= to < rest.len() && rest[to] == active[at];
                    assert(rest[to].key() == jobs[job].key());
                }
            }
        }
        lemma_settled_pass_is_quiet(jobs, rest, cursor + 1, world);
    } else {
        if active.len() > 0 {
            assert(good(jobs, cursor, jobs.len() as int, active[0]));
        }
    }
}

/// What holds between the jobs of a first pass: the streams that no job
/// took yet still run; every other running stream runs one of the jobs
/// that are through, under the registry's version, and no two of them run
/// one job; and every job that is through has such a stream or cannot be
/// started.
pub open spec fn tidy(
    jobs: Seq<IndexerConfigView>,
    active: Seq<StreamInfoView>,
    cursor: int,
    world: World,
) -> bool {
    &&& distinct_ids(active)
    &&& identified(world)
    &&& fresh_ids(jobs, world, cursor)
    &&& forall|at: int| 0 <= at < active.len() ==> world.streams.contains(#[trigger] active[at])
    &&& forall|stream: StreamInfoView| #[trigger]
        world.streams.contains(stream) ==> active.contains(stream) || good(jobs, 0, cursor, stream)
    &&& forall|one: StreamInfoView, other: StreamInfoView| #[trigger]
        world.streams.contains(one) && #[trigger] world.streams.contains(other) && !active.contains(
            one,
        ) && !active.contains(other) && one.key() == other.key() ==> one == other
    &&& forall|job: int|
        0 <= job < cursor ==> blocked(#[trigger] jobs[job], world) || kept(jobs, active, world, job)
}

proof fn lemma_job_keeps_tidy(
    jobs: Seq<IndexerConfigView>,
    active: Seq<StreamInfoView>,
    cursor: int,
    world: World,
)
    requires
        0 <= cursor < jobs.len(),
        distinct_jobs(jobs),
        tidy(jobs, active, cursor, world),
    ensures
        tidy(
            jobs,
            unmatched(active, jobs[cursor].key()),
            cursor + 1,
            sync_job(jobs, cursor, matched(active, jobs[cursor].key()), world).world,
        ),
{
    let config = jobs[cursor];
    let key = config.key();
    let taken = matched(active, key);
    let rest = unmatched(active, key);
    let after = sync_job(jobs, cursor, taken, world).world;
    let started = world.started(config);
    let starts = job_starts(jobs, cursor, taken, world);
    let stale = taken is Some && !in_sync(config, taken);
    lemma_unmatched(active, |stream: StreamInfoView| stream.stream_id, key);
    lemma_job_calls(jobs, cursor, taken, world);
    lemma_no_match(active, key);
    assert(serves(config, started));
    if taken is Some {
        assert(world.streams.contains(taken->0));
    }
    // What runs afterwards: what ran, less the stopped stream, and the started one.
    assert forall|stream: StreamInfoView| #[trigger]
        after.streams.contains(stream) <==> (world.streams.contains(stream) && !(stale && Some(
            stream,
        ) == taken)) || (starts && stream == started) by {}
    // A stream that has the identifier of the one to start ran the job alone, and was stopped.
    assert forall|stream: StreamInfoView|
        starts && #[trigger] world.streams.contains(stream) && stream.stream_id
            == started.stream_id implies Some(stream) == taken by {
        assert(stream.key() == key && sole(world, stream));
        if active.contains(stream) {
            let at = choose|at: int| 0 <= at < active.len() && active[at] == stream;
            assert(active[at].key() == key);
        } else {
            let job = choose|job: int| 0 <= job < cursor && #[trigger] serves(jobs[job], stream);
            assert(jobs[job].key() != jobs[cursor].key());
        }
    }
    // The streams that no job is still to take: those of before, and the job's own.
    assert forall|stream: StreamInfoView|
        #[trigger] after.streams.contains(stream) && !rest.contains(stream) implies (
        world.streams.contains(stream) && !active.contains(stream)) || serves(config, stream) by {}
    assert(identified(after));
    assert(fresh_ids(jobs, after, cursor + 1)) by {
        assert forall|stream: StreamInfoView, job: int| #[trigger]
            after.streams.contains(stream) && cursor + 1 <= job < jobs.len() && stream.stream_id == (
            after.stream_ids)(#[trigger] jobs[job].key()) implies stream.key() == jobs[job].key() && sole(
            after,
            stream,
        ) by {
            assert((world.stream_ids)(jobs[cursor].key()) != (world.stream_ids)(jobs[job].key()));
            assert(world.streams.contains(stream));
            assert(sole(world, stream));
            assert(jobs[cursor].key() != jobs[job].key());
        }
    }
    assert forall|at: int| 0 <= at < rest.len() implies after.streams.contains(
        #[trigger] rest[at],
    ) by {
        assert(rest.contains(rest[at]));
        let from = choose|from: int| 0 <= from < active.len() && active[from] == rest[at];
        assert(world.streams.contains(active[from]));
    }
    assert forall|stream: StreamInfoView| #[trigger] after.streams.contains(stream) implies rest.contains(
        stream,
    ) || good(jobs, 0, cursor + 1, stream) by {
        if !rest.contains(stream) {
            if serves(config, stream) {
                assert(serves(jobs[cursor], stream));
            } else {
                let job = choose|job: int| 0 <= job < cursor && #[trigger] serves(jobs[job], stream);
                assert(serves(jobs[job], stream));
            }
        }
    }
    assert forall|one: StreamInfoView, other: StreamInfoView| #[trigger]
        after.streams.contains(one) && #[trigger] after.streams.contains(other) && !rest.contains(
            one,
        ) && !rest.contains(other) && one.key() == other.key() implies one == other by {
        if serves(config, one) || serves(config, other) {
            if !serves(config, one) {
                let job = choose|job: int| 0 <= job < cursor && #[trigger] serves(jobs[job], one);
                assert(jobs[job].key() != jobs[cursor].key());
            }
            if !serves(config, other) {
                let job = choose|job: int| 0 <= job < cursor && #[trigger] serves(jobs[job], other);
                assert(jobs[job].key() != jobs[cursor].key());
            }
            // Both run the job itself: each is the started stream or the one in sync.
            if world.streams.contains(one) && !active.contains(one) {
                let job = choose|job: int| 0 <= job < cursor && #[trigger] serves(jobs[job], one);
                assert(jobs[job].key() != jobs[cursor].key());
            }
            if world.streams.contains(other) && !active.contains(other) {
                let job = choose|job: int| 0 <= job < cursor && #[trigger] serves(jobs[job], other);
                assert(jobs[job].key() != jobs[cursor].key());
            }
        }
    }
    assert forall|job: int| 0 <= job < cursor + 1 implies blocked(#[trigger] jobs[job], after) || kept(
        jobs,
        rest,
        after,
        job,
    ) by {
        if job < cursor {
            assert(jobs[job].key() != jobs[cursor].key());
            if !blocked(jobs[job], world) {
                let stream = choose|stream: StreamInfoView| #[trigger]
                    world.streams.contains(stream) && !active.contains(stream) && serves(
                        jobs[job],
                        stream,
                    );
                assert(after.streams.contains(stream) && !rest.contains(stream));
            }
        } else if starts {
            assert(after.streams.contains(started) && !rest.contains(started));
        } else if in_sync(config, taken) {
            assert(after.streams.contains(taken->0) && !rest.contains(taken->0));
        }
    }
}

proof fn lemma_orphans_keep_tidy(jobs: Seq<IndexerConfigView>, active: Seq<StreamInfoView>, world: World)
    requires
        tidy(jobs, active, jobs.len() as int, world),
    ensures
        tidy(jobs, Seq::empty(), jobs.len() as int, orphan_stops(jobs, active, world).world),
    decreases active.len(),
{
    let upto = jobs.len() as int;
    if active.len() == 0 {
        assert(active =~= Seq::empty());
    } else {
        let gone = active[0];
        let rest = active.drop_first();
        let after = world.after(jobs, ActionView::Stop { stream_id: gone.stream_id });
        assert(world.streams.contains(gone));
        assert(active.contains(gone));
        assert forall|stream: StreamInfoView| #[trigger]
            after.streams.contains(stream) <==> world.streams.contains(stream) && stream != gone by {}
        assert forall|stream: StreamInfoView| #[trigger]
            rest.contains(stream) <==> active.contains(stream) && stream != gone by {
            if rest.contains(stream) {
                let at = choose|at: int| 0 <= at < rest.len() && rest[at] == stream;
                assert(active[at + 1] == stream);
                assert(active[0].stream_id != active[at + 1].stream_id);
            }
            if active.contains(stream) && stream != gone {
                let at = choose|at: int| 0 <= at < active.len() && active[at] == stream;
                assert(rest[at - 1] == stream);
            }
        }
        assert(tidy(jobs, rest, upto, after)) by {
            assert(distinct_ids(rest)) by {
                assert forall|one: int, other: int| 0 <= one < other < rest.len() implies (
                #[trigger] rest[one]).stream_id != (#[trigger] rest[other]).stream_id by {
                    assert(active[one + 1].stream_id != active[other + 1].stream_id);
                }
            }
            assert(fresh_ids(jobs, after, upto));
            assert forall|at: int| 0 <= at < rest.len() implies after.streams.contains(
                #[trigger] rest[at],
            ) by {
                assert(rest.contains(rest[at]));
            }
            assert forall|job: int| 0 <= job < upto implies blocked(#[trigger] jobs[job], after) || kept(
                jobs,
                rest,
                after,
                job,
            ) by {
                if !blocked(jobs[job], world) {
                    let stream = choose|stream: StreamInfoView| #[trigger]
                        world.streams.contains(stream) && !active.contains(stream) && serves(
                            jobs[job],
                            stream,
                        );
                    assert(after.streams.contains(stream) && !rest.contains(stream));
                }
            }
        }
        lemma_orphans_keep_tidy(jobs, rest, after);
    }
}

proof fn lemma_first_pass_tidies(
    jobs: Seq<IndexerConfigView>,
    active: Seq<StreamInfoView>,
    cursor: int,
    world: World,
)
    requires
        0 <= cursor <= jobs.len(),
        distinct_jobs(jobs),
        tidy(jobs, active, cursor, world),
    ensures
        tidy(jobs, Seq::empty(), jobs.len() as int, jobs_from(jobs, active, cursor, world).world),
    decreases jobs.len() - cursor,
{
    if cursor < jobs.len() {
        let key = jobs[cursor].key();
        lemma_job_keeps_tidy(jobs, active, cursor, world);
        lemma_first_pass_tidies(
            jobs,
            unmatched(active, key),
            cursor + 1,
            sync_job(jobs, cursor, matched(active, key), world).world,
        );
    } else {
        lemma_orphans_keep_tidy(jobs, active, world);
    }
}

/// A pass that follows a pass starts and stops nothing, and leaves the
/// fleet and the store as it found them, whatever the order in which the
/// fleet lists what the first pass left.
///
/// It holds for a registry that declares no job twice, and for a fleet in
/// which no two streams share an identifier, and which gives a stream that
/// it starts an identifier of its own.
pub proof fn lemma_second_pass_is_quiet(
    jobs: Seq<IndexerConfigView>,
    streams: Seq<StreamInfoView>,
    world: World,
    listed_again: Seq<StreamInfoView>,
)
    requires
        distinct_jobs(jobs),
        lists(streams, world.streams),
        identified(world),
        fresh_ids(jobs, world, 0),
        lists(listed_again, pass_run(jobs, streams, world).world.streams),
    ensures
        ({
            let first = pass_run(jobs, streams, world);
            let second = pass_run(jobs, listed_again, first.world);
            &&& quiet(second.actions)
            &&& second.world == first.world
        }),
{
    let first = pass_run(jobs, streams, world);
    let upto = jobs.len() as int;
    lemma_pass_goes_job_by_job(jobs, streams, world);
    lemma_pass_goes_job_by_job(jobs, listed_again, first.world);
    assert(tidy(jobs, streams, 0, world)) by {
        assert forall|one: int, other: int| 0 <= one < other < streams.len() implies (
        #[trigger] streams[one]).stream_id != (#[trigger] streams[other]).stream_id by {
            assert(streams.contains(streams[one]));
            assert(streams.contains(streams[other]));
            assert(streams[one] != streams[other]);
        }
        assert forall|at: int| 0 <= at < streams.len() implies world.streams.contains(
            #[trigger] streams[at],
        ) by {
            assert(streams.contains(streams[at]));
        }
    }
    lemma_first_pass_tidies(jobs, streams, 0, world);
    assert(settled(jobs, listed_again, 0, first.world)) by {
        assert forall|at: int| 0 <= at < listed_again.len() implies good(
            jobs,
            0,
            upto,
            #[trigger] listed_again[at],
        ) by {
            assert(listed_again.contains(listed_again[at]));
            assert(first.world.streams.contains(listed_again[at]));
            assert(!Seq::<StreamInfoView>::empty().contains(listed_again[at]));
        }
        assert forall|one: int, other: int| 0 <= one < other < listed_again.len() implies (
        #[trigger] listed_again[one]).key() != (#[trigger] listed_again[other]).key() by {
            assert(listed_again.contains(listed_again[one]));
            assert(listed_again.contains(listed_again[other]));
            assert(listed_again[one] != listed_again[other]);
        }
        assert forall|job: int|
            0 <= job < upto && !has_match(listed_again, (#[trigger] jobs[job]).key()) implies blocked(
            jobs[job],
            first.world,
        ) by {
            lemma_no_match(listed_again, jobs[job].key());
            if kept(jobs, Seq::empty(), first.world, job) {
                let stream = choose|stream: StreamInfoView| #[trigger]
                    first.world.streams.contains(stream) && !Seq::<StreamInfoView>::empty().contains(
                        stream,
                    ) && serves(jobs[job], stream);
                assert(listed_again.contains(stream));
                let at = choose|at: int| 0 <= at < listed_again.len() && listed_again[at] == stream;
                assert(listed_again[at].key() == jobs[job].key());
            }
        }
    }
    lemma_settled_pass_is_quiet(jobs, listed_again, 0, first.world);
    let second = pass_run(jobs, listed_again, first.world);
    let parts = jobs_from(jobs, listed_again, 0, first.world);
    assert forall|at: int| 0 <= at < second.actions.len() implies !(#[trigger] second.actions[at]).touches_fleet() by {
        if at > 0 {
            assert(second.actions[at] == parts.actions[at - 1]);
        }
    }
}

} // verus!
