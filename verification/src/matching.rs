//! Pairing a declared job with the stream that runs it.

use vstd::prelude::*;
use crate::config::{IndexerConfig, JobKey, StreamInfo, StreamInfoView};
use crate::protocol::{stream_view, streams_view};

verus! {

/// `index` is the place of the first stream in `active` that runs the job `key`.
pub open spec fn is_first_match(active: Seq<StreamInfoView>, key: JobKey, index: int) -> bool {
    &&& 0 <= index < active.len()
    &&& active[index].key() == key
    &&& forall|before: int| 0 <= before < index ==> (#[trigger] active[before]).key() != key
}

/// Some stream in `active` runs the job `key`.
pub open spec fn has_match(active: Seq<StreamInfoView>, key: JobKey) -> bool {
    exists|index: int| is_first_match(active, key, index)
}

/// The place of the first stream that runs the job `key`, where there is one.
pub open spec fn first_match(active: Seq<StreamInfoView>, key: JobKey) -> int {
    choose|index: int| is_first_match(active, key, index)
}

/// The list without the stream at `index`: the last stream takes its place.
pub open spec fn without(active: Seq<StreamInfoView>, index: int) -> Seq<StreamInfoView> {
    active.update(index, active.last()).drop_last()
}

/// The first stream that runs the job `key`, where there is one.
pub open spec fn matched(active: Seq<StreamInfoView>, key: JobKey) -> Option<StreamInfoView> {
    if has_match(active, key) {
        Some(active[first_match(active, key)])
    } else {
        None
    }
}

/// The streams that are left once the job `key` took its own.
pub open spec fn unmatched(active: Seq<StreamInfoView>, key: JobKey) -> Seq<StreamInfoView> {
    if has_match(active, key) {
        without(active, first_match(active, key))
    } else {
        active
    }
}

/// No stream runs the job exactly where none has its key.
pub proof fn lemma_no_match(active: Seq<StreamInfoView>, key: JobKey)
    ensures
        !has_match(active, key) <==> forall|index: int|
            0 <= index < active.len() ==> (#[trigger] active[index]).key() != key,
{
    if exists|index: int| 0 <= index < active.len() && (#[trigger] active[index]).key() == key {
        lemma_least_match(active, key, active.len() as int);
    }
}

/// Among the first `bound` streams, one with the key gives a first one.
proof fn lemma_least_match(active: Seq<StreamInfoView>, key: JobKey, bound: int)
    requires
        0 <= bound <= active.len(),
        exists|index: int| 0 <= index < bound && (#[trigger] active[index]).key() == key,
    ensures
        has_match(active, key),
    decreases bound,
{
    if exists|index: int| 0 <= index < bound - 1 && (#[trigger] active[index]).key() == key {
        lemma_least_match(active, key, bound - 1);
    } else {
        assert(is_first_match(active, key, bound - 1));
    }
}

/// The first match is the only place that qualifies.
pub proof fn lemma_first_match_unique(active: Seq<StreamInfoView>, key: JobKey, index: int)
    requires
        is_first_match(active, key, index),
    ensures
        has_match(active, key),
        first_match(active, key) == index,
{
    let chosen = first_match(active, key);
    assert(is_first_match(active, key, chosen));
    if chosen < index {
        assert(active[chosen].key() != key);
    }
    if index < chosen {
        assert(active[index].key() != key);
    }
}

/// No two streams of the list agree in what `of` reads off them.
pub open spec fn distinct<K>(active: Seq<StreamInfoView>, of: spec_fn(StreamInfoView) -> K) -> bool {
    forall|one: int, other: int|
        0 <= one < other < active.len() ==> of(#[trigger] active[one]) != of(#[trigger] active[other])
}

/// No two streams of the list have one identifier.
pub open spec fn distinct_ids(active: Seq<StreamInfoView>) -> bool {
    distinct(active, |stream: StreamInfoView| stream.stream_id)
}

/// No two streams of the list run one job.
pub open spec fn distinct_keys(active: Seq<StreamInfoView>) -> bool {
    distinct(active, |stream: StreamInfoView| stream.key())
}

/// Taking a stream out of a list of distinct streams leaves the others,
/// all of them and no more, and they stay distinct.
pub proof fn lemma_without<K>(active: Seq<StreamInfoView>, of: spec_fn(StreamInfoView) -> K, index: int)
    requires
        distinct(active, of),
        0 <= index < active.len(),
    ensures
        distinct(without(active, index), of),
        without(active, index).len() == active.len() - 1,
        forall|stream: StreamInfoView| #[trigger]
            without(active, index).contains(stream) <==> active.contains(stream) && of(stream)
                != of(active[index]),
{
    let rest = without(active, index);
    let last = active.len() - 1;
    assert forall|stream: StreamInfoView| #[trigger]
        rest.contains(stream) <==> active.contains(stream) && of(stream) != of(
            active[index],
        ) by {
        if rest.contains(stream) {
            let at = choose|at: int| 0 <= at < rest.len() && rest[at] == stream;
            if at == index {
                assert(active[last] == stream);
            } else {
                assert(active[at] == stream);
            }
        }
        if active.contains(stream) && of(stream) != of(active[index]) {
            let at = choose|at: int| 0 <= at < active.len() && active[at] == stream;
            if at == last {
                assert(rest[index] == stream);
            } else {
                assert(rest[at] == stream);
            }
        }
    }
    assert forall|one: int, other: int| 0 <= one < other < rest.len() implies of(
        #[trigger] rest[one],
    ) != of(#[trigger] rest[other]) by {
        let from_one = if one == index { last } else { one };
        let from_other = if other == index { last } else { other };
        assert(rest[one] == active[from_one]);
        assert(rest[other] == active[from_other]);
        if from_one < from_other {
            assert(of(active[from_one]) != of(active[from_other]));
        } else {
            assert(of(active[from_other]) != of(active[from_one]));
        }
    }
}

/// What a job leaves of a list of distinct streams: every stream but the
/// one it took.
pub proof fn lemma_unmatched<K>(active: Seq<StreamInfoView>, of: spec_fn(StreamInfoView) -> K, key: JobKey)
    requires
        distinct(active, of),
    ensures
        distinct(unmatched(active, key), of),
        forall|stream: StreamInfoView| #[trigger]
            unmatched(active, key).contains(stream) <==> active.contains(stream) && Some(stream)
                != matched(active, key),
        matched(active, key) matches Some(stream) ==> active.contains(stream) && stream.key()
            == key,
        matched(active, key) is None ==> forall|stream: StreamInfoView| #[trigger]
            active.contains(stream) ==> stream.key() != key,
{
    if has_match(active, key) {
        let index = first_match(active, key);
        lemma_without(active, of, index);
        assert(active.contains(active[index]));
        assert forall|stream: StreamInfoView| #[trigger]
            active.contains(stream) implies (of(stream) != of(active[index]) <==> stream
            != active[index]) by {
            let at = choose|at: int| 0 <= at < active.len() && active[at] == stream;
            if at < index {
                assert(of(active[at]) != of(active[index]));
            }
            if index < at {
                assert(of(active[index]) != of(active[at]));
            }
        }
    } else {
        lemma_no_match(active, key);
    }
}

/// Whether the stream runs the job.
fn runs(stream: &StreamInfo, config: &IndexerConfig) -> (same: bool)
    ensures
        same == (stream@.key() == config@.key()),
{
    stream.account_id == config.account_id && stream.function_name == config.function_name
}

/// Takes the first stream that runs the job out of the working list; the
/// last stream of the list moves into its place.
pub fn take_block_stream(active: &mut Vec<StreamInfo>, config: &IndexerConfig) -> (taken: Option<
    StreamInfo,
>)
    ensures
        stream_view(taken) == matched(streams_view(old(active)@), config@.key()),
        streams_view(final(active)@) == unmatched(streams_view(old(active)@), config@.key()),
        taken is Some <==> has_match(streams_view(old(active)@), config@.key()),
{
    let ghost before = streams_view(active@);
    let ghost key = config@.key();
    let mut index: usize = 0;
    while index < active.len()
        invariant
            index <= active.len(),
            streams_view(active@) == before,
            before == streams_view(old(active)@),
            key == config@.key(),
            forall|earlier: int| 0 <= earlier < index ==> (#[trigger] before[earlier]).key() != key,
        decreases active.len() - index,
    {
        if runs(&active[index], config) {
            proof {
                assert(before[index as int] == active@[index as int]@);
                lemma_first_match_unique(before, key, index as int);
            }
            let stream = active.swap_remove(index);
            assert(streams_view(active@) =~= without(before, index as int));
            return Some(stream);
        }
        assert(before[index as int] == active@[index as int]@);
        index += 1;
    }
    proof {
        lemma_no_match(before, key);
    }
    None
}

} // verus!
