use vstd::prelude::*;
use crate::stats::{
    bytes_total, class_count, failures, law_counts_of_concat, law_status_classes_partition,
    responses, snapshot_of, wrap, Outcome, Snapshot,
};

verus! {

/// A call that changes the statistics of a run, in the order they were made.
pub ghost enum Call {
    Record { latency_us: u64, bytes: u64, status: u16 },
    RecordError,
    TakeSnapshot,
    Stop,
}

/// What the statistics stand for: the outcomes recorded, the length of that
/// history at the last snapshot, whether a stop was asked for, and every
/// snapshot handed out, oldest first.
pub ghost struct RunState {
    pub history: Seq<Outcome>,
    pub interval_start: int,
    pub stopped: bool,
    pub snapshots: Seq<Snapshot>,
}

/// Fresh statistics.
pub open spec fn initial_state() -> RunState {
    RunState {
        history: Seq::empty(),
        interval_start: 0,
        stopped: false,
        snapshots: Seq::empty(),
    }
}

/// What one call does.
pub open spec fn step(st: RunState, c: Call) -> RunState {
    match c {
        Call::Record { latency_us, bytes, status } => RunState {
            history: st.history.push(Outcome::Response { latency_us, bytes, status }),
            ..st
        },
        Call::RecordError => RunState { history: st.history.push(Outcome::Failure), ..st },
        Call::TakeSnapshot => RunState {
            interval_start: st.history.len() as int,
            snapshots: st.snapshots.push(snapshot_of(st.history, st.interval_start)),
            ..st
        },
        Call::Stop => RunState { stopped: true, ..st },
    }
}

/// The state that a sequence of calls leads to from fresh statistics.
pub open spec fn run(calls: Seq<Call>) -> RunState
    decreases calls.len(),
{
    if calls.len() == 0 {
        initial_state()
    } else {
        step(run(calls.drop_last()), calls.last())
    }
}

/// One more call is one more step.
pub proof fn lemma_run_push(calls: Seq<Call>, c: Call)
    ensures
        run(calls.push(c)) == step(run(calls), c),
{
    assert(calls.push(c).drop_last() =~= calls);
}

/// The statistics are stopped exactly when `stop` was among the calls made.
pub proof fn law_stopped_exactly_when_stop_called(calls: Seq<Call>)
    ensures
        run(calls).stopped <==> calls.contains(Call::Stop),
    decreases calls.len(),
{
    if calls.len() > 0 {
        let rest = calls.drop_last();
        law_stopped_exactly_when_stop_called(rest);
        assert(calls =~= rest.push(calls.last()));
        if rest.contains(Call::Stop) {
            let i = choose|i: int| 0 <= i < rest.len() && rest[i] == Call::Stop;
            assert(calls[i] == Call::Stop);
        }
        if calls.last() == Call::Stop {
            assert(calls[calls.len() - 1] == Call::Stop);
        }
        if calls.contains(Call::Stop) && calls.last() != Call::Stop {
            let i = choose|i: int| 0 <= i < calls.len() && calls[i] == Call::Stop;
            assert(rest[i] == Call::Stop);
        }
    }
}

/// Once stopped, the statistics stay stopped, whatever call comes next.
pub proof fn law_stop_is_permanent(calls: Seq<Call>, c: Call)
    ensures
        run(calls).stopped ==> run(calls.push(c)).stopped,
{
    lemma_run_push(calls, c);
}

/// A value below 2^64 is its own wrapped counter.
proof fn lemma_wrap_small(n: int)
    requires
        0 <= n <= u64::MAX,
    ensures
        wrap(n) == n,
{
    vstd::arithmetic::div_mod::lemma_small_mod(n as nat, 0x1_0000_0000_0000_0000nat);
}

/// A sum of one field over snapshots.
pub open spec fn sum_over(snaps: Seq<Snapshot>, field: spec_fn(Snapshot) -> u64) -> int
    decreases snaps.len(),
{
    if snaps.len() == 0 {
        0
    } else {
        sum_over(snaps.drop_last(), field) + field(snaps.last())
    }
}

/// For any additive count whose wrapped value over the current interval a
/// snapshot field reports, the field summed over all snapshots, plus the count
/// over the current interval, is the count over the whole history.
proof fn lemma_intervals_of_run(
    calls: Seq<Call>,
    count: spec_fn(Seq<Outcome>) -> nat,
    field: spec_fn(Snapshot) -> u64,
)
    requires
        forall|a: Seq<Outcome>, b: Seq<Outcome>| #[trigger] count(a + b) == count(a) + count(b),
        count(Seq::empty()) == 0,
        forall|h: Seq<Outcome>, s: int|
            0 <= s <= h.len() ==> #[trigger] field(snapshot_of(h, s)) == wrap(
                count(h.subrange(s, h.len() as int)) as int,
            ),
        count(run(calls).history) <= u64::MAX,
    ensures
        0 <= run(calls).interval_start <= run(calls).history.len(),
        sum_over(run(calls).snapshots, field) + count(
            run(calls).history.subrange(run(calls).interval_start, run(calls).history.len() as int),
        ) == count(run(calls).history),
    decreases calls.len(),
{
    if calls.len() == 0 {
        assert(run(calls).history.subrange(0, 0) =~= Seq::<Outcome>::empty());
    } else {
        let rest = calls.drop_last();
        let prev = run(rest);
        let st = run(calls);
        let h = prev.history;
        let start = prev.interval_start;
        match calls.last() {
            Call::Record { latency_us, bytes, status } => {
                let o = Outcome::Response { latency_us, bytes, status };
                assert(st.history =~= h + seq![o]);
                assert(count(h + seq![o]) == count(h) + count(seq![o]));
                lemma_intervals_of_run(rest, count, field);
                let recent = h.subrange(start, h.len() as int);
                assert(st.history.subrange(start, st.history.len() as int) =~= recent + seq![o]);
                assert(count(recent + seq![o]) == count(recent) + count(seq![o]));
            },
            Call::RecordError => {
                let o = Outcome::Failure;
                assert(st.history =~= h + seq![o]);
                assert(count(h + seq![o]) == count(h) + count(seq![o]));
                lemma_intervals_of_run(rest, count, field);
                let recent = h.subrange(start, h.len() as int);
                assert(st.history.subrange(start, st.history.len() as int) =~= recent + seq![o]);
                assert(count(recent + seq![o]) == count(recent) + count(seq![o]));
            },
            Call::TakeSnapshot => {
                lemma_intervals_of_run(rest, count, field);
                let recent = h.subrange(start, h.len() as int);
                assert(h.take(start) + recent =~= h);
                assert(count(h.take(start) + recent) == count(h.take(start)) + count(recent));
                lemma_wrap_small(count(recent) as int);
                assert(field(snapshot_of(h, start)) == count(recent));
                assert(st.snapshots.drop_last() =~= prev.snapshots);
                assert(st.history.subrange(h.len() as int, h.len() as int) =~= Seq::<Outcome>::empty());
            },
            Call::Stop => {
                lemma_intervals_of_run(rest, count, field);
            },
        }
    }
}

/// Every recorded outcome is counted in exactly one interval: the interval
/// counts of all snapshots handed out, plus what the current interval holds,
/// add up to the totals (as long as no total has wrapped around). In
/// particular, right after a snapshot, the interval counts of all snapshots
/// add up to that last snapshot's totals.
pub proof fn law_snapshots_add_up_to_totals(calls: Seq<Call>)
    requires
        responses(run(calls).history) <= u64::MAX,
        failures(run(calls).history) <= u64::MAX,
        bytes_total(run(calls).history) <= u64::MAX,
    ensures
        ({
            let st = run(calls);
            let recent = st.history.subrange(st.interval_start, st.history.len() as int);
            &&& sum_over(st.snapshots, |s: Snapshot| s.interval_reqs) + responses(recent)
                == responses(st.history)
            &&& sum_over(st.snapshots, |s: Snapshot| s.interval_errors) + failures(recent)
                == failures(st.history)
            &&& sum_over(st.snapshots, |s: Snapshot| s.interval_bytes) + bytes_total(recent)
                == bytes_total(st.history)
            &&& sum_over(st.snapshots, |s: Snapshot| s.interval_2xx) + class_count(recent, 2)
                == class_count(st.history, 2)
        }),
        calls.len() > 0 && calls.last() == Call::TakeSnapshot ==> {
            let snaps = run(calls).snapshots;
            &&& sum_over(snaps, |s: Snapshot| s.interval_reqs) == snaps.last().requests
            &&& sum_over(snaps, |s: Snapshot| s.interval_errors) == snaps.last().errors
            &&& sum_over(snaps, |s: Snapshot| s.interval_bytes) == snaps.last().bytes_recv
            &&& sum_over(snaps, |s: Snapshot| s.interval_2xx) == snaps.last().status_2xx
        },
{
    let st = run(calls);
    assert forall|a: Seq<Outcome>, b: Seq<Outcome>|
        #[trigger] responses(a + b) == responses(a) + responses(b) by {
        law_counts_of_concat(a, b);
    }
    assert forall|a: Seq<Outcome>, b: Seq<Outcome>|
        #[trigger] failures(a + b) == failures(a) + failures(b) by {
        law_counts_of_concat(a, b);
    }
    assert forall|a: Seq<Outcome>, b: Seq<Outcome>|
        #[trigger] bytes_total(a + b) == bytes_total(a) + bytes_total(b) by {
        law_counts_of_concat(a, b);
    }
    assert forall|a: Seq<Outcome>, b: Seq<Outcome>|
        #[trigger] class_count(a + b, 2) == class_count(a, 2) + class_count(b, 2) by {
        law_counts_of_concat(a, b);
    }
    law_status_classes_partition(st.history);
    lemma_intervals_of_run(calls, |s: Seq<Outcome>| responses(s), |s: Snapshot| s.interval_reqs);
    lemma_intervals_of_run(calls, |s: Seq<Outcome>| failures(s), |s: Snapshot| s.interval_errors);
    lemma_intervals_of_run(calls, |s: Seq<Outcome>| bytes_total(s), |s: Snapshot| s.interval_bytes);
    lemma_intervals_of_run(
        calls,
        |s: Seq<Outcome>| class_count(s, 2),
        |s: Snapshot| s.interval_2xx,
    );
    if calls.len() > 0 && calls.last() == Call::TakeSnapshot {
        let prev = run(calls.drop_last());
        let h = st.history;
        assert(h == prev.history);
        assert(h.subrange(h.len() as int, h.len() as int) =~= Seq::<Outcome>::empty());
        lemma_wrap_small(responses(h) as int);
        lemma_wrap_small(failures(h) as int);
        lemma_wrap_small(bytes_total(h) as int);
        lemma_wrap_small(class_count(h, 2) as int);
    }
}

} // verus!
