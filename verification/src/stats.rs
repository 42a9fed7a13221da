use vstd::prelude::*;
use vstd::multiset::Multiset;
use crate::calls::{law_stopped_exactly_when_stop_called, lemma_run_push, run, Call};
use crate::histogram::{
    bucket_floor, bucket_samples, bucket_top, histogram_layout, histogram_max, new_histogram,
    record_value, recorded_buckets, recorded_values, LatencyHistogram,
};

verus! {

/// One finished attempt of a worker: a response with its latency, body size
/// and status code, or a request that failed before any response came back.
pub enum Outcome {
    Response { latency_us: u64, bytes: u64, status: u16 },
    Failure,
}

/// The class of a status code: 2 for 200..=299, 3 for 300..=399, 4 for
/// 400..=499, 5 for 500..=599, and 0 for any other code.
pub open spec fn status_class(status: u16) -> int {
    if 200 <= status <= 299 {
        2
    } else if 300 <= status <= 399 {
        3
    } else if 400 <= status <= 499 {
        4
    } else if 500 <= status <= 599 {
        5
    } else {
        0
    }
}

/// The number of responses among the outcomes.
pub open spec fn responses(h: Seq<Outcome>) -> nat
    decreases h.len(),
{
    if h.len() == 0 {
        0
    } else {
        responses(h.drop_last()) + if h.last() is Response { 1nat } else { 0nat }
    }
}

/// The number of failed requests among the outcomes.
pub open spec fn failures(h: Seq<Outcome>) -> nat
    decreases h.len(),
{
    if h.len() == 0 {
        0
    } else {
        failures(h.drop_last()) + if h.last() is Failure { 1nat } else { 0nat }
    }
}

/// The number of responses whose status code is of the given class.
pub open spec fn class_count(h: Seq<Outcome>, class: int) -> nat
    decreases h.len(),
{
    if h.len() == 0 {
        0
    } else {
        class_count(h.drop_last(), class) + match h.last() {
            Outcome::Response { status, .. } => if status_class(status) == class {
                1nat
            } else {
                0nat
            },
            Outcome::Failure => 0nat,
        }
    }
}

/// The total size of the response bodies.
pub open spec fn bytes_total(h: Seq<Outcome>) -> nat
    decreases h.len(),
{
    if h.len() == 0 {
        0
    } else {
        bytes_total(h.drop_last()) + match h.last() {
            Outcome::Response { bytes, .. } => bytes as nat,
            Outcome::Failure => 0nat,
        }
    }
}

/// The latency that the histogram takes for a response: at least one microsecond.
pub open spec fn sample_of(latency_us: u64) -> u64 {
    if latency_us < 1 { 1 } else { latency_us }
}

/// The latencies of the responses as the histogram holds them: each sample
/// by the lowest value of its bucket.
pub open spec fn latencies(h: Seq<Outcome>) -> Multiset<u64>
    decreases h.len(),
{
    if h.len() == 0 {
        Multiset::empty()
    } else {
        match h.last() {
            Outcome::Response { latency_us, .. } => latencies(h.drop_last()).insert(
                bucket_floor(sample_of(latency_us)),
            ),
            Outcome::Failure => latencies(h.drop_last()),
        }
    }
}

/// The largest sample among the responses, 0 when there is none.
pub open spec fn max_latency(h: Seq<Outcome>) -> u64
    decreases h.len(),
{
    if h.len() == 0 {
        0
    } else {
        let rest = max_latency(h.drop_last());
        match h.last() {
            Outcome::Response { latency_us, .. } => if sample_of(latency_us) > rest {
                sample_of(latency_us)
            } else {
                rest
            },
            Outcome::Failure => rest,
        }
    }
}

/// A counter of 64 bits that wraps around on overflow, as the totals do.
pub open spec fn wrap(n: int) -> u64 {
    (n % 0x1_0000_0000_0000_0000) as u64
}

/// Adding to a wrapped counter with `wrapping_add` wraps the exact sum.
pub proof fn lemma_wrap_add(n: int, b: u64)
    requires
        n >= 0,
    ensures
        vstd::wrapping::u64_specs::wrapping_add(wrap(n), b) == wrap(n + b),
{
    let m: int = 0x1_0000_0000_0000_0000;
    let x = n % m;
    assert(0 <= x < m);
    assert(n == (n / m) * m + x) by {
        vstd::arithmetic::div_mod::lemma_fundamental_div_mod(n, m);
    }
    if x + b < m {
        assert((n + b) % m == x + b) by {
            vstd::arithmetic::div_mod::lemma_fundamental_div_mod_converse(n + b, m, n / m, x + b);
        }
    } else {
        assert((n + b) % m == x + b - m) by {
            vstd::arithmetic::div_mod::lemma_fundamental_div_mod_converse(n + b, m, n / m + 1, x + b - m);
        }
    }
}

/// Status codes from 200 to 599 are classed by their hundreds digit; every
/// other code falls in no counted class.
pub proof fn law_status_class_is_hundreds_digit(status: u16)
    ensures
        200 <= status <= 599 ==> status_class(status) == status / 100,
        status < 200 || status > 599 ==> status_class(status) == 0,
{
}

/// Recording a response adds one request and its body size, and raises the
/// count of exactly one class among 2xx..5xx, that of its hundreds digit, when
/// its code lies in 200..=599 (none otherwise); errors are unchanged.
pub proof fn law_response_counted_in_its_class(h: Seq<Outcome>, latency_us: u64, bytes: u64, status: u16)
    ensures
        ({
            let after = h.push(Outcome::Response { latency_us, bytes, status });
            &&& responses(after) == responses(h) + 1
            &&& failures(after) == failures(h)
            &&& bytes_total(after) == bytes_total(h) + bytes
            &&& forall|c: int|
                2 <= c <= 5 ==> #[trigger] class_count(after, c) == class_count(h, c) + if 100 * c
                    <= status < 100 * c + 100 {
                    1int
                } else {
                    0int
                }
        }),
{
    law_append_outcome(h, Outcome::Response { latency_us, bytes, status });
}

/// Recording a failure adds one error and changes no other count.
pub proof fn law_failure_counted_as_error(h: Seq<Outcome>)
    ensures
        responses(h.push(Outcome::Failure)) == responses(h),
        failures(h.push(Outcome::Failure)) == failures(h) + 1,
        bytes_total(h.push(Outcome::Failure)) == bytes_total(h),
        forall|c: int| #[trigger] class_count(h.push(Outcome::Failure), c) == class_count(h, c),
{
    law_append_outcome(h, Outcome::Failure);
}

/// The histogram takes each response's latency itself, and 1 for a latency of 0.
pub proof fn law_sample_is_the_latency(latency_us: u64)
    ensures
        latency_us >= 1 ==> sample_of(latency_us) == latency_us,
        latency_us == 0 ==> sample_of(latency_us) == 1,
{
}

/// Recording a response puts its latency (1 for 0) into the histogram, by the
/// lowest value of its bucket; a failure puts nothing.
pub proof fn law_latency_goes_into_histogram(h: Seq<Outcome>, latency_us: u64, bytes: u64, status: u16)
    ensures
        latencies(h.push(Outcome::Response { latency_us, bytes, status })) == latencies(h).insert(
            bucket_floor(if latency_us == 0 { 1 } else { latency_us }),
        ),
        latencies(h.push(Outcome::Failure)) == latencies(h),
{
    law_append_outcome(h, Outcome::Response { latency_us, bytes, status });
    law_append_outcome(h, Outcome::Failure);
}

/// The largest latency is at least every response's latency, and is the
/// latency (1 for 0) of one of them; 0 when there is no response.
pub proof fn law_max_latency_is_largest(h: Seq<Outcome>)
    ensures
        forall|i: int|
            0 <= i < h.len() ==> (#[trigger] h[i] matches Outcome::Response { latency_us, .. }
                ==> latency_us <= max_latency(h) && 1 <= max_latency(h)),
        responses(h) == 0 ==> max_latency(h) == 0,
        responses(h) > 0 ==> exists|i: int|
            0 <= i < h.len() && (#[trigger] h[i] matches Outcome::Response { latency_us, .. }
                && max_latency(h) == if latency_us == 0 { 1 } else { latency_us }),
    decreases h.len(),
{
    if h.len() > 0 {
        let rest = h.drop_last();
        law_max_latency_is_largest(rest);
        assert forall|i: int|
            0 <= i < h.len() implies (#[trigger] h[i] matches Outcome::Response { latency_us, .. }
                ==> latency_us <= max_latency(h) && 1 <= max_latency(h)) by {
            if i < h.len() - 1 {
                assert(h[i] == rest[i]);
            }
        }
        if responses(h) > 0 {
            let last = h.len() - 1;
            if h[last] is Response && sample_of(h[last]->latency_us) > max_latency(rest) {
                assert(h[last] matches Outcome::Response { latency_us, .. } && max_latency(h)
                    == if latency_us == 0 { 1 } else { latency_us });
            } else if h[last] is Response && responses(rest) == 0 {
                assert(h[last] matches Outcome::Response { latency_us, .. } && max_latency(h)
                    == if latency_us == 0 { 1 } else { latency_us });
            } else {
                let i = choose|i: int|
                    0 <= i < rest.len() && (#[trigger] rest[i] matches Outcome::Response {
                        latency_us,
                        ..
                    } && max_latency(rest) == if latency_us == 0 { 1 } else { latency_us });
                assert(h[i] == rest[i]);
            }
        }
    }
}

/// Recording one outcome moves each count by exactly what that outcome
/// brings: a response adds one request, its body size, one to its status
/// class and its sample to the latencies; a failure adds one error and
/// nothing else.
pub proof fn law_append_outcome(h: Seq<Outcome>, o: Outcome)
    ensures
        responses(h.push(o)) == responses(h) + if o is Response { 1nat } else { 0nat },
        failures(h.push(o)) == failures(h) + if o is Failure { 1nat } else { 0nat },
        bytes_total(h.push(o)) == bytes_total(h) + match o {
            Outcome::Response { bytes, .. } => bytes as nat,
            Outcome::Failure => 0nat,
        },
        forall|c: int|
            #[trigger] class_count(h.push(o), c) == class_count(h, c) + match o {
                Outcome::Response { status, .. } => if status_class(status) == c {
                    1nat
                } else {
                    0nat
                },
                Outcome::Failure => 0nat,
            },
        latencies(h.push(o)) == match o {
            Outcome::Response { latency_us, .. } => latencies(h).insert(
                bucket_floor(sample_of(latency_us)),
            ),
            Outcome::Failure => latencies(h),
        },
{
    assert(h.push(o).drop_last() =~= h);
}

/// The histogram's bucket of the largest sample is held, and no larger one.
proof fn lemma_largest_bucket(h: Seq<Outcome>)
    ensures
        responses(h) > 0 ==> latencies(h).contains(bucket_floor(max_latency(h))),
        forall|w: u64| latencies(h).contains(w) ==> w <= bucket_floor(max_latency(h)),
        responses(h) == 0 ==> max_latency(h) == 0,
    decreases h.len(),
{
    broadcast use vstd::multiset::group_multiset_axioms;

    if h.len() > 0 {
        let rest = h.drop_last();
        lemma_largest_bucket(rest);
        crate::histogram::law_bucket_floor_monotone(max_latency(rest), max_latency(h));
        match h.last() {
            Outcome::Response { latency_us, .. } => {
                crate::histogram::law_bucket_floor_monotone(sample_of(latency_us), max_latency(h));
                assert(latencies(h) == latencies(rest).insert(bucket_floor(sample_of(latency_us))));
                assert forall|w: u64| latencies(h).contains(w) implies w <= bucket_floor(
                    max_latency(h),
                ) by {
                    if w != bucket_floor(sample_of(latency_us)) {
                        assert(latencies(rest).contains(w));
                    }
                }
            },
            Outcome::Failure => {},
        }
    }
}

/// The latencies hold one sample per response.
pub proof fn law_one_sample_per_response(h: Seq<Outcome>)
    ensures
        latencies(h).len() == responses(h),
    decreases h.len(),
{
    if h.len() > 0 {
        law_one_sample_per_response(h.drop_last());
    }
}

/// Every response has exactly one status class: the four counted classes and
/// the codes outside them together make up all responses.
pub proof fn law_status_classes_partition(h: Seq<Outcome>)
    ensures
        class_count(h, 2) + class_count(h, 3) + class_count(h, 4) + class_count(h, 5)
            + class_count(h, 0) == responses(h),
    decreases h.len(),
{
    if h.len() > 0 {
        law_status_classes_partition(h.drop_last());
    }
}

/// The counts of two stretches of outcomes, one after the other, add up.
pub proof fn law_counts_of_concat(a: Seq<Outcome>, b: Seq<Outcome>)
    ensures
        responses(a + b) == responses(a) + responses(b),
        failures(a + b) == failures(a) + failures(b),
        bytes_total(a + b) == bytes_total(a) + bytes_total(b),
        forall|c: int| #[trigger] class_count(a + b, c) == class_count(a, c) + class_count(b, c),
    decreases b.len(),
{
    if b.len() == 0 {
        assert(a + b =~= a);
        assert forall|c: int| #[trigger]
            class_count(a + b, c) == class_count(a, c) + class_count(b, c) by {}
    } else {
        law_counts_of_concat(a, b.drop_last());
        assert((a + b).drop_last() =~= a + b.drop_last());
        assert((a + b).last() == b.last());
        assert forall|c: int| #[trigger]
            class_count(a + b, c) == class_count(a, c) + class_count(b, c) by {
            assert(class_count(a + b.drop_last(), c) == class_count(a, c) + class_count(
                b.drop_last(),
                c,
            ));
        }
    }
}

/// The counts read by `Stats::snapshot`: totals over all outcomes so far, and
/// counts over the outcomes recorded since `start`, the length of the history
/// at the previous snapshot.
pub struct Snapshot {
    pub requests: u64,
    pub errors: u64,
    pub bytes_recv: u64,
    pub status_2xx: u64,
    pub status_3xx: u64,
    pub status_4xx: u64,
    pub status_5xx: u64,
    pub interval_reqs: u64,
    pub interval_bytes: u64,
    pub interval_errors: u64,
    pub interval_2xx: u64,
}

/// The snapshot of a history whose previous snapshot was taken at `start`.
pub open spec fn snapshot_of(h: Seq<Outcome>, start: int) -> Snapshot {
    let recent = h.subrange(start, h.len() as int);
    Snapshot {
        requests: wrap(responses(h) as int),
        errors: wrap(failures(h) as int),
        bytes_recv: wrap(bytes_total(h) as int),
        status_2xx: wrap(class_count(h, 2) as int),
        status_3xx: wrap(class_count(h, 3) as int),
        status_4xx: wrap(class_count(h, 4) as int),
        status_5xx: wrap(class_count(h, 5) as int),
        interval_reqs: wrap(responses(recent) as int),
        interval_bytes: wrap(bytes_total(recent) as int),
        interval_errors: wrap(failures(recent) as int),
        interval_2xx: wrap(class_count(recent, 2) as int),
    }
}

/// The interval counts of a snapshot and the totals of the previous one add
/// up to the totals: the interval covers exactly the outcomes since then.
pub proof fn law_interval_completes_totals(h: Seq<Outcome>, start: int)
    requires
        0 <= start <= h.len(),
    ensures
        responses(h) == responses(h.take(start)) + responses(h.subrange(start, h.len() as int)),
        failures(h) == failures(h.take(start)) + failures(h.subrange(start, h.len() as int)),
        bytes_total(h) == bytes_total(h.take(start)) + bytes_total(
            h.subrange(start, h.len() as int),
        ),
        class_count(h, 2) == class_count(h.take(start), 2) + class_count(
            h.subrange(start, h.len() as int),
            2,
        ),
{
    law_counts_of_concat(h.take(start), h.subrange(start, h.len() as int));
    assert(h.take(start) + h.subrange(start, h.len() as int) =~= h);
}

/// Interval counters reset on each read: after a snapshot, the next one
/// reports as interval counts exactly the outcomes recorded in between, and
/// the same totals as a snapshot of the whole history.
pub proof fn law_snapshot_resets_interval(before: Seq<Outcome>, between: Seq<Outcome>, start: int)
    requires
        0 <= start <= before.len(),
    ensures
        ({
            let next = snapshot_of(before + between, before.len() as int);
            &&& next.interval_reqs == wrap(responses(between) as int)
            &&& next.interval_bytes == wrap(bytes_total(between) as int)
            &&& next.interval_errors == wrap(failures(between) as int)
            &&& next.interval_2xx == wrap(class_count(between, 2) as int)
            &&& next.requests == snapshot_of(before + between, start).requests
        }),
        snapshot_of(before, before.len() as int).interval_reqs == 0,
        snapshot_of(before, before.len() as int).interval_bytes == 0,
        snapshot_of(before, before.len() as int).interval_errors == 0,
        snapshot_of(before, before.len() as int).interval_2xx == 0,
{
    let whole = before + between;
    assert(whole.subrange(before.len() as int, whole.len() as int) =~= between);
    assert(before.subrange(before.len() as int, before.len() as int) =~= Seq::<Outcome>::empty());
}

/// A count summed over the stretches of `h` between successive cut points.
pub open spec fn sum_between_cuts(
    h: Seq<Outcome>,
    cuts: Seq<int>,
    count: spec_fn(Seq<Outcome>) -> nat,
) -> nat
    decreases cuts.len(),
{
    if cuts.len() < 2 {
        0
    } else {
        sum_between_cuts(h, cuts.drop_last(), count) + count(
            h.subrange(cuts[cuts.len() - 2], cuts.last()),
        )
    }
}

/// Cut points into `h`: increasing, from the start of `h` to its end. The
/// lengths of the history at successive snapshots, from 0 to the last, are such.
pub open spec fn is_cut_sequence(h: Seq<Outcome>, cuts: Seq<int>) -> bool {
    &&& cuts.len() >= 1
    &&& cuts[0] == 0
    &&& cuts.last() == h.len()
    &&& forall|i: int, j: int|
        0 <= i <= j < cuts.len() ==> 0 <= #[trigger] cuts[i] <= #[trigger] cuts[j] <= h.len()
}

proof fn lemma_sum_between_cuts(
    h: Seq<Outcome>,
    cuts: Seq<int>,
    count: spec_fn(Seq<Outcome>) -> nat,
)
    requires
        cuts.len() >= 1,
        forall|i: int, j: int|
        0 <= i <= j < cuts.len() ==> 0 <= #[trigger] cuts[i] <= #[trigger] cuts[j] <= h.len(),
        forall|a: Seq<Outcome>, b: Seq<Outcome>| #[trigger] count(a + b) == count(a) + count(b),
        count(Seq::empty()) == 0,
    ensures
        sum_between_cuts(h, cuts, count) == count(h.subrange(cuts[0], cuts.last())),
    decreases cuts.len(),
{
    if cuts.len() == 1 {
        assert(h.subrange(cuts[0], cuts[0]) =~= Seq::<Outcome>::empty());
    } else {
        let k = cuts.len() - 1;
        let rest = cuts.drop_last();
        lemma_sum_between_cuts(h, rest, count);
        let a = h.subrange(cuts[0], cuts[k - 1]);
        let b = h.subrange(cuts[k - 1], cuts[k]);
        assert(a + b =~= h.subrange(cuts[0], cuts[k]));
        assert(count(a + b) == count(a) + count(b));
    }
}

/// Every outcome is counted in exactly one interval: over any number of
/// snapshots, taken when the history had the lengths `cuts` (0 first, the
/// current length last), the interval counts add up to the totals.
pub proof fn law_intervals_add_up_to_totals(h: Seq<Outcome>, cuts: Seq<int>)
    requires
        is_cut_sequence(h, cuts),
    ensures
        sum_between_cuts(h, cuts, |s: Seq<Outcome>| responses(s)) == responses(h),
        sum_between_cuts(h, cuts, |s: Seq<Outcome>| failures(s)) == failures(h),
        sum_between_cuts(h, cuts, |s: Seq<Outcome>| bytes_total(s)) == bytes_total(h),
        sum_between_cuts(h, cuts, |s: Seq<Outcome>| class_count(s, 2)) == class_count(h, 2),
{
    assert forall|a: Seq<Outcome>, b: Seq<Outcome>|
        #[trigger] responses(a + b) == responses(a) + responses(b) by {
        law_counts_of_concat(a, b);
    }
    assert forall|a: Seq<Outcome>, b: Seq<Outcome>|
        #[trigger] failures(a + b) == failures(a) + failures(b) by {
        law_counts_of_concat(a, b);
    }
    assert forall|a: Seq<Outcome>, b: Seq<Outcome>|
        #[trigger] bytes_total(a + b) == bytes_total(a) + bytes_total(b) by {
        law_counts_of_concat(a, b);
    }
    assert forall|a: Seq<Outcome>, b: Seq<Outcome>|
        #[trigger] class_count(a + b, 2) == class_count(a, 2) + class_count(b, 2) by {
        law_counts_of_concat(a, b);
    }
    assert(h.subrange(0, h.len() as int) =~= h);
    lemma_sum_between_cuts(h, cuts, |s: Seq<Outcome>| responses(s));
    lemma_sum_between_cuts(h, cuts, |s: Seq<Outcome>| failures(s));
    lemma_sum_between_cuts(h, cuts, |s: Seq<Outcome>| bytes_total(s));
    lemma_sum_between_cuts(h, cuts, |s: Seq<Outcome>| class_count(s, 2));
}

/// The counts read at the end of a run, with the largest latency as the
/// histogram reports it.
pub struct Totals {
    pub requests: u64,
    pub errors: u64,
    pub bytes_recv: u64,
    pub status_2xx: u64,
    pub status_3xx: u64,
    pub status_4xx: u64,
    pub status_5xx: u64,
    pub max_us: u64,
}

/// The statistics of a benchmark run: totals of requests, failures, bytes and
/// status classes, the same since the last snapshot, a stop flag, and a
/// histogram of latencies in microseconds.
///
/// The counters wrap around on overflow. The history of outcomes exists only
/// for the proofs: every counter is a function of it.
pub struct Stats {
    requests: u64,
    errors: u64,
    bytes_recv: u64,
    status_2xx: u64,
    status_3xx: u64,
    status_4xx: u64,
    status_5xx: u64,
    stopped: bool,
    histogram: LatencyHistogram,
    interval_reqs: u64,
    interval_bytes: u64,
    interval_errors: u64,
    interval_2xx: u64,
    outcomes: Ghost<Seq<Outcome>>,
    interval_start: Ghost<int>,
    calls: Ghost<Seq<Call>>,
}

impl Stats {
    /// As long as fewer than `u64::MAX` responses were recorded, the latency
    /// histogram holds exactly one sample, the latency or 1 if it was 0, per response.
    pub proof fn law_histogram_holds_latencies(&self)
        requires
            self.wf(),
            responses(self.history()) <= u64::MAX,
        ensures
            self.histogram_values() == latencies(self.history()),
            self.histogram_values().len() == responses(self.history()),
    {
        law_one_sample_per_response(self.history());
    }

    /// The last snapshot was taken at a point of the history.
    pub proof fn law_interval_start_within_history(&self)
        requires
            self.wf(),
        ensures
            0 <= self.interval_start() <= self.history().len(),
    {
    }

    /// The status classes never count more responses than there are, in the
    /// totals and in the current interval.
    pub proof fn law_status_counts_within_requests(&self)
        requires
            self.wf(),
        ensures
            class_count(self.history(), 2) + class_count(self.history(), 3) + class_count(
                self.history(),
                4,
            ) + class_count(self.history(), 5) <= responses(self.history()),
            class_count(self.history().subrange(self.interval_start(), self.history().len() as int), 2)
                <= responses(self.history().subrange(self.interval_start(), self.history().len() as int)),
    {
        let h = self.history();
        law_status_classes_partition(h);
        law_status_classes_partition(h.subrange(self.interval_start(), h.len() as int));
    }

    /// The history, the last snapshot's place in it and the stop flag are what
    /// the calls made so far lead to.
    pub proof fn law_state_follows_calls(&self)
        requires
            self.wf(),
        ensures
            self.history() == run(self.calls()).history,
            self.interval_start() == run(self.calls()).interval_start,
            self.stop_requested() == run(self.calls()).stopped,
    {
    }

    /// `is_stopped` answers true exactly when `stop` was among the calls made.
    pub proof fn law_stopped_iff_stop_was_called(&self)
        requires
            self.wf(),
        ensures
            self.stop_requested() <==> self.calls().contains(Call::Stop),
    {
        law_stopped_exactly_when_stop_called(self.calls());
    }

    /// Every call made on these statistics since they were created, oldest first.
    pub closed spec fn calls(&self) -> Seq<Call> {
        self.calls@
    }

    /// Every outcome recorded so far, oldest first.
    pub closed spec fn history(&self) -> Seq<Outcome> {
        self.outcomes@
    }

    /// The length of the history when the last snapshot was taken (0 before any).
    pub closed spec fn interval_start(&self) -> int {
        self.interval_start@
    }

    /// Whether `stop` was called.
    pub closed spec fn stop_requested(&self) -> bool {
        self.stopped
    }

    /// What the latency histogram holds.
    pub closed spec fn histogram_values(&self) -> Multiset<u64> {
        recorded_values(self.histogram)
    }

    /// The counters agree with the history, and the histogram holds the
    /// latencies of the responses as long as it has not counted past `u64::MAX`.
    pub closed spec fn wf(&self) -> bool {
        let h = self.outcomes@;
        let start = self.interval_start@;
        let recent = h.subrange(start, h.len() as int);
        &&& 0 <= start <= h.len()
        &&& run(self.calls@).history == h
        &&& run(self.calls@).interval_start == start
        &&& run(self.calls@).stopped == self.stopped
        &&& self.requests == wrap(responses(h) as int)
        &&& self.errors == wrap(failures(h) as int)
        &&& self.bytes_recv == wrap(bytes_total(h) as int)
        &&& self.status_2xx == wrap(class_count(h, 2) as int)
        &&& self.status_3xx == wrap(class_count(h, 3) as int)
        &&& self.status_4xx == wrap(class_count(h, 4) as int)
        &&& self.status_5xx == wrap(class_count(h, 5) as int)
        &&& self.interval_reqs == wrap(responses(recent) as int)
        &&& self.interval_bytes == wrap(bytes_total(recent) as int)
        &&& self.interval_errors == wrap(failures(recent) as int)
        &&& self.interval_2xx == wrap(class_count(recent, 2) as int)
        &&& histogram_layout(self.histogram) == (1u64, 3u8, true)
        &&& responses(h) <= u64::MAX ==> recorded_values(self.histogram) == latencies(h)
    }

    /// Empty statistics: no outcome, not stopped, an empty histogram of three
    /// significant digits.
    pub fn new() -> (s: Self)
        ensures
            s.wf(),
            s.history() == Seq::<Outcome>::empty(),
            s.interval_start() == 0,
            !s.stop_requested(),
            s.calls() == Seq::<Call>::empty(),
            s.histogram_values() =~= Multiset::<u64>::empty(),
    {
        let s = Stats {
            requests: 0,
            errors: 0,
            bytes_recv: 0,
            status_2xx: 0,
            status_3xx: 0,
            status_4xx: 0,
            status_5xx: 0,
            stopped: false,
            histogram: new_histogram(3),
            interval_reqs: 0,
            interval_bytes: 0,
            interval_errors: 0,
            interval_2xx: 0,
            outcomes: Ghost(Seq::empty()),
            interval_start: Ghost(0),
            calls: Ghost(Seq::empty()),
        };
        proof {
            assert(s.outcomes@.subrange(0, 0) =~= Seq::<Outcome>::empty());
        }
        s
    }

    /// Records a response: one more request, its body size, its status class
    /// (2xx also in the interval counts), and its latency, at least 1, in the histogram.
    pub fn record(&mut self, latency_us: u64, bytes: u64, status: u16)
        requires
            old(self).wf(),
        ensures
            final(self).wf(),
            final(self).history() == old(self).history().push(
                Outcome::Response { latency_us, bytes, status },
            ),
            final(self).calls() == old(self).calls().push(
                Call::Record { latency_us, bytes, status },
            ),
            final(self).interval_start() == old(self).interval_start(),
            final(self).stop_requested() == old(self).stop_requested(),
    {
        let ghost h = self.outcomes@;
        let ghost start = self.interval_start@;
        let ghost o = Outcome::Response { latency_us, bytes, status };
        let ghost recent = h.subrange(start, h.len() as int);
        proof {
            law_append_outcome(h, o);
            law_append_outcome(recent, o);
            assert(h.push(o).subrange(start, h.len() + 1int) =~= recent.push(o));
            law_one_sample_per_response(h);
            lemma_wrap_add(responses(h) as int, 1);
            lemma_wrap_add(bytes_total(h) as int, bytes);
            lemma_wrap_add(responses(recent) as int, 1);
            lemma_wrap_add(bytes_total(recent) as int, bytes);
            lemma_wrap_add(class_count(h, 2) as int, 1);
            lemma_wrap_add(class_count(h, 3) as int, 1);
            lemma_wrap_add(class_count(h, 4) as int, 1);
            lemma_wrap_add(class_count(h, 5) as int, 1);
            lemma_wrap_add(class_count(recent, 2) as int, 1);
        }
        self.requests = self.requests.wrapping_add(1);
        self.bytes_recv = self.bytes_recv.wrapping_add(bytes);
        self.interval_reqs = self.interval_reqs.wrapping_add(1);
        self.interval_bytes = self.interval_bytes.wrapping_add(bytes);
        if 200 <= status && status <= 299 {
            self.status_2xx = self.status_2xx.wrapping_add(1);
            self.interval_2xx = self.interval_2xx.wrapping_add(1);
        } else if 300 <= status && status <= 399 {
            self.status_3xx = self.status_3xx.wrapping_add(1);
        } else if 400 <= status && status <= 499 {
            self.status_4xx = self.status_4xx.wrapping_add(1);
        } else if 500 <= status && status <= 599 {
            self.status_5xx = self.status_5xx.wrapping_add(1);
        }
        let sample: u64 = if latency_us < 1 {
            1
        } else {
            latency_us
        };
        record_value(&mut self.histogram, sample);
        self.outcomes = Ghost(h.push(o));
        proof {
            lemma_run_push(self.calls@, Call::Record { latency_us, bytes, status });
        }
        self.calls = Ghost(self.calls@.push(Call::Record { latency_us, bytes, status }));
    }

    /// Records a request that failed: one more error, in the totals and in
    /// the interval counts.
    pub fn record_error(&mut self)
        requires
            old(self).wf(),
        ensures
            final(self).wf(),
            final(self).history() == old(self).history().push(Outcome::Failure),
            final(self).calls() == old(self).calls().push(Call::RecordError),
            final(self).interval_start() == old(self).interval_start(),
            final(self).stop_requested() == old(self).stop_requested(),
            final(self).histogram_values() == old(self).histogram_values(),
    {
        let ghost h = self.outcomes@;
        let ghost start = self.interval_start@;
        let ghost o = Outcome::Failure;
        let ghost recent = h.subrange(start, h.len() as int);
        proof {
            law_append_outcome(h, o);
            law_append_outcome(recent, o);
            assert(h.push(o).subrange(start, h.len() + 1int) =~= recent.push(o));
            lemma_wrap_add(failures(h) as int, 1);
            lemma_wrap_add(failures(recent) as int, 1);
        }
        self.errors = self.errors.wrapping_add(1);
        self.interval_errors = self.interval_errors.wrapping_add(1);
        self.outcomes = Ghost(h.push(o));
        proof {
            lemma_run_push(self.calls@, Call::RecordError);
        }
        self.calls = Ghost(self.calls@.push(Call::RecordError));
    }

    /// Asks the workers to stop.
    pub fn stop(&mut self)
        requires
            old(self).wf(),
        ensures
            final(self).wf(),
            final(self).stop_requested(),
            final(self).calls() == old(self).calls().push(Call::Stop),
            final(self).history() == old(self).history(),
            final(self).interval_start() == old(self).interval_start(),
            final(self).histogram_values() == old(self).histogram_values(),
    {
        self.stopped = true;
        proof {
            lemma_run_push(self.calls@, Call::Stop);
        }
        self.calls = Ghost(self.calls@.push(Call::Stop));
    }

    /// Whether `stop` was called.
    pub fn is_stopped(&self) -> (b: bool)
        ensures
            b == self.stop_requested(),
    {
        self.stopped
    }

    /// Reads the counters and starts a new interval: the interval counts of the
    /// result cover the outcomes recorded since the previous snapshot.
    pub fn snapshot(&mut self) -> (snap: Snapshot)
        requires
            old(self).wf(),
        ensures
            final(self).wf(),
            snap == snapshot_of(old(self).history(), old(self).interval_start()),
            final(self).calls() == old(self).calls().push(Call::TakeSnapshot),
            run(final(self).calls()).snapshots == run(old(self).calls()).snapshots.push(snap),
            final(self).history() == old(self).history(),
            final(self).interval_start() == old(self).history().len(),
            final(self).stop_requested() == old(self).stop_requested(),
            final(self).histogram_values() == old(self).histogram_values(),
    {
        let snap = Snapshot {
            requests: self.requests,
            errors: self.errors,
            bytes_recv: self.bytes_recv,
            status_2xx: self.status_2xx,
            status_3xx: self.status_3xx,
            status_4xx: self.status_4xx,
            status_5xx: self.status_5xx,
            interval_reqs: self.interval_reqs,
            interval_bytes: self.interval_bytes,
            interval_errors: self.interval_errors,
            interval_2xx: self.interval_2xx,
        };
        self.interval_reqs = 0;
        self.interval_bytes = 0;
        self.interval_errors = 0;
        self.interval_2xx = 0;
        self.interval_start = Ghost(self.outcomes@.len() as int);
        proof {
            lemma_run_push(self.calls@, Call::TakeSnapshot);
        }
        self.calls = Ghost(self.calls@.push(Call::TakeSnapshot));
        proof {
            let h = self.outcomes@;
            assert(h.subrange(h.len() as int, h.len() as int) =~= Seq::<Outcome>::empty());
        }
        snap
    }

    /// Reads the totals at the end of a run, with the largest latency that
    /// the histogram reports.
    pub fn totals(&self) -> (t: Totals)
        requires
            self.wf(),
        ensures
            t.requests == wrap(responses(self.history()) as int),
            t.errors == wrap(failures(self.history()) as int),
            t.bytes_recv == wrap(bytes_total(self.history()) as int),
            t.status_2xx == wrap(class_count(self.history(), 2) as int),
            t.status_3xx == wrap(class_count(self.history(), 3) as int),
            t.status_4xx == wrap(class_count(self.history(), 4) as int),
            t.status_5xx == wrap(class_count(self.history(), 5) as int),
            self.histogram_values().len() == 0 ==> t.max_us == 0,
            forall|f: u64|
                #[trigger] self.histogram_values().contains(f) && (forall|w: u64|
                    self.histogram_values().contains(w) ==> w <= f) ==> {
                    &&& f <= t.max_us <= bucket_top(f)
                    &&& f < 0xFFE0_0000_0000_0000 ==> t.max_us == bucket_top(f)
                },
            responses(self.history()) == 0 ==> t.max_us == 0,
            ({
                let m = max_latency(self.history());
                0 < responses(self.history()) <= u64::MAX && m < 0xFFE0_0000_0000_0000 ==> {
                    &&& m <= t.max_us <= m + m / 1024
                    &&& m < 2048 ==> t.max_us == m
                }
            }),
    {
        let max_us = histogram_max(&self.histogram);
        proof {
            let h = self.outcomes@;
            let m = max_latency(h);
            lemma_largest_bucket(h);
            law_one_sample_per_response(h);
            if responses(h) == 0 {
                if responses(h) <= u64::MAX {
                    assert(recorded_values(self.histogram).len() == 0);
                }
            }
            if 0 < responses(h) <= u64::MAX && m < 0xFFE0_0000_0000_0000 {
                let f = bucket_floor(m);
                crate::histogram::law_bucket_floor_bounds(m);
                crate::histogram::law_bucket_top_bounds(m);
                crate::histogram::law_bucket_top_of_floor(m);
                assert(recorded_values(self.histogram).contains(f));
            }
        }
        Totals {
            requests: self.requests,
            errors: self.errors,
            bytes_recv: self.bytes_recv,
            status_2xx: self.status_2xx,
            status_3xx: self.status_3xx,
            status_4xx: self.status_4xx,
            status_5xx: self.status_5xx,
            max_us,
        }
    }

    /// The buckets of the latency histogram that hold samples, in increasing
    /// order, as pairs of a value of the bucket and its count: what percentiles
    /// are read from. (The value is the one the crate's iterator reports; the
    /// contract says only that it lies in the bucket.)
    pub fn latency_buckets(&self) -> (pairs: Vec<(u64, u64)>)
        requires
            self.wf(),
        ensures
            bucket_samples(pairs@) == self.histogram_values(),
            forall|i: int| 0 <= i < pairs@.len() ==> #[trigger] pairs@[i].1 > 0,
            forall|i: int, j: int| 0 <= i < j < pairs@.len() ==> pairs@[i].0 < pairs@[j].0,
    {
        recorded_buckets(&self.histogram)
    }
}

} // verus!
