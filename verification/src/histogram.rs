use vstd::prelude::*;
use vstd::multiset::Multiset;
use hdrhistogram::Histogram;

verus! {

/// The latency histogram of a benchmark run. Verus does not see inside it:
/// what it holds is given by `recorded_values` and `histogram_layout`, and
/// every operation on it goes through the trusted functions below.
#[verifier::external_body]
pub struct LatencyHistogram {
    samples: Histogram<u64>,
}

/// What a histogram holds: for every sample it counted, the lowest value of
/// the bucket that the sample fell in (values in one bucket share one count).
pub uninterp spec fn recorded_values(h: LatencyHistogram) -> Multiset<u64>;

/// How a histogram was made: its lowest discernible value, its number of
/// significant decimal digits, and whether it resizes itself to take larger values.
pub uninterp spec fn histogram_layout(h: LatencyHistogram) -> (u64, u8, bool);

/// The lowest value of the bucket that holds `v`, in a histogram of lowest
/// discernible value 1 and 3 significant digits. As the crate documents it,
/// the values below 2048 have one bucket each; above, each power of two is
/// split into 1024 buckets: 2048 to 4095 in steps of 2, 4096 to 8191 in steps
/// of 4, and so on.
pub open spec fn bucket_floor(v: u64) -> u64
    decreases v,
{
    if v < 2048 {
        v
    } else {
        (2 * bucket_floor(v / 2)) as u64
    }
}

/// The highest value of the bucket that holds `v` (same layout).
pub open spec fn bucket_top(v: u64) -> int
    decreases v,
{
    if v < 2048 {
        v as int
    } else {
        2 * bucket_top(v / 2) + 1
    }
}

/// A bucket's lowest value is at most the value and lies within a 1024th of
/// it; the values below 2048 are their own buckets.
pub proof fn law_bucket_floor_bounds(v: u64)
    ensures
        bucket_floor(v) <= v,
        v < 2048 <==> bucket_floor(v) < 2048,
        v < 2048 ==> bucket_floor(v) == v,
        v >= 2048 ==> v - bucket_floor(v) + 1 <= v / 1024,
    decreases v,
{
    if v >= 2048 {
        let w = v / 2;
        law_bucket_floor_bounds(w);
        assert(2 * (w / 1024) <= v / 1024);
    }
}

/// Larger values never fall in lower buckets.
pub proof fn law_bucket_floor_monotone(a: u64, b: u64)
    requires
        a <= b,
    ensures
        bucket_floor(a) <= bucket_floor(b),
    decreases b,
{
    law_bucket_floor_bounds(a);
    law_bucket_floor_bounds(b);
    if a >= 2048 {
        law_bucket_floor_monotone(a / 2, b / 2);
        law_bucket_floor_bounds(a / 2);
        law_bucket_floor_bounds(b / 2);
        assert(bucket_floor(a) == 2 * bucket_floor(a / 2));
        assert(bucket_floor(b) == 2 * bucket_floor(b / 2));
    }
}

/// A value and the lowest value of its bucket share the bucket's top.
pub proof fn law_bucket_top_of_floor(v: u64)
    ensures
        bucket_top(bucket_floor(v)) == bucket_top(v),
    decreases v,
{
    if v >= 2048 {
        law_bucket_floor_bounds(v / 2);
        law_bucket_top_of_floor(v / 2);
        let f = bucket_floor(v / 2);
        assert(bucket_floor(v) == 2 * f);
        assert((2 * f) as u64 / 2 == f);
    }
}

/// The top of a value's bucket is at least the value and exceeds it by at
/// most a 1024th of it: three significant digits.
pub proof fn law_bucket_top_bounds(v: u64)
    ensures
        v <= bucket_top(v) <= v + v / 1024,
        v >= 2048 ==> bucket_top(v) + 1 <= v + v / 1024,
    decreases v,
{
    if v >= 2048 {
        let w = v / 2;
        law_bucket_top_bounds(w);
        assert(2 * (w / 1024) <= v / 1024);
    }
}

/// The buckets as (value, count) pairs, each count taken as that many samples
/// of the lowest value of the value's bucket.
pub open spec fn bucket_samples(pairs: Seq<(u64, u64)>) -> Multiset<u64>
    decreases pairs.len(),
{
    if pairs.len() == 0 {
        Multiset::empty()
    } else {
        bucket_samples(pairs.drop_last()).add(
            Multiset::empty().update(bucket_floor(pairs.last().0), pairs.last().1 as nat),
        )
    }
}

/// Calls `hdrhistogram::Histogram::<u64>::new(sigfig)`.
///
/// Claims, as the crate's source shows: for `sigfig <= 5` the construction
/// succeeds (the bounds it uses are 1 and 2), the histogram is empty, its
/// lowest discernible value is 1, it keeps `sigfig` digits and it resizes itself.
#[verifier::external_body]
pub(crate) fn new_histogram(sigfig: u8) -> (h: LatencyHistogram)
    requires
        sigfig <= 5,
    ensures
        recorded_values(h) =~= Multiset::empty(),
        histogram_layout(h) == (1u64, sigfig, true),
{
    LatencyHistogram { samples: Histogram::<u64>::new(sigfig).unwrap() }
}

/// Calls `hdrhistogram::Histogram::record` and reports whether it returned `Ok`.
///
/// Claims, as the crate's source shows, for a histogram of lowest discernible
/// value 1 and 3 significant digits: the layout is kept; a histogram that
/// resizes itself takes every value; a refused value leaves the histogram as it
/// was; a taken value adds one sample to the count of its bucket, as long as
/// fewer than `u64::MAX` samples were counted before (the counts saturate
/// there). What the contents are after such a saturation is left unsaid.
#[verifier::external_body]
pub(crate) fn record_value(h: &mut LatencyHistogram, value: u64) -> (taken: bool)
    requires
        histogram_layout(*old(h)).0 == 1,
        histogram_layout(*old(h)).1 == 3,
    ensures
        histogram_layout(*final(h)) == histogram_layout(*old(h)),
        histogram_layout(*old(h)).2 ==> taken,
        taken && recorded_values(*old(h)).len() < u64::MAX ==> recorded_values(*final(h))
            == recorded_values(*old(h)).insert(bucket_floor(value)),
        !taken ==> recorded_values(*final(h)) == recorded_values(*old(h)),
{
    h.samples.record(value).is_ok()
}

/// Calls `hdrhistogram::Histogram::max`: the highest value of the bucket of
/// the largest value recorded.
///
/// Claims, as the crate's source shows for a histogram of lowest discernible
/// value 1 and 3 significant digits, with `f` the largest bucket held: the
/// result is 0 when nothing was recorded; it lies between `f` and the top of
/// `f`'s bucket; it is that top unless the bucket is the last one that a
/// `u64` reaches (where the crate's sums saturate); below 2048 it is `f`.
#[verifier::external_body]
pub(crate) fn histogram_max(h: &LatencyHistogram) -> (m: u64)
    requires
        histogram_layout(*h).0 == 1,
        histogram_layout(*h).1 == 3,
    ensures
        recorded_values(*h).len() == 0 ==> m == 0,
        forall|f: u64|
            #[trigger] recorded_values(*h).contains(f) && (forall|w: u64|
                recorded_values(*h).contains(w) ==> w <= f) ==> {
                &&& f <= m <= bucket_top(f)
                &&& f < 0xFFE0_0000_0000_0000 ==> m == bucket_top(f)
            },
{
    h.samples.max()
}

/// Calls `hdrhistogram::Histogram::iter_recorded` and gives back, for each
/// bucket that holds samples, its highest value and its count.
///
/// Claims, as the crate's source shows for a histogram of lowest discernible
/// value 1 and 3 significant digits: the pairs come in increasing order of
/// value, every count is positive, and the pairs hold exactly the contents.
#[verifier::external_body]
pub(crate) fn recorded_buckets(h: &LatencyHistogram) -> (pairs: Vec<(u64, u64)>)
    requires
        histogram_layout(*h).0 == 1,
        histogram_layout(*h).1 == 3,
    ensures
        bucket_samples(pairs@) == recorded_values(*h),
        forall|i: int| 0 <= i < pairs@.len() ==> #[trigger] pairs@[i].1 > 0,
        forall|i: int, j: int| 0 <= i < j < pairs@.len() ==> pairs@[i].0 < pairs@[j].0,
{
    h.samples.iter_recorded().map(|v| (v.value_iterated_to(), v.count_at_value())).collect()
}

} // verus!
