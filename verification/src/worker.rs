use vstd::prelude::*;

verus! {

/// How a worker paces its requests.
pub enum Pace {
    /// No rate limit: send at once.
    Unlimited,
    /// The target rate has been reached: wait the full-rate delay.
    Full,
    /// Still ramping up: wait the delay of the rate reached so far.
    Ramping,
}

/// Whether a worker sends another request: while no stop was asked for and
/// the run's duration has not elapsed (times in nanoseconds since the start).
pub fn keep_running(stopped: bool, elapsed_ns: u128, duration_ns: u128) -> (go: bool)
    ensures
        go == (!stopped && elapsed_ns < duration_ns),
{
    !stopped && elapsed_ns < duration_ns
}

/// How a worker paces its next request: without limit when no rate is set,
/// at the full rate when there is no ramp or it is over, ramping otherwise.
pub fn pace(qps: u64, elapsed_ns: u128, ramp_ns: u128) -> (p: Pace)
    ensures
        qps == 0 ==> p is Unlimited,
        qps > 0 && (ramp_ns == 0 || elapsed_ns >= ramp_ns) ==> p is Full,
        qps > 0 && ramp_ns > 0 && elapsed_ns < ramp_ns ==> p is Ramping,
{
    if qps == 0 {
        Pace::Unlimited
    } else if ramp_ns == 0 || elapsed_ns >= ramp_ns {
        Pace::Full
    } else {
        Pace::Ramping
    }
}

} // verus!
