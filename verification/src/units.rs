use vstd::prelude::*;

verus! {

/// The unit in which a latency is shown.
pub enum TimeUnit {
    /// Whole microseconds, below one millisecond.
    Micros,
    /// Milliseconds with two decimals, below one second.
    Millis,
    /// Seconds with two decimals.
    Seconds,
}

/// The unit in which an amount of data is shown.
pub enum SizeUnit {
    /// Whole bytes, below one KiB.
    Bytes,
    /// KiB with one decimal, below one MiB.
    Kilobytes,
    /// MiB with two decimals.
    Megabytes,
}

/// The unit for a latency of `us` microseconds.
pub fn time_unit(us: u64) -> (u: TimeUnit)
    ensures
        us < 1_000 ==> u is Micros,
        1_000 <= us < 1_000_000 ==> u is Millis,
        1_000_000 <= us ==> u is Seconds,
{
    if us < 1_000 {
        TimeUnit::Micros
    } else if us < 1_000_000 {
        TimeUnit::Millis
    } else {
        TimeUnit::Seconds
    }
}

/// The unit for `b` bytes.
pub fn size_unit(b: u64) -> (u: SizeUnit)
    ensures
        b < 1_024 ==> u is Bytes,
        1_024 <= b < 1_048_576 ==> u is Kilobytes,
        1_048_576 <= b ==> u is Megabytes,
{
    if b < 1_024 {
        SizeUnit::Bytes
    } else if b < 1_048_576 {
        SizeUnit::Kilobytes
    } else {
        SizeUnit::Megabytes
    }
}

} // verus!
