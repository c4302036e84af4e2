use vstd::prelude::*;

verus! {

/// Bounds measured in event time.
pub struct TimeInterval(pub u64, pub u64);

/// Bounds measured in event counts or positions.
pub struct RangeInterval(pub u64, pub u64);

/// Either kind of bound, as consumed by duration-bounded combinators.
pub enum Interval {
    Time(TimeInterval),
    Range(RangeInterval),
}

/// Granularity of an aggregation or duration window.
pub struct Window(pub u64);

} // verus!
