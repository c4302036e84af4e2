use vstd::prelude::*;
use core::cmp::Ordering;
use vstd::std_specs::cmp::{PartialEqSpec, PartialOrdIs, PartialOrdSpec};

verus! {

/// Width of one synchronization bucket: raw indices with the same quotient
/// by this value are treated as co-occurring.
pub const BUCKET_SIZE: u64 = 100_000;

/// The bucket class of a raw index.
pub open spec fn class_of(raw: u64) -> int {
    (raw / BUCKET_SIZE) as int
}

/// Ordering of two integers, as `cmp` reports it.
pub open spec fn ordering_of(a: int, b: int) -> Ordering {
    if a < b {
        Ordering::Less
    } else if a == b {
        Ordering::Equal
    } else {
        Ordering::Greater
    }
}

/// A position or timestamp in the event stream. Equality and order go by
/// bucket class, not by the raw value.
#[derive(Clone, Copy, Debug, Eq)]
pub struct Idx(pub u64);

impl Idx {
    pub open spec fn class(self) -> int {
        class_of(self.0)
    }

    /// The bucket class of this index.
    pub fn bucket(&self) -> (r: u64)
        ensures
            r == self.class(),
    {
        self.0 / BUCKET_SIZE
    }
}

impl PartialEq for Idx {
    fn eq(&self, other: &Idx) -> bool {
        self.0 / BUCKET_SIZE == other.0 / BUCKET_SIZE
    }
}

impl vstd::std_specs::cmp::PartialEqSpecImpl for Idx {
    open spec fn obeys_eq_spec() -> bool {
        true
    }

    open spec fn eq_spec(&self, other: &Idx) -> bool {
        self.class() == other.class()
    }
}

impl PartialOrd for Idx {
    fn partial_cmp(&self, other: &Idx) -> Option<Ordering> {
        let a = self.0 / BUCKET_SIZE;
        let b = other.0 / BUCKET_SIZE;
        if a < b {
            Some(Ordering::Less)
        } else if a == b {
            Some(Ordering::Equal)
        } else {
            Some(Ordering::Greater)
        }
    }
}

impl vstd::std_specs::cmp::PartialOrdSpecImpl for Idx {
    open spec fn obeys_partial_cmp_spec() -> bool {
        true
    }

    open spec fn partial_cmp_spec(&self, other: &Idx) -> Option<Ordering> {
        Some(ordering_of(self.class(), other.class()))
    }
}

/// Whether a pattern held at an index: `Success` carries the value,
/// `Failure` marks an index where it did not hold.
#[derive(Clone, Copy, Debug)]
pub enum Outcome<T> {
    Success(T),
    Failure,
}

/// One emitted element: a representative index, the span it covers, and
/// the outcome at that index.
#[derive(Clone, Copy, Debug)]
pub struct IdxValue<T> {
    pub index: Idx,
    pub start: Idx,
    pub end: Idx,
    pub value: Outcome<T>,
}

/// A point value: the span is the index itself.
pub open spec fn point<T>(index: Idx, value: Outcome<T>) -> IdxValue<T> {
    IdxValue { index, start: index, end: index, value }
}

impl<T> IdxValue<T> {
    /// Builds a point value, whose span is its own index.
    pub fn new_simple(index: Idx, value: Outcome<T>) -> (r: IdxValue<T>)
        ensures
            r == point(index, value),
    {
        IdxValue { index, start: index, end: index, value }
    }

    /// Builds a value that covers the span from `start` to `end`.
    pub fn new(index: Idx, start: Idx, end: Idx, value: Outcome<T>) -> (r: IdxValue<T>)
        ensures
            r == (IdxValue { index, start, end, value }),
    {
        IdxValue { index, start, end, value }
    }
}

/// Two raw indices in one bucket are equal as indices, and neither precedes
/// the other.
pub proof fn lemma_same_bucket_equal(a: u64, b: u64)
    requires
        a / BUCKET_SIZE == b / BUCKET_SIZE,
    ensures
        Idx(a).eq_spec(&Idx(b)),
        Idx(a).partial_cmp_spec(&Idx(b)) == Some(Ordering::Equal),
        !Idx(a).is_lt(&Idx(b)),
        !Idx(b).is_lt(&Idx(a)),
{
}

} // verus!
