use vstd::prelude::*;

verus! {

/// Values that are ordered by an integer key and can be duplicated.
///
/// The merge of two sorted lists compares values through `le` and copies
/// them into the output through `duplicate`; the binary search tree orders
/// its nodes by the same key.
pub trait Keyed: Sized {
    /// The ordering key of the value.
    spec fn key(&self) -> int;

    /// Compares two values by their keys.
    fn le(&self, other: &Self) -> (r: bool)
        ensures
            r == (self.key() <= other.key()),
    ;

    /// Returns an owned copy equal to the value itself.
    fn duplicate(&self) -> (r: Self)
        ensures
            r == *self,
    ;
}

impl Keyed for i32 {
    open spec fn key(&self) -> int {
        *self as int
    }

    fn le(&self, other: &Self) -> (r: bool) {
        *self <= *other
    }

    fn duplicate(&self) -> (r: Self) {
        *self
    }
}

/// A value ordered by `key` alone, carrying an auxiliary `tag` that the
/// ordering ignores. Two such values can compare equal while still being
/// distinguishable, which makes the left-biased tie-break of a stable merge
/// observable.
#[derive(Clone, Copy, Debug, PartialEq, Eq)]
pub struct Tagged {
    pub key: i32,
    pub tag: u32,
}

impl Keyed for Tagged {
    open spec fn key(&self) -> int {
        self.key as int
    }

    fn le(&self, other: &Self) -> (r: bool) {
        self.key <= other.key
    }

    fn duplicate(&self) -> (r: Self) {
        *self
    }
}

} // verus!
