//! Strict total orders, and the sorted sequences built on them.

use vstd::prelude::*;

verus! {

/// The outcome of placing one value against another in a strict total order.
#[derive(Clone, Copy, Debug, PartialEq, Eq, Structural)]
pub enum Rank {
    /// The first value precedes the second.
    Below,
    /// The two values are equal.
    Same,
    /// The first value follows the second.
    Above,
}

/// A type whose values are strictly and totally ordered by `lt`.
pub trait StrictOrder: Sized {
    /// The strict order.
    spec fn lt(self, other: Self) -> bool;

    /// No value precedes itself.
    proof fn lt_irreflexive(x: Self)
        ensures
            !x.lt(x),
    ;

    /// The order is transitive.
    proof fn lt_transitive(x: Self, y: Self, z: Self)
        requires
            x.lt(y),
            y.lt(z),
        ensures
            x.lt(z),
    ;

    /// Any two distinct values are ordered one way or the other.
    proof fn lt_total(x: Self, y: Self)
        ensures
            x.lt(y) || y.lt(x) || x == y,
    ;

}

/// A strictly ordered type with an executable comparison and an exact copy.
pub trait Key: StrictOrder {
    /// Places `self` against `other`.
    fn order(&self, other: &Self) -> (r: Rank)
        ensures
            (r == Rank::Below) == self.lt(*other),
            (r == Rank::Same) == (*self == *other),
            (r == Rank::Above) == other.lt(*self),
    ;

    /// An exact copy of `self`.
    fn dup(&self) -> (r: Self)
        ensures
            r == *self,
    ;
}

impl StrictOrder for u64 {
    open spec fn lt(self, other: u64) -> bool {
        self < other
    }

    proof fn lt_irreflexive(x: u64) {
    }

    proof fn lt_transitive(x: u64, y: u64, z: u64) {
    }

    proof fn lt_total(x: u64, y: u64) {
    }
}

impl Key for u64 {
    fn order(&self, other: &u64) -> (r: Rank) {
        if *self < *other {
            Rank::Below
        } else if *self == *other {
            Rank::Same
        } else {
            Rank::Above
        }
    }

    fn dup(&self) -> (r: u64) {
        *self
    }
}

} // verus!
