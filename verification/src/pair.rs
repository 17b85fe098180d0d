//! Generic helpers over partially ordered values: the largest element
//! of a slice, and a homogeneous pair that can tell which of its two
//! members is the larger.

use vstd::prelude::*;

verus! {

use core::cmp::Ordering;
use vstd::std_specs::cmp::PartialOrdIs;
use vstd::std_specs::cmp::PartialOrdSpec;

/// The value the comparison fold settles on: each element in turn
/// replaces the accumulator when it compares strictly greater.
pub open spec fn largest_from<T: PartialOrd>(s: Seq<T>, acc: T) -> T
    decreases s.len(),
{
    if s.len() == 0 {
        acc
    } else {
        largest_from(
            s.skip(1),
            if s[0].partial_cmp_spec(&acc) == Some(Ordering::Greater) {
                s[0]
            } else {
                acc
            },
        )
    }
}

/// The largest element of a non-empty slice, found by comparing every
/// element against a running maximum seeded with the first element.
pub fn largest<T: PartialOrd + Copy>(list: &[T]) -> (r: T)
    requires
        list@.len() > 0,
    ensures
        exists|j: int| 0 <= j < list@.len() && r == list@[j],
        T::obeys_partial_cmp_spec() ==> r == largest_from(list@, list@[0]),
{
    let mut best = list[0];
    let mut i: usize = 0;
    proof {
        assert(list@.skip(0) =~= list@);
    }
    while i < list.len()
        invariant
            i <= list@.len(),
            list@.len() > 0,
            exists|j: int| 0 <= j < list@.len() && best == list@[j],
            T::obeys_partial_cmp_spec() ==> largest_from(list@, list@[0]) == largest_from(
                list@.skip(i as int),
                best,
            ),
        decreases list@.len() - i,
    {
        let ghost prev = best;
        if list[i] > best {
            best = list[i];
        }
        proof {
            assert(list@.skip(i as int).skip(1) =~= list@.skip(i + 1));
            assert(list@.skip(i as int)[0] == list@[i as int]);
            if T::obeys_partial_cmp_spec() {
                assert(largest_from(list@.skip(i as int), prev) == largest_from(
                    list@.skip(i + 1),
                    best,
                ));
            }
        }
        i = i + 1;
    }
    proof {
        assert(list@.skip(list@.len() as int) =~= Seq::<T>::empty());
    }
    best
}

/// A homogeneous pair.
pub struct Pair<T> {
    pub x: T,
    pub y: T,
}

impl<T> Pair<T> {
    /// Pack two values of one type.
    pub fn new(x: T, y: T) -> (r: Self)
        ensures
            r.x == x,
            r.y == y,
    {
        Self { x, y }
    }
}

impl<T: PartialOrd> Pair<T> {
    /// Whether `x` is the larger member (ties go to `x`).
    pub fn larger_is_x(&self) -> (r: bool)
        ensures
            T::obeys_partial_cmp_spec() ==> r == self.x.is_ge(&self.y),
    {
        self.x >= self.y
    }
}

} // verus!
