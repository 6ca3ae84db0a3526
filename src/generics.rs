use vstd::prelude::*;

verus! {

/// The largest element of `list`. The list must not be empty.
pub fn largest_i32(list: &[i32]) -> (r: i32)
    requires
        list@.len() > 0,
    ensures
        list@.contains(r),
        forall|k: int| 0 <= k < list@.len() ==> #[trigger] list@[k] <= r,
{
    let mut largest = list[0];
    let mut i: usize = 1;
    while i < list.len()
        invariant
            1 <= i <= list@.len(),
            list@.contains(largest),
            forall|k: int| 0 <= k < i ==> #[trigger] list@[k] <= largest,
        decreases list@.len() - i,
    {
        let item = list[i];
        if item > largest {
            largest = item;
        }
        i = i + 1;
    }
    largest
}

/// The largest character of `list`, by code point. The list must not be empty.
pub fn largest_char(list: &[char]) -> (r: char)
    requires
        list@.len() > 0,
    ensures
        list@.contains(r),
        forall|k: int| 0 <= k < list@.len() ==> #[trigger] list@[k] <= r,
{
    let mut largest = list[0];
    let mut i: usize = 1;
    while i < list.len()
        invariant
            1 <= i <= list@.len(),
            list@.contains(largest),
            forall|k: int| 0 <= k < i ==> #[trigger] list@[k] <= largest,
        decreases list@.len() - i,
    {
        let item = list[i];
        if item > largest {
            largest = item;
        }
        i = i + 1;
    }
    largest
}

/// A point whose two coordinates share one type.
pub struct Point<T> {
    pub x: T,
    pub y: T,
}

impl<T> Point<T> {
    /// The first coordinate.
    pub fn x(&self) -> (r: &T)
        ensures
            *r == self.x,
    {
        &self.x
    }
}

/// A point whose coordinates may have different types.
pub struct MultiPoint<X1, Y1> {
    pub x: X1,
    pub y: Y1,
}

impl<X1, Y1> MultiPoint<X1, Y1> {
    /// A point with the first coordinate of `self` and the second of `other`.
    pub fn mixup<X2, Y2>(self, other: MultiPoint<X2, Y2>) -> (r: MultiPoint<X1, Y2>)
        ensures
            r.x == self.x,
            r.y == other.y,
    {
        MultiPoint { x: self.x, y: other.y }
    }
}

} // verus!
