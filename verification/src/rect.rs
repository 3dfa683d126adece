//! Rectangles along the axes.

use vstd::prelude::*;
use std::ops::Sub;
use vstd::std_specs::ops::SubSpec;
use crate::vec2::Vec2;

verus! {

/// An axis-aligned rectangle, held as two opposite corners.
#[derive(Debug)]
pub struct Rect<T: Copy> {
    start: Vec2<T>,
    end: Vec2<T>,
}

impl<T: Copy> Rect<T> {
    /// The corner the rectangle starts at.
    pub closed spec fn start(&self) -> Vec2<T> {
        self.start
    }

    /// The corner the rectangle ends at.
    pub closed spec fn end(&self) -> Vec2<T> {
        self.end
    }

    /// The rectangle between two corners.
    pub fn new(start: Vec2<T>, end: Vec2<T>) -> (r: Self)
        ensures
            r.start() == start,
            r.end() == end,
    {
        Self { start, end }
    }
}

impl<T: Copy + Sub<Output = T>> Rect<T> {
    /// The extent of the rectangle: its end less its start, component by component.
    pub fn area(&self) -> (r: Vec2<T>)
        requires
            self.end().sub_req(self.start()),
        ensures
            T::obeys_sub_spec() ==> r == self.end().sub_spec(self.start()),
    {
        self.end - self.start
    }
}

} // verus!
