use vstd::prelude::*;

pub use crate::construct::space::IndexPoint;

verus! {

/// What a key point of a stroke is: a real point of the line, a marker, a hidden
/// point, or a point that is real along one axis only.
#[derive(Clone, Copy, PartialEq, Eq, Structural, Hash, Debug)]
pub enum KeyPointType {
    Line,
    Mark,
    Hide,
    Horizontal,
    Vertical,
}

/// A grid point together with its kind.
#[derive(Clone, Copy, PartialEq, Eq, Structural, Debug)]
pub struct KeyPoint {
    pub p_type: KeyPointType,
    pub point: IndexPoint,
}

impl KeyPoint {
    pub fn new(point: IndexPoint, p_type: KeyPointType) -> (r: Self)
        ensures
            r.point == point,
            r.p_type == p_type,
    {
        KeyPoint { p_type, point }
    }

    pub fn new_line_point(point: IndexPoint) -> (r: Self)
        ensures
            r.point == point,
            r.p_type == KeyPointType::Line,
    {
        KeyPoint { p_type: KeyPointType::Line, point }
    }
}

/// A stroke on the grid: its key points, and whether it is closed.
#[derive(Clone, Debug)]
pub struct KeyPath {
    pub closed: bool,
    pub points: Vec<KeyPoint>,
}

impl KeyPath {
    pub fn new(points: Vec<KeyPoint>, closed: bool) -> (r: Self)
        ensures
            r.points@ == points@,
            r.closed == closed,
    {
        KeyPath { closed, points }
    }

    /// Marks every point of the path as hidden.
    pub fn hide_all(&mut self)
        ensures
            final(self).closed == old(self).closed,
            final(self).points@.len() == old(self).points@.len(),
            forall|i: int|
                0 <= i < final(self).points@.len() ==> (#[trigger] final(self).points@[i]).point
                    == old(self).points@[i].point && final(self).points@[i].p_type
                    == KeyPointType::Hide,
    {
        let n = self.points.len();
        let mut i: usize = 0;
        while i < n
            invariant
                n == self.points@.len(),
                n == old(self).points@.len(),
                self.closed == old(self).closed,
                0 <= i <= n,
                forall|k: int|
                    0 <= k < n ==> (#[trigger] self.points@[k]).point == old(self).points@[k].point,
                forall|k: int| 0 <= k < i ==> (#[trigger] self.points@[k]).p_type == KeyPointType::Hide,
            decreases n - i,
        {
            let p = self.points[i].point;
            self.points.set(i, KeyPoint { p_type: KeyPointType::Hide, point: p });
            i = i + 1;
        }
    }
}

} // verus!
