pub mod space;
pub mod attribute;
pub mod view;
pub mod variety;

use vstd::prelude::*;

use crate::axis::{Axis, DataHV};
use crate::sorted::{insert_sorted, lemma_sorted_len_is_set_len, strictly_increasing};
use std::collections::BTreeMap;
use space::{IndexPoint, KeyPath, KeyPoint, KeyPointType};

verus! {

/// An error met while reading a structure.
pub struct Error {
    pub msg: String,
}

/// A size on the integer grid.
#[derive(Clone, Copy, PartialEq, Eq, Structural, Debug, Default)]
pub struct IndexSize {
    pub width: usize,
    pub height: usize,
}

impl IndexSize {
    pub fn new(width: usize, height: usize) -> (r: Self)
        ensures
            r.width == width,
            r.height == height,
    {
        IndexSize { width, height }
    }
}

/// Which key points give a structure a grid line along an axis.
#[derive(Clone, Copy, PartialEq, Eq, Structural, Debug)]
pub enum ValueMode {
    /// Points that are real along the axis: not markers, and not points that
    /// are real along the other axis only.
    Real,
    /// Every point but the markers.
    NotMark,
    /// Points that are not real along the axis.
    Unreal,
}

/// The coordinate of `p` along `axis`.
pub open spec fn coord(p: IndexPoint, axis: Axis) -> usize {
    match axis {
        Axis::Horizontal => p.x,
        Axis::Vertical => p.y,
    }
}

/// Whether a point of kind `t` counts along `axis` under `mode`.
pub open spec fn counts(mode: ValueMode, t: KeyPointType, axis: Axis) -> bool {
    let is_real = t != KeyPointType::Mark && !(axis == Axis::Horizontal && t == KeyPointType::Vertical)
        && !(axis == Axis::Vertical && t == KeyPointType::Horizontal);
    match mode {
        ValueMode::Real => is_real,
        ValueMode::NotMark => t != KeyPointType::Mark,
        ValueMode::Unreal => !is_real,
    }
}

pub(crate) fn coord_exec(p: IndexPoint, axis: Axis) -> (r: usize)
    ensures
        r == coord(p, axis),
{
    match axis {
        Axis::Horizontal => p.x,
        Axis::Vertical => p.y,
    }
}

fn counts_exec(mode: ValueMode, t: KeyPointType, axis: Axis) -> (r: bool)
    ensures
        r == counts(mode, t, axis),
{
    let is_real = t != KeyPointType::Mark && !(axis == Axis::Horizontal && t == KeyPointType::Vertical)
        && !(axis == Axis::Vertical && t == KeyPointType::Horizontal);
    match mode {
        ValueMode::Real => is_real,
        ValueMode::NotMark => t != KeyPointType::Mark,
        ValueMode::Unreal => !is_real,
    }
}

/// The value `c` takes when the grid lines from `start` to `end` are merged into
/// one: the lines between them fall onto `start`, the lines after them move back.
pub open spec fn reduce_coord(c: usize, start: usize, end: usize) -> usize {
    if start <= c && c <= end {
        start
    } else if c > end {
        (c - (end - start)) as usize
    } else {
        c
    }
}

/// Merging the grid lines from `start` to `end` keeps the order of lines,
/// puts `start` and `end` on one line at `start`, leaves the lines before
/// `start` where they are, and brings the line after `end` right next to it,
/// keeping the distances between the lines after `end`.
pub proof fn lemma_reduce_coord(a: usize, b: usize, start: usize, end: usize)
    requires
        start <= end,
    ensures
        a <= b ==> reduce_coord(a, start, end) <= reduce_coord(b, start, end),
        reduce_coord(start, start, end) == start,
        reduce_coord(end, start, end) == start,
        a < start ==> reduce_coord(a, start, end) == a,
        end < usize::MAX ==> reduce_coord((end + 1) as usize, start, end) == start + 1,
        end < a && end < b ==> reduce_coord(b, start, end) - reduce_coord(a, start, end) == b - a,
{
}

/// The point `p` turned by `q` quarter turns on a grid whose largest coordinates
/// are `max_x` and `max_y`.
pub open spec fn rotated_point(p: IndexPoint, q: int, max_x: usize, max_y: usize) -> IndexPoint {
    if q == 1 {
        IndexPoint { x: p.y, y: (max_x - p.x) as usize }
    } else if q == 2 {
        IndexPoint { x: (max_x - p.x) as usize, y: (max_y - p.y) as usize }
    } else if q == 3 {
        IndexPoint { x: (max_y - p.y) as usize, y: p.x }
    } else {
        p
    }
}

/// The kind of a point after `q` quarter turns: the one-axis kinds swap axes on
/// odd turns.
pub open spec fn rotated_type(t: KeyPointType, q: int) -> KeyPointType {
    if q % 2 == 1 {
        match t {
            KeyPointType::Horizontal => KeyPointType::Vertical,
            KeyPointType::Vertical => KeyPointType::Horizontal,
            other => other,
        }
    } else {
        t
    }
}

/// A quarter turn followed by three more gives every point of the box back,
/// with its kind: turning by one and then by three is no turn at all.
pub proof fn lemma_full_turn(p: IndexPoint, t: KeyPointType, max_x: usize, max_y: usize)
    requires
        p.x <= max_x,
        p.y <= max_y,
    ensures
        rotated_point(rotated_point(p, 1, max_x, max_y), 3, max_y, max_x) == p,
        rotated_type(rotated_type(t, 1), 3) == t,
        rotated_point(rotated_point(p, 2, max_x, max_y), 2, max_x, max_y) == p,
        rotated_type(rotated_type(t, 2), 2) == t,
{
}

/// The direction a segment points after a quarter turn: right becomes up, up
/// becomes left, left becomes down, down becomes right, and each diagonal
/// likewise a quarter further round; a point stays a point.
pub open spec fn quarter_turned_direction(c: char) -> char {
    if c == '6' {
        '8'
    } else if c == '8' {
        '4'
    } else if c == '4' {
        '2'
    } else if c == '2' {
        '6'
    } else if c == '9' {
        '7'
    } else if c == '7' {
        '1'
    } else if c == '1' {
        '3'
    } else if c == '3' {
        '9'
    } else {
        c
    }
}

/// A quarter turn keeps the grid: the box up to `(max_x, max_y)` goes onto
/// the box up to `(max_y, max_x)`; and it turns every segment a quarter:
/// each direction becomes the next one round.
pub proof fn lemma_quarter_turn(p1: IndexPoint, p2: IndexPoint, max_x: usize, max_y: usize)
    requires
        p1.x <= max_x,
        p1.y <= max_y,
        p2.x <= max_x,
        p2.y <= max_y,
    ensures
        rotated_point(p1, 1, max_x, max_y).x <= max_y,
        rotated_point(p1, 1, max_x, max_y).y <= max_x,
        crate::struc::attribute::connect_symbol(rotated_point(p1, 1, max_x, max_y), rotated_point(p2, 1, max_x, max_y))
            == quarter_turned_direction(crate::struc::attribute::connect_symbol(p1, p2)),
{
}

/// Turning by `q + 1` quarter turns is turning by `q` and then by one more on
/// the grid that the first `q` turns leave, whose box has its sides swapped
/// after an odd number of turns; four turns are none.
pub proof fn lemma_turns_compose(p: IndexPoint, t: KeyPointType, max_x: usize, max_y: usize, q: int)
    requires
        p.x <= max_x,
        p.y <= max_y,
        0 <= q <= 3,
    ensures
        rotated_point(p, (q + 1) % 4, max_x, max_y) == rotated_point(
            rotated_point(p, q, max_x, max_y),
            1,
            if q % 2 == 1 {
                max_y
            } else {
                max_x
            },
            if q % 2 == 1 {
                max_x
            } else {
                max_y
            },
        ),
        rotated_type(t, (q + 1) % 4) == rotated_type(rotated_type(t, q), 1),
{
}

/// One of the first `k` strings of `tags` reads `t`.
pub open spec fn tag_among(tags: Seq<String>, k: int, t: Seq<char>) -> bool {
    exists|q: int| 0 <= q < k && #[trigger] tags[q]@ == t
}

/// The key point `kp` turned by `q` quarter turns.
pub open spec fn rotated_key_point(kp: KeyPoint, q: int, max_x: usize, max_y: usize) -> KeyPoint {
    KeyPoint { p_type: rotated_type(kp.p_type, q), point: rotated_point(kp.point, q, max_x, max_y) }
}

/// A structure: strokes on an integer grid, and tags.
#[derive(Clone, Debug)]
pub struct Struc {
    pub key_paths: Vec<KeyPath>,
    pub tags: Vec<String>,
}

/// The prototype of a component.
pub type StrucProto = Struc;

impl Struc {
    /// The `j`-th point of the `i`-th path.
    pub open spec fn point_of(&self, i: int, j: int) -> KeyPoint {
        self.key_paths@[i].points@[j]
    }

    /// `(i, j)` names a point of the structure.
    pub open spec fn valid_index(&self, i: int, j: int) -> bool {
        0 <= i < self.key_paths@.len() && 0 <= j < self.key_paths@[i].points@.len()
    }

    /// Some point that counts under `mode` has the coordinate `v` along `axis`.
    pub open spec fn has_coord(&self, axis: Axis, mode: ValueMode, v: usize) -> bool {
        exists|i: int, j: int|
            #![trigger self.point_of(i, j)]
            self.valid_index(i, j) && counts(mode, self.point_of(i, j).p_type, axis) && coord(
                self.point_of(i, j).point,
                axis,
            ) == v
    }

    /// The coordinates along `axis` of the points that count under `mode`.
    pub open spec fn coord_set(&self, axis: Axis, mode: ValueMode) -> Set<usize> {
        Set::new(|v: usize| self.has_coord(axis, mode, v))
    }

    /// `m` lists, sorted and once each, the coordinates along `axis` of the
    /// points that count under `mode`.
    pub open spec fn lists_values(&self, m: Seq<usize>, axis: Axis, mode: ValueMode) -> bool {
        &&& strictly_increasing(m)
        &&& forall|v: usize| m.contains(v) <==> self.has_coord(axis, mode, v)
    }

    /// The structure has at least one point.
    pub open spec fn has_points(&self) -> bool {
        exists|i: int, j: int| #![trigger self.valid_index(i, j)] self.valid_index(i, j)
    }

    /// No tag occurs twice.
    pub open spec fn tags_unique(&self) -> bool {
        forall|a: int, b: int|
            0 <= a < b < self.tags@.len() ==> self.tags@[a]@ != self.tags@[b]@
    }


    /// Every coordinate is below `usize::MAX`.
    pub open spec fn coords_bounded(&self) -> bool {
        forall|i: int, j: int|
            #![trigger self.point_of(i, j)]
            self.valid_index(i, j) ==> self.point_of(i, j).point.x < usize::MAX && self.point_of(
                i,
                j,
            ).point.y < usize::MAX
    }

    /// `v` is the smallest coordinate of the points along `axis`.
    pub open spec fn is_min_coord(&self, axis: Axis, v: usize) -> bool {
        &&& exists|i: int, j: int|
            #![trigger self.point_of(i, j)]
            self.valid_index(i, j) && coord(self.point_of(i, j).point, axis) == v
        &&& forall|i: int, j: int|
            #![trigger self.point_of(i, j)]
            self.valid_index(i, j) ==> v <= coord(self.point_of(i, j).point, axis)
    }

    /// `v` is the largest coordinate of the points along `axis`.
    pub open spec fn is_max_coord(&self, axis: Axis, v: usize) -> bool {
        &&& exists|i: int, j: int|
            #![trigger self.point_of(i, j)]
            self.valid_index(i, j) && coord(self.point_of(i, j).point, axis) == v
        &&& forall|i: int, j: int|
            #![trigger self.point_of(i, j)]
            self.valid_index(i, j) ==> coord(self.point_of(i, j).point, axis) <= v
    }

    /// The structure has no path.
    pub fn is_empty(&self) -> (r: bool)
        ensures
            r == (self.key_paths@.len() == 0),
    {
        self.key_paths.len() == 0
    }

    fn axis_bounds(&self, axis: Axis) -> (r: (usize, usize))
        requires
            self.coords_bounded(),
        ensures
            !self.has_points() ==> r == (0usize, 0usize),
            self.has_points() ==> self.is_min_coord(axis, r.0) && self.is_max_coord(axis, r.1),
    {
        let mut lo: usize = usize::MAX;
        let mut hi: usize = 0;
        let n = self.key_paths.len();
        let mut i: usize = 0;
        while i < n
            invariant
                n == self.key_paths@.len(),
                0 <= i <= n,
                self.coords_bounded(),
                lo == usize::MAX <==> !(exists|i2: int, j2: int|
                    #![trigger self.valid_index(i2, j2)]
                    self.valid_index(i2, j2) && i2 < i),
                lo < usize::MAX ==> exists|i2: int, j2: int|
                    #![trigger self.valid_index(i2, j2)]
                    self.valid_index(i2, j2) && i2 < i && coord(self.point_of(i2, j2).point, axis)
                        == lo,
                lo < usize::MAX ==> exists|i2: int, j2: int|
                    #![trigger self.valid_index(i2, j2)]
                    self.valid_index(i2, j2) && i2 < i && coord(self.point_of(i2, j2).point, axis)
                        == hi,
                lo == usize::MAX ==> hi == 0,
                forall|i2: int, j2: int|
                    #![trigger self.valid_index(i2, j2)]
                    self.valid_index(i2, j2) && i2 < i ==> lo <= coord(
                        self.point_of(i2, j2).point,
                        axis,
                    ) && coord(self.point_of(i2, j2).point, axis) <= hi,
            decreases n - i,
        {
            let path = &self.key_paths[i];
            let m = path.points.len();
            let mut j: usize = 0;
            proof {
                if exists|i2: int, j2: int|
                    #![trigger self.valid_index(i2, j2)]
                    self.valid_index(i2, j2) && i2 < i {
                    let (a, b) = choose|i2: int, j2: int|
                        #![trigger self.valid_index(i2, j2)]
                        self.valid_index(i2, j2) && i2 < i;
                    assert(self.valid_index(a, b) && (a < i || (a == i && b < 0)));
                }
            }
            while j < m
                invariant
                    n == self.key_paths@.len(),
                    0 <= i < n,
                    path == self.key_paths@[i as int],
                    m == path.points@.len(),
                    0 <= j <= m,
                    self.coords_bounded(),
                    lo == usize::MAX <==> !(exists|i2: int, j2: int|
                        #![trigger self.valid_index(i2, j2)]
                        self.valid_index(i2, j2) && (i2 < i || (i2 == i && j2 < j))),
                    lo < usize::MAX ==> exists|i2: int, j2: int|
                        #![trigger self.valid_index(i2, j2)]
                        self.valid_index(i2, j2) && (i2 < i || (i2 == i && j2 < j)) && coord(
                            self.point_of(i2, j2).point,
                            axis,
                        ) == lo,
                    lo < usize::MAX ==> exists|i2: int, j2: int|
                        #![trigger self.valid_index(i2, j2)]
                        self.valid_index(i2, j2) && (i2 < i || (i2 == i && j2 < j)) && coord(
                            self.point_of(i2, j2).point,
                            axis,
                        ) == hi,
                    lo == usize::MAX ==> hi == 0,
                    forall|i2: int, j2: int|
                        #![trigger self.valid_index(i2, j2)]
                        self.valid_index(i2, j2) && (i2 < i || (i2 == i && j2 < j)) ==> lo <= coord(
                            self.point_of(i2, j2).point,
                            axis,
                        ) && coord(self.point_of(i2, j2).point, axis) <= hi,
                decreases m - j,
            {
                let c = coord_exec(path.points[j].point, axis);
                proof {
                    assert(self.point_of(i as int, j as int) == path.points@[j as int]);
                    assert(self.valid_index(i as int, j as int));
                }
                let was_empty = lo == usize::MAX;
                if c < lo {
                    lo = c;
                }
                if c > hi || was_empty {
                    hi = c;
                }
                j = j + 1;
            }
            proof {
                if exists|i2: int, j2: int|
                    #![trigger self.valid_index(i2, j2)]
                    self.valid_index(i2, j2) && i2 < i + 1 {
                    let (a, b) = choose|i2: int, j2: int|
                        #![trigger self.valid_index(i2, j2)]
                        self.valid_index(i2, j2) && i2 < i + 1;
                    assert(self.valid_index(a, b) && (a < i || (a == i && b < j)));
                }
            }
            i = i + 1;
        }
        proof {
            if self.has_points() {
                let (a, b) = choose|i2: int, j2: int|
                    #![trigger self.valid_index(i2, j2)]
                    self.valid_index(i2, j2);
                assert(self.valid_index(a, b) && a < i);
            }
        }
        if lo == usize::MAX {
            lo = 0;
        }
        (lo, hi)
    }

    /// The size of the box around all points: largest minus smallest coordinate,
    /// plus one; one by one when there is no point.
    pub fn size(&self) -> (r: IndexSize)
        requires
            self.coords_bounded(),
        ensures
            !self.has_points() ==> r.width == 1 && r.height == 1,
            self.has_points() ==> exists|lo: usize, hi: usize|
                self.is_min_coord(Axis::Horizontal, lo) && self.is_max_coord(Axis::Horizontal, hi)
                    && r.width == hi + 1 - lo,
            self.has_points() ==> exists|lo: usize, hi: usize|
                self.is_min_coord(Axis::Vertical, lo) && self.is_max_coord(Axis::Vertical, hi)
                    && r.height == hi + 1 - lo,
    {
        let (lx, hx) = self.axis_bounds(Axis::Horizontal);
        let (ly, hy) = self.axis_bounds(Axis::Vertical);
        proof {
            if self.has_points() {
                let (i, j) = choose|i: int, j: int|
                    #![trigger self.valid_index(i, j)]
                    self.valid_index(i, j);
                assert(lx <= self.point_of(i, j).point.x <= hx);
                assert(ly <= self.point_of(i, j).point.y <= hy);
            }
        }
        IndexSize { width: hx + 1 - lx, height: hy + 1 - ly }
    }


    /// Some tag reads `t`.
    pub open spec fn has_tag(&self, t: Seq<char>) -> bool {
        tag_among(self.tags@, self.tags@.len() as int, t)
    }

    /// Turns the structure by `quater` quarter turns: `(x, y)` becomes
    /// `(y, max_x - x)` at each turn, and the one-axis kinds of points swap axes.
    pub fn rotate(&mut self, quater: usize)
        requires
            old(self).coords_bounded(),
            quater % 4 >= 1 && old(self).has_points() ==> old(self).is_min_coord(Axis::Horizontal, 0),
            quater % 4 >= 2 && old(self).has_points() ==> old(self).is_min_coord(Axis::Vertical, 0),
        ensures
            final(self).tags@ == old(self).tags@,
            final(self).key_paths@.len() == old(self).key_paths@.len(),
            forall|i: int|
                0 <= i < old(self).key_paths@.len() ==> ((#[trigger] final(self).key_paths@[i]).points@.len()
                    == old(self).key_paths@[i].points@.len() && final(self).key_paths@[i].closed
                    == old(self).key_paths@[i].closed),
            old(self).has_points() ==> exists|mx: usize, my: usize|
                old(self).is_max_coord(Axis::Horizontal, mx) && old(self).is_max_coord(Axis::Vertical, my)
                    && forall|i: int, j: int|
                    #![trigger final(self).point_of(i, j)]
                    old(self).valid_index(i, j) ==> final(self).point_of(i, j) == rotated_key_point(
                        old(self).point_of(i, j),
                        (quater % 4) as int,
                        mx,
                        my,
                    ),
    {
        let q = quater % 4;
        if q == 0 || self.key_paths.len() == 0 {
            proof {
                if old(self).has_points() {
                    let (a, b) = choose|i: int, j: int| #![trigger old(self).valid_index(i, j)] old(self).valid_index(i, j);
                    assert(old(self).point_of(a, b).point.x <= usize::MAX);
                    let mx = choose|v: usize| old(self).is_max_coord(Axis::Horizontal, v);
                }
            }
            if q == 0 {
                let (_lx, mx) = self.axis_bounds(Axis::Horizontal);
                let (_ly, my) = self.axis_bounds(Axis::Vertical);
                assert(old(self).has_points() ==> old(self).is_max_coord(Axis::Horizontal, mx) && old(self).is_max_coord(Axis::Vertical, my));
            }
            return;
        }
        let (_lx, mx) = self.axis_bounds(Axis::Horizontal);
        let (_ly, my) = self.axis_bounds(Axis::Vertical);
        let ghost orig = *self;
        let n = self.key_paths.len();
        let mut paths: Vec<KeyPath> = Vec::new();
        let mut i: usize = 0;
        while i < n
            invariant
                orig == *old(self),
                n == orig.key_paths@.len(),
                1 <= q <= 3,
                q == quater % 4,
                0 <= i <= n,
                paths@.len() == i,
                orig.has_points() ==> orig.is_max_coord(Axis::Horizontal, mx) && orig.is_max_coord(Axis::Vertical, my),
                q >= 1 && orig.has_points() ==> orig.is_min_coord(Axis::Horizontal, 0),
                q >= 2 && orig.has_points() ==> orig.is_min_coord(Axis::Vertical, 0),
                forall|i2: int|
                    0 <= i2 < i ==> ((#[trigger] paths@[i2]).points@.len()
                        == orig.key_paths@[i2].points@.len() && paths@[i2].closed
                        == orig.key_paths@[i2].closed),
                forall|i2: int, j2: int|
                    #![trigger paths@[i2].points@[j2]]
                    0 <= i2 < i && 0 <= j2 < orig.key_paths@[i2].points@.len() ==> paths@[i2].points@[j2]
                        == rotated_key_point(orig.point_of(i2, j2), q as int, mx, my),
            decreases n - i,
        {
            let path = &self.key_paths[i];
            let pm = path.points.len();
            let mut points: Vec<KeyPoint> = Vec::new();
            let mut j: usize = 0;
            while j < pm
                invariant
                    orig == *old(self),
                    *self == orig,
                    n == orig.key_paths@.len(),
                    0 <= i < n,
                    1 <= q <= 3,
                    path == orig.key_paths@[i as int],
                    pm == path.points@.len(),
                    0 <= j <= pm,
                    points@.len() == j,
                    orig.has_points() ==> orig.is_max_coord(Axis::Horizontal, mx) && orig.is_max_coord(Axis::Vertical, my),
                    q >= 1 && orig.has_points() ==> orig.is_min_coord(Axis::Horizontal, 0),
                    q >= 2 && orig.has_points() ==> orig.is_min_coord(Axis::Vertical, 0),
                    forall|j2: int|
                        0 <= j2 < j ==> #[trigger] points@[j2] == rotated_key_point(path.points@[j2], q as int, mx, my),
                decreases pm - j,
            {
                let kp = path.points[j];
                proof {
                    assert(orig.valid_index(i as int, j as int));
                    assert(orig.point_of(i as int, j as int) == kp);
                    assert(kp.point.x <= mx && kp.point.y <= my);
                }
                let p_type = if q % 2 == 1 {
                    match kp.p_type {
                        KeyPointType::Horizontal => KeyPointType::Vertical,
                        KeyPointType::Vertical => KeyPointType::Horizontal,
                        other => other,
                    }
                } else {
                    kp.p_type
                };
                let point = if q == 1 {
                    IndexPoint { x: kp.point.y, y: mx - kp.point.x }
                } else if q == 2 {
                    IndexPoint { x: mx - kp.point.x, y: my - kp.point.y }
                } else {
                    IndexPoint { x: my - kp.point.y, y: kp.point.x }
                };
                points.push(KeyPoint { p_type, point });
                j = j + 1;
            }
            let ghost pre = paths@;
            paths.push(KeyPath { closed: path.closed, points });
            assert forall|i2: int|
                0 <= i2 < i + 1 implies ((#[trigger] paths@[i2]).points@.len()
                    == orig.key_paths@[i2].points@.len() && paths@[i2].closed
                    == orig.key_paths@[i2].closed) by {
                if i2 < i {
                    assert(paths@[i2] == pre[i2]);
                }
            }
            assert forall|i2: int, j2: int|
                #![trigger paths@[i2].points@[j2]]
                0 <= i2 < i + 1 && 0 <= j2 < orig.key_paths@[i2].points@.len() implies paths@[i2].points@[j2]
                    == rotated_key_point(orig.point_of(i2, j2), q as int, mx, my) by {
                if i2 < i {
                    assert(paths@[i2] == pre[i2]);
                } else {
                    assert(paths@[i2].points@[j2] == points@[j2]);
                }
            }
            i = i + 1;
        }
        self.key_paths = paths;
    }

    /// Adds the paths and the tags of `other` to this structure.
    pub fn merge(&mut self, other: Self)
        requires
            old(self).tags_unique(),
        ensures
            final(self).key_paths@ == old(self).key_paths@ + other.key_paths@,
            final(self).tags_unique(),
            forall|t: Seq<char>|
                final(self).has_tag(t) <==> (old(self).has_tag(t) || other.has_tag(t)),
    {
        let ghost other0 = other;
        let mut other = other;
        let ghost orig = *self;
        self.key_paths.append(&mut other.key_paths);
        let n = other.tags.len();
        let mut k: usize = 0;
        while k < n
            invariant
                n == other.tags@.len(),
                other.tags@ == other0.tags@,
                0 <= k <= n,
                self.key_paths@ == orig.key_paths@ + other0.key_paths@,
                self.tags_unique(),
                forall|t: Seq<char>|
                    #[trigger] self.has_tag(t) <==> (orig.has_tag(t) || tag_among(other0.tags@, k as int, t)),
            decreases n - k,
        {
            let mut found = false;
            let mut p: usize = 0;
            while p < self.tags.len()
                invariant
                    0 <= p <= self.tags@.len(),
                    0 <= k < n,
                    n == other.tags@.len(),
                    found ==> self.has_tag(other.tags@[k as int]@),
                    !found ==> forall|q: int| 0 <= q < p ==> self.tags@[q]@ != other.tags@[k as int]@,
                decreases self.tags@.len() - p,
            {
                if self.tags[p] == other.tags[k] {
                    found = true;
                    assert(self.tags@[p as int]@ == other.tags@[k as int]@);
                }
                p = p + 1;
            }
            let ghost pre = *self;
            if !found {
                let t = other.tags[k].clone();
                self.tags.push(t);
                assert(self.tags@[pre.tags@.len() as int]@ == other0.tags@[k as int]@);
            }
            assert forall|t: Seq<char>| #[trigger] self.has_tag(t) <==> (orig.has_tag(t) || tag_among(other0.tags@, k + 1, t)) by {
                if pre.has_tag(t) {
                    let z = choose|z: int| 0 <= z < pre.tags@.len() && #[trigger] pre.tags@[z]@ == t;
                    assert(self.tags@[z] == pre.tags@[z]);
                }
                if tag_among(other0.tags@, k as int, t) {
                    let q = choose|q: int| 0 <= q < k && #[trigger] other0.tags@[q]@ == t;
                    assert(other0.tags@[q]@ == t);
                }
                if self.has_tag(t) && !pre.has_tag(t) {
                    let z = choose|z: int| 0 <= z < self.tags@.len() && #[trigger] self.tags@[z]@ == t;
                    assert(z == pre.tags@.len());
                    assert(other0.tags@[k as int]@ == t);
                }
                if other0.tags@[k as int]@ == t {
                    if found {
                        assert(pre.has_tag(t));
                    } else {
                        assert(self.tags@[pre.tags@.len() as int]@ == t);
                    }
                }
            }
            k = k + 1;
        }
        assert forall|t: Seq<char>| self.has_tag(t) <==> (orig.has_tag(t) || other0.has_tag(t)) by {
            assert(other0.tags@.len() == n);
        }
    }

    /// The sorted coordinates along `axis` of the points that count under `mode`.
    pub fn collect_values(&self, axis: Axis, mode: ValueMode) -> (r: Vec<usize>)
        ensures
            self.lists_values(r@, axis, mode),
    {
        let mut r: Vec<usize> = Vec::new();
        let n = self.key_paths.len();
        let mut i: usize = 0;
        while i < n
            invariant
                n == self.key_paths@.len(),
                0 <= i <= n,
                strictly_increasing(r@),
                forall|v: usize|
                    r@.contains(v) <==> exists|i2: int, j2: int|
                        #![trigger self.point_of(i2, j2)]
                        self.valid_index(i2, j2) && i2 < i && counts(
                            mode,
                            self.point_of(i2, j2).p_type,
                            axis,
                        ) && coord(self.point_of(i2, j2).point, axis) == v,
            decreases n - i,
        {
            let path = &self.key_paths[i];
            let m = path.points.len();
            let mut j: usize = 0;
            while j < m
                invariant
                    n == self.key_paths@.len(),
                    0 <= i < n,
                    path == self.key_paths@[i as int],
                    m == path.points@.len(),
                    0 <= j <= m,
                    strictly_increasing(r@),
                    forall|v: usize|
                        r@.contains(v) <==> exists|i2: int, j2: int|
                            #![trigger self.point_of(i2, j2)]
                            self.valid_index(i2, j2) && (i2 < i || (i2 == i && j2 < j)) && counts(
                                mode,
                                self.point_of(i2, j2).p_type,
                                axis,
                            ) && coord(self.point_of(i2, j2).point, axis) == v,
                decreases m - j,
            {
                let kp = path.points[j];
                let ghost pre = r@;
                if counts_exec(mode, kp.p_type, axis) {
                    insert_sorted(&mut r, coord_exec(kp.point, axis));
                }
                assert forall|v: usize|
                    r@.contains(v) <==> exists|i2: int, j2: int|
                        #![trigger self.point_of(i2, j2)]
                        self.valid_index(i2, j2) && (i2 < i || (i2 == i && j2 < j + 1)) && counts(
                            mode,
                            self.point_of(i2, j2).p_type,
                            axis,
                        ) && coord(self.point_of(i2, j2).point, axis) == v by {
                    assert(self.point_of(i as int, j as int) == kp);
                    if r@.contains(v) && !pre.contains(v) {
                        assert(self.valid_index(i as int, j as int));
                    }
                    if exists|i2: int, j2: int|
                        #![trigger self.point_of(i2, j2)]
                        self.valid_index(i2, j2) && (i2 < i || (i2 == i && j2 < j + 1)) && counts(
                            mode,
                            self.point_of(i2, j2).p_type,
                            axis,
                        ) && coord(self.point_of(i2, j2).point, axis) == v {
                        let (i2, j2) = choose|i2: int, j2: int|
                            #![trigger self.point_of(i2, j2)]
                            self.valid_index(i2, j2) && (i2 < i || (i2 == i && j2 < j + 1))
                                && counts(mode, self.point_of(i2, j2).p_type, axis) && coord(
                                self.point_of(i2, j2).point,
                                axis,
                            ) == v;
                        if i2 < i || j2 < j {
                            assert(pre.contains(v));
                        }
                    }
                }
                j = j + 1;
            }
            assert forall|v: usize|
                r@.contains(v) <==> exists|i2: int, j2: int|
                    #![trigger self.point_of(i2, j2)]
                    self.valid_index(i2, j2) && i2 < i + 1 && counts(
                        mode,
                        self.point_of(i2, j2).p_type,
                        axis,
                    ) && coord(self.point_of(i2, j2).point, axis) == v by {
                if exists|i2: int, j2: int|
                    #![trigger self.point_of(i2, j2)]
                    self.valid_index(i2, j2) && i2 < i + 1 && counts(
                        mode,
                        self.point_of(i2, j2).p_type,
                        axis,
                    ) && coord(self.point_of(i2, j2).point, axis) == v {
                    let (i2, j2) = choose|i2: int, j2: int|
                        #![trigger self.point_of(i2, j2)]
                        self.valid_index(i2, j2) && i2 < i + 1 && counts(
                            mode,
                            self.point_of(i2, j2).p_type,
                            axis,
                        ) && coord(self.point_of(i2, j2).point, axis) == v;
                    assert(i2 < i || (i2 == i && j2 < j));
                }
            }
            i = i + 1;
        }
        r
    }

    /// For each axis, the sorted coordinates of the points that are real along it.
    pub fn maps_to_real_point(&self) -> (r: DataHV<Vec<usize>>)
        ensures
            self.lists_values(r.h@, Axis::Horizontal, ValueMode::Real),
            self.lists_values(r.v@, Axis::Vertical, ValueMode::Real),
    {
        DataHV {
            h: self.collect_values(Axis::Horizontal, ValueMode::Real),
            v: self.collect_values(Axis::Vertical, ValueMode::Real),
        }
    }

    /// For each axis, the sorted coordinates of the points that are not markers.
    pub fn maps_to_not_mark_pos(&self) -> (r: DataHV<Vec<usize>>)
        ensures
            self.lists_values(r.h@, Axis::Horizontal, ValueMode::NotMark),
            self.lists_values(r.v@, Axis::Vertical, ValueMode::NotMark),
    {
        DataHV {
            h: self.collect_values(Axis::Horizontal, ValueMode::NotMark),
            v: self.collect_values(Axis::Vertical, ValueMode::NotMark),
        }
    }

    /// The number of distinct grid lines along each axis that real points lie on.
    pub fn real_size(&self) -> (r: IndexSize)
        ensures
            self.coord_set(Axis::Horizontal, ValueMode::Real).finite(),
            self.coord_set(Axis::Vertical, ValueMode::Real).finite(),
            r.width == self.coord_set(Axis::Horizontal, ValueMode::Real).len(),
            r.height == self.coord_set(Axis::Vertical, ValueMode::Real).len(),
    {
        let maps = self.maps_to_real_point();
        proof {
            self.lemma_coord_set_len(maps.h@, Axis::Horizontal, ValueMode::Real);
            self.lemma_coord_set_len(maps.v@, Axis::Vertical, ValueMode::Real);
        }
        IndexSize { width: maps.h.len(), height: maps.v.len() }
    }

    /// The list of a structure's values has as many elements as its set of values.
    pub proof fn lemma_coord_set_len(&self, m: Seq<usize>, axis: Axis, mode: ValueMode)
        requires
            self.lists_values(m, axis, mode),
        ensures
            self.coord_set(axis, mode) == m.to_set(),
            self.coord_set(axis, mode).finite(),
            self.coord_set(axis, mode).len() == m.len(),
    {
        assert(self.coord_set(axis, mode) =~= m.to_set());
        lemma_sorted_len_is_set_len(m);
    }

    /// For each axis, the sorted coordinates that only points which are not real
    /// along it lie on.
    pub fn unreliable_in(&self) -> (r: DataHV<Vec<usize>>)
        ensures
            strictly_increasing(r.h@),
            strictly_increasing(r.v@),
            forall|v: usize|
                r.h@.contains(v) <==> (self.has_coord(Axis::Horizontal, ValueMode::Unreal, v)
                    && !self.has_coord(Axis::Horizontal, ValueMode::Real, v)),
            forall|v: usize|
                r.v@.contains(v) <==> (self.has_coord(Axis::Vertical, ValueMode::Unreal, v)
                    && !self.has_coord(Axis::Vertical, ValueMode::Real, v)),
    {
        DataHV { h: self.unreliable_in_axis(Axis::Horizontal), v: self.unreliable_in_axis(Axis::Vertical) }
    }

    pub(crate) fn unreliable_in_axis(&self, axis: Axis) -> (r: Vec<usize>)
        ensures
            strictly_increasing(r@),
            forall|v: usize|
                r@.contains(v) <==> (self.has_coord(axis, ValueMode::Unreal, v) && !self.has_coord(
                    axis,
                    ValueMode::Real,
                    v,
                )),
    {
        let unreal = self.collect_values(axis, ValueMode::Unreal);
        let reals = self.collect_values(axis, ValueMode::Real);
        let mut r: Vec<usize> = Vec::new();
        let mut k: usize = 0;
        while k < unreal.len()
            invariant
                0 <= k <= unreal@.len(),
                self.lists_values(unreal@, axis, ValueMode::Unreal),
                self.lists_values(reals@, axis, ValueMode::Real),
                strictly_increasing(r@),
                forall|t: int| 0 <= t < r@.len() ==> exists|q: int| 0 <= q < k && unreal@[q] == #[trigger] r@[t],
                forall|v: usize|
                    r@.contains(v) <==> (exists|q: int| 0 <= q < k && unreal@[q] == v) && !reals@.contains(v),
            decreases unreal@.len() - k,
        {
            let v = unreal[k];
            let ghost pre = r@;
            if crate::sorted::sorted_position(&reals, v).is_none() {
                proof {
                    assert forall|t: int| 0 <= t < pre.len() implies pre[t] < v by {
                        let q = choose|q: int| 0 <= q < k && unreal@[q] == pre[t];
                        assert(unreal@[q] < unreal@[k as int]);
                    }
                }
                r.push(v);
                assert forall|t: int| 0 <= t < r@.len() implies exists|q: int|
                    0 <= q < k + 1 && unreal@[q] == #[trigger] r@[t] by {
                    if t < pre.len() {
                        assert(r@[t] == pre[t]);
                    } else {
                        assert(unreal@[k as int] == r@[t]);
                    }
                }
                assert forall|w: usize|
                    r@.contains(w) <==> (exists|q: int| 0 <= q < k + 1 && unreal@[q] == w)
                        && !reals@.contains(w) by {
                    if r@.contains(w) {
                        let t = choose|t: int| 0 <= t < r@.len() && r@[t] == w;
                        if t < pre.len() {
                            assert(pre.contains(w));
                        }
                    }
                    if (exists|q: int| 0 <= q < k + 1 && unreal@[q] == w) && !reals@.contains(w) {
                        if w != v {
                            assert(pre.contains(w));
                            let t = choose|t: int| 0 <= t < pre.len() && pre[t] == w;
                            assert(r@[t] == w);
                        } else {
                            assert(r@[pre.len() as int] == w);
                        }
                    }
                }
            } else {
                assert forall|w: usize|
                    r@.contains(w) <==> (exists|q: int| 0 <= q < k + 1 && unreal@[q] == w)
                        && !reals@.contains(w) by {
                    if (exists|q: int| 0 <= q < k + 1 && unreal@[q] == w) && !reals@.contains(w) {
                        let q = choose|q: int| 0 <= q < k + 1 && unreal@[q] == w;
                        assert(q < k);
                    }
                }
            }
            k = k + 1;
        }
        assert forall|w: usize|
            r@.contains(w) <==> (self.has_coord(axis, ValueMode::Unreal, w) && !self.has_coord(
                axis,
                ValueMode::Real,
                w,
            )) by {
            if self.has_coord(axis, ValueMode::Unreal, w) {
                assert(unreal@.contains(w));
                let q = choose|q: int| 0 <= q < unreal@.len() && unreal@[q] == w;
                assert(unreal@[q] == w);
            }
            if r@.contains(w) {
                let q = choose|q: int| 0 <= q < unreal@.len() && unreal@[q] == w;
                assert(unreal@.contains(w));
            }
        }
        r
    }

    /// Merges the grid lines `index` and `index + 1` (counted among the lines
    /// that real points lie on along `axis`) into one.
    pub fn reduce(self, axis: Axis, index: usize) -> (r: Self)
        requires
            self.coord_set(axis, ValueMode::Real).finite(),
            index + 1 < self.coord_set(axis, ValueMode::Real).len(),
        ensures
            r.tags@ == self.tags@,
            r.key_paths@.len() == self.key_paths@.len(),
            exists|m: Seq<usize>|
                #![trigger self.lists_values(m, axis, ValueMode::Real)]
                self.lists_values(m, axis, ValueMode::Real) && index + 1 < m.len() && forall|
                    i: int,
                    j: int,
                | #![trigger r.point_of(i, j)]
                    self.valid_index(i, j) ==> {
                        &&& r.valid_index(i, j)
                        &&& r.point_of(i, j).p_type == self.point_of(i, j).p_type
                        &&& coord(r.point_of(i, j).point, axis) == reduce_coord(
                            coord(self.point_of(i, j).point, axis),
                            m[index as int],
                            m[index + 1],
                        )
                        &&& coord(r.point_of(i, j).point, crate::axis::spec_axis_inverse(axis))
                            == coord(
                            self.point_of(i, j).point,
                            crate::axis::spec_axis_inverse(axis),
                        )
                    },
            forall|i: int|
                0 <= i < self.key_paths@.len() ==> ((#[trigger] r.key_paths@[i]).points@.len()
                    == self.key_paths@[i].points@.len() && r.key_paths@[i].closed
                    == self.key_paths@[i].closed),
    {
        let m = self.collect_values(axis, ValueMode::Real);
        proof {
            self.lemma_coord_set_len(m@, axis, ValueMode::Real);
        }
        let mlen = m.len();
        assert(index + 1 < mlen);
        let start = m[index];
        let end = m[index + 1];
        let length = end - start;
        let n = self.key_paths.len();
        let mut paths: Vec<KeyPath> = Vec::new();
        let mut i: usize = 0;
        while i < n
            invariant
                n == self.key_paths@.len(),
                0 <= i <= n,
                paths@.len() == i,
                index + 1 < m@.len(),
                start == m@[index as int],
                end == m@[index + 1],
                start < end,
                length == end - start,
                forall|i2: int, j2: int|
                    #![trigger paths@[i2].points@[j2]]
                    0 <= i2 < i && 0 <= j2 < self.key_paths@[i2].points@.len() ==> {
                        &&& j2 < paths@[i2].points@.len()
                        &&& paths@[i2].points@[j2].p_type == self.point_of(i2, j2).p_type
                        &&& coord(paths@[i2].points@[j2].point, axis) == reduce_coord(
                            coord(self.point_of(i2, j2).point, axis),
                            start,
                            end,
                        )
                        &&& coord(
                            paths@[i2].points@[j2].point,
                            crate::axis::spec_axis_inverse(axis),
                        ) == coord(
                            self.point_of(i2, j2).point,
                            crate::axis::spec_axis_inverse(axis),
                        )
                    },
                forall|i2: int|
                    0 <= i2 < i ==> #[trigger] paths@[i2].points@.len()
                        == self.key_paths@[i2].points@.len() && paths@[i2].closed
                        == self.key_paths@[i2].closed,
            decreases n - i,
        {
            let path = &self.key_paths[i];
            let pm = path.points.len();
            let mut points: Vec<KeyPoint> = Vec::new();
            let mut j: usize = 0;
            while j < pm
                invariant
                    0 <= i < n,
                    n == self.key_paths@.len(),
                    path == self.key_paths@[i as int],
                    pm == path.points@.len(),
                    0 <= j <= pm,
                    points@.len() == j,
                    start < end,
                    length == end - start,
                    forall|j2: int|
                        0 <= j2 < j ==> {
                            &&& (#[trigger] points@[j2]).p_type == path.points@[j2].p_type
                            &&& coord(points@[j2].point, axis) == reduce_coord(
                                coord(path.points@[j2].point, axis),
                                start,
                                end,
                            )
                            &&& coord(points@[j2].point, crate::axis::spec_axis_inverse(axis))
                                == coord(
                                path.points@[j2].point,
                                crate::axis::spec_axis_inverse(axis),
                            )
                        },
                decreases pm - j,
            {
                let kp = path.points[j];
                let c = coord_exec(kp.point, axis);
                let nc = if start <= c && c <= end {
                    start
                } else if c > end {
                    c - length
                } else {
                    c
                };
                let np = match axis {
                    Axis::Horizontal => IndexPoint { x: nc, y: kp.point.y },
                    Axis::Vertical => IndexPoint { x: kp.point.x, y: nc },
                };
                points.push(KeyPoint { p_type: kp.p_type, point: np });
                j = j + 1;
            }
            let ghost pre = paths@;
            paths.push(KeyPath { closed: path.closed, points });
            assert(paths@[i as int].points@.len() == self.key_paths@[i as int].points@.len());
            assert forall|i2: int| 0 <= i2 < i + 1 implies #[trigger] paths@[i2].points@.len()
                == self.key_paths@[i2].points@.len() && paths@[i2].closed
                == self.key_paths@[i2].closed by {
                if i2 < i {
                    assert(paths@[i2] == pre[i2]);
                }
            }
            assert forall|i2: int, j2: int|
                #![trigger paths@[i2].points@[j2]]
                0 <= i2 < i + 1 && 0 <= j2 < self.key_paths@[i2].points@.len() implies {
                    &&& j2 < paths@[i2].points@.len()
                    &&& paths@[i2].points@[j2].p_type == self.point_of(i2, j2).p_type
                    &&& coord(paths@[i2].points@[j2].point, axis) == reduce_coord(
                        coord(self.point_of(i2, j2).point, axis),
                        start,
                        end,
                    )
                    &&& coord(
                        paths@[i2].points@[j2].point,
                        crate::axis::spec_axis_inverse(axis),
                    ) == coord(
                        self.point_of(i2, j2).point,
                        crate::axis::spec_axis_inverse(axis),
                    )
                } by {
                if i2 < i {
                    assert(paths@[i2] == pre[i2]);
                } else {
                    assert(points@[j2].p_type == path.points@[j2].p_type);
                }
            }
            i = i + 1;
        }
        let r = Struc { key_paths: paths, tags: self.tags };
        assert(self.lists_values(m@, axis, ValueMode::Real));
        assert forall|i: int| 0 <= i < self.key_paths@.len() implies ((#[trigger] r.key_paths@[i]).points@.len()
            == self.key_paths@[i].points@.len() && r.key_paths@[i].closed
            == self.key_paths@[i].closed) by {
            assert(paths@[i].points@.len() == self.key_paths@[i].points@.len());
        }
        r
    }
}

/// How many entries of `s` lie below `v`.
pub open spec fn count_below(s: Seq<usize>, v: usize) -> int
    decreases s.len(),
{
    if s.len() == 0 {
        0
    } else {
        count_below(s.drop_last(), v) + if s.last() < v {
            1int
        } else {
            0int
        }
    }
}

/// A sorted list without repeats reaches at least its own positions.
pub proof fn lemma_increasing_at_least_index(s: Seq<usize>)
    requires
        strictly_increasing(s),
    ensures
        forall|i: int| 0 <= i < s.len() ==> i <= #[trigger] s[i],
    decreases s.len(),
{
    if s.len() > 0 {
        let t = s.drop_last();
        lemma_increasing_at_least_index(t);
        assert forall|i: int| 0 <= i < s.len() implies i <= #[trigger] s[i] by {
            if i < s.len() - 1 {
                assert(s[i] == t[i]);
            } else if i > 0 {
                assert(s[i - 1] == t[i - 1]);
                assert(s[i - 1] < s[i]);
            }
        }
    }
}

/// Fewer entries of a sorted list without repeats lie below `v` than `v` itself.
pub proof fn lemma_count_below_bound(s: Seq<usize>, v: usize)
    requires
        strictly_increasing(s),
    ensures
        0 <= count_below(s, v) <= v,
        count_below(s, v) <= s.len(),
    decreases s.len(),
{
    if s.len() > 0 {
        let t = s.drop_last();
        assert(strictly_increasing(t));
        lemma_count_below_bound(t, v);
        if s.last() < v {
            lemma_increasing_at_least_index(s);
            assert(s.len() - 1 <= s[s.len() - 1]);
        }
    }
}

impl Struc {
    /// For each axis, the map from every coordinate that a point lies on to
    /// whether a point that is real along the axis lies on it.
    pub fn axis_info(&self) -> (r: DataHV<BTreeMap<usize, bool>>)
        ensures
            r.h@ == Map::new(
                |v: usize|
                    self.has_coord(Axis::Horizontal, ValueMode::Real, v) || self.has_coord(
                        Axis::Horizontal,
                        ValueMode::Unreal,
                        v,
                    ),
                |v: usize| self.has_coord(Axis::Horizontal, ValueMode::Real, v),
            ),
            r.v@ == Map::new(
                |v: usize|
                    self.has_coord(Axis::Vertical, ValueMode::Real, v) || self.has_coord(
                        Axis::Vertical,
                        ValueMode::Unreal,
                        v,
                    ),
                |v: usize| self.has_coord(Axis::Vertical, ValueMode::Real, v),
            ),
    {
        DataHV { h: self.axis_info_in(Axis::Horizontal), v: self.axis_info_in(Axis::Vertical) }
    }

    fn axis_info_in(&self, axis: Axis) -> (r: BTreeMap<usize, bool>)
        ensures
            r@ == Map::new(
                |v: usize| self.has_coord(axis, ValueMode::Real, v) || self.has_coord(axis, ValueMode::Unreal, v),
                |v: usize| self.has_coord(axis, ValueMode::Real, v),
            ),
    {
        proof {
            crate::component::struc::lemma_usize_key_order();
        }
        let reals = self.collect_values(axis, ValueMode::Real);
        let unreals = self.collect_values(axis, ValueMode::Unreal);
        let mut m: BTreeMap<usize, bool> = BTreeMap::new();
        let mut k: usize = 0;
        while k < unreals.len()
            invariant
                crate::component::struc::usize_keys_ordered(),
                self.lists_values(reals@, axis, ValueMode::Real),
                self.lists_values(unreals@, axis, ValueMode::Unreal),
                0 <= k <= unreals@.len(),
                m@ == Map::new(
                    |v: usize| exists|q: int| 0 <= q < k && unreals@[q] == v,
                    |v: usize| false,
                ),
            decreases unreals@.len() - k,
        {
            let ghost pre = m@;
            m.insert(unreals[k], false);
            proof {
                let target = Map::new(
                    |v: usize| exists|q: int| 0 <= q < k + 1 && unreals@[q] == v,
                    |v: usize| false,
                );
                assert forall|v: usize| #[trigger] m@.contains_key(v) <==> target.contains_key(v) by {
                    if target.contains_key(v) {
                        let q = choose|q: int| 0 <= q < k + 1 && unreals@[q] == v;
                        if q < k {
                            assert(pre.contains_key(v));
                        }
                    }
                    if pre.contains_key(v) {
                        let q = choose|q: int| 0 <= q < k && unreals@[q] == v;
                        assert(target.contains_key(v));
                    }
                }
                assert(m@ =~= target);
            }
            k = k + 1;
        }
        let mut j: usize = 0;
        while j < reals.len()
            invariant
                crate::component::struc::usize_keys_ordered(),
                self.lists_values(reals@, axis, ValueMode::Real),
                self.lists_values(unreals@, axis, ValueMode::Unreal),
                0 <= j <= reals@.len(),
                m@ == Map::new(
                    |v: usize|
                        (exists|q: int| 0 <= q < unreals@.len() && unreals@[q] == v) || (exists|q: int|
                            0 <= q < j && reals@[q] == v),
                    |v: usize| exists|q: int| 0 <= q < j && reals@[q] == v,
                ),
            decreases reals@.len() - j,
        {
            let ghost pre = m@;
            m.insert(reals[j], true);
            proof {
                let target = Map::new(
                    |v: usize|
                        (exists|q: int| 0 <= q < unreals@.len() && unreals@[q] == v) || (exists|q: int|
                            0 <= q < j + 1 && reals@[q] == v),
                    |v: usize| exists|q: int| 0 <= q < j + 1 && reals@[q] == v,
                );
                assert forall|v: usize| #[trigger] m@.contains_key(v) <==> target.contains_key(v) by {
                    if exists|q: int| 0 <= q < j + 1 && reals@[q] == v {
                        let q = choose|q: int| 0 <= q < j + 1 && reals@[q] == v;
                        if q < j {
                            assert(pre.contains_key(v));
                        }
                    }
                    if exists|q: int| 0 <= q < j && reals@[q] == v {
                        let q = choose|q: int| 0 <= q < j && reals@[q] == v;
                        assert(target.contains_key(v));
                    }
                }
                assert forall|v: usize| #[trigger] m@.contains_key(v) implies m@[v] == target[v] by {
                    if v == reals@[j as int] {
                        assert(target[v]);
                    } else {
                        if exists|q: int| 0 <= q < j + 1 && reals@[q] == v {
                            let q = choose|q: int| 0 <= q < j + 1 && reals@[q] == v;
                            assert(q < j);
                        }
                    }
                }
                assert(m@ =~= target);
            }
            j = j + 1;
        }
        proof {
            let target = Map::new(
                |v: usize| self.has_coord(axis, ValueMode::Real, v) || self.has_coord(axis, ValueMode::Unreal, v),
                |v: usize| self.has_coord(axis, ValueMode::Real, v),
            );
            assert forall|v: usize| #[trigger] m@.contains_key(v) <==> target.contains_key(v) by {
                if self.has_coord(axis, ValueMode::Real, v) {
                    assert(reals@.contains(v));
                }
                if self.has_coord(axis, ValueMode::Unreal, v) {
                    assert(unreals@.contains(v));
                }
                if exists|q: int| 0 <= q < reals@.len() && reals@[q] == v {
                    let q = choose|q: int| 0 <= q < reals@.len() && reals@[q] == v;
                    assert(reals@.contains(v));
                }
                if exists|q: int| 0 <= q < unreals@.len() && unreals@[q] == v {
                    let q = choose|q: int| 0 <= q < unreals@.len() && unreals@[q] == v;
                    assert(unreals@.contains(v));
                }
            }
            assert forall|v: usize| #[trigger] m@.contains_key(v) implies m@[v] == target[v] by {
                if self.has_coord(axis, ValueMode::Real, v) {
                    assert(reals@.contains(v));
                }
                if exists|q: int| 0 <= q < reals@.len() && reals@[q] == v {
                    let q = choose|q: int| 0 <= q < reals@.len() && reals@[q] == v;
                    assert(reals@.contains(v));
                }
            }
            assert(m@ =~= target);
        }
        m
    }

    /// The size of the structure with the grid lines that only unreal points
    /// lie on left out: along each axis, the last grid line of a real point
    /// less the number of such lines before it; zero without real points.
    pub fn alloc_size(&self) -> (r: IndexSize)
        ensures
            exists|rl: Seq<usize>, ul: Seq<usize>|
                #![trigger self.lists_values(rl, Axis::Horizontal, ValueMode::Real), strictly_increasing(ul)]
                self.lists_values(rl, Axis::Horizontal, ValueMode::Real) && strictly_increasing(ul)
                    && (forall|v: usize|
                    ul.contains(v) <==> (self.has_coord(Axis::Horizontal, ValueMode::Unreal, v)
                        && !self.has_coord(Axis::Horizontal, ValueMode::Real, v))) && r.width == if rl.len()
                    == 0 {
                    0
                } else {
                    rl.last() - count_below(ul, rl.last())
                },
            exists|rl: Seq<usize>, ul: Seq<usize>|
                #![trigger self.lists_values(rl, Axis::Vertical, ValueMode::Real), strictly_increasing(ul)]
                self.lists_values(rl, Axis::Vertical, ValueMode::Real) && strictly_increasing(ul)
                    && (forall|v: usize|
                    ul.contains(v) <==> (self.has_coord(Axis::Vertical, ValueMode::Unreal, v)
                        && !self.has_coord(Axis::Vertical, ValueMode::Real, v))) && r.height == if rl.len()
                    == 0 {
                    0
                } else {
                    rl.last() - count_below(ul, rl.last())
                },
    {
        let w = self.alloc_length(Axis::Horizontal);
        let h = self.alloc_length(Axis::Vertical);
        IndexSize { width: w, height: h }
    }

    fn alloc_length(&self, axis: Axis) -> (r: usize)
        ensures
            exists|rl: Seq<usize>, ul: Seq<usize>|
                #![trigger self.lists_values(rl, axis, ValueMode::Real), strictly_increasing(ul)]
                self.lists_values(rl, axis, ValueMode::Real) && strictly_increasing(ul) && (forall|v: usize|
                    ul.contains(v) <==> (self.has_coord(axis, ValueMode::Unreal, v) && !self.has_coord(
                        axis,
                        ValueMode::Real,
                        v,
                    ))) && r == if rl.len() == 0 {
                    0
                } else {
                    rl.last() - count_below(ul, rl.last())
                },
    {
        let reals = self.collect_values(axis, ValueMode::Real);
        let ul = self.unreliable_in_axis(axis);
        if reals.len() == 0 {
            assert(self.lists_values(reals@, axis, ValueMode::Real) && strictly_increasing(ul@));
            return 0;
        }
        let last = reals[reals.len() - 1];
        let mut c: usize = 0;
        let mut k: usize = 0;
        proof {
            lemma_count_below_bound(ul@, last);
        }
        while k < ul.len()
            invariant
                0 <= k <= ul@.len(),
                strictly_increasing(ul@),
                c == count_below(ul@.take(k as int), last),
                count_below(ul@, last) <= last,
            decreases ul@.len() - k,
        {
            proof {
                assert(ul@.take(k + 1).drop_last() =~= ul@.take(k as int));
                assert(strictly_increasing(ul@.take(k + 1)));
                lemma_count_below_bound(ul@.take(k + 1), last);
            }
            if ul[k] < last {
                c = c + 1;
            }
            k = k + 1;
        }
        proof {
            assert(ul@.take(k as int) =~= ul@);
        }
        assert(self.lists_values(reals@, axis, ValueMode::Real) && strictly_increasing(ul@));
        last - c
    }
}

} // verus!
