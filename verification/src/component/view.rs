use vstd::prelude::*;
use crate::axis::{Axis, DataHV, Place};
use crate::component::struc::{index_in, mapped_value, mapped_values, StrucProto};
use crate::construct::space::IndexPoint;
use crate::sorted::strictly_increasing;
use crate::struc::coord;
use crate::struc::view::{line_index, line_position};

verus! {

/// Where a neighbouring point lies seen from a point, in the layout of a
/// numeric keypad with the y axis pointing down, or what a cell crossed by a
/// segment is filled with.
#[derive(Clone, Copy, PartialEq, Eq, Structural, Debug)]
pub enum Direction {
    LeftBelow,
    Below,
    RightBelow,
    Left,
    Center,
    Right,
    LeftAbove,
    Above,
    RightAbove,
    Vertical,
    Horizontal,
    Diagonal,
    DiagonalSide { from: IndexPoint, to: IndexPoint },
}

/// The direction from `from` towards `to`; `Center` where there is no `to` or
/// it is the same point.
pub open spec fn spec_direction(from: IndexPoint, to: Option<IndexPoint>) -> Direction {
    match to {
        Option::Some(t) => if t.x < from.x {
            if t.y > from.y {
                Direction::LeftBelow
            } else if t.y == from.y {
                Direction::Left
            } else {
                Direction::LeftAbove
            }
        } else if t.x == from.x {
            if t.y > from.y {
                Direction::Below
            } else if t.y == from.y {
                Direction::Center
            } else {
                Direction::Above
            }
        } else {
            if t.y > from.y {
                Direction::RightBelow
            } else if t.y == from.y {
                Direction::Right
            } else {
                Direction::RightAbove
            }
        },
        Option::None => Direction::Center,
    }
}

/// The symbol of a direction.
pub open spec fn spec_direction_symbol(d: Direction) -> char {
    match d {
        Direction::LeftBelow => '1',
        Direction::Below => '2',
        Direction::RightBelow => '3',
        Direction::Left => '4',
        Direction::Center => '5',
        Direction::Right => '6',
        Direction::LeftAbove => '7',
        Direction::Above => '8',
        Direction::RightAbove => '9',
        Direction::Vertical => 'v',
        Direction::Horizontal => 'h',
        Direction::Diagonal => 't',
        Direction::DiagonalSide { .. } => 't',
    }
}

/// The filling of a cell that a diagonal segment crosses or borders.
pub open spec fn spec_is_diagonal_padding(d: Direction) -> bool {
    d is Diagonal || d is DiagonalSide
}

/// A stroke runs across the line between the cells of `list1` and the cells
/// of `list2`: along the vertical axis for spaces between columns, along the
/// horizontal one for spaces between rows.
pub open spec fn spec_is_face(list1: Seq<Direction>, list2: Seq<Direction>, axis: Axis) -> bool {
    match axis {
        Axis::Horizontal => (exists|i: int|
            0 <= i < list1.len() && (list1[i] == Direction::Below || list1[i]
                == Direction::Vertical)) || (exists|i: int|
            0 <= i < list2.len() && (list2[i] == Direction::Above || list2[i]
                == Direction::Vertical)),
        Axis::Vertical => (exists|i: int|
            0 <= i < list1.len() && (list1[i] == Direction::Right || list1[i]
                == Direction::Horizontal)) || (exists|i: int|
            0 <= i < list2.len() && (list2[i] == Direction::Left || list2[i]
                == Direction::Horizontal)),
    }
}

fn holds_either(list: &Vec<Direction>, a: Direction, b: Direction) -> (r: bool)
    ensures
        r == exists|i: int| 0 <= i < list@.len() && (list@[i] == a || list@[i] == b),
{
    let mut i: usize = 0;
    while i < list.len()
        invariant
            0 <= i <= list@.len(),
            forall|k: int| 0 <= k < i ==> list@[k] != a && list@[k] != b,
        decreases list@.len() - i,
    {
        if list[i] == a || list[i] == b {
            return true;
        }
        i = i + 1;
    }
    false
}

impl Direction {
    pub fn new(from: IndexPoint, to: Option<IndexPoint>) -> (r: Self)
        ensures
            r == spec_direction(from, to),
    {
        match to {
            Option::Some(t) => {
                if t.x < from.x {
                    if t.y > from.y {
                        Direction::LeftBelow
                    } else if t.y == from.y {
                        Direction::Left
                    } else {
                        Direction::LeftAbove
                    }
                } else if t.x == from.x {
                    if t.y > from.y {
                        Direction::Below
                    } else if t.y == from.y {
                        Direction::Center
                    } else {
                        Direction::Above
                    }
                } else {
                    if t.y > from.y {
                        Direction::RightBelow
                    } else if t.y == from.y {
                        Direction::Right
                    } else {
                        Direction::RightAbove
                    }
                }
            },
            Option::None => Direction::Center,
        }
    }

    pub fn symbol(&self) -> (r: char)
        ensures
            r == spec_direction_symbol(*self),
    {
        match self {
            Direction::LeftBelow => '1',
            Direction::Below => '2',
            Direction::RightBelow => '3',
            Direction::Left => '4',
            Direction::Center => '5',
            Direction::Right => '6',
            Direction::LeftAbove => '7',
            Direction::Above => '8',
            Direction::RightAbove => '9',
            Direction::Vertical => 'v',
            Direction::Horizontal => 'h',
            Direction::Diagonal => 't',
            Direction::DiagonalSide { .. } => 't',
        }
    }

    pub fn is_diagonal_padding(&self) -> (r: bool)
        ensures
            r == spec_is_diagonal_padding(*self),
    {
        match self {
            Direction::Diagonal | Direction::DiagonalSide { .. } => true,
            _ => false,
        }
    }

    pub fn is_face(list1: &Vec<Self>, list2: &Vec<Self>, axis: Axis) -> (r: bool)
        ensures
            r == spec_is_face(list1@, list2@, axis),
    {
        match axis {
            Axis::Horizontal => {
                let r1 = holds_either(list1, Direction::Below, Direction::Vertical);
                let r2 = holds_either(list2, Direction::Above, Direction::Vertical);
                r1 || r2
            },
            Axis::Vertical => {
                let r1 = holds_either(list1, Direction::Right, Direction::Horizontal);
                let r2 = holds_either(list2, Direction::Left, Direction::Horizontal);
                r1 || r2
            },
        }
    }
}

/// The two cell lists of a line of a view, as sequences.
pub open spec fn line_view(line: [Vec<Direction>; 2]) -> (Seq<Direction>, Seq<Direction>) {
    (line@[0]@, line@[1]@)
}

/// The cells along one edge of a view: for each position along the edge,
/// the cells just inside and just outside the chosen line.
pub struct ViewLines {
    pub l: Vec<[Vec<Direction>; 2]>,
    pub place: Place,
    pub axis: Axis,
    pub segment: usize,
}

fn empty_line() -> (r: [Vec<Direction>; 2])
    ensures
        line_view(r) == (Seq::<Direction>::empty(), Seq::<Direction>::empty()),
{
    let r = [Vec::new(), Vec::new()];
    assert(r@[0]@ =~= Seq::<Direction>::empty());
    assert(r@[1]@ =~= Seq::<Direction>::empty());
    r
}

fn copy_dirs(v: &Vec<Direction>) -> (r: Vec<Direction>)
    ensures
        r@ == v@,
{
    let mut r: Vec<Direction> = Vec::new();
    let mut i: usize = 0;
    while i < v.len()
        invariant
            0 <= i <= v@.len(),
            r@ == v@.take(i as int),
        decreases v@.len() - i,
    {
        r.push(v[i]);
        i = i + 1;
        proof {
            assert(r@ =~= v@.take(i as int));
        }
    }
    proof {
        assert(v@.take(i as int) =~= v@);
    }
    r
}

impl ViewLines {
    /// The lines as pairs of sequences.
    pub open spec fn lines(&self) -> Seq<(Seq<Direction>, Seq<Direction>)> {
        Seq::new(self.l@.len(), |i: int| line_view(self.l@[i]))
    }

    /// Adds an empty line before the first one or after the last one.
    pub fn add_gap(&mut self, place: Place)
        requires
            place != Place::Mind,
        ensures
            final(self).place == old(self).place,
            final(self).axis == old(self).axis,
            final(self).segment == old(self).segment,
            place == Place::Start ==> final(self).lines() == seq![
                (Seq::<Direction>::empty(), Seq::<Direction>::empty()),
            ] + old(self).lines(),
            place == Place::End ==> final(self).lines() == old(self).lines().push(
                (Seq::<Direction>::empty(), Seq::<Direction>::empty()),
            ),
    {
        let ghost pre = self.lines();
        match place {
            Place::Start => {
                self.l.insert(0, empty_line());
                assert(self.lines() =~= seq![
                    (Seq::<Direction>::empty(), Seq::<Direction>::empty()),
                ] + pre);
            },
            _ => {
                self.l.push(empty_line());
                assert(self.lines() =~= pre.push(
                    (Seq::<Direction>::empty(), Seq::<Direction>::empty()),
                ));
            },
        }
    }

    /// The index of the cells just inside the edge and of those just outside.
    pub fn place_index(&self) -> (r: (usize, usize))
        requires
            self.place != Place::Mind,
        ensures
            self.place == Place::Start ==> r == (0usize, 1usize),
            self.place == Place::End ==> r == (1usize, 0usize),
    {
        match self.place {
            Place::Start => (0, 1),
            _ => (1, 0),
        }
    }

    /// Moves each line's inside cells outside and leaves the inside empty.
    pub fn backspace(&mut self)
        requires
            old(self).place != Place::Mind,
        ensures
            final(self).place == old(self).place,
            final(self).axis == old(self).axis,
            final(self).segment == old(self).segment,
            final(self).lines().len() == old(self).lines().len(),
            forall|i: int|
                0 <= i < old(self).lines().len() ==> #[trigger] final(self).lines()[i] == if old(
                    self,
                ).place == Place::Start {
                    (Seq::<Direction>::empty(), old(self).lines()[i].0)
                } else {
                    (old(self).lines()[i].1, Seq::<Direction>::empty())
                },
    {
        let ghost pre = self.lines();
        let n = self.l.len();
        let mut nl: Vec<[Vec<Direction>; 2]> = Vec::new();
        let mut i: usize = 0;
        while i < n
            invariant
                n == self.l@.len(),
                pre == self.lines(),
                self.place != Place::Mind,
                0 <= i <= n,
                nl@.len() == i,
                forall|k: int|
                    0 <= k < i ==> line_view(#[trigger] nl@[k]) == if self.place == Place::Start {
                        (Seq::<Direction>::empty(), pre[k].0)
                    } else {
                        (pre[k].1, Seq::<Direction>::empty())
                    },
            decreases n - i,
        {
            let line = &self.l[i];
            assert(line_view(*line) == pre[i as int]);
            let moved = match self.place {
                Place::Start => copy_dirs(&line[0]),
                _ => copy_dirs(&line[1]),
            };
            let new_line = match self.place {
                Place::Start => [Vec::new(), moved],
                _ => [moved, Vec::new()],
            };
            proof {
                assert(new_line@[0]@ =~= line_view(new_line).0);
                if self.place == Place::Start {
                    assert(new_line@[0]@ =~= Seq::<Direction>::empty());
                } else {
                    assert(new_line@[1]@ =~= Seq::<Direction>::empty());
                }
            }
            nl.push(new_line);
            i = i + 1;
        }
        self.l = nl;
        assert forall|k: int| 0 <= k < pre.len() implies #[trigger] self.lines()[k] == if self.place
            == Place::Start {
            (Seq::<Direction>::empty(), pre[k].0)
        } else {
            (pre[k].1, Seq::<Direction>::empty())
        } by {
            assert(self.lines()[k] == line_view(self.l@[k]));
        }
    }

    /// Appends the lines of `other` after the lines of this one.
    pub fn connect(&mut self, other: Self)
        ensures
            final(self).place == old(self).place,
            final(self).axis == old(self).axis,
            final(self).segment == old(self).segment,
            final(self).lines() == old(self).lines() + other.lines(),
    {
        let ghost pre = self.lines();
        let ghost po = other.lines();
        let mut other = other;
        self.l.append(&mut other.l);
        assert(self.lines() =~= pre + po);
    }
}

/// The directions that `events` put into the cell in row `y` and column `x`,
/// in order.
pub open spec fn cell_of(events: Seq<(int, int, Direction)>, y: int, x: int) -> Seq<Direction>
    decreases events.len(),
{
    if events.len() == 0 {
        Seq::empty()
    } else {
        let e = events.last();
        if e.0 == y && e.1 == x {
            cell_of(events.drop_last(), y, x).push(e.2)
        } else {
            cell_of(events.drop_last(), y, x)
        }
    }
}

/// `view` is a grid of `h` rows of `w` cells, each holding what `events` put
/// into it.
pub open spec fn view_holds(
    view: Seq<Vec<Vec<Direction>>>,
    h: int,
    w: int,
    events: Seq<(int, int, Direction)>,
) -> bool {
    &&& view.len() == h
    &&& forall|y: int| 0 <= y < h ==> (#[trigger] view[y])@.len() == w
    &&& forall|y: int, x: int|
        0 <= y < h && 0 <= x < w ==> (#[trigger] view[y]@[x])@ == cell_of(events, y, x)
}

/// `d` put into the cells of row `y` from column `lo` up to, not including, `hi`.
pub open spec fn row_run(y: int, lo: int, hi: int, d: Direction) -> Seq<(int, int, Direction)>
    decreases hi - lo,
{
    if hi <= lo {
        Seq::empty()
    } else {
        row_run(y, lo, hi - 1, d).push((y, hi - 1, d))
    }
}

/// `d` put into the cells of column `x` from row `lo` up to, not including, `hi`.
pub open spec fn column_run(x: int, lo: int, hi: int, d: Direction) -> Seq<(int, int, Direction)>
    decreases hi - lo,
{
    if hi <= lo {
        Seq::empty()
    } else {
        column_run(x, lo, hi - 1, d).push((hi - 1, x, d))
    }
}

/// `d` put into the block of rows `ylo..yhi` and columns `xlo..xhi`, row by row.
pub open spec fn block_run(ylo: int, yhi: int, xlo: int, xhi: int, d: Direction) -> Seq<
    (int, int, Direction),
>
    decreases yhi - ylo,
{
    if yhi <= ylo {
        Seq::empty()
    } else {
        block_run(ylo, yhi - 1, xlo, xhi, d) + row_run(yhi - 1, xlo, xhi, d)
    }
}

/// `d` put into columns `x1` and `x2` of each row of `ylo..yhi`, in turn.
pub open spec fn side_rows(ylo: int, yhi: int, x1: int, x2: int, d: Direction) -> Seq<
    (int, int, Direction),
>
    decreases yhi - ylo,
{
    if yhi <= ylo {
        Seq::empty()
    } else {
        side_rows(ylo, yhi - 1, x1, x2, d) + seq![(yhi - 1, x1, d), (yhi - 1, x2, d)]
    }
}

/// `d` put into rows `y1` and `y2` of each column of `xlo..xhi`, in turn.
pub open spec fn side_columns(xlo: int, xhi: int, y1: int, y2: int, d: Direction) -> Seq<
    (int, int, Direction),
>
    decreases xhi - xlo,
{
    if xhi <= xlo {
        Seq::empty()
    } else {
        side_columns(xlo, xhi - 1, y1, y2, d) + seq![(y1, xhi - 1, d), (y2, xhi - 1, d)]
    }
}

pub open spec fn min_of(a: usize, b: usize) -> int {
    if a <= b {
        a as int
    } else {
        b as int
    }
}

pub open spec fn max_of(a: usize, b: usize) -> int {
    if a <= b {
        b as int
    } else {
        a as int
    }
}

/// What the segment from `from` to `to` in direction `d` fills: the cells
/// strictly between them along a straight segment; for a diagonal one the
/// inside of its box and then the sides of the box.
pub open spec fn padding_events(from: IndexPoint, to: IndexPoint, d: Direction) -> Seq<
    (int, int, Direction),
> {
    let x1 = min_of(from.x, to.x);
    let x2 = max_of(from.x, to.x);
    let y1 = min_of(from.y, to.y);
    let y2 = max_of(from.y, to.y);
    if d == Direction::Left || d == Direction::Right {
        row_run(y1, x1 + 1, x2, Direction::Horizontal)
    } else if d == Direction::Above || d == Direction::Below {
        column_run(x1, y1 + 1, y2, Direction::Vertical)
    } else {
        block_run(y1 + 1, y2, x1 + 1, x2, Direction::Diagonal) + side_rows(
            y1,
            y2,
            x1,
            x2,
            Direction::DiagonalSide { from, to },
        ) + side_columns(x1, x2, y1, y2, Direction::DiagonalSide { from, to })
    }
}

/// What a point `from` puts into the view for its neighbour `to`: the
/// direction towards it in its own cell, and, where `pad`, the filling of the
/// segment; nothing where there is no direction.
pub open spec fn dir_events(from: IndexPoint, to: Option<IndexPoint>, pad: bool) -> Seq<
    (int, int, Direction),
> {
    let d = spec_direction(from, to);
    if d == Direction::Center {
        Seq::empty()
    } else {
        seq![(from.y as int, from.x as int, d)] + if pad {
            padding_events(from, to.unwrap(), d)
        } else {
            Seq::empty()
        }
    }
}

/// One more event adds its direction to its own cell and leaves the others.
pub proof fn lemma_cell_of_push(events: Seq<(int, int, Direction)>, e: (int, int, Direction), y: int, x: int)
    ensures
        cell_of(events.push(e), y, x) == if e.0 == y && e.1 == x {
            cell_of(events, y, x).push(e.2)
        } else {
            cell_of(events, y, x)
        },
{
    assert(events.push(e).drop_last() =~= events);
}

/// Puts `d` into the cell in row `y` and column `x`.
fn view_push(
    view: &mut Vec<Vec<Vec<Direction>>>,
    y: usize,
    x: usize,
    d: Direction,
    Ghost(h): Ghost<int>,
    Ghost(w): Ghost<int>,
    Ghost(events): Ghost<Seq<(int, int, Direction)>>,
)
    requires
        view_holds(old(view)@, h, w, events),
        y < h,
        x < w,
    ensures
        view_holds(final(view)@, h, w, events.push((y as int, x as int, d))),
{
    let ghost pre = view@;
    let mut row: Vec<Vec<Direction>> = Vec::new();
    view.set_and_swap(y, &mut row);
    let mut cell: Vec<Direction> = Vec::new();
    row.set_and_swap(x, &mut cell);
    cell.push(d);
    row.set_and_swap(x, &mut cell);
    view.set_and_swap(y, &mut row);
    let ghost ne = events.push((y as int, x as int, d));
    assert forall|y2: int| 0 <= y2 < h implies (#[trigger] view@[y2])@.len() == w by {
        if y2 != y {
            assert(view@[y2] == pre[y2]);
        }
    }
    assert forall|y2: int, x2: int| 0 <= y2 < h && 0 <= x2 < w implies (#[trigger] view@[y2]@[x2])@
        == cell_of(ne, y2, x2) by {
        lemma_cell_of_push(events, (y as int, x as int, d), y2, x2);
        if y2 != y {
            assert(view@[y2] == pre[y2]);
        } else if x2 != x {
            assert(view@[y2]@[x2] == pre[y2]@[x2]);
        }
    }
}

/// Puts `d` into the cells of row `y` from column `lo` up to, not including, `hi`.
fn push_row_run(
    view: &mut Vec<Vec<Vec<Direction>>>,
    y: usize,
    lo: usize,
    hi: usize,
    d: Direction,
    Ghost(h): Ghost<int>,
    Ghost(w): Ghost<int>,
    Ghost(events): Ghost<Seq<(int, int, Direction)>>,
)
    requires
        view_holds(old(view)@, h, w, events),
        y < h,
        hi <= w,
    ensures
        view_holds(final(view)@, h, w, events + row_run(y as int, lo as int, hi as int, d)),
{
    let mut x = lo;
    proof {
        assert(events + row_run(y as int, lo as int, lo as int, d) =~= events);
    }
    while x < hi
        invariant
            y < h,
            hi <= w,
            lo <= x,
            x <= hi || x == lo,
            view_holds(view@, h, w, events + row_run(y as int, lo as int, x as int, d)),
        decreases hi - x,
    {
        view_push(view, y, x, d, Ghost(h), Ghost(w), Ghost(events + row_run(y as int, lo as int, x as int, d)));
        proof {
            assert((events + row_run(y as int, lo as int, x as int, d)).push((y as int, x as int, d))
                =~= events + row_run(y as int, lo as int, x + 1, d));
        }
        x = x + 1;
    }
    proof {
        if hi <= lo {
            assert(row_run(y as int, lo as int, hi as int, d) =~= Seq::<(int, int, Direction)>::empty());
            assert(row_run(y as int, lo as int, x as int, d) =~= Seq::<(int, int, Direction)>::empty());
        }
    }
}

/// Puts `d` into the cells of column `x` from row `lo` up to, not including, `hi`.
fn push_column_run(
    view: &mut Vec<Vec<Vec<Direction>>>,
    x: usize,
    lo: usize,
    hi: usize,
    d: Direction,
    Ghost(h): Ghost<int>,
    Ghost(w): Ghost<int>,
    Ghost(events): Ghost<Seq<(int, int, Direction)>>,
)
    requires
        view_holds(old(view)@, h, w, events),
        x < w,
        hi <= h,
    ensures
        view_holds(final(view)@, h, w, events + column_run(x as int, lo as int, hi as int, d)),
{
    let mut y = lo;
    proof {
        assert(events + column_run(x as int, lo as int, lo as int, d) =~= events);
    }
    while y < hi
        invariant
            x < w,
            hi <= h,
            lo <= y,
            y <= hi || y == lo,
            view_holds(view@, h, w, events + column_run(x as int, lo as int, y as int, d)),
        decreases hi - y,
    {
        view_push(view, y, x, d, Ghost(h), Ghost(w), Ghost(events + column_run(x as int, lo as int, y as int, d)));
        proof {
            assert((events + column_run(x as int, lo as int, y as int, d)).push((y as int, x as int, d))
                =~= events + column_run(x as int, lo as int, y + 1, d));
        }
        y = y + 1;
    }
    proof {
        if hi <= lo {
            assert(column_run(x as int, lo as int, hi as int, d) =~= Seq::<(int, int, Direction)>::empty());
            assert(column_run(x as int, lo as int, y as int, d) =~= Seq::<(int, int, Direction)>::empty());
        }
    }
}

/// Puts `d` into the block of rows `ylo..yhi` and columns `xlo..xhi`, row by row.
fn push_block(
    view: &mut Vec<Vec<Vec<Direction>>>,
    ylo: usize,
    yhi: usize,
    xlo: usize,
    xhi: usize,
    d: Direction,
    Ghost(h): Ghost<int>,
    Ghost(w): Ghost<int>,
    Ghost(events): Ghost<Seq<(int, int, Direction)>>,
)
    requires
        view_holds(old(view)@, h, w, events),
        yhi <= h,
        xhi <= w,
    ensures
        view_holds(
            final(view)@,
            h,
            w,
            events + block_run(ylo as int, yhi as int, xlo as int, xhi as int, d),
        ),
{
    let mut y = ylo;
    proof {
        assert(events + block_run(ylo as int, ylo as int, xlo as int, xhi as int, d) =~= events);
    }
    while y < yhi
        invariant
            yhi <= h,
            xhi <= w,
            ylo <= y,
            y <= yhi || y == ylo,
            view_holds(
                view@,
                h,
                w,
                events + block_run(ylo as int, y as int, xlo as int, xhi as int, d),
            ),
        decreases yhi - y,
    {
        let ghost cur = events + block_run(ylo as int, y as int, xlo as int, xhi as int, d);
        push_row_run(view, y, xlo, xhi, d, Ghost(h), Ghost(w), Ghost(cur));
        proof {
            assert(cur + row_run(y as int, xlo as int, xhi as int, d) =~= events + block_run(
                ylo as int,
                y + 1,
                xlo as int,
                xhi as int,
                d,
            ));
        }
        y = y + 1;
    }
    proof {
        if yhi <= ylo {
            assert(block_run(ylo as int, yhi as int, xlo as int, xhi as int, d) =~= Seq::<
                (int, int, Direction),
            >::empty());
            assert(block_run(ylo as int, y as int, xlo as int, xhi as int, d) =~= Seq::<
                (int, int, Direction),
            >::empty());
        }
    }
}

/// Puts `d` into columns `x1` and `x2` of each row of `ylo..yhi`, in turn.
fn push_side_rows(
    view: &mut Vec<Vec<Vec<Direction>>>,
    ylo: usize,
    yhi: usize,
    x1: usize,
    x2: usize,
    d: Direction,
    Ghost(h): Ghost<int>,
    Ghost(w): Ghost<int>,
    Ghost(events): Ghost<Seq<(int, int, Direction)>>,
)
    requires
        view_holds(old(view)@, h, w, events),
        yhi <= h,
        x1 < w,
        x2 < w,
    ensures
        view_holds(
            final(view)@,
            h,
            w,
            events + side_rows(ylo as int, yhi as int, x1 as int, x2 as int, d),
        ),
{
    let mut y = ylo;
    proof {
        assert(events + side_rows(ylo as int, ylo as int, x1 as int, x2 as int, d) =~= events);
    }
    while y < yhi
        invariant
            yhi <= h,
            x1 < w,
            x2 < w,
            ylo <= y,
            y <= yhi || y == ylo,
            view_holds(
                view@,
                h,
                w,
                events + side_rows(ylo as int, y as int, x1 as int, x2 as int, d),
            ),
        decreases yhi - y,
    {
        let ghost cur = events + side_rows(ylo as int, y as int, x1 as int, x2 as int, d);
        view_push(view, y, x1, d, Ghost(h), Ghost(w), Ghost(cur));
        view_push(view, y, x2, d, Ghost(h), Ghost(w), Ghost(cur.push((y as int, x1 as int, d))));
        proof {
            assert(cur.push((y as int, x1 as int, d)).push((y as int, x2 as int, d)) =~= events
                + side_rows(ylo as int, y + 1, x1 as int, x2 as int, d));
        }
        y = y + 1;
    }
    proof {
        if yhi <= ylo {
            assert(side_rows(ylo as int, yhi as int, x1 as int, x2 as int, d) =~= Seq::<
                (int, int, Direction),
            >::empty());
            assert(side_rows(ylo as int, y as int, x1 as int, x2 as int, d) =~= Seq::<
                (int, int, Direction),
            >::empty());
        }
    }
}

/// Puts `d` into rows `y1` and `y2` of each column of `xlo..xhi`, in turn.
fn push_side_columns(
    view: &mut Vec<Vec<Vec<Direction>>>,
    xlo: usize,
    xhi: usize,
    y1: usize,
    y2: usize,
    d: Direction,
    Ghost(h): Ghost<int>,
    Ghost(w): Ghost<int>,
    Ghost(events): Ghost<Seq<(int, int, Direction)>>,
)
    requires
        view_holds(old(view)@, h, w, events),
        xhi <= w,
        y1 < h,
        y2 < h,
    ensures
        view_holds(
            final(view)@,
            h,
            w,
            events + side_columns(xlo as int, xhi as int, y1 as int, y2 as int, d),
        ),
{
    let mut x = xlo;
    proof {
        assert(events + side_columns(xlo as int, xlo as int, y1 as int, y2 as int, d) =~= events);
    }
    while x < xhi
        invariant
            xhi <= w,
            y1 < h,
            y2 < h,
            xlo <= x,
            x <= xhi || x == xlo,
            view_holds(
                view@,
                h,
                w,
                events + side_columns(xlo as int, x as int, y1 as int, y2 as int, d),
            ),
        decreases xhi - x,
    {
        let ghost cur = events + side_columns(xlo as int, x as int, y1 as int, y2 as int, d);
        view_push(view, y1, x, d, Ghost(h), Ghost(w), Ghost(cur));
        view_push(view, y2, x, d, Ghost(h), Ghost(w), Ghost(cur.push((y1 as int, x as int, d))));
        proof {
            assert(cur.push((y1 as int, x as int, d)).push((y2 as int, x as int, d)) =~= events
                + side_columns(xlo as int, x + 1, y1 as int, y2 as int, d));
        }
        x = x + 1;
    }
    proof {
        if xhi <= xlo {
            assert(side_columns(xlo as int, xhi as int, y1 as int, y2 as int, d) =~= Seq::<
                (int, int, Direction),
            >::empty());
            assert(side_columns(xlo as int, x as int, y1 as int, y2 as int, d) =~= Seq::<
                (int, int, Direction),
            >::empty());
        }
    }
}

/// Puts what the point `from` puts into the view for its neighbour `to`.
fn push_dir_events(
    view: &mut Vec<Vec<Vec<Direction>>>,
    from: IndexPoint,
    to: Option<IndexPoint>,
    pad: bool,
    Ghost(h): Ghost<int>,
    Ghost(w): Ghost<int>,
    Ghost(events): Ghost<Seq<(int, int, Direction)>>,
)
    requires
        view_holds(old(view)@, h, w, events),
        from.x < w,
        from.y < h,
        to matches Option::Some(t) ==> t.x < w && t.y < h,
    ensures
        view_holds(final(view)@, h, w, events + dir_events(from, to, pad)),
{
    let d = Direction::new(from, to);
    if d == Direction::Center {
        assert(events + dir_events(from, to, pad) =~= events);
        return;
    }
    view_push(view, from.y, from.x, d, Ghost(h), Ghost(w), Ghost(events));
    let ghost e1 = events.push((from.y as int, from.x as int, d));
    if !pad {
        assert(e1 =~= events + dir_events(from, to, pad));
        return;
    }
    let t = match to {
        Option::Some(t) => t,
        Option::None => {
            proof {
                assert(false);
            }
            from
        },
    };
    let x1 = if from.x <= t.x {
        from.x
    } else {
        t.x
    };
    let x2 = if from.x <= t.x {
        t.x
    } else {
        from.x
    };
    let y1 = if from.y <= t.y {
        from.y
    } else {
        t.y
    };
    let y2 = if from.y <= t.y {
        t.y
    } else {
        from.y
    };
    if d == Direction::Left || d == Direction::Right {
        push_row_run(view, y1, x1 + 1, x2, Direction::Horizontal, Ghost(h), Ghost(w), Ghost(e1));
        assert(e1 + row_run(y1 as int, x1 + 1, x2 as int, Direction::Horizontal) =~= events
            + dir_events(from, to, pad));
    } else if d == Direction::Above || d == Direction::Below {
        push_column_run(view, x1, y1 + 1, y2, Direction::Vertical, Ghost(h), Ghost(w), Ghost(e1));
        assert(e1 + column_run(x1 as int, y1 + 1, y2 as int, Direction::Vertical) =~= events
            + dir_events(from, to, pad));
    } else {
        let side = Direction::DiagonalSide { from, to: t };
        push_block(view, y1 + 1, y2, x1 + 1, x2, Direction::Diagonal, Ghost(h), Ghost(w), Ghost(e1));
        let ghost e2 = e1 + block_run(y1 + 1, y2 as int, x1 + 1, x2 as int, Direction::Diagonal);
        push_side_rows(view, y1, y2, x1, x2, side, Ghost(h), Ghost(w), Ghost(e2));
        let ghost e3 = e2 + side_rows(y1 as int, y2 as int, x1 as int, x2 as int, side);
        push_side_columns(view, x1, x2, y1, y2, side, Ghost(h), Ghost(w), Ghost(e3));
        assert(e3 + side_columns(x1 as int, x2 as int, y1 as int, y2 as int, side) =~= events
            + dir_events(from, to, pad));
    }
}

/// The largest entry of `s`, or `-1` where it is empty.
pub open spec fn seq_max(s: Seq<usize>) -> int
    decreases s.len(),
{
    if s.len() == 0 {
        -1
    } else {
        let m = seq_max(s.drop_last());
        if s.last() > m {
            s.last() as int
        } else {
            m
        }
    }
}

/// The largest value of a list is at least each of its values.
pub proof fn lemma_seq_max(s: Seq<usize>)
    ensures
        forall|j: int| 0 <= j < s.len() ==> s[j] <= seq_max(s),
        s.len() > 0 ==> seq_max(s) >= 0,
    decreases s.len(),
{
    if s.len() > 0 {
        lemma_seq_max(s.drop_last());
        assert forall|j: int| 0 <= j < s.len() implies s[j] <= seq_max(s) by {
            if j < s.len() - 1 {
                assert(s[j] == s.drop_last()[j]);
            }
        }
    }
}

/// The cell, as a point, that the grid point `p` of `st` falls into: the
/// allocated positions of its grid lines.
pub open spec fn mapped_point(st: StrucProto, p: IndexPoint) -> IndexPoint {
    IndexPoint {
        x: mapped_value(
            st.value_list(Axis::Horizontal),
            st.allocs_of(Axis::Horizontal),
            index_in(st.value_list(Axis::Horizontal), p.x),
        ),
        y: mapped_value(
            st.value_list(Axis::Vertical),
            st.allocs_of(Axis::Vertical),
            index_in(st.value_list(Axis::Vertical), p.y),
        ),
    }
}

/// The cells of the points `points` of `st`.
pub open spec fn mapped_points(st: StrucProto, points: Seq<IndexPoint>) -> Seq<IndexPoint> {
    Seq::new(points.len(), |j: int| mapped_point(st, points[j]))
}

/// All of `points` are the first one.
pub open spec fn all_same(points: Seq<IndexPoint>) -> bool {
    forall|j: int| 0 <= j < points.len() ==> #[trigger] points[j] == points[0]
}

/// What the first `k` points of the path through the cells `q` put into a
/// view: for each, the direction towards the point before it, and the
/// direction towards the point after it with the filling of that segment.
pub open spec fn steps_events(q: Seq<IndexPoint>, k: int) -> Seq<(int, int, Direction)>
    decreases k,
{
    if k <= 0 {
        Seq::empty()
    } else {
        let j = k - 1;
        steps_events(q, k - 1) + dir_events(
            q[j],
            if j > 0 {
                Option::Some(q[j - 1])
            } else {
                Option::None
            },
            false,
        ) + dir_events(
            q[j],
            if j + 1 < q.len() {
                Option::Some(q[j + 1])
            } else {
                Option::None
            },
            true,
        )
    }
}

/// What path `i` of `st` puts into its view: nothing for a hidden path;
/// otherwise a `Center` in the cell of a path whose points all coincide, then
/// the steps of all its points.
pub open spec fn path_events(st: StrucProto, i: int) -> Seq<(int, int, Direction)> {
    let path = st.paths@[i];
    let q = mapped_points(st, path.points@);
    if path.hide {
        Seq::empty()
    } else {
        (if all_same(path.points@) {
            seq![(q[0].y as int, q[0].x as int, Direction::Center)]
        } else {
            Seq::empty()
        }) + steps_events(q, q.len() as int)
    }
}

/// What the first `n` paths of `st` put into its view.
pub open spec fn view_events(st: StrucProto, n: int) -> Seq<(int, int, Direction)>
    decreases n,
{
    if n <= 0 {
        Seq::empty()
    } else {
        view_events(st, n - 1) + path_events(st, n - 1)
    }
}

/// The view of a component prototype: for each cell of its allocated grid,
/// the directions of the strokes through it.
pub struct StrucView(pub Vec<Vec<Vec<Direction>>>);

fn empty_view(h: usize, w: usize) -> (r: Vec<Vec<Vec<Direction>>>)
    ensures
        view_holds(r@, h as int, w as int, Seq::empty()),
{
    let mut r: Vec<Vec<Vec<Direction>>> = Vec::new();
    let mut y: usize = 0;
    while y < h
        invariant
            0 <= y <= h,
            r@.len() == y,
            forall|y2: int| 0 <= y2 < y ==> (#[trigger] r@[y2])@.len() == w,
            forall|y2: int, x2: int| 0 <= y2 < y && 0 <= x2 < w ==> (#[trigger] r@[y2]@[x2])@.len() == 0,
        decreases h - y,
    {
        let mut row: Vec<Vec<Direction>> = Vec::new();
        let mut x: usize = 0;
        while x < w
            invariant
                0 <= x <= w,
                row@.len() == x,
                forall|x2: int| 0 <= x2 < x ==> (#[trigger] row@[x2])@.len() == 0,
            decreases w - x,
        {
            row.push(Vec::new());
            x = x + 1;
        }
        let ghost pre = r@;
        r.push(row);
        assert forall|y2: int, x2: int| 0 <= y2 < y + 1 && 0 <= x2 < w implies (#[trigger] r@[y2]@[x2])@.len() == 0 by {
            if y2 < y {
                assert(r@[y2] == pre[y2]);
            }
        }
        assert forall|y2: int| 0 <= y2 < y + 1 implies (#[trigger] r@[y2])@.len() == w by {
            if y2 < y {
                assert(r@[y2] == pre[y2]);
            }
        }
        y = y + 1;
    }
    assert forall|y2: int, x2: int| 0 <= y2 < h && 0 <= x2 < w implies (#[trigger] r@[y2]@[x2])@
        == cell_of(Seq::empty(), y2, x2) by {
        assert(r@[y2]@[x2]@ =~= Seq::<Direction>::empty());
    }
    r
}

/// One more than the largest entry of `s`, which is below `usize::MAX`; zero
/// where `s` is empty.
fn max_plus_one(s: &Vec<usize>) -> (r: usize)
    requires
        seq_max(s@) < usize::MAX,
    ensures
        r == seq_max(s@) + 1,
{
    let mut m: usize = 0;
    let mut i: usize = 0;
    while i < s.len()
        invariant
            0 <= i <= s@.len(),
            seq_max(s@) < usize::MAX,
            m == seq_max(s@.take(i as int)) + 1,
        decreases s@.len() - i,
    {
        proof {
            assert(s@.take(i + 1).drop_last() =~= s@.take(i as int));
            lemma_seq_max(s@);
            lemma_seq_max(s@.take(i + 1));
            assert(s@.take(i + 1)[i as int] == s@[i as int]);
            assert(s@[i as int] <= seq_max(s@));
        }
        if s[i] + 1 > m {
            m = s[i] + 1;
        }
        i = i + 1;
    }
    proof {
        assert(s@.take(i as int) =~= s@);
    }
    m
}

/// Each grid line of `st` along either axis gets an allocated position, and
/// the positions stay below the largest machine word.
pub open spec fn view_fits(st: StrucProto) -> bool {
    &&& st.allocs_fit()
    &&& forall|i: int| 0 <= i < st.paths@.len() ==> (#[trigger] st.paths@[i]).points@.len() > 0
    &&& st.allocs_of(Axis::Horizontal) matches Option::Some(a) ==> st.value_list(
        Axis::Horizontal,
    ).len() <= a.len() + 1
    &&& st.allocs_of(Axis::Vertical) matches Option::Some(a) ==> st.value_list(Axis::Vertical).len()
        <= a.len() + 1
    &&& seq_max(mapped_values(st.value_list(Axis::Horizontal), st.allocs_of(Axis::Horizontal)))
        < usize::MAX
    &&& seq_max(mapped_values(st.value_list(Axis::Vertical), st.allocs_of(Axis::Vertical)))
        < usize::MAX
}

/// The width of the view of `st`: one more than its largest column.
pub open spec fn view_width(st: StrucProto) -> int {
    seq_max(mapped_values(st.value_list(Axis::Horizontal), st.allocs_of(Axis::Horizontal))) + 1
}

/// The height of the view of `st`: one more than its largest row.
pub open spec fn view_height(st: StrucProto) -> int {
    seq_max(mapped_values(st.value_list(Axis::Vertical), st.allocs_of(Axis::Vertical))) + 1
}

/// The place of `v` among the sorted values `values`, as `index_in` names it.
proof fn lemma_line_index_is_index_in(values: Seq<usize>, v: usize, r: int)
    requires
        strictly_increasing(values),
        0 <= r < values.len(),
        values[r] == v,
    ensures
        index_in(values, v) == r,
{
    let c = index_in(values, v);
    assert(0 <= c < values.len() && values[c] == v);
    if c < r {
        assert(values[c] < values[r]);
    } else if c > r {
        assert(values[r] < values[c]);
    }
}

/// All points of `points` are the first one.
fn all_same_exec(points: &Vec<IndexPoint>) -> (r: bool)
    requires
        points@.len() > 0,
    ensures
        r == all_same(points@),
{
    let first = points[0];
    let mut j: usize = 0;
    while j < points.len()
        invariant
            0 <= j <= points@.len(),
            first == points@[0],
            forall|k: int| 0 <= k < j ==> points@[k] == first,
        decreases points@.len() - j,
    {
        if points[j] != first {
            assert(!all_same(points@));
            return false;
        }
        j = j + 1;
    }
    true
}

impl StrucView {
    /// The view of `struc`: each visible path puts, for each of its points,
    /// the direction towards the point before it and towards the point after
    /// it into the point's cell, and fills the cells that each segment
    /// crosses; a path whose points all coincide marks its cell with
    /// `Center`.
    pub fn new(struc: &StrucProto) -> (r: Self)
        requires
            view_fits(*struc),
        ensures
            view_holds(
                r.0@,
                view_height(*struc),
                view_width(*struc),
                view_events(*struc, struc.paths@.len() as int),
            ),
    {
        let ghost st = *struc;
        let vh = struc.values_in_axis(Axis::Horizontal);
        let vv = struc.values_in_axis(Axis::Vertical);
        let mh = struc.mapped_in_axis(Axis::Horizontal);
        let mv = struc.mapped_in_axis(Axis::Vertical);
        let w = max_plus_one(&mh);
        let h = max_plus_one(&mv);
        proof {
            lemma_seq_max(mh@);
            lemma_seq_max(mv@);
        }
        let mut view = empty_view(h, w);
        proof {
            assert(view_events(st, 0) =~= Seq::<(int, int, Direction)>::empty());
        }
        let n = struc.paths.len();
        let mut i: usize = 0;
        while i < n
            invariant
                st == *struc,
                view_fits(st),
                n == st.paths@.len(),
                vh@ == st.value_list(Axis::Horizontal),
                vv@ == st.value_list(Axis::Vertical),
                st.is_value_list(Axis::Horizontal, vh@),
                st.is_value_list(Axis::Vertical, vv@),
                mh@ == mapped_values(vh@, st.allocs_of(Axis::Horizontal)),
                mv@ == mapped_values(vv@, st.allocs_of(Axis::Vertical)),
                forall|j: int| 0 <= j < mh@.len() ==> mh@[j] < w,
                forall|j: int| 0 <= j < mv@.len() ==> mv@[j] < h,
                w == view_width(st),
                h == view_height(st),
                0 <= i <= n,
                view_holds(view@, h as int, w as int, view_events(st, i as int)),
            decreases n - i,
        {
            let path = &struc.paths[i];
            let ghost before = view_events(st, i as int);
            if !path.hide {
                let pts = &path.points;
                let m = pts.len();
                assert(m > 0);
                let mut q: Vec<IndexPoint> = Vec::new();
                let mut j: usize = 0;
                while j < m
                    invariant
                        st == *struc,
                        view_fits(st),
                        0 <= i < n,
                        n == st.paths@.len(),
                        pts@ == st.paths@[i as int].points@,
                        m == pts@.len(),
                        vh@ == st.value_list(Axis::Horizontal),
                        vv@ == st.value_list(Axis::Vertical),
                        st.is_value_list(Axis::Horizontal, vh@),
                        st.is_value_list(Axis::Vertical, vv@),
                        mh@ == mapped_values(vh@, st.allocs_of(Axis::Horizontal)),
                        mv@ == mapped_values(vv@, st.allocs_of(Axis::Vertical)),
                        forall|t: int| 0 <= t < mh@.len() ==> mh@[t] < w,
                        forall|t: int| 0 <= t < mv@.len() ==> mv@[t] < h,
                        0 <= j <= m,
                        q@.len() == j,
                        forall|t: int|
                            0 <= t < j ==> (#[trigger] q@[t]) == mapped_point(st, pts@[t]) && q@[t].x
                                < w && q@[t].y < h,
                    decreases m - j,
                {
                    let p = pts[j];
                    proof {
                        assert(coord(st.paths@[i as int].points@[j as int], Axis::Horizontal) == p.x);
                        assert(coord(st.paths@[i as int].points@[j as int], Axis::Vertical) == p.y);
                        assert(st.has_value(Axis::Horizontal, p.x));
                        assert(st.has_value(Axis::Vertical, p.y));
                    }
                    let ix = line_position(&vh, p.x);
                    let iy = line_position(&vv, p.y);
                    proof {
                        lemma_line_index_is_index_in(vh@, p.x, ix as int);
                        lemma_line_index_is_index_in(vv@, p.y, iy as int);
                    }
                    let mp = IndexPoint { x: mh[ix], y: mv[iy] };
                    q.push(mp);
                    j = j + 1;
                }
                assert(q@ =~= mapped_points(st, pts@));
                let ghost mut ev = before;
                if all_same_exec(pts) {
                    view_push(&mut view, q[0].y, q[0].x, Direction::Center, Ghost(h as int), Ghost(w as int), Ghost(before));
                    proof {
                        ev = before.push((q@[0].y as int, q@[0].x as int, Direction::Center));
                    }
                }
                assert(ev == before + (if all_same(pts@) {
                    seq![(q@[0].y as int, q@[0].x as int, Direction::Center)]
                } else {
                    Seq::empty()
                }));
                let ghost base = ev;
                let mut k: usize = 0;
                while k < m
                    invariant
                        m == q@.len(),
                        0 <= k <= m,
                        forall|t: int| 0 <= t < m ==> (#[trigger] q@[t]).x < w && q@[t].y < h,
                        view_holds(view@, h as int, w as int, base + steps_events(q@, k as int)),
                    decreases m - k,
                {
                    let from = q[k];
                    let pre = if k > 0 {
                        Option::Some(q[k - 1])
                    } else {
                        Option::None
                    };
                    let next = if k + 1 < m {
                        Option::Some(q[k + 1])
                    } else {
                        Option::None
                    };
                    let ghost e0 = base + steps_events(q@, k as int);
                    push_dir_events(&mut view, from, pre, false, Ghost(h as int), Ghost(w as int), Ghost(e0));
                    let ghost e1 = e0 + dir_events(from, pre, false);
                    push_dir_events(&mut view, from, next, true, Ghost(h as int), Ghost(w as int), Ghost(e1));
                    proof {
                        assert(e1 + dir_events(from, next, true) =~= base + steps_events(q@, k + 1));
                    }
                    k = k + 1;
                }
                proof {
                    assert(base + steps_events(q@, m as int) =~= before + path_events(st, i as int));
                }
            } else {
                assert(before + path_events(st, i as int) =~= before);
            }
            proof {
                assert(view_events(st, i + 1) == before + path_events(st, i as int));
            }
            i = i + 1;
        }
        StrucView(view)
    }
}

/// The lines read from a view: the one at `segment` and its neighbour on the
/// side of `place`, among `n` lines; `None` where the neighbour would lie
/// outside the view.
pub open spec fn read_pair(place: Place, segment: int, n: int) -> (Option<int>, Option<int>) {
    if place == Place::Start {
        if segment + 1 == n {
            (Option::Some(segment), Option::None)
        } else {
            (Option::Some(segment), Option::Some(segment + 1))
        }
    } else {
        if segment == 0 {
            (Option::None, Option::Some(segment))
        } else {
            (Option::Some(segment - 1), Option::Some(segment))
        }
    }
}

impl StrucView {
    /// The view is a non-empty rectangle of cells.
    pub open spec fn is_grid(&self) -> bool {
        &&& self.0@.len() > 0
        &&& self.0@[0]@.len() > 0
        &&& forall|y: int| 0 <= y < self.0@.len() ==> (#[trigger] self.0@[y])@.len() == self.0@[0]@.len()
    }

    /// The number of cells along `axis`: columns for the horizontal axis,
    /// rows for the vertical one.
    pub open spec fn extent(&self, axis: Axis) -> int {
        match axis {
            Axis::Horizontal => self.0@[0]@.len() as int,
            Axis::Vertical => self.0@.len() as int,
        }
    }

    /// The cell at place `i` along `axis` and place `j` across it.
    pub open spec fn cell_along(&self, axis: Axis, i: int, j: int) -> Seq<Direction> {
        match axis {
            Axis::Horizontal => self.0@[j]@[i]@,
            Axis::Vertical => self.0@[i]@[j]@,
        }
    }

    /// The cell at `i` along `axis` and `j` across, or nothing where there is no `i`.
    pub open spec fn cell_or_empty(&self, axis: Axis, i: Option<int>, j: int) -> Seq<Direction> {
        match i {
            Option::Some(k) => self.cell_along(axis, k, j),
            Option::None => Seq::empty(),
        }
    }

    /// The number of columns and of rows.
    pub fn size(&self) -> (r: DataHV<usize>)
        requires
            self.0@.len() > 0,
        ensures
            r.h == self.extent(Axis::Horizontal),
            r.v == self.extent(Axis::Vertical),
    {
        DataHV::new(self.0[0].len(), self.0.len())
    }

    fn cell_copy(&self, axis: Axis, i: usize, j: usize) -> (r: Vec<Direction>)
        requires
            self.is_grid(),
            i < self.extent(axis),
            j < self.extent(crate::axis::spec_axis_inverse(axis)),
        ensures
            r@ == self.cell_along(axis, i as int, j as int),
    {
        match axis {
            Axis::Horizontal => {
                assert(self.0@[j as int]@.len() == self.0@[0]@.len());
                copy_dirs(&self.0[j][i])
            },
            Axis::Vertical => {
                assert(self.0@[i as int]@.len() == self.0@[0]@.len());
                copy_dirs(&self.0[i][j])
            },
        }
    }

    /// The lines across `axis` from `start` to `end`, inclusive: at each, the
    /// cell at `segment` along `axis` and the one beside it on the side of
    /// `place`.
    pub fn read_lines_in(&self, axis: Axis, start: usize, end: usize, segment: usize, place: Place) -> (r:
        ViewLines)
        requires
            self.is_grid(),
            place != Place::Mind,
            segment < self.extent(axis),
            start <= end ==> end < self.extent(crate::axis::spec_axis_inverse(axis)),
        ensures
            r.place == place,
            r.axis == axis,
            r.segment == segment,
            r.lines().len() == if start <= end {
                end - start + 1
            } else {
                0
            },
            forall|t: int|
                0 <= t < r.lines().len() ==> #[trigger] r.lines()[t] == ({
                    let (i1, i2) = read_pair(
                        place,
                        segment as int,
                        self.extent(axis) as int,
                    );
                    (self.cell_or_empty(axis, i1, start + t), self.cell_or_empty(axis, i2, start + t))
                }),
    {
        let size = self.size();
        let n = *size.hv_get(axis);
        let across = *size.hv_get(axis.inverse());
        let ghost pair = read_pair(place, segment as int, n as int);
        let (i1, i2): (Option<usize>, Option<usize>) = match place {
            Place::Start => if segment + 1 == n {
                (Option::Some(segment), Option::None)
            } else {
                (Option::Some(segment), Option::Some(segment + 1))
            },
            _ => if segment == 0 {
                (Option::None, Option::Some(segment))
            } else {
                (Option::Some(segment - 1), Option::Some(segment))
            },
        };
        assert(pair.0 == (match i1 {
            Option::Some(k) => Option::Some(k as int),
            Option::None => Option::None,
        }));
        assert(pair.1 == (match i2 {
            Option::Some(k) => Option::Some(k as int),
            Option::None => Option::None,
        }));
        let mut l: Vec<[Vec<Direction>; 2]> = Vec::new();
        let mut j = start;
        while j <= end
            invariant
                self.is_grid(),
                start <= j,
                start <= end ==> j <= end + 1,
                start > end ==> j == start,
                start <= end ==> end < self.extent(crate::axis::spec_axis_inverse(axis)),
                across == self.extent(crate::axis::spec_axis_inverse(axis)),
                n == self.extent(axis),
                pair.0 == (match i1 {
                    Option::Some(k) => Option::Some(k as int),
                    Option::None => Option::None,
                }),
                pair.1 == (match i2 {
                    Option::Some(k) => Option::Some(k as int),
                    Option::None => Option::None,
                }),
                i1 matches Option::Some(k) ==> k < n,
                i2 matches Option::Some(k) ==> k < n,
                l@.len() == j - start,
                forall|t: int|
                    0 <= t < l@.len() ==> #[trigger] line_view(l@[t]) == (
                        self.cell_or_empty(axis, pair.0, start + t),
                        self.cell_or_empty(axis, pair.1, start + t),
                    ),
            decreases end + 1 - j,
        {
            let a = match i1 {
                Option::Some(k) => self.cell_copy(axis, k, j),
                Option::None => Vec::new(),
            };
            let b = match i2 {
                Option::Some(k) => self.cell_copy(axis, k, j),
                Option::None => Vec::new(),
            };
            let line = [a, b];
            proof {
                assert(line_view(line).0 =~= self.cell_or_empty(axis, pair.0, j as int));
                assert(line_view(line).1 =~= self.cell_or_empty(axis, pair.1, j as int));
            }
            l.push(line);
            j = j + 1;
        }
        let r = ViewLines { l, place, axis, segment };
        assert forall|t: int| 0 <= t < r.lines().len() implies #[trigger] r.lines()[t] == ({
            let (i1, i2) = read_pair(place, segment as int, self.extent(axis) as int);
            (self.cell_or_empty(axis, i1, start + t), self.cell_or_empty(axis, i2, start + t))
        }) by {
            assert(r.lines()[t] == line_view(r.l@[t]));
        }
        r
    }

    /// The lines along the whole first (`Start`) or last (`End`) line of cells
    /// across `axis`.
    pub fn read_lines(&self, axis: Axis, place: Place) -> (r: ViewLines)
        requires
            self.is_grid(),
            place != Place::Mind,
        ensures
            r.place == place,
            r.axis == axis,
            r.segment == if place == Place::Start {
                0
            } else {
                self.extent(axis) - 1
            },
            r.lines().len() == self.extent(crate::axis::spec_axis_inverse(axis)),
            forall|t: int|
                0 <= t < r.lines().len() ==> #[trigger] r.lines()[t] == ({
                    let (i1, i2) = read_pair(
                        place,
                        r.segment as int,
                        self.extent(axis) as int,
                    );
                    (self.cell_or_empty(axis, i1, t), self.cell_or_empty(axis, i2, t))
                }),
    {
        let size = self.size();
        let segment = match place {
            Place::Start => 0,
            _ => *size.hv_get(axis) - 1,
        };
        let across = *size.hv_get(axis.inverse());
        self.read_lines_in(axis, 0, across - 1, segment, place)
    }
}

} // verus!
