use vstd::prelude::*;

verus! {

/// One of the two directions of the glyph plane.
#[derive(Clone, Copy, PartialEq, Eq, Structural, Hash, Debug)]
pub enum Axis {
    Horizontal,
    Vertical,
}

/// The kind of a straight line in a glyph.
#[derive(Clone, Copy, PartialEq, Eq, Structural, PartialOrd, Ord, Hash, Debug)]
pub enum LineType {
    HLine,
    VLine,
    DLine,
}

/// A position along one axis: its start, its middle or its end.
#[derive(Clone, Copy, PartialEq, Eq, Structural, PartialOrd, Ord, Hash, Debug)]
pub enum Place {
    Start,
    Mind,
    End,
}

/// The axis orthogonal to `a`.
pub open spec fn spec_axis_inverse(a: Axis) -> Axis {
    match a {
        Axis::Horizontal => Axis::Vertical,
        Axis::Vertical => Axis::Horizontal,
    }
}

/// The place mirrored through the middle.
pub open spec fn spec_place_inverse(p: Place) -> Place {
    match p {
        Place::Start => Place::End,
        Place::Mind => Place::Mind,
        Place::End => Place::Start,
    }
}

impl Axis {
    pub fn inverse(&self) -> (r: Self)
        ensures
            r == spec_axis_inverse(*self),
    {
        match self {
            Axis::Horizontal => Axis::Vertical,
            Axis::Vertical => Axis::Horizontal,
        }
    }

    pub fn list() -> (r: [Axis; 2])
        ensures
            r@ == seq![Axis::Horizontal, Axis::Vertical],
    {
        let r = [Axis::Horizontal, Axis::Vertical];
        assert(r@ =~= seq![Axis::Horizontal, Axis::Vertical]);
        r
    }

    pub fn hv_data() -> (r: DataHV<Axis>)
        ensures
            r.h == Axis::Horizontal,
            r.v == Axis::Vertical,
    {
        DataHV { h: Axis::Horizontal, v: Axis::Vertical }
    }
}

impl Place {
    pub fn inverse(&self) -> (r: Self)
        ensures
            r == spec_place_inverse(*self),
    {
        match self {
            Place::Start => Place::End,
            Place::Mind => Place::Mind,
            Place::End => Place::Start,
        }
    }

    pub fn start_and_end() -> (r: [Place; 2])
        ensures
            r@ == seq![Place::Start, Place::End],
    {
        let r = [Place::Start, Place::End];
        assert(r@ =~= seq![Place::Start, Place::End]);
        r
    }
}

/// Inverting an axis twice gives it back, and never gives the same axis.
pub proof fn lemma_axis_inverse_involution(a: Axis)
    ensures
        spec_axis_inverse(spec_axis_inverse(a)) == a,
        spec_axis_inverse(a) != a,
{
}

/// Inverting a place twice gives it back; only the middle is its own inverse.
pub proof fn lemma_place_inverse_involution(p: Place)
    ensures
        spec_place_inverse(spec_place_inverse(p)) == p,
        (spec_place_inverse(p) == p) <==> (p == Place::Mind),
{
}

/// A pair of values, one for each axis.
#[derive(Clone, Copy, PartialEq, Eq, Default, Debug)]
pub struct DataHV<T> {
    pub h: T,
    pub v: T,
}

impl<T> DataHV<T> {
    /// The value that belongs to `axis`.
    pub open spec fn spec_get(self, axis: Axis) -> T {
        match axis {
            Axis::Horizontal => self.h,
            Axis::Vertical => self.v,
        }
    }

    /// This pair with the value of `axis` replaced by `val`.
    pub open spec fn spec_set(self, axis: Axis, val: T) -> Self {
        match axis {
            Axis::Horizontal => DataHV { h: val, v: self.v },
            Axis::Vertical => DataHV { h: self.h, v: val },
        }
    }

    pub fn new(h: T, v: T) -> (r: Self)
        ensures
            r.h == h,
            r.v == v,
    {
        Self { h, v }
    }

    pub fn from_pair(value: (T, T)) -> (r: Self)
        ensures
            r.h == value.0,
            r.v == value.1,
    {
        Self { h: value.0, v: value.1 }
    }

    pub fn hv_get(&self, axis: Axis) -> (r: &T)
        ensures
            *r == self.spec_get(axis),
    {
        match axis {
            Axis::Horizontal => &self.h,
            Axis::Vertical => &self.v,
        }
    }

    pub fn hv_set(&mut self, axis: Axis, val: T)
        ensures
            *final(self) == old(self).spec_set(axis, val),
    {
        match axis {
            Axis::Horizontal => self.h = val,
            Axis::Vertical => self.v = val,
        }
    }

    pub fn zip<T2>(self, other: DataHV<T2>) -> (r: DataHV<(T, T2)>)
        ensures
            r.h == (self.h, other.h),
            r.v == (self.v, other.v),
    {
        DataHV { h: (self.h, other.h), v: (self.v, other.v) }
    }

    pub fn to_array(self) -> (r: [T; 2])
        ensures
            r@ == seq![self.h, self.v],
    {
        let r = [self.h, self.v];
        assert(r@ =~= seq![self.h, self.v]);
        r
    }

    /// The first axis, horizontal before vertical, whose value `f` accepts.
    pub fn in_axis<F: Fn(&T) -> bool>(&self, f: F) -> (r: Option<Axis>)
        requires
            f.requires((&self.h,)),
            f.requires((&self.v,)),
        ensures
            r == Some(Axis::Horizontal) ==> f.ensures((&self.h,), true),
            r == Some(Axis::Vertical) ==> f.ensures((&self.h,), false) && f.ensures((&self.v,), true),
            r is None ==> f.ensures((&self.h,), false) && f.ensures((&self.v,), false),
    {
        if f(&self.h) {
            Some(Axis::Horizontal)
        } else if f(&self.v) {
            Some(Axis::Vertical)
        } else {
            None
        }
    }

    /// The values that `f` gives for the value of each axis.
    pub fn map<T2, F: Fn(&T) -> T2>(&self, f: F) -> (r: DataHV<T2>)
        requires
            f.requires((&self.h,)),
            f.requires((&self.v,)),
        ensures
            f.ensures((&self.h,), r.h),
            f.ensures((&self.v,), r.v),
    {
        DataHV { h: f(&self.h), v: f(&self.v) }
    }

    /// The values that `f` makes of the value of each axis, horizontal first.
    pub fn into_map<T2, F: Fn(T) -> T2>(self, f: F) -> (r: DataHV<T2>)
        requires
            f.requires((self.h,)),
            f.requires((self.v,)),
        ensures
            f.ensures((self.h,), r.h),
            f.ensures((self.v,), r.v),
    {
        let h = f(self.h);
        let v = f(self.v);
        DataHV { h, v }
    }

    /// References to the value of each axis.
    pub fn as_ref(&self) -> (r: DataHV<&T>)
        ensures
            *r.h == self.h,
            *r.v == self.v,
    {
        DataHV { h: &self.h, v: &self.v }
    }
}

impl<T: Clone> DataHV<T> {
    /// The pair with `val` on both axes: a copy of it horizontally.
    pub fn splat(val: T) -> (r: Self)
        ensures
            cloned(val, r.h),
            r.v == val,
    {
        Self { h: val.clone(), v: val }
    }

    /// The pair with the axes swapped.
    pub fn vh(&self) -> (r: Self)
        ensures
            cloned(self.v, r.h),
            cloned(self.h, r.v),
    {
        Self { h: self.v.clone(), v: self.h.clone() }
    }
}

impl<T, U> DataHV<(T, U)> {
    pub fn unzip(self) -> (r: (DataHV<T>, DataHV<U>))
        ensures
            r.0.h == self.h.0,
            r.0.v == self.v.0,
            r.1.h == self.h.1,
            r.1.v == self.v.1,
    {
        (DataHV { h: self.h.0, v: self.v.0 }, DataHV { h: self.h.1, v: self.v.1 })
    }
}

/// Reading an axis after writing it gives what was written; the other axis is untouched.
pub proof fn lemma_hv_get_set<T>(d: DataHV<T>, axis: Axis, val: T)
    ensures
        d.spec_set(axis, val).spec_get(axis) == val,
        d.spec_set(axis, val).spec_get(spec_axis_inverse(axis)) == d.spec_get(spec_axis_inverse(axis)),
{
}

/// Zipping two pairs and unzipping the result gives them back.
pub proof fn lemma_zip_unzip<T, U>(a: DataHV<T>, b: DataHV<U>)
    ensures
        ({
            let z = DataHV { h: (a.h, b.h), v: (a.v, b.v) };
            DataHV { h: z.h.0, v: z.v.0 } == a && DataHV { h: z.h.1, v: z.v.1 } == b
        }),
{
}

} // verus!
