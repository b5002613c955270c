//! Projection-agnostic geometry primitives shared by every layout engine.

use vstd::prelude::*;

verus! {

/// A point in renderer coordinates.
#[derive(Debug, Clone, Copy, PartialEq, Eq, Structural, Default)]
pub struct Point {
    pub x: i32,
    pub y: i32,
}

/// A width/height extent.
#[derive(Debug, Clone, Copy, PartialEq, Eq, Structural, Default)]
pub struct Size {
    pub w: i32,
    pub h: i32,
}

/// An axis-aligned rectangle in renderer coordinates.
#[derive(Debug, Clone, Copy, PartialEq, Eq, Structural, Default)]
pub struct Rect {
    pub x: i32,
    pub y: i32,
    pub w: i32,
    pub h: i32,
}

/// Whether `v` is representable as an `i32`.
pub open spec fn fits_i32(v: int) -> bool {
    i32::MIN <= v <= i32::MAX
}

impl Rect {
    /// The rectangle at `(x, y)` of size `w` by `h`.
    pub fn new(x: i32, y: i32, w: i32, h: i32) -> (r: Rect)
        ensures
            r == (Rect { x, y, w, h }),
    {
        Rect { x, y, w, h }
    }

    /// The right edge is representable.
    pub open spec fn edges_fit(self) -> bool {
        fits_i32(self.x + self.w) && fits_i32(self.y + self.h)
    }

    /// The right edge (`x + w`).
    pub fn right(&self) -> (r: i32)
        requires
            fits_i32(self.x + self.w),
        ensures
            r == self.x + self.w,
    {
        self.x + self.w
    }

    /// The bottom edge (`y + h`).
    pub fn bottom(&self) -> (b: i32)
        requires
            fits_i32(self.y + self.h),
        ensures
            b == self.y + self.h,
    {
        self.y + self.h
    }

    /// Whether `p` lies within the rectangle (edges inclusive).
    pub fn contains(&self, p: Point) -> (c: bool)
        requires
            self.edges_fit(),
        ensures
            c == (self.x <= p.x <= self.x + self.w && self.y <= p.y <= self.y + self.h),
    {
        p.x >= self.x && p.x <= self.right() && p.y >= self.y && p.y <= self.bottom()
    }
}

/// A min/max accumulator that grows to enclose the points and rectangles fed
/// to it — the helper a layout engine uses to size a container around its
/// contents. Empty until the first insertion.
#[derive(Debug, Clone, Copy)]
pub struct Bounds {
    /// `(min_x, min_y, max_x, max_y)` of everything included so far.
    extent: Option<(i32, i32, i32, i32)>,
}

/// The extent of a bounds box after including the point `(x, y)`.
pub open spec fn grown(e: Option<(i32, i32, i32, i32)>, x: i32, y: i32) -> Option<(i32, i32, i32, i32)> {
    match e {
        None => Some((x, y, x, y)),
        Some((a, b, c, d)) => Some(
            (
                if x < a { x } else { a },
                if y < b { y } else { b },
                if x > c { x } else { c },
                if y > d { y } else { d },
            ),
        ),
    }
}

impl View for Bounds {
    type V = Option<(i32, i32, i32, i32)>;

    /// `(min_x, min_y, max_x, max_y)` of everything included, or `None`.
    closed spec fn view(&self) -> Option<(i32, i32, i32, i32)> {
        self.extent
    }
}

impl Bounds {
    /// The extent is ordered: each minimum is at most its maximum.
    #[verifier::type_invariant]
    spec fn ordered(self) -> bool {
        match self.extent {
            None => true,
            Some((a, b, c, d)) => a <= c && b <= d,
        }
    }

    /// The enclosing rectangle's width and height are representable.
    pub open spec fn rect_fits(self) -> bool {
        match self@ {
            None => true,
            Some((a, b, c, d)) => fits_i32(c - a) && fits_i32(d - b),
        }
    }

    /// An empty accumulator.
    pub fn new() -> (b: Bounds)
        ensures
            b@ == None::<(i32, i32, i32, i32)>,
    {
        Bounds { extent: None }
    }

    /// Whether nothing has been inserted yet.
    pub fn is_empty(&self) -> (e: bool)
        ensures
            e == self@.is_none(),
    {
        self.extent.is_none()
    }

    /// Grow to include the point `(x, y)`.
    pub fn add_point(&mut self, x: i32, y: i32)
        ensures
            final(self)@ == grown(old(self)@, x, y),
    {
        proof {
            use_type_invariant(&*self);
        }
        let next = match self.extent {
            None => (x, y, x, y),
            Some((min_x, min_y, max_x, max_y)) => (
                if x < min_x { x } else { min_x },
                if y < min_y { y } else { min_y },
                if x > max_x { x } else { max_x },
                if y > max_y { y } else { max_y },
            ),
        };
        self.extent = Some(next);
    }

    /// Grow to include every corner of `r`.
    pub fn include_rect(&mut self, r: Rect)
        requires
            r.edges_fit(),
        ensures
            final(self)@ == grown(grown(old(self)@, r.x, r.y), (r.x + r.w) as i32, (r.y + r.h) as i32),
    {
        self.add_point(r.x, r.y);
        let right = r.right();
        let bottom = r.bottom();
        self.add_point(right, bottom);
    }

    /// The enclosing rectangle, or `None` if empty.
    pub fn rect(&self) -> (r: Option<Rect>)
        requires
            self.rect_fits(),
        ensures
            r == match self@ {
                None => None,
                Some((a, b, c, d)) => Some(Rect { x: a, y: b, w: (c - a) as i32, h: (d - b) as i32 }),
            },
            r matches Some(q) ==> q.w >= 0 && q.h >= 0,
    {
        proof {
            use_type_invariant(self);
        }
        match self.extent {
            None => None,
            Some((min_x, min_y, max_x, max_y)) => Some(
                Rect::new(min_x, min_y, max_x - min_x, max_y - min_y),
            ),
        }
    }

    /// The enclosing rectangle grown by `pad` on every side, or `None` if
    /// empty.
    pub fn padded(&self, pad: i32) -> (r: Option<Rect>)
        requires
            self.rect_fits(),
            fits_i32(2 * pad),
            self@ matches Some((a, b, c, d)) ==> fits_i32(a - pad) && fits_i32(b - pad) && fits_i32(
                c - a + 2 * pad,
            ) && fits_i32(d - b + 2 * pad),
        ensures
            r == match self@ {
                None => None,
                Some((a, b, c, d)) => Some(
                    Rect {
                        x: (a - pad) as i32,
                        y: (b - pad) as i32,
                        w: (c - a + 2 * pad) as i32,
                        h: (d - b + 2 * pad) as i32,
                    },
                ),
            },
    {
        match self.rect() {
            None => None,
            Some(r) => {
                Some(Rect::new(r.x - pad, r.y - pad, r.w + 2 * pad, r.h + 2 * pad))
            },
        }
    }
}

/// The extent `e` encloses the point `(x, y)`.
pub open spec fn encloses(e: Option<(i32, i32, i32, i32)>, x: i32, y: i32) -> bool {
    match e {
        Some((a, b, c, d)) => a <= x <= c && b <= y <= d,
        None => false,
    }
}

/// Bounds grow to enclose: after including a point the extent encloses it,
/// and everything the extent enclosed before it still encloses.
pub proof fn lemma_grown_encloses(e: Option<(i32, i32, i32, i32)>, x: i32, y: i32, px: i32, py: i32)
    ensures
        encloses(grown(e, x, y), x, y),
        encloses(e, px, py) ==> encloses(grown(e, x, y), px, py),
{
}

/// The extent of bounds that start empty and include `pts` in order.
pub open spec fn points_extent(pts: Seq<(i32, i32)>) -> Option<(i32, i32, i32, i32)>
    decreases pts.len(),
{
    if pts.len() == 0 {
        None
    } else {
        grown(points_extent(pts.drop_last()), pts.last().0, pts.last().1)
    }
}

/// Including two points in either order gives the same extent, and an
/// extent that has taken a point is no longer empty.
pub proof fn law_bounds_order_free(e: Option<(i32, i32, i32, i32)>, x1: i32, y1: i32, x2: i32, y2: i32)
    ensures
        grown(grown(e, x1, y1), x2, y2) == grown(grown(e, x2, y2), x1, y1),
        grown(e, x1, y1) is Some,
{
}

/// Bounds are empty exactly until the first point is included, and then
/// they are the smallest box around the points: every point lies inside,
/// and each side passes through one of them.
pub proof fn law_bounds_tight(pts: Seq<(i32, i32)>)
    ensures
        points_extent(pts) is None <==> pts.len() == 0,
        points_extent(pts) matches Some((a, b, c, d)) ==> {
            &&& forall|i: int| 0 <= i < pts.len() ==> a <= (#[trigger] pts[i]).0 <= c && b <= pts[i].1 <= d
            &&& exists|i: int| 0 <= i < pts.len() && (#[trigger] pts[i]).0 == a
            &&& exists|i: int| 0 <= i < pts.len() && (#[trigger] pts[i]).1 == b
            &&& exists|i: int| 0 <= i < pts.len() && (#[trigger] pts[i]).0 == c
            &&& exists|i: int| 0 <= i < pts.len() && (#[trigger] pts[i]).1 == d
        },
    decreases pts.len(),
{
    if pts.len() > 0 {
        let pre = pts.drop_last();
        let n = pts.len() - 1;
        law_bounds_tight(pre);
        assert forall|i: int| 0 <= i < n implies pts[i] == #[trigger] pre[i] by {}
        match points_extent(pre) {
            None => {
                assert(pts[n] == pts.last());
            },
            Some((a0, b0, c0, d0)) => {
                let ia = choose|i: int| 0 <= i < pre.len() && (#[trigger] pre[i]).0 == a0;
                let ib = choose|i: int| 0 <= i < pre.len() && (#[trigger] pre[i]).1 == b0;
                let ic = choose|i: int| 0 <= i < pre.len() && (#[trigger] pre[i]).0 == c0;
                let id = choose|i: int| 0 <= i < pre.len() && (#[trigger] pre[i]).1 == d0;
                assert(pts[ia] == pre[ia] && pts[ib] == pre[ib] && pts[ic] == pre[ic] && pts[id] == pre[id]);
                assert(pts[n] == pts.last());
                assert forall|i: int| 0 <= i < pts.len() implies {
                    let (a, b, c, d) = points_extent(pts)->0;
                    a <= (#[trigger] pts[i]).0 <= c && b <= pts[i].1 <= d
                } by {
                    if i < n {
                        assert(pts[i] == pre[i]);
                    }
                }
            },
        }
    }
}

} // verus!
