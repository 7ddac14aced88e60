//! Traced regions: a boundary, the rectangle around it and its area.

use crate::geometry::Rect;
use vstd::prelude::*;

verus! {

/// A point on a boundary, in pixel coordinates.
#[derive(Clone, Copy, Debug, PartialEq, Eq, Structural)]
pub struct Point {
    pub x: i32,
    pub y: i32,
}

/// The columns of the points, in order.
pub open spec fn columns(points: Seq<Point>) -> Seq<int> {
    points.map_values(|p: Point| p.x as int)
}

/// The rows of the points, in order.
pub open spec fn rows(points: Seq<Point>) -> Seq<int> {
    points.map_values(|p: Point| p.y as int)
}

/// A boundary has at least one point, and none left of or above the
/// image's origin.
pub open spec fn traceable(points: Seq<Point>) -> bool {
    &&& points.len() > 0
    &&& forall|i: int| 0 <= i < points.len() ==> (#[trigger] points[i]).x >= 0 && points[i].y >= 0
}

/// The smallest rectangle that holds every point: it reaches from the
/// least column and row to the greatest, both included.
pub open spec fn enclosing_rect(points: Seq<Point>) -> Rect {
    Rect {
        x: columns(points).min() as u32,
        y: rows(points).min() as u32,
        width: (columns(points).max() - columns(points).min() + 1) as u32,
        height: (rows(points).max() - rows(points).min() + 1) as u32,
    }
}

/// Twice the signed area of the triangle between the origin and two points.
pub open spec fn cross(p: Point, q: Point) -> int {
    p.x * q.y - q.x * p.y
}

/// The point before position `i` on a closed boundary: the last point
/// comes before the first.
pub open spec fn before(points: Seq<Point>, i: int) -> Point {
    if i == 0 {
        points.last()
    } else {
        points[i - 1]
    }
}

/// The sum of the crosses along the first `n` edges of the closed boundary.
pub open spec fn cross_sum(points: Seq<Point>, n: nat) -> int
    decreases n,
{
    if n == 0 {
        0
    } else {
        cross_sum(points, (n - 1) as nat) + cross(before(points, n - 1), points[n - 1])
    }
}

/// Twice the area of the polygon that the boundary encloses, whichever way
/// round the boundary runs.
pub open spec fn doubled_area(points: Seq<Point>) -> int {
    let sum: int = cross_sum(points, points.len());
    if sum < 0 {
        -sum
    } else {
        sum
    }
}

/// The areas of several boundaries, in order.
pub open spec fn doubled_areas(regions: Seq<Seq<Point>>) -> Seq<int> {
    regions.map_values(|points: Seq<Point>| doubled_area(points))
}

/// Position `i` holds the largest value, and no earlier position holds one
/// as large.
pub open spec fn is_first_largest(values: Seq<int>, i: int) -> bool {
    &&& 0 <= i < values.len()
    &&& forall|j: int| 0 <= j < values.len() ==> values[j] <= values[i]
    &&& forall|j: int| 0 <= j < i ==> values[j] < values[i]
}

/// The first position of the largest value.
pub open spec fn first_largest(values: Seq<int>) -> int {
    choose|i: int| is_first_largest(values, i)
}

/// Only one position can be the first largest.
pub proof fn lemma_first_largest(values: Seq<int>, i: int)
    requires
        is_first_largest(values, i),
    ensures
        first_largest(values) == i,
{
    let c: int = first_largest(values);
    assert(is_first_largest(values, c));
    if c < i {
        assert(values[c] < values[i]);
    } else if i < c {
        assert(values[i] < values[c]);
    }
}

/// A value that occurs in a sequence and bounds it from below is its
/// minimum; one that bounds it from above is its maximum.
pub proof fn lemma_extremes(values: Seq<int>, low: int, high: int)
    requires
        values.contains(low),
        values.contains(high),
        forall|i: int| 0 <= i < values.len() ==> low <= (#[trigger] values[i]) <= high,
    ensures
        values.min() == low,
        values.max() == high,
{
    values.min_ensures();
    values.max_ensures();
}

/// One connected region, given by the points of its outer boundary in the
/// order in which they were traced.
#[derive(Debug, PartialEq, Eq)]
pub struct Contour {
    points: Vec<Point>,
}

impl View for Contour {
    type V = Seq<Point>;

    closed spec fn view(&self) -> Seq<Point> {
        self.points@
    }
}

/// The boundaries of several regions, in order.
pub open spec fn boundaries(contours: Seq<Contour>) -> Seq<Seq<Point>> {
    contours.map_values(|c: Contour| c@)
}

impl Contour {
    #[verifier::type_invariant]
    spec fn well_formed(self) -> bool {
        traceable(self.points@)
    }

    /// Accepts the points of a boundary.  They are refused when there is
    /// none, or when one has a negative coordinate.
    pub fn new(points: Vec<Point>) -> (r: Option<Contour>)
        ensures
            r is Some <==> traceable(points@),
            r matches Some(contour) ==> contour@ == points@,
    {
        if points.len() == 0 {
            return None;
        }
        let mut i: usize = 0;
        while i < points.len()
            invariant
                i <= points.len(),
                forall|j: int| 0 <= j < i ==> (#[trigger] points@[j]).x >= 0 && points@[j].y >= 0,
            decreases points.len() - i,
        {
            if points[i].x < 0 || points[i].y < 0 {
                return None;
            }
            i = i + 1;
        }
        Some(Contour { points })
    }

    /// The number of boundary points; never zero.
    pub fn len(&self) -> (n: usize)
        ensures
            n == self@.len(),
            traceable(self@),
    {
        proof {
            use_type_invariant(self);
        }
        self.points.len()
    }

    /// The boundary point at position `i`.
    pub fn point(&self, i: usize) -> (p: Point)
        requires
            i < self@.len(),
        ensures
            p == self@[i as int],
    {
        self.points[i]
    }

    /// The smallest rectangle that holds the whole boundary.
    pub fn bounding_rect(&self) -> (rect: Rect)
        ensures
            rect == enclosing_rect(self@),
            rect.has_area(),
    {
        proof {
            use_type_invariant(self);
        }
        let first: Point = self.points[0];
        let mut min_x: i32 = first.x;
        let mut max_x: i32 = first.x;
        let mut min_y: i32 = first.y;
        let mut max_y: i32 = first.y;
        let ghost xs: Seq<int> = columns(self.points@);
        let ghost ys: Seq<int> = rows(self.points@);
        proof {
            assert(xs[0] == min_x && ys[0] == min_y);
        }
        let mut i: usize = 1;
        while i < self.points.len()
            invariant
                traceable(self.points@),
                xs == columns(self.points@),
                ys == rows(self.points@),
                1 <= i <= self.points.len(),
                0 <= min_x <= max_x,
                0 <= min_y <= max_y,
                xs.contains(min_x as int),
                xs.contains(max_x as int),
                ys.contains(min_y as int),
                ys.contains(max_y as int),
                forall|j: int| 0 <= j < i ==> min_x <= (#[trigger] xs[j]) <= max_x,
                forall|j: int| 0 <= j < i ==> min_y <= (#[trigger] ys[j]) <= max_y,
            decreases self.points.len() - i,
        {
            let p: Point = self.points[i];
            proof {
                assert(xs[i as int] == p.x && ys[i as int] == p.y);
            }
            if p.x < min_x {
                min_x = p.x;
            }
            if p.x > max_x {
                max_x = p.x;
            }
            if p.y < min_y {
                min_y = p.y;
            }
            if p.y > max_y {
                max_y = p.y;
            }
            i = i + 1;
        }
        proof {
            lemma_extremes(xs, min_x as int, max_x as int);
            lemma_extremes(ys, min_y as int, max_y as int);
        }
        Rect {
            x: min_x as u32,
            y: min_y as u32,
            width: (max_x - min_x) as u32 + 1,
            height: (max_y - min_y) as u32 + 1,
        }
    }

    /// Twice the area that the boundary encloses.
    pub fn doubled_area(&self) -> (area: u128)
        ensures
            area == doubled_area(self@),
    {
        proof {
            use_type_invariant(self);
        }
        let n: usize = self.points.len();
        let mut sum: i128 = 0;
        let mut previous: Point = self.points[n - 1];
        let mut i: usize = 0;
        while i < n
            invariant
                traceable(self.points@),
                n == self.points@.len(),
                i <= n,
                previous == before(self.points@, i as int),
                sum == cross_sum(self.points@, i as nat),
                -(i * 0x4000_0000_0000_0000) <= sum <= i * 0x4000_0000_0000_0000,
            decreases n - i,
        {
            let current: Point = self.points[i];
            proof {
                lemma_cross_range(previous, current);
            }
            let term: i128 = (previous.x as i128) * (current.y as i128) - (current.x as i128) * (
            previous.y as i128);
            sum = sum + term;
            previous = current;
            i = i + 1;
        }
        if sum < 0 {
            (-sum) as u128
        } else {
            sum as u128
        }
    }
}

/// The cross of two points with coordinates from zero up stays well inside
/// 64 bits, and so do the two products it is made of.
pub proof fn lemma_cross_range(p: Point, q: Point)
    requires
        p.x >= 0,
        p.y >= 0,
        q.x >= 0,
        q.y >= 0,
    ensures
        0 <= p.x * q.y <= 0x4000_0000_0000_0000,
        0 <= q.x * p.y <= 0x4000_0000_0000_0000,
        -0x4000_0000_0000_0000 <= cross(p, q) <= 0x4000_0000_0000_0000,
{
    assert(0 <= p.x * q.y <= 0x4000_0000_0000_0000) by (nonlinear_arith)
        requires
            0 <= p.x <= 0x7FFF_FFFF,
            0 <= q.y <= 0x7FFF_FFFF,
    ;
    assert(0 <= q.x * p.y <= 0x4000_0000_0000_0000) by (nonlinear_arith)
        requires
            0 <= q.x <= 0x7FFF_FFFF,
            0 <= p.y <= 0x7FFF_FFFF,
    ;
}

/// Finds the region of the largest area; among regions of equal area the
/// one that comes first.  There is none in an empty list.
pub fn largest_contour(contours: &Vec<Contour>) -> (r: Option<usize>)
    ensures
        r is None <==> contours@.len() == 0,
        r matches Some(i) ==> is_first_largest(doubled_areas(boundaries(contours@)), i as int)
            && i == first_largest(doubled_areas(boundaries(contours@))),
{
    if contours.len() == 0 {
        return None;
    }
    let ghost areas: Seq<int> = doubled_areas(boundaries(contours@));
    let mut best: usize = 0;
    let mut best_area: u128 = contours[0].doubled_area();
    let mut i: usize = 1;
    proof {
        assert(areas[0] == doubled_area(contours@[0]@));
    }
    while i < contours.len()
        invariant
            areas == doubled_areas(boundaries(contours@)),
            areas.len() == contours@.len(),
            1 <= i <= contours@.len(),
            best < i,
            best_area == areas[best as int],
            forall|j: int| 0 <= j < i ==> areas[j] <= best_area,
            forall|j: int| 0 <= j < best ==> areas[j] < best_area,
        decreases contours.len() - i,
    {
        let area: u128 = contours[i].doubled_area();
        proof {
            assert(areas[i as int] == doubled_area(contours@[i as int]@));
        }
        if area > best_area {
            best = i;
            best_area = area;
        }
        i = i + 1;
    }
    proof {
        lemma_first_largest(areas, best as int);
    }
    Some(best)
}

} // verus!
