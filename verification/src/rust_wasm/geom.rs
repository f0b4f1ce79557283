use vstd::prelude::*;

verus! {

/// A two-dimensional vector with integer coordinates.
#[derive(Debug, Clone, Copy, PartialEq)]
pub struct Vector {
    pub x: i32,
    pub y: i32,
}

impl Vector {
    /// The vector `(0, 0)`.
    pub fn zero() -> (v: Vector)
        ensures
            v.x == 0,
            v.y == 0,
    {
        Vector { x: 0, y: 0 }
    }

    /// The vector `(1, 1)`.
    pub fn unit() -> (v: Vector)
        ensures
            v.x == 1,
            v.y == 1,
    {
        Vector { x: 1, y: 1 }
    }

    /// Negates both coordinates.
    pub fn invert(&mut self)
        requires
            invertible(*old(self)),
        ensures
            *final(self) == inverted(*old(self)),
    {
        proof {
            lemma_negate(self.x as int);
            lemma_negate(self.y as int);
        }
        self.x = self.x * -1;
        self.y = self.y * -1;
    }
}

proof fn lemma_negate(v: int)
    ensures
        v * -1 == -v,
{
    assert(v * -1 == -v) by (nonlinear_arith);
}

/// The vector with both coordinates negated.
pub open spec fn inverted(v: Vector) -> Vector {
    Vector { x: (-v.x) as i32, y: (-v.y) as i32 }
}

/// Both coordinates can be negated.
pub open spec fn invertible(v: Vector) -> bool {
    v.x != i32::MIN && v.y != i32::MIN
}

/// Inverting twice gives the vector back, and the inverted vector can be inverted again.
pub proof fn lemma_invert_twice(v: Vector)
    requires
        invertible(v),
    ensures
        invertible(inverted(v)),
        inverted(inverted(v)) == v,
{
}

/// A point with 16-bit integer coordinates.
pub struct Point {
    pub x: i16,
    pub y: i16,
}

impl Point {
    pub fn create(x: i16, y: i16) -> (p: Point)
        ensures
            p.x == x,
            p.y == y,
    {
        Point { x, y }
    }
}

/// The lower edge of an interval of `extent` around `center`, as the box computes it:
/// both values are taken as `i16` (wrapping) and half the extent is subtracted.
pub open spec fn lower_edge(center: u16, extent: u16) -> int {
    (center as i16) - ((extent / 2) as i16)
}

/// The upper edge of an interval of `extent` around `center`.
pub open spec fn upper_edge(center: u16, extent: u16) -> int {
    (center as i16) + ((extent / 2) as i16)
}

/// An axis-aligned box given by its four corners.
pub struct BoundingBox {
    top_left: Point,
    top_right: Point,
    bottom_left: Point,
    bottom_right: Point,
}

impl BoundingBox {
    /// Left edge of the box.
    pub closed spec fn left(&self) -> int {
        self.top_left.x as int
    }

    /// Right edge of the box.
    pub closed spec fn right(&self) -> int {
        self.top_right.x as int
    }

    /// Top edge of the box (the larger y).
    pub closed spec fn top(&self) -> int {
        self.top_left.y as int
    }

    /// Bottom edge of the box (the smaller y).
    pub closed spec fn bottom(&self) -> int {
        self.bottom_left.y as int
    }

    /// The corners in the order top left, top right, bottom left, bottom right.
    pub closed spec fn corners(&self) -> Seq<(int, int)> {
        seq![
            (self.top_left.x as int, self.top_left.y as int),
            (self.top_right.x as int, self.top_right.y as int),
            (self.bottom_left.x as int, self.bottom_left.y as int),
            (self.bottom_right.x as int, self.bottom_right.y as int),
        ]
    }

    /// The box is built from its edges: each corner lies on two of them.
    pub closed spec fn well_formed(&self) -> bool {
        &&& self.top_right.y == self.top_left.y
        &&& self.bottom_left.x == self.top_left.x
        &&& self.bottom_right.x == self.top_right.x
        &&& self.bottom_right.y == self.bottom_left.y
    }

    /// The point lies within the box, edges included.
    pub open spec fn spec_point_within(&self, x: int, y: int) -> bool {
        self.left() <= x <= self.right() && self.bottom() <= y <= self.top()
    }

    /// Some corner of `other` lies within `self` in the sense of `spec_point_within`.
    pub open spec fn spec_overlaps(&self, other: &BoundingBox) -> bool {
        exists|i: int|
            0 <= i < 4 && #[trigger] self.spec_point_within(other.corners()[i].0, other.corners()[i].1)
    }

    /// Builds the box of the given width and height around `(center_x, center_y)`.
    /// Coordinates are taken as `i16`, and half the extent (rounded down) goes to each side.
    pub fn create(center_x: u16, center_y: u16, width: u16, height: u16) -> (b: BoundingBox)
        requires
            i16::MIN <= lower_edge(center_x, width),
            upper_edge(center_x, width) <= i16::MAX,
            i16::MIN <= lower_edge(center_y, height),
            upper_edge(center_y, height) <= i16::MAX,
        ensures
            b.well_formed(),
            b.left() == lower_edge(center_x, width),
            b.right() == upper_edge(center_x, width),
            b.bottom() == lower_edge(center_y, height),
            b.top() == upper_edge(center_y, height),
            b.corners() == seq![
                (lower_edge(center_x, width), upper_edge(center_y, height)),
                (upper_edge(center_x, width), upper_edge(center_y, height)),
                (lower_edge(center_x, width), lower_edge(center_y, height)),
                (upper_edge(center_x, width), lower_edge(center_y, height)),
            ],
    {
        let cx = center_x as i16;
        let cy = center_y as i16;
        let hw = (width / 2) as i16;
        let hh = (height / 2) as i16;
        let top_left = Point { x: cx - hw, y: cy + hh };
        let top_right = Point { x: cx + hw, y: cy + hh };
        let bottom_left = Point { x: cx - hw, y: cy - hh };
        let bottom_right = Point { x: cx + hw, y: cy - hh };
        BoundingBox { top_left, top_right, bottom_left, bottom_right }
    }

    /// The four corners: top left, top right, bottom left, bottom right.
    pub fn points(&self) -> (ps: Vec<&Point>)
        ensures
            ps@.len() == 4,
            forall|i: int|
                0 <= i < 4 ==> (#[trigger] ps@[i].x as int, ps@[i].y as int) == self.corners()[i],
    {
        vec![&self.top_left, &self.top_right, &self.bottom_left, &self.bottom_right]
    }

    /// Whether some corner of `other` lies within this box.
    pub fn overlaps(&self, other: &BoundingBox) -> (r: bool)
        ensures
            r == self.spec_overlaps(other),
            other.well_formed() ==> (r <==> corner_within(self, other)),
    {
        proof {
            if other.well_formed() {
                lemma_overlaps_tests_every_corner(self, other);
            }
        }
        let ps = other.points();
        let mut k: usize = 0;
        while k < 4
            invariant
                0 <= k <= 4,
                ps@.len() == 4,
                forall|i: int|
                    0 <= i < 4 ==> (#[trigger] ps@[i].x as int, ps@[i].y as int) == other.corners()[i],
                forall|i: int|
                    0 <= i < k ==> !self.spec_point_within(
                        #[trigger] other.corners()[i].0,
                        other.corners()[i].1,
                    ),
            decreases 4 - k,
        {
            if self.is_point_within(ps[k]) {
                assert(self.spec_point_within(
                    other.corners()[k as int].0,
                    other.corners()[k as int].1,
                ));
                return true;
            }
            k = k + 1;
        }
        false
    }

    /// Whether the point lies within the box, edges included.
    pub fn is_point_within(&self, point: &Point) -> (r: bool)
        ensures
            r == self.spec_point_within(point.x as int, point.y as int),
    {
        point.x >= self.top_left.x && point.x <= self.top_right.x && point.y <= self.top_left.y
            && point.y >= self.bottom_left.y
    }
}

/// Some corner of `b`, given by the edges of `b`, lies within `a`, edges included: the top
/// left, top right, bottom left or bottom right one.
pub open spec fn corner_within(a: &BoundingBox, b: &BoundingBox) -> bool {
    ||| a.spec_point_within(b.left(), b.top())
    ||| a.spec_point_within(b.right(), b.top())
    ||| a.spec_point_within(b.left(), b.bottom())
    ||| a.spec_point_within(b.right(), b.bottom())
}

/// Two boxes overlap exactly when one of the four corners of the second, the bottom right
/// one included, lies within the first.
pub proof fn lemma_overlaps_tests_every_corner(a: &BoundingBox, b: &BoundingBox)
    requires
        b.well_formed(),
    ensures
        a.spec_overlaps(b) <==> corner_within(a, b),
{
    if a.spec_point_within(b.left(), b.top()) {
        assert(a.spec_point_within(b.corners()[0].0, b.corners()[0].1));
    }
    if a.spec_point_within(b.right(), b.top()) {
        assert(a.spec_point_within(b.corners()[1].0, b.corners()[1].1));
    }
    if a.spec_point_within(b.left(), b.bottom()) {
        assert(a.spec_point_within(b.corners()[2].0, b.corners()[2].1));
    }
    if a.spec_point_within(b.right(), b.bottom()) {
        assert(a.spec_point_within(b.corners()[3].0, b.corners()[3].1));
    }
}

} // verus!
