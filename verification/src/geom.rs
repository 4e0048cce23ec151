//! Vectors and shapes in integer world units, and the overlap of two shapes.
//!
//! Every executable type has a mathematical model over unbounded integers,
//! reached with `@`. The geometry is defined on the models; the executable
//! functions are proved to compute it without overflow.

use vstd::prelude::*;

verus! {

/// Model of a [`Vec2`]: a pair of unbounded integers.
pub struct SpecVec2 {
    pub x: int,
    pub y: int,
}

/// Model of a [`Rect`].
pub struct SpecRect {
    pub x: int,
    pub y: int,
    pub w: int,
    pub h: int,
}

/// Model of a [`Circle`].
pub struct SpecCircle {
    pub x: int,
    pub y: int,
    pub r: int,
}

/// Model of a [`Shape`].
pub enum SpecShape {
    Circle(SpecCircle),
    Rect(SpecRect),
}

/// The smaller of two integers.
pub open spec fn lesser(a: int, b: int) -> int {
    if a <= b {
        a
    } else {
        b
    }
}

/// The larger of two integers.
pub open spec fn greater(a: int, b: int) -> int {
    if a >= b {
        a
    } else {
        b
    }
}

/// The point of the interval `[lo, hi]` that is nearest to `v`.
pub open spec fn nearest_in(v: int, lo: int, hi: int) -> int {
    if v < lo {
        lo
    } else if v > hi {
        hi
    } else {
        v
    }
}

/// `v` brought into the range of a coordinate: arithmetic on coordinates
/// saturates at the ends of that range.
pub open spec fn clamp_coord(v: int) -> int {
    if v < i32::MIN {
        i32::MIN as int
    } else if v > i32::MAX {
        i32::MAX as int
    } else {
        v
    }
}

impl SpecVec2 {
    /// Squared length.
    pub open spec fn mag_sq(self) -> int {
        self.x * self.x + self.y * self.y
    }

    /// Component-wise sum.
    pub open spec fn plus(self, rhs: SpecVec2) -> SpecVec2 {
        SpecVec2 { x: self.x + rhs.x, y: self.y + rhs.y }
    }

    /// Component-wise difference.
    pub open spec fn minus(self, rhs: SpecVec2) -> SpecVec2 {
        SpecVec2 { x: self.x - rhs.x, y: self.y - rhs.y }
    }

    /// Both components multiplied by `k`.
    pub open spec fn scaled(self, k: int) -> SpecVec2 {
        SpecVec2 { x: self.x * k, y: self.y * k }
    }

    /// Both components brought into the range of a coordinate.
    pub open spec fn clamped(self) -> SpecVec2 {
        SpecVec2 { x: clamp_coord(self.x), y: clamp_coord(self.y) }
    }

    /// Whether both components are coordinates as they stand.
    pub open spec fn in_range(self) -> bool {
        self.clamped() == self
    }
}

impl SpecRect {
    /// A box without area.
    pub open spec fn is_empty(self) -> bool {
        self.w <= 0 || self.h <= 0
    }

    /// The x coordinate of the right edge.
    pub open spec fn right(self) -> int {
        self.x + self.w
    }

    /// The y coordinate of the bottom edge.
    pub open spec fn bottom(self) -> int {
        self.y + self.h
    }

    /// Extent of the common part of the two boxes along x; negative when
    /// they are apart on that axis.
    pub open spec fn overlap_x(self, other: SpecRect) -> int {
        lesser(self.right(), other.right()) - greater(self.x, other.x)
    }

    /// Extent of the common part of the two boxes along y.
    pub open spec fn overlap_y(self, other: SpecRect) -> int {
        lesser(self.bottom(), other.bottom()) - greater(self.y, other.y)
    }

    /// Penetration of two boxes: the extent of their common part along each
    /// axis. Boxes that only touch overlap with a zero component. An empty
    /// box overlaps nothing.
    pub open spec fn overlap(self, other: SpecRect) -> Option<SpecVec2> {
        if self.is_empty() || other.is_empty() {
            None
        } else if self.overlap_x(other) >= 0 && self.overlap_y(other) >= 0 {
            Some(SpecVec2 { x: self.overlap_x(other), y: self.overlap_y(other) })
        } else {
            None
        }
    }

    /// The centre of the box, halves rounded down.
    pub open spec fn center(self) -> SpecVec2 {
        SpecVec2 { x: self.x + self.w / 2, y: self.y + self.h / 2 }
    }

    /// The top-left corner.
    pub open spec fn origin(self) -> SpecVec2 {
        SpecVec2 { x: self.x, y: self.y }
    }

    /// The box moved by `d`.
    pub open spec fn translate(self, d: SpecVec2) -> SpecRect {
        SpecRect { x: self.x + d.x, y: self.y + d.y, w: self.w, h: self.h }
    }
}

impl SpecCircle {
    /// A circle without radius.
    pub open spec fn is_empty(self) -> bool {
        self.r <= 0
    }

    /// Squared distance between the centres of two circles.
    pub open spec fn dist_sq(self, other: SpecCircle) -> int {
        (self.x - other.x) * (self.x - other.x) + (self.y - other.y) * (self.y - other.y)
    }

    /// Penetration of two circles. They overlap when their centres are
    /// strictly closer than the sum of the radii; the vector then leads from
    /// the centre of `self` to the point midway between the two centres
    /// (halves rounded down). This is an approximation of the direction in
    /// which to part them, and its components may be negative.
    pub open spec fn overlap(self, other: SpecCircle) -> Option<SpecVec2> {
        if self.is_empty() || other.is_empty() {
            None
        } else if self.dist_sq(other) < (self.r + other.r) * (self.r + other.r) {
            Some(
                SpecVec2 {
                    x: (self.x + other.x) / 2 - self.x,
                    y: (self.y + other.y) / 2 - self.y,
                },
            )
        } else {
            None
        }
    }

    /// The point of `rect` nearest to the centre of the circle.
    pub open spec fn nearest_point(self, rect: SpecRect) -> SpecVec2 {
        SpecVec2 {
            x: nearest_in(self.x, rect.x, rect.right()),
            y: nearest_in(self.y, rect.y, rect.bottom()),
        }
    }

    /// Penetration of a circle and a box. They overlap when the point of the
    /// box nearest to the centre lies within the radius; each component of the
    /// vector is then the radius less the offset of the centre from that point
    /// along that axis. Like the one of two circles, the vector approximates.
    pub open spec fn overlap_rect(self, rect: SpecRect) -> Option<SpecVec2> {
        let off = self.origin().minus(self.nearest_point(rect));
        if self.is_empty() || rect.is_empty() {
            None
        } else if off.mag_sq() <= self.r * self.r {
            Some(SpecVec2 { x: self.r - off.x, y: self.r - off.y })
        } else {
            None
        }
    }

    /// The top-left corner of the square around the circle.
    pub open spec fn corner(self) -> SpecVec2 {
        SpecVec2 { x: self.x - self.r, y: self.y - self.r }
    }

    /// The centre.
    pub open spec fn origin(self) -> SpecVec2 {
        SpecVec2 { x: self.x, y: self.y }
    }
}

impl SpecShape {
    /// A shape without extent.
    pub open spec fn is_empty(self) -> bool {
        match self {
            SpecShape::Circle(c) => c.is_empty(),
            SpecShape::Rect(r) => r.is_empty(),
        }
    }

    /// Penetration of two shapes of any kinds; `None` when they do not
    /// intersect. A circle against a box gives the same vector whichever of
    /// the two is `self`.
    pub open spec fn overlap(self, other: SpecShape) -> Option<SpecVec2> {
        match (self, other) {
            (SpecShape::Circle(a), SpecShape::Circle(b)) => a.overlap(b),
            (SpecShape::Circle(a), SpecShape::Rect(b)) => a.overlap_rect(b),
            (SpecShape::Rect(a), SpecShape::Circle(b)) => b.overlap_rect(a),
            (SpecShape::Rect(a), SpecShape::Rect(b)) => a.overlap(b),
        }
    }

    /// The geometric centre.
    pub open spec fn center(self) -> SpecVec2 {
        match self {
            SpecShape::Circle(c) => c.origin(),
            SpecShape::Rect(r) => r.center(),
        }
    }

    /// The smallest box that holds the shape.
    pub open spec fn bounds(self) -> SpecRect {
        match self {
            SpecShape::Circle(c) => SpecRect { x: c.x - c.r, y: c.y - c.r, w: 2 * c.r, h: 2 * c.r },
            SpecShape::Rect(r) => r,
        }
    }
}

/// A point or a displacement in world units.
#[derive(Clone, Copy, PartialEq, Eq, Structural, Debug)]
pub struct Vec2 {
    pub x: i32,
    pub y: i32,
}

/// An axis-aligned box: top-left corner, width and height.
#[derive(Clone, Copy, PartialEq, Eq, Structural, Debug)]
pub struct Rect {
    pub x: i32,
    pub y: i32,
    pub w: u16,
    pub h: u16,
}

/// A circle: centre and radius.
#[derive(Clone, Copy, PartialEq, Eq, Structural, Debug)]
pub struct Circle {
    pub x: i32,
    pub y: i32,
    pub r: u16,
}

/// A shape of one of the two kinds.
#[derive(Clone, Copy, PartialEq, Eq, Structural, Debug)]
pub enum Shape {
    Circle(Circle),
    Rect(Rect),
}

impl View for Vec2 {
    type V = SpecVec2;

    open spec fn view(&self) -> SpecVec2 {
        SpecVec2 { x: self.x as int, y: self.y as int }
    }
}

impl View for Rect {
    type V = SpecRect;

    open spec fn view(&self) -> SpecRect {
        SpecRect { x: self.x as int, y: self.y as int, w: self.w as int, h: self.h as int }
    }
}

impl View for Circle {
    type V = SpecCircle;

    open spec fn view(&self) -> SpecCircle {
        SpecCircle { x: self.x as int, y: self.y as int, r: self.r as int }
    }
}

impl View for Shape {
    type V = SpecShape;

    open spec fn view(&self) -> SpecShape {
        match self {
            Shape::Circle(c) => SpecShape::Circle(c@),
            Shape::Rect(r) => SpecShape::Rect(r@),
        }
    }
}

/// Model of an optional vector.
pub open spec fn view_opt(v: Option<Vec2>) -> Option<SpecVec2> {
    match v {
        Some(p) => Some(p@),
        None => None,
    }
}

/// Brings a wide value into the range of a coordinate.
pub fn saturate(v: i64) -> (r: i32)
    ensures
        r == clamp_coord(v as int),
{
    if v < i32::MIN as i64 {
        i32::MIN
    } else if v > i32::MAX as i64 {
        i32::MAX
    } else {
        v as i32
    }
}

/// The square of a difference of two coordinates, or of anything as small.
fn square(v: i64) -> (r: i128)
    requires
        -0x2_0000_0000 <= v <= 0x2_0000_0000,
    ensures
        r == v * v,
        0 <= r <= 0x4_0000_0000_0000_0000,
{
    let w: i128 = v as i128;
    assert(0 <= w * w <= 0x4_0000_0000_0000_0000) by (nonlinear_arith)
        requires
            -0x2_0000_0000 <= w <= 0x2_0000_0000,
    ;
    w * w
}

/// Half of `v`, rounded down.
fn half_floor(v: i64) -> (r: i64)
    requires
        -0x2_0000_0000 <= v <= 0x2_0000_0000,
    ensures
        r == v / 2,
{
    if v >= 0 {
        v / 2
    } else {
        -((1 - v) / 2)
    }
}

impl Vec2 {
    /// The vector of which `v` is the model, where `v` is within the
    /// coordinate range.
    pub open spec fn of(v: SpecVec2) -> Vec2 {
        Vec2 { x: v.x as i32, y: v.y as i32 }
    }

    /// Squared length of the vector.
    pub fn mag_sq(&self) -> (r: u64)
        ensures
            r == self@.mag_sq(),
    {
        let xx: i128 = square(self.x as i64);
        let yy: i128 = square(self.y as i64);
        assert(xx <= 0x4000_0000_0000_0000 && yy <= 0x4000_0000_0000_0000) by (nonlinear_arith)
            requires
                xx == self.x * self.x,
                yy == self.y * self.y,
                -0x8000_0000 <= self.x <= 0x7fff_ffff,
                -0x8000_0000 <= self.y <= 0x7fff_ffff,
        ;
        (xx + yy) as u64
    }
}

impl core::ops::Add for Vec2 {
    type Output = Vec2;

    /// The sum of two vectors, each component saturating.
    fn add(self, rhs: Vec2) -> (r: Vec2) {
        Vec2 {
            x: saturate(self.x as i64 + rhs.x as i64),
            y: saturate(self.y as i64 + rhs.y as i64),
        }
    }
}

impl vstd::std_specs::ops::AddSpecImpl for Vec2 {
    open spec fn obeys_add_spec() -> bool {
        true
    }

    open spec fn add_req(self, rhs: Vec2) -> bool {
        true
    }

    open spec fn add_spec(self, rhs: Vec2) -> Vec2 {
        Vec2::of(self@.plus(rhs@).clamped())
    }
}

impl core::ops::Mul<i32> for Vec2 {
    type Output = Vec2;

    /// The vector with both components multiplied by `rhs`, each saturating.
    fn mul(self, rhs: i32) -> (r: Vec2) {
        let k: i64 = rhs as i64;
        let x: i64 = self.x as i64;
        let y: i64 = self.y as i64;
        assert(-0x4000_0000_0000_0000 <= x * k <= 0x4000_0000_0000_0000) by (nonlinear_arith)
            requires
                -0x8000_0000 <= x <= 0x7fff_ffff,
                -0x8000_0000 <= k <= 0x7fff_ffff,
        ;
        assert(-0x4000_0000_0000_0000 <= y * k <= 0x4000_0000_0000_0000) by (nonlinear_arith)
            requires
                -0x8000_0000 <= y <= 0x7fff_ffff,
                -0x8000_0000 <= k <= 0x7fff_ffff,
        ;
        Vec2 { x: saturate(x * k), y: saturate(y * k) }
    }
}

impl vstd::std_specs::ops::MulSpecImpl<i32> for Vec2 {
    open spec fn obeys_mul_spec() -> bool {
        true
    }

    open spec fn mul_req(self, rhs: i32) -> bool {
        true
    }

    open spec fn mul_spec(self, rhs: i32) -> Vec2 {
        Vec2::of(self@.scaled(rhs as int).clamped())
    }
}

impl core::ops::AddAssign for Vec2 {
    /// Adds `rhs` to the vector in place, each component saturating.
    fn add_assign(&mut self, rhs: Vec2)
        ensures
            final(self)@ == old(self)@.plus(rhs@).clamped(),
    {
        self.x = saturate(self.x as i64 + rhs.x as i64);
        self.y = saturate(self.y as i64 + rhs.y as i64);
    }
}

impl Rect {
    /// Penetration of this box and `other`.
    pub fn overlap(&self, other: Rect) -> (r: Option<Vec2>)
        ensures
            view_opt(r) == self@.overlap(other@),
    {
        if self.is_empty() || other.is_empty() {
            return None;
        }
        let right: i64 = if self.x as i64 + self.w as i64 <= other.x as i64 + other.w as i64 {
            self.x as i64 + self.w as i64
        } else {
            other.x as i64 + other.w as i64
        };
        let left: i64 = if self.x >= other.x {
            self.x as i64
        } else {
            other.x as i64
        };
        let bottom: i64 = if self.y as i64 + self.h as i64 <= other.y as i64 + other.h as i64 {
            self.y as i64 + self.h as i64
        } else {
            other.y as i64 + other.h as i64
        };
        let top: i64 = if self.y >= other.y {
            self.y as i64
        } else {
            other.y as i64
        };
        let x_overlap: i64 = right - left;
        let y_overlap: i64 = bottom - top;
        if x_overlap >= 0 && y_overlap >= 0 {
            Some(Vec2 { x: x_overlap as i32, y: y_overlap as i32 })
        } else {
            None
        }
    }

    /// The centre of the box as a position, saturating.
    pub fn rect_to_pos(&self) -> (r: Vec2)
        ensures
            r@ == self@.center().clamped(),
    {
        Vec2 {
            x: saturate(self.x as i64 + (self.w / 2) as i64),
            y: saturate(self.y as i64 + (self.h / 2) as i64),
        }
    }

    /// The top-left corner.
    pub fn origin(&self) -> (r: Vec2)
        ensures
            r@ == self@.origin(),
    {
        Vec2 { x: self.x, y: self.y }
    }

    /// Whether the box has no area.
    pub fn is_empty(&self) -> (r: bool)
        ensures
            r == self@.is_empty(),
    {
        self.w == 0 || self.h == 0
    }
}

impl Circle {
    /// The empty circle at the origin.
    pub fn new() -> (r: Circle)
        ensures
            r@ == (SpecCircle { x: 0, y: 0, r: 0 }),
    {
        Circle { x: 0, y: 0, r: 0 }
    }

    /// Penetration of this circle and `other`.
    pub fn overlap(&self, other: Circle) -> (r: Option<Vec2>)
        ensures
            view_opt(r) == self@.overlap(other@),
    {
        if self.is_empty() || other.is_empty() {
            return None;
        }
        let dx: i64 = self.x as i64 - other.x as i64;
        let dy: i64 = self.y as i64 - other.y as i64;
        let distance_sq: i128 = square(dx) + square(dy);
        let radius_sq: i128 = square(self.r as i64 + other.r as i64);
        if distance_sq < radius_sq {
            proof {
                lemma_square_bound(dx as int, dy as int, self.r + other.r);
            }
            let midpoint_x: i64 = half_floor(self.x as i64 + other.x as i64);
            let midpoint_y: i64 = half_floor(self.y as i64 + other.y as i64);
            Some(
                Vec2 {
                    x: (midpoint_x - self.x as i64) as i32,
                    y: (midpoint_y - self.y as i64) as i32,
                },
            )
        } else {
            None
        }
    }

    /// Penetration of this circle and the box `rect`.
    pub fn overlap_rect(&self, rect: Rect) -> (r: Option<Vec2>)
        ensures
            view_opt(r) == self@.overlap_rect(rect@),
    {
        if self.is_empty() || rect.is_empty() {
            return None;
        }
        let mut test_x: i64 = self.x as i64;
        let mut test_y: i64 = self.y as i64;
        if self.x < rect.x {
            test_x = rect.x as i64;
        } else if self.x as i64 > rect.x as i64 + rect.w as i64 {
            test_x = rect.x as i64 + rect.w as i64;
        }
        if self.y < rect.y {
            test_y = rect.y as i64;
        } else if self.y as i64 > rect.y as i64 + rect.h as i64 {
            test_y = rect.y as i64 + rect.h as i64;
        }
        let dist_x: i64 = self.x as i64 - test_x;
        let dist_y: i64 = self.y as i64 - test_y;
        let dist_sq: i128 = square(dist_x) + square(dist_y);
        if dist_sq <= square(self.r as i64) {
            proof {
                lemma_square_bound(dist_x as int, dist_y as int, self.r as int);
            }
            Some(
                Vec2 { x: (self.r as i64 - dist_x) as i32, y: (self.r as i64 - dist_y) as i32 },
            )
        } else {
            None
        }
    }

    /// The top-left corner of the square around the circle, saturating.
    pub fn circ_to_pos(&self) -> (r: Vec2)
        ensures
            r@ == self@.corner().clamped(),
    {
        Vec2 {
            x: saturate(self.x as i64 - self.r as i64),
            y: saturate(self.y as i64 - self.r as i64),
        }
    }

    /// The centre.
    pub fn origin(&self) -> (r: Vec2)
        ensures
            r@ == self@.origin(),
    {
        Vec2 { x: self.x, y: self.y }
    }

    /// Whether the circle has no radius.
    pub fn is_empty(&self) -> (r: bool)
        ensures
            r == self@.is_empty(),
    {
        self.r == 0
    }
}

impl Shape {
    /// Penetration of this shape and `other`; `None` when they do not
    /// intersect or one of them is empty.
    pub fn overlap(&self, other: Shape) -> (r: Option<Vec2>)
        ensures
            view_opt(r) == self@.overlap(other@),
    {
        match self {
            Shape::Circle(s_circle) => match other {
                Shape::Circle(o_circle) => s_circle.overlap(o_circle),
                Shape::Rect(o_rect) => s_circle.overlap_rect(o_rect),
            },
            Shape::Rect(s_rect) => match other {
                Shape::Circle(o_circle) => o_circle.overlap_rect(*s_rect),
                Shape::Rect(o_rect) => s_rect.overlap(o_rect),
            },
        }
    }

    /// Whether the shape has no extent.
    pub fn is_empty(&self) -> (r: bool)
        ensures
            r == self@.is_empty(),
    {
        match self {
            Shape::Circle(c) => c.is_empty(),
            Shape::Rect(r) => r.is_empty(),
        }
    }
}

/// Two numbers whose squares sum to no more than the square of `r` (or to
/// less than it) are themselves no larger than `r` in size.
proof fn lemma_square_bound(a: int, b: int, r: int)
    requires
        r >= 0,
        a * a + b * b <= r * r,
    ensures
        -r <= a <= r,
        -r <= b <= r,
        a * a + b * b < r * r ==> -r < a < r && -r < b < r,
{
    assert(-r <= a <= r && -r <= b <= r) by (nonlinear_arith)
        requires
            r >= 0,
            a * a + b * b <= r * r,
    ;
    assert(a * a + b * b < r * r ==> -r < a < r && -r < b < r) by (nonlinear_arith)
        requires
            r >= 0,
    ;
}

/// Whether two shapes overlap does not depend on which of the two is asked.
pub proof fn lemma_overlap_symmetric(s1: Shape, s2: Shape)
    ensures
        s1@.overlap(s2@).is_some() == s2@.overlap(s1@).is_some(),
{
    if let (SpecShape::Circle(a), SpecShape::Circle(b)) = (s1@, s2@) {
        assert(a.dist_sq(b) == b.dist_sq(a)) by (nonlinear_arith)
            requires
                a.dist_sq(b) == (a.x - b.x) * (a.x - b.x) + (a.y - b.y) * (a.y - b.y),
                b.dist_sq(a) == (b.x - a.x) * (b.x - a.x) + (b.y - a.y) * (b.y - a.y),
        ;
        assert((a.r + b.r) * (a.r + b.r) == (b.r + a.r) * (b.r + a.r));
    }
}

/// Unless both shapes are circles, the two ways of asking give the very same
/// penetration: a circle against a box mirrors a box against a circle.
pub proof fn lemma_overlap_mirror(s1: Shape, s2: Shape)
    requires
        s1 is Rect || s2 is Rect,
    ensures
        s1@.overlap(s2@) == s2@.overlap(s1@),
{
}

/// A shape without extent overlaps no shape, itself included, whichever of the
/// two is asked.
pub proof fn lemma_empty_never_overlaps(s1: Shape, s2: Shape)
    requires
        s1@.is_empty(),
    ensures
        s1@.overlap(s2@).is_none(),
        s2@.overlap(s1@).is_none(),
        s1@.overlap(s1@).is_none(),
{
}

/// Unless both shapes are circles, no component of their penetration is
/// negative, and none exceeds twice the largest extent a shape can have.
pub proof fn lemma_overlap_nonnegative(s1: Shape, s2: Shape)
    requires
        s1 is Rect || s2 is Rect,
    ensures
        s1@.overlap(s2@) matches Some(v) ==> 0 <= v.x <= 2 * u16::MAX && 0 <= v.y <= 2 * u16::MAX,
{
    match (s1@, s2@) {
        (SpecShape::Circle(c), SpecShape::Rect(r)) => {
            let off = c.origin().minus(c.nearest_point(r));
            if c.overlap_rect(r).is_some() {
                lemma_square_bound(off.x, off.y, c.r);
            }
        },
        (SpecShape::Rect(r), SpecShape::Circle(c)) => {
            let off = c.origin().minus(c.nearest_point(r));
            if c.overlap_rect(r).is_some() {
                lemma_square_bound(off.x, off.y, c.r);
            }
        },
        _ => {},
    }
}

/// The penetration of two circles is smaller in size than half the sum of
/// the radii, rounded up.
pub proof fn lemma_circle_overlap_bound(a: Circle, b: Circle)
    ensures
        a@.overlap(b@) matches Some(v) ==> -(u16::MAX as int) <= v.x <= u16::MAX && -(
        u16::MAX as int) <= v.y <= u16::MAX,
{
    if a@.overlap(b@).is_some() {
        lemma_square_bound(a.x - b.x, a.y - b.y, a.r + b.r);
    }
}

} // verus!
