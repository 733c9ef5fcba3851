//! Axis-aligned bounding boxes ("areas") over fixed-point coordinates.
//!
//! Coordinates, lengths and scale factors are fixed-point numbers held in an
//! `i64` counting thousandths of a unit: `4000` stands for `4.0`, `500` for
//! `0.5`. An area of a box multiplies two lengths, so it carries six
//! fractional digits: `24_000_000` stands for `24.0`.
//!
//! The coordinate convention is screen space: `y` grows downward, so
//! `top < bottom` numerically.

use vstd::prelude::*;

verus! {

/// One unit, in thousandths.
pub const MILLI: i64 = 1000;

/// `v` fits in an `i64`.
pub open spec fn fits(v: int) -> bool {
    i64::MIN <= v <= i64::MAX
}

/// Division by `MILLI`, rounding toward zero.
pub open spec fn div_milli(v: int) -> int {
    if v >= 0 {
        v / (MILLI as int)
    } else {
        -((-v) / (MILLI as int))
    }
}

/// Halving, rounding toward zero.
pub open spec fn half(v: int) -> int {
    if v >= 0 {
        v / 2
    } else {
        -((-v) / 2)
    }
}

pub open spec fn max2(a: int, b: int) -> int {
    if a >= b {
        a
    } else {
        b
    }
}

pub open spec fn min2(a: int, b: int) -> int {
    if a <= b {
        a
    } else {
        b
    }
}

/// A point `(x, y)` in the same fixed-point encoding as `Area`.
#[derive(Clone, Copy, Debug, PartialEq, Eq, Structural)]
pub struct Point(pub i64, pub i64);

/// An axis-aligned bounding box: a top-left corner `(x, y)`, a width and a
/// height, and the four bounds derived from them at construction.
#[derive(Clone, Copy, Debug, PartialEq, Eq, Structural)]
pub struct Area {
    pub x: i64,
    pub y: i64,
    pub width: i64,
    pub height: i64,
    pub left: i64,
    pub right: i64,
    pub top: i64,
    pub bottom: i64,
}

impl Area {
    /// The four derived bounds agree with `x`, `y`, `width`, `height`.
    pub open spec fn wf(self) -> bool {
        &&& self.left == self.x
        &&& self.top == self.y
        &&& self.right == self.x + self.width
        &&& self.bottom == self.y + self.height
    }

    /// The box that `new` constructs.
    pub open spec fn new_spec(x: i64, y: i64, width: i64, height: i64) -> Area {
        Area {
            x,
            y,
            width,
            height,
            left: x,
            top: y,
            right: (x + width) as i64,
            bottom: (y + height) as i64,
        }
    }

    /// Builds a box from its top-left corner and size, deriving the bounds.
    pub fn new(x: i64, y: i64, width: i64, height: i64) -> (r: Area)
        requires
            fits(x + width),
            fits(y + height),
        ensures
            r == Self::new_spec(x, y, width, height),
            r.wf(),
            r.x == x,
            r.y == y,
            r.width == width,
            r.height == height,
            r.right - r.left == width,
            r.bottom - r.top == height,
    {
        let left = x;
        let top = y;
        let right = x + width;
        let bottom = y + height;
        Area { x, y, height, width, left, right, top, bottom }
    }

    /// The signed area of the box, in millionths of a square unit. It is
    /// negative when exactly one of width and height is negative.
    pub fn area(&self) -> (r: i64)
        requires
            fits(self.width * self.height),
        ensures
            r == self.width * self.height,
    {
        self.width * self.height
    }

    /// The point lies within the bounds, the bounds themselves included.
    pub open spec fn contains_spec(self, p: Point) -> bool {
        self.left <= p.0 <= self.right && self.top <= p.1 <= self.bottom
    }

    pub fn contains(&self, point: &Point) -> (r: bool)
        ensures
            r == self.contains_spec(*point),
    {
        point.0 >= self.left && point.0 <= self.right && point.1 >= self.top && point.1
            <= self.bottom
    }

    /// Some corner of `other` lies inside `self`. This is the corner-sampling
    /// heuristic that `intersect` and `collision` are built on: it misses the
    /// case where `self` lies strictly inside `other`, since then no corner of
    /// `other` falls in `self`.
    pub open spec fn corner_hit(self, other: Area) -> bool {
        ||| self.contains_spec(Point(other.left, other.top))
        ||| self.contains_spec(Point(other.right, other.top))
        ||| self.contains_spec(Point(other.left, other.bottom))
        ||| self.contains_spec(Point(other.right, other.bottom))
    }

    /// Bounds of the overlap region: the tightest bounds common to both boxes.
    pub open spec fn ix_left(self, other: Area) -> int {
        max2(self.left as int, other.left as int)
    }

    pub open spec fn ix_top(self, other: Area) -> int {
        max2(self.top as int, other.top as int)
    }

    pub open spec fn ix_right(self, other: Area) -> int {
        min2(self.right as int, other.right as int)
    }

    pub open spec fn ix_bottom(self, other: Area) -> int {
        min2(self.bottom as int, other.bottom as int)
    }

    pub open spec fn ix_width(self, other: Area) -> int {
        self.ix_right(other) - self.ix_left(other)
    }

    pub open spec fn ix_height(self, other: Area) -> int {
        self.ix_bottom(other) - self.ix_top(other)
    }

    /// The overlap box, if some corner of `other` lies inside `self`; nothing
    /// otherwise. The width and height of the result are negative when the
    /// boxes do not actually overlap on that axis.
    pub fn intersect(&self, other: &Area) -> (r: Option<Area>)
        requires
            fits(self.ix_width(*other)),
            fits(self.ix_height(*other)),
        ensures
            match r {
                Some(a) => self.corner_hit(*other) && a == Self::new_spec(
                    self.ix_left(*other) as i64,
                    self.ix_top(*other) as i64,
                    self.ix_width(*other) as i64,
                    self.ix_height(*other) as i64,
                ),
                None => !self.corner_hit(*other),
            },
    {
        if self.contains(&Point(other.left, other.top)) || self.contains(
            &Point(other.right, other.top),
        ) || self.contains(&Point(other.left, other.bottom)) || self.contains(
            &Point(other.right, other.bottom),
        ) {
            let left = if self.left >= other.left {
                self.left
            } else {
                other.left
            };
            let top = if self.top >= other.top {
                self.top
            } else {
                other.top
            };
            let right = if self.right <= other.right {
                self.right
            } else {
                other.right
            };
            let bottom = if self.bottom <= other.bottom {
                self.bottom
            } else {
                other.bottom
            };
            let x = left;
            let y = top;
            let width = right - left;
            let height = bottom - top;
            Some(Area::new(x, y, width, height))
        } else {
            None
        }
    }

    /// The two boxes collide: the corner heuristic hits and the overlap
    /// region has strictly positive area. Boxes that merely touch along an
    /// edge have a zero-area overlap and do not collide.
    pub open spec fn collision_spec(self, other: Area) -> bool {
        self.corner_hit(other) && self.ix_width(other) * self.ix_height(other) > 0
    }

    pub fn collision(&self, other: &Area) -> (r: bool)
        requires
            fits(self.ix_width(*other)),
            fits(self.ix_height(*other)),
            fits(self.ix_width(*other) * self.ix_height(*other)),
        ensures
            r == self.collision_spec(*other),
    {
        match self.intersect(other) {
            Some(area) => area.area() > 0,
            None => false,
        }
    }

    /// The box that `enlarge` returns: every side moved outward by `v`, so
    /// the center stays put and the width and height grow by `2 * v`.
    pub open spec fn enlarge_spec(self, v: int) -> Area {
        Self::new_spec(
            (self.x - v) as i64,
            (self.y - v) as i64,
            (self.width + 2 * v) as i64,
            (self.height + 2 * v) as i64,
        )
    }

    pub fn enlarge(&self, value: i64) -> (r: Area)
        requires
            fits(2 * value),
            fits(self.x - value),
            fits(self.y - value),
            fits(self.width + 2 * value),
            fits(self.height + 2 * value),
            fits(self.x + self.width + value),
            fits(self.y + self.height + value),
        ensures
            r == self.enlarge_spec(value as int),
    {
        let x = self.x - value;
        let y = self.y - value;
        let width = self.width + 2 * value;
        let height = self.height + 2 * value;
        Area::new(x, y, width, height)
    }

    /// Shrinking by `v` is enlarging by `-v`.
    pub fn shrink(&self, value: i64) -> (r: Area)
        requires
            -(i64::MAX as int) <= 2 * value,
            fits(2 * value),
            fits(self.x + value),
            fits(self.y + value),
            fits(self.width - 2 * value),
            fits(self.height - 2 * value),
            fits(self.x + self.width - value),
            fits(self.y + self.height - value),
        ensures
            r == self.enlarge_spec(-(value as int)),
    {
        let x = self.x + value;
        let y = self.y + value;
        let width = self.width - 2 * value;
        let height = self.height - 2 * value;
        Area::new(x, y, width, height)
    }

    /// The box that `scale` returns: the width and height multiplied by the
    /// fixed-point factor `v` (`MILLI` is the factor one), the corner moved
    /// by half the size change, so the center of the box stays put, to the
    /// thousandth, halves rounding toward zero.
    pub open spec fn scale_spec(self, v: int) -> Area {
        Self::new_spec(
            (self.x + half(self.width - div_milli(self.width * v))) as i64,
            (self.y + half(self.height - div_milli(self.height * v))) as i64,
            div_milli(self.width * v) as i64,
            div_milli(self.height * v) as i64,
        )
    }

    pub fn scale(&self, value: i64) -> (r: Area)
        requires
            fits(self.width * value),
            fits(self.height * value),
            fits(self.width - div_milli(self.width * value)),
            fits(self.height - div_milli(self.height * value)),
            fits(self.x + half(self.width - div_milli(self.width * value))),
            fits(self.y + half(self.height - div_milli(self.height * value))),
            fits(
                self.x + half(self.width - div_milli(self.width * value)) + div_milli(
                    self.width * value,
                ),
            ),
            fits(
                self.y + half(self.height - div_milli(self.height * value)) + div_milli(
                    self.height * value,
                ),
            ),
        ensures
            r == self.scale_spec(value as int),
    {
        let width = mul_div_milli(self.width, value);
        let height = mul_div_milli(self.height, value);
        let x = self.x + half_i64(self.width - width);
        let y = self.y + half_i64(self.height - height);
        Area::new(x, y, width, height)
    }
}

/// `(a * b) / MILLI`, rounding toward zero.
fn mul_div_milli(a: i64, b: i64) -> (r: i64)
    requires
        fits(a * b),
    ensures
        r == div_milli(a * b),
{
    let p: i64 = a * b;
    if p >= 0 {
        ((p as u64) / 1000) as i64
    } else {
        let m: u64 = ((-(p as i128)) as u64) / 1000;
        -(m as i64)
    }
}

/// `v / 2`, rounding toward zero.
fn half_i64(v: i64) -> (r: i64)
    ensures
        r == half(v as int),
{
    if v >= 0 {
        ((v as u64) / 2) as i64
    } else {
        let m: u64 = ((-(v as i128)) as u64) / 2;
        -(m as i64)
    }
}

/// A point exactly on the `left`, `right`, `top` or `bottom` bound is
/// contained, provided its other coordinate is within the bounds.
pub proof fn lemma_contains_boundary(a: Area, px: i64, py: i64)
    requires
        a.left <= px <= a.right,
        a.top <= py <= a.bottom,
    ensures
        a.contains_spec(Point(a.left, py)),
        a.contains_spec(Point(a.right, py)),
        a.contains_spec(Point(px, a.top)),
        a.contains_spec(Point(px, a.bottom)),
{
}

/// The corner-sampling heuristic misses an enclosing box: when `inner` lies
/// strictly inside `outer`, no corner of `outer` falls in `inner`, so
/// `inner.collision(outer)` reports no collision although the boxes overlap.
pub proof fn lemma_collision_misses_enclosing_box(inner: Area, outer: Area)
    requires
        outer.left < inner.left,
        inner.right < outer.right,
        outer.top < inner.top,
        inner.bottom < outer.bottom,
    ensures
        !inner.collision_spec(outer),
{
}

/// Enlarging by zero gives the box back unchanged.
pub proof fn lemma_enlarge_zero(a: Area)
    requires
        a.wf(),
    ensures
        a.enlarge_spec(0) == a,
{
}

/// Scaling by the factor one gives any well-formed box back unchanged: the
/// size is kept exactly, so the half-size-change shift of the corner
/// vanishes.
pub proof fn lemma_scale_one(a: Area)
    requires
        a.wf(),
    ensures
        a.scale_spec(MILLI as int) == a,
{
    lemma_div_milli_times_milli(a.width as int);
    lemma_div_milli_times_milli(a.height as int);
}

/// Scaling keeps the box centered on its original center: the doubled
/// center coordinate, `2 * x + width`, moves by at most one thousandth —
/// the rounding of half the size change — and not at all when the size
/// change is even. Likewise for `2 * y + height`.
pub proof fn lemma_scale_keeps_center(a: Area, v: int)
    requires
        fits(div_milli(a.width * v)),
        fits(div_milli(a.height * v)),
        fits(a.x + half(a.width - div_milli(a.width * v))),
        fits(a.y + half(a.height - div_milli(a.height * v))),
    ensures
        -1 <= 2 * a.scale_spec(v).x + a.scale_spec(v).width - (2 * a.x + a.width) <= 1,
        -1 <= 2 * a.scale_spec(v).y + a.scale_spec(v).height - (2 * a.y + a.height) <= 1,
        (a.width - div_milli(a.width * v)) % 2 == 0 ==> 2 * a.scale_spec(v).x + a.scale_spec(
            v,
        ).width == 2 * a.x + a.width,
        (a.height - div_milli(a.height * v)) % 2 == 0 ==> 2 * a.scale_spec(v).y + a.scale_spec(
            v,
        ).height == 2 * a.y + a.height,
{
    lemma_half_close(a.width - div_milli(a.width * v));
    lemma_half_close(a.height - div_milli(a.height * v));
}

/// Twice the truncating half of `d` is `d` up to one.
proof fn lemma_half_close(d: int)
    ensures
        -1 <= 2 * half(d) - d <= 1,
        d % 2 == 0 ==> 2 * half(d) == d,
{
    if d >= 0 {
        vstd::arithmetic::div_mod::lemma_fundamental_div_mod(d, 2);
    } else {
        vstd::arithmetic::div_mod::lemma_fundamental_div_mod(-d, 2);
        assert((-d) % 2 == 0 ==> d % 2 == 0) by (nonlinear_arith);
        assert((-d) % 2 == 1 ==> d % 2 != 0) by (nonlinear_arith);
    }
}

/// `div_milli(v * MILLI) == v`.
proof fn lemma_div_milli_times_milli(v: int)
    ensures
        div_milli(v * (MILLI as int)) == v,
{
    if v >= 0 {
        vstd::arithmetic::div_mod::lemma_div_by_multiple(v, MILLI as int);
    } else {
        assert(-(v * (MILLI as int)) == (-v) * (MILLI as int)) by (nonlinear_arith);
        vstd::arithmetic::div_mod::lemma_div_by_multiple(-v, MILLI as int);
    }
}

} // verus!
