use vstd::prelude::*;

verus! {

/// The length that stands for an unbounded (infinite) extent.
pub const UNBOUNDED: u32 = 0xffff_ffff;

/// A width and a height in whole logical pixels; `UNBOUNDED` is infinite.
#[derive(Debug, Clone, Copy, PartialEq, Eq, Structural)]
pub struct Size {
    pub width: u32,
    pub height: u32,
}

/// A point, or an offset, in whole logical pixels.
#[derive(Debug, Clone, Copy, PartialEq, Eq, Structural)]
pub struct Point {
    pub x: i64,
    pub y: i64,
}

/// The smaller of two lengths.
pub open spec fn min_len(a: u32, b: u32) -> u32 {
    if a <= b { a } else { b }
}

/// The larger of two lengths.
pub open spec fn max_len(a: u32, b: u32) -> u32 {
    if a >= b { a } else { b }
}

/// `a + b`, saturating at `UNBOUNDED`: an infinite extent stays infinite.
pub open spec fn sat_add(a: u32, b: u32) -> u32 {
    if a as int + b as int >= UNBOUNDED as int { UNBOUNDED } else { (a + b) as u32 }
}

pub fn len_min(a: u32, b: u32) -> (r: u32)
    ensures
        r == min_len(a, b),
{
    if a <= b { a } else { b }
}

pub fn len_max(a: u32, b: u32) -> (r: u32)
    ensures
        r == max_len(a, b),
{
    if a >= b { a } else { b }
}

pub fn len_add(a: u32, b: u32) -> (r: u32)
    ensures
        r == sat_add(a, b),
{
    if a >= UNBOUNDED - b { UNBOUNDED } else { a + b }
}

impl Size {
    pub fn new(width: u32, height: u32) -> (r: Size)
        ensures
            r.width == width,
            r.height == height,
    {
        Size { width, height }
    }

    pub open spec fn zero_spec() -> Size {
        Size { width: 0, height: 0 }
    }

    pub open spec fn infinite_spec() -> Size {
        Size { width: UNBOUNDED, height: UNBOUNDED }
    }

    pub fn zero() -> (r: Size)
        ensures
            r == Size::zero_spec(),
    {
        Size { width: 0, height: 0 }
    }

    /// The infinite size in both axes.
    pub fn infinite() -> (r: Size)
        ensures
            r == Size::infinite_spec(),
    {
        Size { width: UNBOUNDED, height: UNBOUNDED }
    }

    pub open spec fn le(self, o: Size) -> bool {
        self.width <= o.width && self.height <= o.height
    }

    /// Componentwise `self.max(min).min(max)`: never above `max`, and not below
    /// `min` where `min` does not exceed `max`.
    pub open spec fn clamp_spec(self, min: Size, max: Size) -> Size {
        Size {
            width: min_len(max_len(self.width, min.width), max.width),
            height: min_len(max_len(self.height, min.height), max.height),
        }
    }

    pub fn clamp(self, min: Size, max: Size) -> (r: Size)
        ensures
            r == self.clamp_spec(min, max),
            r.le(max),
            min.le(max) ==> min.le(r),
    {
        Size {
            width: len_min(len_max(self.width, min.width), max.width),
            height: len_min(len_max(self.height, min.height), max.height),
        }
    }

    /// Componentwise maximum.
    pub fn max(self, o: Size) -> (r: Size)
        ensures
            r.width == max_len(self.width, o.width),
            r.height == max_len(self.height, o.height),
    {
        Size { width: len_max(self.width, o.width), height: len_max(self.height, o.height) }
    }

    /// Componentwise minimum.
    pub fn min(self, o: Size) -> (r: Size)
        ensures
            r.width == min_len(self.width, o.width),
            r.height == min_len(self.height, o.height),
    {
        Size { width: len_min(self.width, o.width), height: len_min(self.height, o.height) }
    }
}

impl Point {
    pub open spec fn zero_spec() -> Point {
        Point { x: 0, y: 0 }
    }

    pub fn new(x: i64, y: i64) -> (r: Point)
        ensures
            r.x == x,
            r.y == y,
    {
        Point { x, y }
    }

    pub fn zero() -> (r: Point)
        ensures
            r.x == 0,
            r.y == 0,
    {
        Point { x: 0, y: 0 }
    }
}


/// An axis-aligned rectangle: an origin and a size.
#[derive(Debug, Clone, Copy, PartialEq, Eq, Structural)]
pub struct Rect {
    pub origin: Point,
    pub size: Size,
}

/// The smaller of two coordinates.
pub open spec fn min_coord(a: int, b: int) -> int {
    if a <= b { a } else { b }
}

/// The larger of two coordinates.
pub open spec fn max_coord(a: int, b: int) -> int {
    if a >= b { a } else { b }
}

/// An extent in `int` as a length, saturating at `UNBOUNDED`.
pub open spec fn len_of(v: int) -> u32 {
    if v >= UNBOUNDED as int { UNBOUNDED } else if v <= 0 { 0 } else { v as u32 }
}

impl Rect {
    pub fn new(origin: Point, size: Size) -> (r: Rect)
        ensures
            r.origin == origin,
            r.size == size,
    {
        Rect { origin, size }
    }

    /// The far corner lies within the range of the coordinates.
    pub open spec fn fits(self) -> bool {
        self.origin.x + self.size.width <= i64::MAX && self.origin.y + self.size.height
            <= i64::MAX
    }

    pub open spec fn is_empty_spec(self) -> bool {
        self.size.width == 0 || self.size.height == 0
    }

    pub fn is_empty(&self) -> (r: bool)
        ensures
            r == self.is_empty_spec(),
    {
        self.size.width == 0 || self.size.height == 0
    }

    /// The smallest rectangle that holds both; an empty one adds nothing.
    pub open spec fn union_spec(self, o: Rect) -> Rect {
        if o.is_empty_spec() {
            self
        } else if self.is_empty_spec() {
            o
        } else {
            let x0 = min_coord(self.origin.x as int, o.origin.x as int);
            let y0 = min_coord(self.origin.y as int, o.origin.y as int);
            let x1 = max_coord(self.origin.x + self.size.width, o.origin.x + o.size.width);
            let y1 = max_coord(self.origin.y + self.size.height, o.origin.y + o.size.height);
            Rect {
                origin: Point { x: x0 as i64, y: y0 as i64 },
                size: Size { width: len_of(x1 - x0), height: len_of(y1 - y0) },
            }
        }
    }

    pub fn union(&self, o: &Rect) -> (r: Rect)
        requires
            self.fits(),
            o.fits(),
        ensures
            r == self.union_spec(*o),
    {
        if o.is_empty() {
            *self
        } else if self.is_empty() {
            *o
        } else {
            let x0: i64 = if self.origin.x <= o.origin.x { self.origin.x } else { o.origin.x };
            let y0: i64 = if self.origin.y <= o.origin.y { self.origin.y } else { o.origin.y };
            let ax: i64 = self.origin.x + self.size.width as i64;
            let bx: i64 = o.origin.x + o.size.width as i64;
            let ay: i64 = self.origin.y + self.size.height as i64;
            let by: i64 = o.origin.y + o.size.height as i64;
            let x1: i64 = if ax >= bx { ax } else { bx };
            let y1: i64 = if ay >= by { ay } else { by };
            let w: i128 = x1 as i128 - x0 as i128;
            let h: i128 = y1 as i128 - y0 as i128;
            let width: u32 = if w >= UNBOUNDED as i128 { UNBOUNDED } else { w as u32 };
            let height: u32 = if h >= UNBOUNDED as i128 { UNBOUNDED } else { h as u32 };
            Rect { origin: Point { x: x0, y: y0 }, size: Size { width, height } }
        }
    }
}

/// A local affine transform on whole pixels: a point `(x, y)` goes to
/// `(x * m11 + y * m21 + m31, x * m12 + y * m22 + m32)`.
///
/// It is invertible when its determinant is not zero. The inverse is the
/// adjugate divided by the determinant, truncated to whole pixels: exact on
/// every point that the transform itself produced.
#[derive(Debug, Clone, Copy, PartialEq, Eq, Structural)]
pub struct Transform {
    pub m11: i32,
    pub m12: i32,
    pub m21: i32,
    pub m22: i32,
    pub m31: i32,
    pub m32: i32,
}

impl Transform {
    pub fn identity() -> (r: Transform)
        ensures
            r.is_identity(),
    {
        Transform { m11: 1, m12: 0, m21: 0, m22: 1, m31: 0, m32: 0 }
    }

    pub open spec fn is_identity(self) -> bool {
        self.m11 == 1 && self.m12 == 0 && self.m21 == 0 && self.m22 == 1 && self.m31 == 0
            && self.m32 == 0
    }

    pub open spec fn det(self) -> int {
        self.m11 * self.m22 - self.m12 * self.m21
    }

    pub open spec fn invertible(self) -> bool {
        self.det() != 0
    }

    /// Where the transform takes `(x, y)`.
    pub open spec fn apply_x(self, x: int, y: int) -> int {
        x * self.m11 + y * self.m21 + self.m31
    }

    pub open spec fn apply_y(self, x: int, y: int) -> int {
        x * self.m12 + y * self.m22 + self.m32
    }

    /// Where the inverse takes `(x, y)`, for an invertible transform.
    pub open spec fn unapply_x(self, x: int, y: int) -> int {
        sdiv(self.m22 * (x - self.m31) - self.m21 * (y - self.m32), self.det())
    }

    pub open spec fn unapply_y(self, x: int, y: int) -> int {
        sdiv(self.m11 * (y - self.m32) - self.m12 * (x - self.m31), self.det())
    }

    pub fn is_invertible(&self) -> (r: bool)
        ensures
            r == self.invertible(),
    {
        proof {
            lemma_coord_product(self.m11 as int, self.m22 as int);
            lemma_coord_product(self.m12 as int, self.m21 as int);
        }
        let d: i128 = self.m11 as i128 * self.m22 as i128 - self.m12 as i128 * self.m21 as i128;
        d != 0
    }

    /// Applies the transform to a point.
    pub fn transform_point(&self, p: Point) -> (r: Point)
        requires
            i64::MIN <= self.apply_x(p.x as int, p.y as int) <= i64::MAX,
            i64::MIN <= self.apply_y(p.x as int, p.y as int) <= i64::MAX,
        ensures
            r.x == self.apply_x(p.x as int, p.y as int),
            r.y == self.apply_y(p.x as int, p.y as int),
    {
        proof {
            lemma_coord_product(p.x as int, self.m11 as int);
            lemma_coord_product(p.y as int, self.m21 as int);
            lemma_coord_product(p.x as int, self.m12 as int);
            lemma_coord_product(p.y as int, self.m22 as int);
        }
        let x: i128 = p.x as i128 * self.m11 as i128 + p.y as i128 * self.m21 as i128
            + self.m31 as i128;
        let y: i128 = p.x as i128 * self.m12 as i128 + p.y as i128 * self.m22 as i128
            + self.m32 as i128;
        Point { x: x as i64, y: y as i64 }
    }

    /// Applies the inverse of an invertible transform to a point.
    pub fn inverse_transform_point(&self, p: Point) -> (r: Point)
        requires
            self.invertible(),
            i64::MIN <= self.unapply_x(p.x as int, p.y as int) <= i64::MAX,
            i64::MIN <= self.unapply_y(p.x as int, p.y as int) <= i64::MAX,
        ensures
            r.x == self.unapply_x(p.x as int, p.y as int),
            r.y == self.unapply_y(p.x as int, p.y as int),
    {
        proof {
            lemma_coord_product(self.m11 as int, self.m22 as int);
            lemma_coord_product(self.m12 as int, self.m21 as int);
        }
        let d: i128 = self.m11 as i128 * self.m22 as i128 - self.m12 as i128 * self.m21 as i128;
        let dx: i128 = p.x as i128 - self.m31 as i128;
        let dy: i128 = p.y as i128 - self.m32 as i128;
        proof {
            lemma_offset_product(dx as int, self.m22 as int);
            lemma_offset_product(dy as int, self.m21 as int);
            lemma_offset_product(dy as int, self.m11 as int);
            lemma_offset_product(dx as int, self.m12 as int);
        }
        let x: i128 = sdiv_exec(self.m22 as i128 * dx - self.m21 as i128 * dy, d);
        let y: i128 = sdiv_exec(self.m11 as i128 * dy - self.m12 as i128 * dx, d);
        Point { x: x as i64, y: y as i64 }
    }
}

proof fn lemma_coord_product(c: int, m: int)
    requires
        i64::MIN <= c <= i64::MAX,
        i32::MIN <= m <= i32::MAX,
    ensures
        -0x1_0000_0000_0000_0000_0000_0000 <= c * m <= 0x1_0000_0000_0000_0000_0000_0000,
{
    assert(-0x8000_0000_0000_0000 * 0x8000_0000 <= c * m <= 0x8000_0000_0000_0000 * 0x8000_0000)
        by (nonlinear_arith)
        requires
            -0x8000_0000_0000_0000 <= c <= 0x8000_0000_0000_0000,
            -0x8000_0000 <= m <= 0x8000_0000,
    ;
}

proof fn lemma_offset_product(c: int, m: int)
    requires
        -0x1_0000_0000_0000_0000 <= c <= 0x1_0000_0000_0000_0000,
        i32::MIN <= m <= i32::MAX,
    ensures
        -0x1_0000_0000_0000_0000_0000_0000 <= c * m <= 0x1_0000_0000_0000_0000_0000_0000,
{
    assert(-0x1_0000_0000_0000_0000 * 0x8000_0000 <= c * m <= 0x1_0000_0000_0000_0000
        * 0x8000_0000) by (nonlinear_arith)
        requires
            -0x1_0000_0000_0000_0000 <= c <= 0x1_0000_0000_0000_0000,
            -0x8000_0000 <= m <= 0x8000_0000,
    ;
}

/// The inverse undoes the transform: for an invertible transform, mapping a
/// point and mapping it back gives the point again.
pub proof fn lemma_unapply_apply(t: Transform, x: int, y: int)
    requires
        t.invertible(),
    ensures
        t.unapply_x(t.apply_x(x, y), t.apply_y(x, y)) == x,
        t.unapply_y(t.apply_x(x, y), t.apply_y(x, y)) == y,
{
    let d = t.det();
    let (a, b, c, e) = (t.m11 as int, t.m12 as int, t.m21 as int, t.m22 as int);
    assert(e * (x * a + y * c) - c * (x * b + y * e) == x * (a * e - b * c)) by (nonlinear_arith);
    assert(a * (x * b + y * e) - b * (x * a + y * c) == y * (a * e - b * c)) by (nonlinear_arith);
    lemma_sdiv_multiple(x, d);
    lemma_sdiv_multiple(y, d);
}

/// Division truncated toward zero, by a divisor that is not zero.
pub open spec fn sdiv(v: int, d: int) -> int {
    let q = abs(v) / abs(d);
    if (v >= 0) == (d > 0) || v == 0 { q } else { -q }
}

pub open spec fn abs(v: int) -> int {
    if v >= 0 { v } else { -v }
}

/// Dividing a multiple of `d` by `d` is exact.
proof fn lemma_sdiv_multiple(x: int, d: int)
    requires
        d != 0,
    ensures
        sdiv(x * d, d) == x,
{
    assert(abs(x * d) == abs(d) * abs(x)) by (nonlinear_arith);
    vstd::arithmetic::div_mod::lemma_div_multiples_vanish(abs(x), abs(d));
    if x != 0 {
        assert((x * d >= 0) == ((x > 0) == (d > 0))) by (nonlinear_arith)
            requires
                x != 0,
                d != 0,
        ;
    }
}

/// Division truncated toward zero.
fn sdiv_exec(v: i128, d: i128) -> (r: i128)
    requires
        d != 0,
        -0x1_0000_0000_0000_0000_0000_0000_0000 <= v <= 0x1_0000_0000_0000_0000_0000_0000_0000,
        -0x1_0000_0000_0000_0000_0000_0000_0000 <= d <= 0x1_0000_0000_0000_0000_0000_0000_0000,
    ensures
        r == sdiv(v as int, d as int),
{
    let av: i128 = if v >= 0 { v } else { -v };
    let ad: i128 = if d >= 0 { d } else { -d };
    proof {
        assert(0 <= (av as int) / (ad as int) <= av) by (nonlinear_arith)
            requires
                av >= 0,
                ad > 0,
        ;
    }
    let q: i128 = av / ad;
    if (v >= 0) == (d > 0) || v == 0 { q } else { -q }
}

} // verus!
