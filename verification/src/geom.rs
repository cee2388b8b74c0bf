use vstd::prelude::*;
use std::cmp::Ordering;

verus! {

/// A cardinal direction on the screen.
#[derive(Debug, Copy, Clone, PartialEq, Eq, Structural)]
pub enum Dir {
    North,
    East,
    South,
    West,
}

#[derive(Debug, Copy, Clone, PartialEq, Eq, Structural)]
pub enum Axis {
    Horizontal,
    Vertical,
}

#[derive(Debug, Copy, Clone, PartialEq, Eq, Structural)]
pub enum CycleDir {
    Next,
    Previous,
}

#[derive(Debug, Copy, Clone, PartialEq, Eq, Structural)]
pub enum LinearDir {
    Backward,
    Forward,
}

#[derive(Debug, Copy, Clone, PartialEq, Eq, Structural)]
pub struct Point {
    pub x: i32,
    pub y: i32,
}

#[derive(Debug, Copy, Clone, PartialEq, Eq, Structural)]
pub enum CornerSpec {
    Uniform(i32),
    North(i32),
    East(i32),
    South(i32),
    West(i32),
    Detailed { north_west: i32, north_east: i32, south_east: i32, south_west: i32 },
}

/// Division rounding towards zero, as the machine integer division does.
pub open spec fn trunc_div(x: int, d: int) -> int {
    if x >= 0 {
        x / d
    } else {
        -((-x) / d)
    }
}

/// The smaller half of `n`, `n / 2` rounded towards zero.
pub open spec fn spec_small_half(n: int) -> int {
    trunc_div(n, 2)
}

/// Splits `n` in two parts whose sum is `n`, the first one being `n / 2`.
pub fn halves(n: i32) -> (r: (i32, i32))
    ensures
        r.0 == spec_small_half(n as int),
        r.1 == n - spec_small_half(n as int),
        r.0 + r.1 == n,
{
    let small_half = n / 2;
    let big_half = n - small_half;
    (small_half, big_half)
}

pub fn small_half(n: i32) -> (r: i32)
    ensures
        r == spec_small_half(n as int),
{
    n / 2
}

pub fn big_half(n: i32) -> (r: i32)
    ensures
        r == n - spec_small_half(n as int),
{
    n - small_half(n)
}

/// Sum of a sequence of integers.
pub open spec fn seq_sum(s: Seq<i32>) -> int
    decreases s.len(),
{
    if s.len() == 0 {
        0
    } else {
        seq_sum(s.drop_last()) + s.last()
    }
}

/// The common share of `divide(n, p)`.
pub open spec fn divide_quotient(n: int, p: int) -> int {
    if p == 0 {
        0
    } else {
        trunc_div(n, p)
    }
}

/// What is left after every part received the common share.
pub open spec fn divide_remainder(n: int, p: int) -> int {
    n - p * divide_quotient(n, p)
}

/// The spacing between the parts that receive one more unit.
pub open spec fn divide_step(n: int, p: int) -> int {
    let r = divide_remainder(n, p);
    if r == 0 {
        0
    } else {
        trunc_div(p, r)
    }
}

/// Whether the part at index `i` receives one more unit than the common share.
pub open spec fn divide_gets_extra(n: int, p: int, i: int) -> bool {
    let r = divide_remainder(n, p);
    let e = divide_step(n, p);
    r > 0 && (i + 1) % e == 0 && (i + 1) / e <= r
}

/// The part at index `i` of `divide(n, p)`.
pub open spec fn divide_part(n: int, p: int, i: int) -> int {
    divide_quotient(n, p) + if divide_gets_extra(n, p, i) {
        1int
    } else {
        0int
    }
}

proof fn lemma_trunc_div_bounds(x: int, d: int)
    requires
        d > 0,
    ensures
        x >= 0 ==> 0 <= x - d * trunc_div(x, d) < d,
        x < 0 ==> -d < x - d * trunc_div(x, d) <= 0,
        x >= 0 ==> 0 <= trunc_div(x, d) <= x,
        x < 0 ==> x <= trunc_div(x, d) <= 0,
{
    if x >= 0 {
        vstd::arithmetic::div_mod::lemma_mod_bound(x, d);
        vstd::arithmetic::div_mod::lemma_fundamental_div_mod(x, d);
        vstd::arithmetic::div_mod::lemma_div_pos_is_pos(x, d);
        vstd::arithmetic::div_mod::lemma_div_is_ordered_by_denominator(x, 1, d);
    } else {
        vstd::arithmetic::div_mod::lemma_mod_bound(-x, d);
        vstd::arithmetic::div_mod::lemma_fundamental_div_mod(-x, d);
        vstd::arithmetic::div_mod::lemma_div_pos_is_pos(-x, d);
        vstd::arithmetic::div_mod::lemma_div_is_ordered_by_denominator(-x, 1, d);
        let q = (-x) / d;
        assert(x - d * trunc_div(x, d) == -((-x) - d * q)) by (nonlinear_arith)
            requires
                trunc_div(x, d) == -q,
        ;
    }
}

/// Splits `n` into `p` parts as evenly as possible: every part is `n / p` and, when `n` is
/// positive, the remainder is handed out one unit at a time to parts spread regularly.
pub fn divide(n: i32, p: i32) -> (v: Vec<i32>)
    requires
        p >= 0,
    ensures
        v@.len() == p,
        forall|i: int| 0 <= i < p ==> #[trigger] v@[i] == divide_part(n as int, p as int, i),
        n >= 0 && p > 0 ==> seq_sum(v@) == n,
{
    let k = n.checked_div(p).unwrap_or(0);
    proof {
        if p > 0 {
            lemma_trunc_div_bounds(n as int, p as int);
            assert(k == trunc_div(n as int, p as int));
        }
    }
    proof {
        if p > 0 {
            assert(-(p as int) < n - p * k < p && (n >= 0 ==> 0 <= p * k <= n)
                && (n < 0 ==> n <= p * k <= 0)) by (nonlinear_arith)
                requires
                    p > 0 && n >= 0 ==> 0 <= n - p * k < p && 0 <= k <= n,
                    p > 0 && n < 0 ==> -p < n - p * k <= 0 && n <= k <= 0,
                    p > 0,
            ;
            assert(n - p * k > 0 ==> k + 1 <= n) by (nonlinear_arith)
                requires
                    p > 0,
                    n >= 0 ==> 0 <= k <= n,
                    n < 0 ==> n - p * k <= 0,
            ;
        }
    }
    let mut r = n - p * k;
    let ghost r0: int = r as int;
    assert(r0 == divide_remainder(n as int, p as int));
    let e = p.checked_div(r).unwrap_or(0);
    proof {
        if p > 0 && r0 > 0 {
            lemma_trunc_div_bounds(p as int, r0);
            vstd::arithmetic::div_mod::lemma_div_is_ordered_by_denominator(p as int, r0, p as int);
            vstd::arithmetic::div_mod::lemma_div_by_self(p as int);
            assert(e == trunc_div(p as int, r0));
            assert(e >= 1);
            assert(e * r0 <= p) by (nonlinear_arith)
                requires
                    p >= 0,
                    r0 > 0,
                    0 <= p - r0 * e,
            ;
        }
    }
    let mut vec: Vec<i32> = Vec::with_capacity(p as usize);
    let mut i: i32 = 0;
    while i < p
        invariant
            0 <= i <= p,
            vec@.len() == i,
            r0 == divide_remainder(n as int, p as int),
            k == divide_quotient(n as int, p as int),
            p > 0 && r0 > 0 ==> e == divide_step(n as int, p as int) && e >= 1 && e * r0 <= p,
            p > 0 && r0 > 0 ==> r == r0 - (if i / e < r0 { i / e } else { r0 }),
            p == 0 || r0 <= 0 ==> r == r0,
            p > 0 ==> r0 < p && -p < r0,
            forall|j: int| 0 <= j < i ==> #[trigger] vec@[j] == divide_part(n as int, p as int, j),
            seq_sum(vec@) == i * k + (r0 - r),
            k + 1 <= i32::MAX || r0 <= 0,
        decreases p - i,
    {
        let ghost before = vec@;
        proof {
            if p > 0 && r0 > 0 {
                let ii: int = i as int;
                let ee: int = e as int;
                vstd::arithmetic::div_mod::lemma_fundamental_div_mod(ii, ee);
                vstd::arithmetic::div_mod::lemma_fundamental_div_mod(ii + 1, ee);
                vstd::arithmetic::div_mod::lemma_mod_bound(ii, ee);
                vstd::arithmetic::div_mod::lemma_mod_bound(ii + 1, ee);
                let q = ii / ee;
                let q1 = (ii + 1) / ee;
                assert(q1 == q || q1 == q + 1) by (nonlinear_arith)
                    requires
                        ee >= 1,
                        ii == ee * q + ii % ee,
                        ii + 1 == ee * q1 + (ii + 1) % ee,
                        0 <= ii % ee < ee,
                        0 <= (ii + 1) % ee < ee,
                ;
                assert((ii + 1) % ee == 0 <==> q1 == q + 1) by (nonlinear_arith)
                    requires
                        ee >= 1,
                        ii == ee * q + ii % ee,
                        ii + 1 == ee * q1 + (ii + 1) % ee,
                        0 <= ii % ee < ee,
                        0 <= (ii + 1) % ee < ee,
                        q1 == q || q1 == q + 1,
                ;
            }
        }
        if r > 0 && (i + 1) % e == 0 {
            vec.push(k + 1);
            r -= 1;
        } else {
            vec.push(k);
        }
        proof {
            assert(vec@.drop_last() =~= before);
            assert((i + 1) * k == i * k + k) by (nonlinear_arith);
            assert(vec@[i as int] == divide_part(n as int, p as int, i as int));
        }
        i += 1;
    }
    proof {
        if p > 0 && r0 > 0 {
            assert(p / e >= r0) by (nonlinear_arith)
                requires
                    e >= 1,
                    e * r0 <= p,
                    r0 > 0,
            {
                vstd::arithmetic::div_mod::lemma_div_is_ordered(e * r0, p as int, e as int);
                vstd::arithmetic::mul::lemma_mul_is_commutative(e as int, r0);
                vstd::arithmetic::div_mod::lemma_div_multiples_vanish(r0, e as int);
            }
        }
        if n >= 0 && p > 0 {
            assert(r == 0);
            assert(seq_sum(vec@) == n) by (nonlinear_arith)
                requires
                    seq_sum(vec@) == p * k + (r0 - r),
                    r0 == n - p * k,
                    r == 0,
            ;
        }
    }
    vec
}

impl Dir {
    pub open spec fn spec_opposite(self) -> Dir {
        match self {
            Dir::North => Dir::South,
            Dir::South => Dir::North,
            Dir::East => Dir::West,
            Dir::West => Dir::East,
        }
    }

    pub open spec fn spec_axis(self) -> Axis {
        match self {
            Dir::North | Dir::South => Axis::Vertical,
            Dir::East | Dir::West => Axis::Horizontal,
        }
    }

    pub fn opposite(&self) -> (d: Dir)
        ensures
            d == self.spec_opposite(),
    {
        match *self {
            Dir::North => Dir::South,
            Dir::South => Dir::North,
            Dir::East => Dir::West,
            Dir::West => Dir::East,
        }
    }

    pub fn axis(&self) -> (a: Axis)
        ensures
            a == self.spec_axis(),
    {
        match *self {
            Dir::North | Dir::South => Axis::Vertical,
            Dir::East | Dir::West => Axis::Horizontal,
        }
    }
}

/// Going to the opposite direction twice leads back to the start, and a direction and its
/// opposite lie on the same axis.
pub proof fn lemma_opposite_involution(d: Dir)
    ensures
        d.spec_opposite().spec_opposite() == d,
        d.spec_opposite() != d,
        d.spec_opposite().spec_axis() == d.spec_axis(),
{
}

pub open spec fn abs(x: int) -> int {
    if x < 0 {
        -x
    } else {
        x
    }
}

impl Point {
    pub fn new(x: i32, y: i32) -> (p: Point)
        ensures
            p.x == x,
            p.y == y,
    {
        Point { x: x, y: y }
    }

    pub open spec fn spec_dist2(self, pt: Point) -> int {
        (pt.x - self.x) * (pt.x - self.x) + (pt.y - self.y) * (pt.y - self.y)
    }

    /// The squared euclidean distance between two points.
    pub fn dist2(&self, pt: &Point) -> (d: u32)
        requires
            i32::MIN <= pt.x - self.x <= i32::MAX,
            i32::MIN <= pt.y - self.y <= i32::MAX,
            (pt.x - self.x) * (pt.x - self.x) <= i32::MAX,
            (pt.y - self.y) * (pt.y - self.y) <= i32::MAX,
            self.spec_dist2(*pt) <= i32::MAX,
        ensures
            d == self.spec_dist2(*pt),
    {
        let dx = pt.x - self.x;
        let dy = pt.y - self.y;
        assert(0 <= dx * dx && 0 <= dy * dy) by (nonlinear_arith);
        let s = dx * dx + dy * dy;
        s as u32
    }

    pub open spec fn spec_dir(self) -> Dir {
        if abs(self.x as int) > abs(self.y as int) {
            if self.x > 0 {
                Dir::East
            } else {
                Dir::West
            }
        } else {
            if self.y > 0 {
                Dir::South
            } else {
                Dir::North
            }
        }
    }

    /// The dominant direction of a displacement vector.
    pub fn dir(&self) -> (d: Dir)
        requires
            self.x != i32::MIN,
            self.y != i32::MIN,
        ensures
            d == self.spec_dir(),
    {
        let ax = if self.x < 0 { -self.x } else { self.x };
        let ay = if self.y < 0 { -self.y } else { self.y };
        if ax > ay {
            if self.x > 0 {
                Dir::East
            } else {
                Dir::West
            }
        } else {
            if self.y > 0 {
                Dir::South
            } else {
                Dir::North
            }
        }
    }
}

impl Default for Point {
    fn default() -> (p: Point)
        ensures
            p.x == 0 && p.y == 0,
    {
        Point::new(0, 0)
    }
}

/// An axis-aligned rectangle: `min` is included, `max` is excluded.
#[derive(Debug, Copy, Clone, PartialEq, Eq, Structural)]
pub struct Rectangle {
    pub min: Point,
    pub max: Point,
}

/// Whether the machine value `v` stands for the mathematical integer `x`.
pub open spec fn fits_i32(x: int) -> bool {
    i32::MIN <= x <= i32::MAX
}

impl Rectangle {
    pub fn new(min: Point, max: Point) -> (r: Rectangle)
        ensures
            r.min == min,
            r.max == max,
    {
        Rectangle { min: min, max: max }
    }

    /// The one-pixel rectangle at `pt`.
    pub fn from_point(pt: &Point) -> (r: Rectangle)
        requires
            pt.x < i32::MAX,
            pt.y < i32::MAX,
        ensures
            r.min == *pt,
            r.max.x == pt.x + 1,
            r.max.y == pt.y + 1,
    {
        Rectangle { min: *pt, max: Point { x: pt.x + 1, y: pt.y + 1 } }
    }

    /// The bounding square of the disk of the given center and radius.
    pub fn from_disk(center: &Point, radius: i32) -> (r: Rectangle)
        requires
            fits_i32(center.x - radius),
            fits_i32(center.y - radius),
            fits_i32(center.x + radius),
            fits_i32(center.y + radius),
        ensures
            r.min.x == center.x - radius,
            r.min.y == center.y - radius,
            r.max.x == center.x + radius,
            r.max.y == center.y + radius,
    {
        Rectangle {
            min: Point { x: center.x - radius, y: center.y - radius },
            max: Point { x: center.x + radius, y: center.y + radius },
        }
    }

    pub open spec fn spec_includes(self, pt: Point) -> bool {
        self.min.x <= pt.x < self.max.x && self.min.y <= pt.y < self.max.y
    }

    pub open spec fn spec_contains(self, rect: Rectangle) -> bool {
        rect.min.x >= self.min.x && rect.max.x <= self.max.x && rect.min.y >= self.min.y
            && rect.max.y <= self.max.y
    }

    pub open spec fn spec_overlaps(self, rect: Rectangle) -> bool {
        self.min.x < rect.max.x && rect.min.x < self.max.x && self.min.y < rect.max.y
            && rect.min.y < self.max.y
    }

    pub open spec fn spec_is_empty(self) -> bool {
        self.max.x <= self.min.x || self.max.y <= self.min.y
    }

    /// Whether the point lies inside the rectangle.
    pub fn includes(&self, pt: &Point) -> (b: bool)
        ensures
            b == self.spec_includes(*pt),
    {
        self.min.x <= pt.x && pt.x < self.max.x && self.min.y <= pt.y && pt.y < self.max.y
    }

    /// Whether `rect` lies inside `self`.
    pub fn contains(&self, rect: &Rectangle) -> (b: bool)
        ensures
            b == self.spec_contains(*rect),
    {
        rect.min.x >= self.min.x && rect.max.x <= self.max.x && rect.min.y >= self.min.y
            && rect.max.y <= self.max.y
    }

    /// Whether the two rectangles share at least one pixel.
    pub fn overlaps(&self, rect: &Rectangle) -> (b: bool)
        ensures
            b == self.spec_overlaps(*rect),
    {
        self.min.x < rect.max.x && rect.min.x < self.max.x && self.min.y < rect.max.y
            && rect.min.y < self.max.y
    }

    /// Grows the rectangle so that it includes `pt`.
    pub fn merge(&mut self, pt: &Point)
        requires
            pt.x >= old(self).max.x ==> pt.x < i32::MAX,
            pt.y >= old(self).max.y ==> pt.y < i32::MAX,
        ensures
            final(self).min.x == if pt.x < old(self).min.x { pt.x } else { old(self).min.x },
            final(self).max.x == if pt.x >= old(self).max.x { pt.x + 1 } else { old(self).max.x as int },
            final(self).min.y == if pt.y < old(self).min.y { pt.y } else { old(self).min.y },
            final(self).max.y == if pt.y >= old(self).max.y { pt.y + 1 } else { old(self).max.y as int },
    {
        if pt.x < self.min.x {
            self.min.x = pt.x;
        }
        if pt.x >= self.max.x {
            self.max.x = pt.x + 1;
        }
        if pt.y < self.min.y {
            self.min.y = pt.y;
        }
        if pt.y >= self.max.y {
            self.max.y = pt.y + 1;
        }
    }

    /// Grows the rectangle so that it contains `rect`.
    pub fn absorb(&mut self, rect: &Rectangle)
        ensures
            final(self).min.x == if old(self).min.x > rect.min.x { rect.min.x } else { old(self).min.x },
            final(self).max.x == if old(self).max.x < rect.max.x { rect.max.x } else { old(self).max.x },
            final(self).min.y == if old(self).min.y > rect.min.y { rect.min.y } else { old(self).min.y },
            final(self).max.y == if old(self).max.y < rect.max.y { rect.max.y } else { old(self).max.y },
    {
        if self.min.x > rect.min.x {
            self.min.x = rect.min.x;
        }
        if self.max.x < rect.max.x {
            self.max.x = rect.max.x;
        }
        if self.min.y > rect.min.y {
            self.min.y = rect.min.y;
        }
        if self.max.y < rect.max.y {
            self.max.y = rect.max.y;
        }
    }

    pub open spec fn spec_intersection(self, rect: Rectangle) -> Option<Rectangle> {
        if self.spec_overlaps(rect) {
            Some(
                Rectangle {
                    min: Point {
                        x: if self.min.x >= rect.min.x { self.min.x } else { rect.min.x },
                        y: if self.min.y >= rect.min.y { self.min.y } else { rect.min.y },
                    },
                    max: Point {
                        x: if self.max.x <= rect.max.x { self.max.x } else { rect.max.x },
                        y: if self.max.y <= rect.max.y { self.max.y } else { rect.max.y },
                    },
                },
            )
        } else {
            None
        }
    }

    /// The common part of two rectangles, if they overlap.
    pub fn intersection(&self, rect: &Rectangle) -> (r: Option<Rectangle>)
        ensures
            r == self.spec_intersection(*rect),
    {
        if self.overlaps(rect) {
            Some(
                Rectangle::new(
                    Point::new(
                        if self.min.x >= rect.min.x { self.min.x } else { rect.min.x },
                        if self.min.y >= rect.min.y { self.min.y } else { rect.min.y },
                    ),
                    Point::new(
                        if self.max.x <= rect.max.x { self.max.x } else { rect.max.x },
                        if self.max.y <= rect.max.y { self.max.y } else { rect.max.y },
                    ),
                ),
            )
        } else {
            None
        }
    }

    pub fn is_empty(&self) -> (b: bool)
        ensures
            b == self.spec_is_empty(),
    {
        self.max.x <= self.min.x || self.max.y <= self.min.y
    }

    pub open spec fn spec_width(self) -> u32 {
        (self.max.x - self.min.x) as u32
    }

    pub open spec fn spec_height(self) -> u32 {
        (self.max.y - self.min.y) as u32
    }

    /// The horizontal extent, `max.x - min.x` as an unsigned number.
    pub fn width(&self) -> (w: u32)
        requires
            fits_i32(self.max.x - self.min.x),
        ensures
            w == self.spec_width(),
            self.max.x >= self.min.x ==> w == self.max.x - self.min.x,
    {
        let d = self.max.x - self.min.x;
        d as u32
    }

    /// The vertical extent, `max.y - min.y` as an unsigned number.
    pub fn height(&self) -> (h: u32)
        requires
            fits_i32(self.max.y - self.min.y),
        ensures
            h == self.spec_height(),
            self.max.y >= self.min.y ==> h == self.max.y - self.min.y,
    {
        let d = self.max.y - self.min.y;
        d as u32
    }

    pub fn area(&self) -> (a: u32)
        requires
            fits_i32(self.max.x - self.min.x),
            fits_i32(self.max.y - self.min.y),
            self.spec_width() * self.spec_height() <= u32::MAX,
        ensures
            a == self.spec_width() * self.spec_height(),
    {
        self.width() * self.height()
    }
}

impl Default for Rectangle {
    fn default() -> (r: Rectangle)
        ensures
            r.min == Point::new_spec(0, 0),
            r.max == Point::new_spec(0, 0),
    {
        Rectangle::new(Point::new(0, 0), Point::new(0, 0))
    }
}

impl Point {
    pub open spec fn new_spec(x: i32, y: i32) -> Point {
        Point { x, y }
    }
}

/// The intersection of two rectangles exists exactly when they overlap; it lies in both of
/// them, does not depend on their order, and is not empty when neither of them is.
pub proof fn lemma_intersection_contained(a: Rectangle, b: Rectangle)
    ensures
        a.spec_intersection(b) is Some <==> a.spec_overlaps(b),
        a.spec_overlaps(b) == b.spec_overlaps(a),
        a.spec_intersection(b) matches Some(r) ==> a.spec_contains(r) && b.spec_contains(r),
        a.spec_intersection(b) matches Some(r) ==> (!a.spec_is_empty() && !b.spec_is_empty()
            ==> !r.spec_is_empty()),
        a.spec_intersection(b) == b.spec_intersection(a),
{
    if a.spec_overlaps(b) {
        let r = a.spec_intersection(b)->0;
        assert(a.spec_contains(r) && b.spec_contains(r));
    }
}

/// After merging a point, the rectangle includes it; after absorbing a rectangle, it
/// contains it, provided the absorbed rectangle is not empty.
pub proof fn lemma_grow_includes(r: Rectangle, pt: Point, s: Rectangle)
    requires
        pt.x < i32::MAX,
        pt.y < i32::MAX,
        !r.spec_is_empty(),
    ensures
        ({
            let m = Rectangle {
                min: Point {
                    x: if pt.x < r.min.x { pt.x } else { r.min.x },
                    y: if pt.y < r.min.y { pt.y } else { r.min.y },
                },
                max: Point {
                    x: if pt.x >= r.max.x { (pt.x + 1) as i32 } else { r.max.x },
                    y: if pt.y >= r.max.y { (pt.y + 1) as i32 } else { r.max.y },
                },
            };
            m.spec_includes(pt) && m.spec_contains(r)
        }),
        ({
            let a = Rectangle {
                min: Point {
                    x: if r.min.x > s.min.x { s.min.x } else { r.min.x },
                    y: if r.min.y > s.min.y { s.min.y } else { r.min.y },
                },
                max: Point {
                    x: if r.max.x < s.max.x { s.max.x } else { r.max.x },
                    y: if r.max.y < s.max.y { s.max.y } else { r.max.y },
                },
            };
            a.spec_contains(s) && a.spec_contains(r)
        }),
{
}

/// Orders rectangles as lines of text are read: top to bottom, then left to right;
/// overlapping rectangles compare equal.
pub open spec fn rect_reading_order(r1: Rectangle, r2: Rectangle) -> Ordering {
    if r1.min.y >= r2.max.y {
        Ordering::Greater
    } else if r1.max.y <= r2.min.y {
        Ordering::Less
    } else if r1.min.x >= r2.max.x {
        Ordering::Greater
    } else if r1.max.x <= r2.min.x {
        Ordering::Less
    } else {
        Ordering::Equal
    }
}

pub fn rect_cmp(r1: &Rectangle, r2: &Rectangle) -> (o: Ordering)
    ensures
        o == rect_reading_order(*r1, *r2),
{
    if r1.min.y >= r2.max.y {
        Ordering::Greater
    } else if r1.max.y <= r2.min.y {
        Ordering::Less
    } else {
        if r1.min.x >= r2.max.x {
            Ordering::Greater
        } else if r1.max.x <= r2.min.x {
            Ordering::Less
        } else {
            Ordering::Equal
        }
    }
}

/// For non-empty rectangles the reading order is antisymmetric.
pub proof fn lemma_rect_order_antisymmetric(r1: Rectangle, r2: Rectangle)
    requires
        !r1.spec_is_empty(),
        !r2.spec_is_empty(),
    ensures
        rect_reading_order(r1, r2) == Ordering::Less <==> rect_reading_order(r2, r1) == Ordering::Greater,
        rect_reading_order(r1, r2) == Ordering::Equal <==> rect_reading_order(r2, r1) == Ordering::Equal,
        rect_reading_order(r1, r2) == Ordering::Equal <==> r1.spec_overlaps(r2),
{
}

} // verus!
