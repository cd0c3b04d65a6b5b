//! Pictures in colour: four bytes for each pixel, row by row.

use crate::ocr_lab::raster;
use vstd::prelude::*;

verus! {

/// A colour with its opacity.
#[derive(Debug, Clone, Copy, PartialEq, Eq, Structural)]
pub struct Rgba {
    pub r: u8,
    pub g: u8,
    pub b: u8,
    pub a: u8,
}

/// A picture in colour.
#[derive(Debug)]
pub struct Canvas {
    pub w: u32,
    pub h: u32,
    /// The pixels, row by row.
    pub px: Vec<Rgba>,
}

impl Canvas {
    /// Whether there is one colour for each pixel.
    pub open spec fn wf(self) -> bool {
        &&& self.w * self.h <= u32::MAX
        &&& self.px@.len() == self.w * self.h
    }

    /// Whether `(x, y)` is a pixel of the picture.
    pub open spec fn inside(self, x: int, y: int) -> bool {
        0 <= x < self.w && 0 <= y < self.h
    }

    /// The colour at `(x, y)`.
    pub open spec fn spec_get(self, x: int, y: int) -> Rgba {
        self.px@[raster::at(self.w as int, x, y)]
    }

    /// The colour at `(x, y)`.
    pub fn get(&self, x: u32, y: u32) -> (v: Rgba)
        requires
            self.wf(),
            x < self.w,
            y < self.h,
        ensures
            v == self.spec_get(x as int, y as int),
    {
        proof {
            raster::lemma_row_fits(self.w, self.h, x, y);
        }
        self.px[(y * self.w + x) as usize]
    }

    /// A picture all of one colour.
    pub fn filled(w: u32, h: u32, v: Rgba) -> (r: Canvas)
        requires
            w * h <= u32::MAX,
        ensures
            r.wf(),
            r.w == w,
            r.h == h,
            forall|x: int, y: int| r.inside(x, y) ==> #[trigger] r.spec_get(x, y) == v,
    {
        let n: usize = (w * h) as usize;
        let mut px: Vec<Rgba> = Vec::new();
        let mut i: usize = 0;
        while i < n
            invariant
                i <= n,
                px@.len() == i,
                forall|j: int| 0 <= j < i ==> px@[j] == v,
            decreases n - i,
        {
            px.push(v);
            i += 1;
        }
        let r = Canvas { w, h, px };
        assert forall|x: int, y: int| r.inside(x, y) implies #[trigger] r.spec_get(x, y) == v by {
            raster::lemma_at(w as int, h as int, x, y);
        }
        r
    }

    /// Paints the pixel at `(x, y)`.
    pub fn put(&mut self, x: u32, y: u32, v: Rgba)
        requires
            old(self).wf(),
            x < old(self).w,
            y < old(self).h,
        ensures
            final(self).wf(),
            final(self).w == old(self).w,
            final(self).h == old(self).h,
            forall|i: int, j: int|
                final(self).inside(i, j) ==> #[trigger] final(self).spec_get(i, j) == if i == x
                    && j == y {
                    v
                } else {
                    old(self).spec_get(i, j)
                },
    {
        proof {
            raster::lemma_row_fits(self.w, self.h, x, y);
        }
        let ghost before = *self;
        self.px.set((y * self.w + x) as usize, v);
        proof {
            let w = self.w as int;
            let h = self.h as int;
            assert forall|i: int, j: int| self.inside(i, j) implies #[trigger] self.spec_get(i, j)
                == if i == x && j == y {
                v
            } else {
                before.spec_get(i, j)
            } by {
                raster::lemma_at(w, h, i, j);
                if raster::at(w, i, j) == raster::at(w, x as int, y as int) {
                    raster::lemma_at_distinct(w, i, j, x as int, y as int);
                }
            }
        }
    }
}

/// How far the ends of a line may lie from the origin.
pub const REACH: i32 = 268_435_456;

/// Whether a point can be the end of a line.
pub open spec fn in_reach(p: (i32, i32)) -> bool {
    -REACH <= p.0 <= REACH && -REACH <= p.1 <= REACH
}

/// The size of a number.
pub open spec fn size(n: int) -> int {
    if n < 0 {
        -n
    } else {
        n
    }
}

/// One step towards `to` from `from`; downwards where they are the same.
pub open spec fn direction(from: int, to: int) -> int {
    if from < to {
        1
    } else {
        -1
    }
}

/// How many steps there are from one end of a line to the other.
pub open spec fn steps_along(a: (i32, i32), b: (i32, i32)) -> int {
    let dx = size(b.0 - a.0);
    let dy = size(b.1 - a.1);
    if dx < dy {
        dy
    } else {
        dx
    }
}

/// `n` times `p / q`, rounded to the nearest whole number, and up in the
/// middle.
pub open spec fn nearest_part(n: int, p: int, q: int) -> int {
    if q == 0 {
        0
    } else {
        (2 * n * p + q) / (2 * q)
    }
}

/// The point number `i` of the line from `a` to `b`: on the longer axis one
/// step further each time, on the other as near to the line as can be.
pub open spec fn line_point(a: (i32, i32), b: (i32, i32), i: int) -> (int, int) {
    let dx = size(b.0 - a.0);
    let dy = size(b.1 - a.1);
    let sx = direction(a.0 as int, b.0 as int);
    let sy = direction(a.1 as int, b.1 as int);
    if dx >= dy {
        (a.0 + sx * i, a.1 + sy * nearest_part(i, dy, dx))
    } else {
        (a.0 + sx * nearest_part(i, dx, dy), a.1 + sy * i)
    }
}

proof fn lemma_nearest_part(n: int, p: int, q: int, m: int)
    requires
        q > 0,
        0 <= q - 2 * (m * q - n * p) < 2 * q,
    ensures
        m == nearest_part(n, p, q),
{
    let x = 2 * n * p + q;
    let d = 2 * q;
    let r = q - 2 * (m * q - n * p);
    assert(x == m * d + r) by (nonlinear_arith)
        requires
            x == 2 * n * p + q,
            d == 2 * q,
            r == q - 2 * (m * q - n * p),
    ;
    vstd::arithmetic::div_mod::lemma_fundamental_div_mod_converse(x, d, m, r);
}

/// A line starts at its first end, ends at its last, and each of its points
/// lies beside, above, below or corner to corner with the one before.
pub proof fn law_line_joins_its_ends(a: (i32, i32), b: (i32, i32), i: int)
    requires
        0 <= i < steps_along(a, b),
    ensures
        line_point(a, b, 0) == (a.0 as int, a.1 as int),
        line_point(a, b, steps_along(a, b)) == (b.0 as int, b.1 as int),
        size(line_point(a, b, i + 1).0 - line_point(a, b, i).0) <= 1,
        size(line_point(a, b, i + 1).1 - line_point(a, b, i).1) <= 1,
{
    let dx = size(b.0 - a.0);
    let dy = size(b.1 - a.1);
    let (long, short) = if dx >= dy {
        (dx, dy)
    } else {
        (dy, dx)
    };
    lemma_nearest_part_ends(long, short);
    lemma_nearest_part_step(i, short, long);
    let sx = direction(a.0 as int, b.0 as int);
    let sy = direction(a.1 as int, b.1 as int);
    let p = nearest_part(i, short, long);
    let q = nearest_part(i + 1, short, long);
    assert(sx * (i + 1) == sx * i + sx) by (nonlinear_arith);
    assert(sy * (i + 1) == sy * i + sy) by (nonlinear_arith);
    assert(sx * q - sx * p == sx * (q - p)) by (nonlinear_arith);
    assert(sy * q - sy * p == sy * (q - p)) by (nonlinear_arith);
    assert(sx * 0 == 0 && sy * 0 == 0);
}

proof fn lemma_nearest_part_ends(long: int, short: int)
    requires
        0 <= short <= long,
        0 < long,
    ensures
        nearest_part(0, short, long) == 0,
        nearest_part(long, short, long) == short,
{
    assert(0 * long - 0 * short == 0);
    lemma_nearest_part(0, short, long, 0);
    assert(short * long - long * short == 0) by (nonlinear_arith);
    lemma_nearest_part(long, short, long, short);
}

proof fn lemma_nearest_part_step(n: int, p: int, q: int)
    requires
        0 <= p <= q,
        0 < q,
    ensures
        nearest_part(n, p, q) <= nearest_part(n + 1, p, q) <= nearest_part(n, p, q) + 1,
{
    let m = nearest_part(n, p, q);
    let x = 2 * n * p + q;
    let d = 2 * q;
    vstd::arithmetic::div_mod::lemma_fundamental_div_mod(x, d);
    let e = m * q - n * p;
    assert(x - m * d == q - 2 * e) by (nonlinear_arith)
        requires
            x == 2 * n * p + q,
            d == 2 * q,
            e == m * q - n * p,
    ;
    assert(d * m == m * d) by (nonlinear_arith);
    assert(0 <= q - 2 * e < 2 * q);
    assert(m * q - (n + 1) * p == e - p) by (nonlinear_arith)
        requires
            e == m * q - n * p,
    ;
    assert((m + 1) * q - (n + 1) * p == e - p + q) by (nonlinear_arith)
        requires
            e == m * q - n * p,
    ;
    if q - 2 * (e - p) < 2 * q {
        lemma_nearest_part(n + 1, p, q, m);
    } else {
        lemma_nearest_part(n + 1, p, q, m + 1);
    }
}

/// The points of the line from `a` to `b`.
pub fn line_points(a: (i32, i32), b: (i32, i32)) -> (r: Vec<(i32, i32)>)
    requires
        in_reach(a),
        in_reach(b),
    ensures
        r@.len() == steps_along(a, b) + 1,
        forall|i: int|
            0 <= i < r@.len() ==> ((#[trigger] r@[i]).0 as int, r@[i].1 as int) == line_point(
                a,
                b,
                i,
            ),
{
    let dx: i64 = if b.0 < a.0 {
        a.0 as i64 - b.0 as i64
    } else {
        b.0 as i64 - a.0 as i64
    };
    let dy: i64 = if b.1 < a.1 {
        a.1 as i64 - b.1 as i64
    } else {
        b.1 as i64 - a.1 as i64
    };
    let sx: i64 = if a.0 < b.0 {
        1
    } else {
        -1
    };
    let sy: i64 = if a.1 < b.1 {
        1
    } else {
        -1
    };
    let n: i64 = if dx < dy {
        dy
    } else {
        dx
    };
    let mut x: i64 = a.0 as i64;
    let mut y: i64 = a.1 as i64;
    let mut err: i64 = dx - dy;
    let mut r: Vec<(i32, i32)> = Vec::new();
    let mut i: i64 = 0;
    let ghost mut k: int = 0;
    let ghost mut m: int = 0;
    proof {
        assert(0 * dx == 0 && 0 * dy == 0);
        assert(sx * 0 == 0 && sy * 0 == 0);
    }
    while i <= n
        invariant
            in_reach(a),
            in_reach(b),
            dx == size(b.0 - a.0),
            dy == size(b.1 - a.1),
            sx == direction(a.0 as int, b.0 as int),
            sy == direction(a.1 as int, b.1 as int),
            n == steps_along(a, b),
            0 <= i <= n + 1,
            r@.len() == i,
            x == a.0 + sx * k,
            y == a.1 + sy * m,
            err == m * dx - k * dy + dx - dy,
            dx >= dy ==> k == i && (dx > 0 ==> -dx < 2 * (m * dx - k * dy) <= dx) && (dx == 0
                ==> i <= 1 && (i == 0 ==> m == 0)),
            dx < dy ==> m == i && -dy <= 2 * (m * dx - k * dy) < dy,
            forall|j: int|
                0 <= j < r@.len() ==> ((#[trigger] r@[j]).0 as int, r@[j].1 as int) == line_point(
                    a,
                    b,
                    j,
                ),
        decreases n + 1 - i,
    {
        let ghost e = m * dx - k * dy;
        proof {
            if dx >= dy {
                if dx > 0 {
                    lemma_nearest_part(k, dy as int, dx as int, m);
                    lemma_part_bound(k, dy as int, dx as int);
                }
            } else {
                assert(0 <= dy - 2 * (k * dy - m * dx) < 2 * dy + 1);
                if 2 * e == -dy {
                    assert(k * dy - m * dx == -e);
                }
                lemma_nearest_part(m, dx as int, dy as int, k);
                lemma_part_bound(m, dx as int, dy as int);
            }
            assert((x as int, y as int) == line_point(a, b, i as int));
            lemma_sign(sx as int, k);
            lemma_sign(sy as int, m);
        }
        r.push((x as i32, y as i32));
        let e2: i64 = 2 * err;
        let go_x: bool = e2 >= -dy;
        let go_y: bool = e2 <= dx;
        if go_x {
            err -= dy;
            x += sx;
        }
        if go_y {
            err += dx;
            y += sy;
        }
        proof {
            let k2 = if go_x {
                k + 1
            } else {
                k
            };
            let m2 = if go_y {
                m + 1
            } else {
                m
            };
            assert(sx * (k + 1) == sx * k + sx) by (nonlinear_arith);
            assert(sy * (m + 1) == sy * m + sy) by (nonlinear_arith);
            assert((m + 1) * dx == m * dx + dx) by (nonlinear_arith);
            assert((k + 1) * dy == k * dy + dy) by (nonlinear_arith);
            k = k2;
            m = m2;
        }
        i += 1;
    }
    r
}

proof fn lemma_sign(s: int, k: int)
    requires
        s == 1 || s == -1,
    ensures
        s * k == if s == 1 {
            k
        } else {
            -k
        },
{
    assert(1 * k == k && (-1) * k == -k) by (nonlinear_arith);
}

proof fn lemma_part_bound(n: int, p: int, q: int)
    requires
        0 <= p <= q,
        0 < q,
        0 <= n <= q,
    ensures
        0 <= nearest_part(n, p, q) <= p,
    decreases n,
{
    let m = nearest_part(n, p, q);
    assert(0 <= 2 * n * p + q) by (nonlinear_arith)
        requires
            0 <= n,
            0 <= p,
            0 < q,
    ;
    assert(0 <= m) by (nonlinear_arith)
        requires
            0 <= 2 * n * p + q,
            0 < q,
            m == (2 * n * p + q) / (2 * q),
    ;
    assert(2 * n * p + q < 2 * q * (p + 1)) by (nonlinear_arith)
        requires
            0 <= n <= q,
            0 <= p,
            0 < q,
    ;
    assert(m < p + 1) by (nonlinear_arith)
        requires
            2 * n * p + q < 2 * q * (p + 1),
            0 < q,
            m == (2 * n * p + q) / (2 * q),
    ;
}

/// Where a point of a line is painted: moved by `by`, and no further left or
/// up than the border.
pub open spec fn painted_at(p: (int, int), by: (i32, i32)) -> (int, int) {
    (
        if p.0 + by.0 < 0 {
            0
        } else {
            p.0 + by.0
        },
        if p.1 + by.1 < 0 {
            0
        } else {
            p.1 + by.1
        },
    )
}

/// Whether one of the first `n` points of a line is painted at `(x, y)`.
pub open spec fn line_hits(
    a: (i32, i32),
    b: (i32, i32),
    by: (i32, i32),
    n: int,
    x: int,
    y: int,
) -> bool {
    exists|i: int| 0 <= i < n && painted_at(#[trigger] line_point(a, b, i), by) == (x, y)
}

/// Draws the line from `a` to `b`, moved by `by`.
pub fn draw_line(img: &mut Canvas, a: (i32, i32), b: (i32, i32), color: Rgba, by: (i32, i32))
    requires
        old(img).wf(),
        in_reach(a),
        in_reach(b),
        in_reach(by),
    ensures
        final(img).wf(),
        final(img).w == old(img).w,
        final(img).h == old(img).h,
        forall|x: int, y: int|
            final(img).inside(x, y) ==> #[trigger] final(img).spec_get(x, y) == if line_hits(
                a,
                b,
                by,
                steps_along(a, b) + 1,
                x,
                y,
            ) {
                color
            } else {
                old(img).spec_get(x, y)
            },
{
    let points: Vec<(i32, i32)> = line_points(a, b);
    let ghost start = *img;
    let mut i: usize = 0;
    while i < points.len()
        invariant
            i <= points@.len(),
            in_reach(a),
            in_reach(b),
            in_reach(by),
            img.wf(),
            img.w == start.w,
            img.h == start.h,
            points@.len() == steps_along(a, b) + 1,
            forall|j: int|
                0 <= j < points@.len() ==> ((#[trigger] points@[j]).0 as int, points@[j].1 as int)
                    == line_point(a, b, j),
            forall|x: int, y: int|
                img.inside(x, y) ==> #[trigger] img.spec_get(x, y) == if line_hits(
                    a,
                    b,
                    by,
                    i as int,
                    x,
                    y,
                ) {
                    color
                } else {
                    start.spec_get(x, y)
                },
        decreases points@.len() - i,
    {
        let p: (i32, i32) = points[i];
        let ghost before = *img;
        let px: i64 = p.0 as i64 + by.0 as i64;
        let py: i64 = p.1 as i64 + by.1 as i64;
        let x: i64 = if px < 0 {
            0
        } else {
            px
        };
        let y: i64 = if py < 0 {
            0
        } else {
            py
        };
        if x < img.w as i64 && y < img.h as i64 {
            img.put(x as u32, y as u32, color);
        }
        proof {
            assert((x as int, y as int) == painted_at(line_point(a, b, i as int), by));
            assert forall|u: int, v: int| img.inside(u, v) implies #[trigger] img.spec_get(u, v)
                == if line_hits(a, b, by, i + 1, u, v) {
                color
            } else {
                start.spec_get(u, v)
            } by {
                assert(before.spec_get(u, v) == if line_hits(a, b, by, i as int, u, v) {
                    color
                } else {
                    start.spec_get(u, v)
                });
                if line_hits(a, b, by, i as int, u, v) {
                    let j = choose|j: int|
                        0 <= j < i && painted_at(#[trigger] line_point(a, b, j), by) == (u, v);
                    assert(painted_at(line_point(a, b, j), by) == (u, v));
                    assert(line_hits(a, b, by, i + 1, u, v));
                }
                if u == x && v == y {
                    assert(line_hits(a, b, by, i + 1, u, v));
                } else if line_hits(a, b, by, i + 1, u, v) {
                    let j = choose|j: int|
                        0 <= j < i + 1 && painted_at(#[trigger] line_point(a, b, j), by) == (
                            u,
                            v,
                        );
                    assert(j != i);
                    assert(line_hits(a, b, by, i as int, u, v));
                }
            }
        }
        i += 1;
    }
}

/// The bytes of a row of colours, four for each.
pub open spec fn colour_bytes(px: Seq<Rgba>) -> Seq<u8> {
    Seq::new(
        4 * px.len(),
        |i: int|
            {
                let c = px[i / 4];
                if i % 4 == 0 {
                    c.r
                } else if i % 4 == 1 {
                    c.g
                } else if i % 4 == 2 {
                    c.b
                } else {
                    c.a
                }
            },
    )
}

impl Canvas {
    /// The bytes of the picture, four for each pixel.
    pub fn to_bytes(&self) -> (r: Vec<u8>)
        ensures
            r@ == colour_bytes(self.px@),
    {
        let ghost all = colour_bytes(self.px@);
        let mut r: Vec<u8> = Vec::new();
        let mut i: usize = 0;
        while i < self.px.len()
            invariant
                i <= self.px@.len(),
                all == colour_bytes(self.px@),
                r@ == all.take(4 * i),
            decreases self.px@.len() - i,
        {
            let c: Rgba = self.px[i];
            r.push(c.r);
            r.push(c.g);
            r.push(c.b);
            r.push(c.a);
            assert(r@ =~= all.take(4 * (i + 1)));
            i += 1;
        }
        assert(all.take(4 * i) =~= all);
        r
    }

    /// The picture that some bytes hold, four for each pixel.
    pub fn from_bytes(w: u32, h: u32, bytes: &Vec<u8>) -> (r: Canvas)
        requires
            w * h <= u32::MAX,
            bytes@.len() == 4 * (w * h),
        ensures
            r.wf(),
            r.w == w,
            r.h == h,
            colour_bytes(r.px@) == bytes@,
    {
        let n: usize = bytes.len();
        let mut px: Vec<Rgba> = Vec::new();
        let mut i: usize = 0;
        while i < n
            invariant
                n == bytes@.len(),
                n % 4 == 0,
                i % 4 == 0,
                i <= n,
                4 * px@.len() == i,
                colour_bytes(px@) == bytes@.take(i as int),
            decreases n - i,
        {
            let ghost before = px@;
            px.push(Rgba { r: bytes[i], g: bytes[i + 1], b: bytes[i + 2], a: bytes[i + 3] });
            assert forall|k: int| 0 <= k < i + 4 implies colour_bytes(px@)[k] == bytes@[k] by {
                if k < i {
                    assert(colour_bytes(before)[k] == bytes@.take(i as int)[k]);
                    assert(px@[k / 4] == before[k / 4]);
                }
            }
            assert(colour_bytes(px@) =~= bytes@.take(i + 4));
            i += 4;
        }
        assert(bytes@.take(n as int) =~= bytes@);
        Canvas { w, h, px }
    }
}

} // verus!
