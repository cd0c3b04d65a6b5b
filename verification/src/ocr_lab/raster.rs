//! Small images: one byte or one flag for each pixel, row by row.

use vstd::prelude::*;

verus! {

/// A grayscale image.
#[derive(Debug)]
pub struct Gray {
    pub w: u32,
    pub h: u32,
    /// The pixels, row by row.
    pub px: Vec<u8>,
}

/// The position of the pixel at `(x, y)` in rows of `w`.
pub open spec fn at(w: int, x: int, y: int) -> int {
    y * w + x
}

/// The position of a pixel lies within the image, and no other pixel has it.
pub proof fn lemma_at(w: int, h: int, x: int, y: int)
    requires
        0 <= x < w,
        0 <= y < h,
    ensures
        0 <= at(w, x, y) < w * h,
{
    assert(0 <= y * w + x < w * h) by (nonlinear_arith)
        requires
            0 <= x < w,
            0 <= y < h,
    ;
}

/// Two pixels with the same position are the same.
pub proof fn lemma_at_distinct(w: int, x: int, y: int, x2: int, y2: int)
    requires
        0 <= x < w,
        0 <= x2 < w,
        at(w, x, y) == at(w, x2, y2),
    ensures
        x == x2,
        y == y2,
{
    assert(y == y2) by (nonlinear_arith)
        requires
            0 <= x < w,
            0 <= x2 < w,
            y * w + x == y2 * w + x2,
    ;
}

/// The product of two sides that fits is where it is computed.
pub proof fn lemma_row_fits(w: u32, h: u32, x: u32, y: u32)
    requires
        x < w,
        y < h,
        w * h <= u32::MAX,
    ensures
        0 <= y * w <= u32::MAX,
        0 <= y * w + x < w * h,
{
    assert(0 <= y * w + x < w * h) by (nonlinear_arith)
        requires
            0 <= x < w,
            0 <= y < h,
    ;
    assert(0 <= y * w) by (nonlinear_arith)
        requires
            0 <= y,
            0 <= w,
    ;
}

impl Gray {
    /// Whether there is one byte for each pixel.
    pub open spec fn wf(self) -> bool {
        &&& self.w * self.h <= u32::MAX
        &&& self.px@.len() == self.w * self.h
    }

    /// Whether `(x, y)` is a pixel of the image.
    pub open spec fn inside(self, x: int, y: int) -> bool {
        0 <= x < self.w && 0 <= y < self.h
    }

    /// The brightness at `(x, y)`.
    pub open spec fn spec_get(self, x: int, y: int) -> u8 {
        self.px@[at(self.w as int, x, y)]
    }

    /// The brightness at `(x, y)`.
    pub fn get(&self, x: u32, y: u32) -> (v: u8)
        requires
            self.wf(),
            x < self.w,
            y < self.h,
        ensures
            v == self.spec_get(x as int, y as int),
    {
        proof {
            lemma_row_fits(self.w, self.h, x, y);
        }
        self.px[(y * self.w + x) as usize]
    }

    /// An image all of one brightness.
    pub fn filled(w: u32, h: u32, v: u8) -> (r: Gray)
        requires
            w * h <= u32::MAX,
        ensures
            r.wf(),
            r.w == w,
            r.h == h,
            forall|x: int, y: int| r.inside(x, y) ==> #[trigger] r.spec_get(x, y) == v,
    {
        let n: usize = (w * h) as usize;
        let mut px: Vec<u8> = Vec::new();
        let mut i: usize = 0;
        while i < n
            invariant
                i <= n,
                px@.len() == i,
                forall|j: int| 0 <= j < i ==> px@[j] == v,
            decreases n - i,
        {
            px.push(v);
            i += 1;
        }
        let r = Gray { w, h, px };
        assert forall|x: int, y: int| r.inside(x, y) implies #[trigger] r.spec_get(x, y) == v by {
            lemma_at(w as int, h as int, x, y);
        }
        r
    }

    /// Paints the pixel at `(x, y)`.
    pub fn put(&mut self, x: u32, y: u32, v: u8)
        requires
            old(self).wf(),
            x < old(self).w,
            y < old(self).h,
        ensures
            final(self).wf(),
            final(self).w == old(self).w,
            final(self).h == old(self).h,
            forall|a: int, b: int|
                old(self).inside(a, b) ==> #[trigger] final(self).spec_get(a, b) == if a == x && b
                    == y {
                    v
                } else {
                    old(self).spec_get(a, b)
                },
    {
        proof {
            lemma_row_fits(self.w, self.h, x, y);
        }
        let i: usize = (y * self.w + x) as usize;
        self.px.set(i, v);
        assert forall|a: int, b: int| old(self).inside(a, b) implies #[trigger] self.spec_get(a, b)
            == if a == x && b == y {
            v
        } else {
            old(self).spec_get(a, b)
        } by {
            lemma_at(self.w as int, self.h as int, a, b);
            if at(self.w as int, a, b) == i {
                lemma_at_distinct(self.w as int, a, b, x as int, y as int);
            }
        }
    }
}

/// The flag at `(x, y)` in rows of `w`.
pub open spec fn flag(flags: Seq<bool>, w: int, x: int, y: int) -> bool {
    flags[at(w, x, y)]
}

/// Flags that are all down.
pub fn lowered(n: usize) -> (flags: Vec<bool>)
    ensures
        flags@.len() == n,
        forall|i: int| 0 <= i < n ==> !(#[trigger] flags@[i]),
{
    let mut flags: Vec<bool> = Vec::new();
    let mut i: usize = 0;
    while i < n
        invariant
            i <= n,
            flags@.len() == i,
            forall|j: int| 0 <= j < i ==> !(#[trigger] flags@[j]),
        decreases n - i,
    {
        flags.push(false);
        i += 1;
    }
    flags
}

/// Reads the flag at `(x, y)`.
pub fn is_up(flags: &Vec<bool>, w: u32, h: u32, x: u32, y: u32) -> (r: bool)
    requires
        w * h <= u32::MAX,
        flags@.len() == w * h,
        x < w,
        y < h,
    ensures
        r == flag(flags@, w as int, x as int, y as int),
{
    proof {
        lemma_row_fits(w, h, x, y);
    }
    flags[(y * w + x) as usize]
}

/// How many of the first `n` flags are down.
pub open spec fn count_down(flags: Seq<bool>, n: int) -> nat
    decreases n,
{
    if n <= 0 {
        0
    } else if flags[n - 1] {
        count_down(flags, n - 1)
    } else {
        count_down(flags, n - 1) + 1
    }
}

proof fn lemma_count_down(flags: Seq<bool>, i: int, n: int)
    requires
        0 <= i < flags.len(),
        n <= flags.len(),
        !flags[i],
    ensures
        i < n ==> count_down(flags.update(i, true), n) == count_down(flags, n) - 1,
        i >= n ==> count_down(flags.update(i, true), n) == count_down(flags, n),
    decreases n,
{
    if n > 0 {
        lemma_count_down(flags, i, n - 1);
    }
}

/// Raises the flag at `(x, y)`.
pub fn raise(flags: &mut Vec<bool>, w: u32, h: u32, x: u32, y: u32)
    requires
        w * h <= u32::MAX,
        old(flags)@.len() == w * h,
        x < w,
        y < h,
    ensures
        final(flags)@.len() == w * h,
        forall|a: int, b: int|
            0 <= a < w && 0 <= b < h ==> #[trigger] flag(final(flags)@, w as int, a, b) == (flag(
                old(flags)@,
                w as int,
                a,
                b,
            ) || (a == x && b == y)),
        !flag(old(flags)@, w as int, x as int, y as int) ==> count_down(final(flags)@, w * h)
            == count_down(old(flags)@, w * h) - 1,
        flag(old(flags)@, w as int, x as int, y as int) ==> final(flags)@ == old(flags)@,
{
    proof {
        lemma_row_fits(w, h, x, y);
    }
    let i: usize = (y * w + x) as usize;
    let ghost was = flags@;
    flags.set(i, true);
    proof {
        if !was[i as int] {
            lemma_count_down(was, i as int, w * h);
        } else {
            assert(flags@ =~= was);
        }
        assert forall|a: int, b: int| 0 <= a < w && 0 <= b < h implies #[trigger] flag(
            flags@,
            w as int,
            a,
            b,
        ) == (flag(was, w as int, a, b) || (a == x && b == y)) by {
            lemma_at(w as int, h as int, a, b);
            if at(w as int, a, b) == i {
                lemma_at_distinct(w as int, a, b, x as int, y as int);
            }
        }
    }
}

/// The smaller of two numbers.
pub open spec fn smaller(a: u32, b: u32) -> u32 {
    if a < b {
        a
    } else {
        b
    }
}

/// Whether `r` is the part of `g` from the pixel `(x, y)` on, `w` by `h`
/// pixels as far as they lie within `g`.
pub open spec fn is_part(g: Gray, x: u32, y: u32, w: u32, h: u32, r: Gray) -> bool {
    let left = smaller(x, g.w);
    let top = smaller(y, g.h);
    &&& r.wf()
    &&& r.w == smaller(w, (g.w - left) as u32)
    &&& r.h == smaller(h, (g.h - top) as u32)
    &&& forall|a: int, b: int|
        r.inside(a, b) ==> #[trigger] r.spec_get(a, b) == g.spec_get(left + a, top + b)
}

impl Gray {
    /// A part of the image.
    pub fn part(&self, x: u32, y: u32, w: u32, h: u32) -> (r: Gray)
        requires
            self.wf(),
        ensures
            is_part(*self, x, y, w, h, r),
    {
        let left: u32 = if x < self.w {
            x
        } else {
            self.w
        };
        let top: u32 = if y < self.h {
            y
        } else {
            self.h
        };
        let pw: u32 = if w < self.w - left {
            w
        } else {
            self.w - left
        };
        let ph: u32 = if h < self.h - top {
            h
        } else {
            self.h - top
        };
        assert(pw * ph <= self.w * self.h) by (nonlinear_arith)
            requires
                0 <= pw <= self.w,
                0 <= ph <= self.h,
        ;
        let mut r: Gray = Gray::filled(pw, ph, 0);
        let mut b: u32 = 0;
        while b < ph
            invariant
                self.wf(),
                r.wf(),
                r.w == pw,
                r.h == ph,
                b <= ph,
                left + pw <= self.w,
                top + ph <= self.h,
                forall|i: int, j: int|
                    r.inside(i, j) && j < b ==> #[trigger] r.spec_get(i, j) == self.spec_get(
                        left + i,
                        top + j,
                    ),
            decreases ph - b,
        {
            let mut a: u32 = 0;
            while a < pw
                invariant
                    self.wf(),
                    r.wf(),
                    r.w == pw,
                    r.h == ph,
                    a <= pw,
                    b < ph,
                    left + pw <= self.w,
                    top + ph <= self.h,
                    forall|i: int, j: int|
                        r.inside(i, j) && (j < b || j == b && i < a) ==> #[trigger] r.spec_get(i, j)
                            == self.spec_get(left + i, top + j),
                decreases pw - a,
            {
                let v: u8 = self.get(left + a, top + b);
                r.put(a, b, v);
                a += 1;
            }
            b += 1;
        }
        r
    }
}

/// How many of some bytes lie below `v`.
pub open spec fn count_below(px: Seq<u8>, v: int) -> nat
    decreases px.len(),
{
    if px.len() == 0 {
        0
    } else if px.last() < v {
        count_below(px.drop_last(), v) + 1
    } else {
        count_below(px.drop_last(), v)
    }
}

/// Whether `v` is the byte at place `k` of `px` in ascending order.
pub open spec fn ranks_at(px: Seq<u8>, k: int, v: u8) -> bool {
    count_below(px, v as int) <= k < count_below(px, v + 1)
}

proof fn lemma_count_all(px: Seq<u8>)
    ensures
        count_below(px, 256) == px.len(),
        count_below(px, 0) == 0,
    decreases px.len(),
{
    if px.len() > 0 {
        lemma_count_all(px.drop_last());
    }
}

fn bytes_below(px: &Vec<u8>, v: u16) -> (n: usize)
    ensures
        n == count_below(px@, v as int),
{
    let mut n: usize = 0;
    let mut i: usize = 0;
    while i < px.len()
        invariant
            i <= px@.len(),
            n <= i,
            n == count_below(px@.take(i as int), v as int),
        decreases px@.len() - i,
    {
        assert(px@.take(i + 1).drop_last() =~= px@.take(i as int));
        if (px[i] as u16) < v {
            n += 1;
        }
        i += 1;
    }
    assert(px@.take(i as int) =~= px@);
    n
}

/// The byte at place `k` of `px` in ascending order.
pub fn byte_at_rank(px: &Vec<u8>, k: usize) -> (r: u8)
    requires
        k < px@.len(),
    ensures
        ranks_at(px@, k as int, r),
{
    proof {
        lemma_count_all(px@);
    }
    let mut v: u16 = 0;
    let mut found: bool = false;
    let mut r: u8 = 0;
    while !found
        invariant
            k < px@.len(),
            count_below(px@, 256) == px@.len(),
            v <= 255,
            !found ==> count_below(px@, v as int) <= k,
            found ==> ranks_at(px@, k as int, r),
        decreases 256 - v + (if found {
            0int
        } else {
            1
        }),
    {
        if bytes_below(px, v + 1) > k {
            r = v as u8;
            found = true;
        } else {
            v += 1;
        }
    }
    r
}

/// Whether `r` is `g` in black and white with a white border of `pad` pixels:
/// what is brighter than `cutoff` is black.
pub open spec fn is_inverted(g: Gray, cutoff: u8, pad: u32, r: Gray) -> bool {
    &&& r.wf()
    &&& r.w == g.w + 2 * pad
    &&& r.h == g.h + 2 * pad
    &&& forall|x: int, y: int|
        r.inside(x, y) ==> #[trigger] r.spec_get(x, y) == if g.inside(x - pad, y - pad)
            && g.spec_get(x - pad, y - pad) > cutoff {
            0u8
        } else {
            255u8
        }
}

impl Gray {
    /// The image in black and white, inverted, with a white border.
    pub fn inverted(&self, cutoff: u8, pad: u32) -> (r: Gray)
        requires
            self.wf(),
            (self.w + 2 * pad) * (self.h + 2 * pad) <= u32::MAX,
            self.w + 2 * pad <= u32::MAX,
            self.h + 2 * pad <= u32::MAX,
        ensures
            is_inverted(*self, cutoff, pad, r),
    {
        let w: u32 = self.w + 2 * pad;
        let h: u32 = self.h + 2 * pad;
        let mut r: Gray = Gray::filled(w, h, 255);
        let mut b: u32 = 0;
        while b < self.h
            invariant
                self.wf(),
                r.wf(),
                r.w == w,
                r.h == h,
                w == self.w + 2 * pad,
                h == self.h + 2 * pad,
                b <= self.h,
                forall|x: int, y: int|
                    r.inside(x, y) ==> #[trigger] r.spec_get(x, y) == if self.inside(
                        x - pad,
                        y - pad,
                    ) && y - pad < b && self.spec_get(x - pad, y - pad) > cutoff {
                        0u8
                    } else {
                        255u8
                    },
            decreases self.h - b,
        {
            let mut a: u32 = 0;
            while a < self.w
                invariant
                    self.wf(),
                    r.wf(),
                    r.w == w,
                    r.h == h,
                    w == self.w + 2 * pad,
                    h == self.h + 2 * pad,
                    a <= self.w,
                    b < self.h,
                    forall|x: int, y: int|
                        r.inside(x, y) ==> #[trigger] r.spec_get(x, y) == if self.inside(
                            x - pad,
                            y - pad,
                        ) && (y - pad < b || y - pad == b && x - pad < a) && self.spec_get(
                            x - pad,
                            y - pad,
                        ) > cutoff {
                            0u8
                        } else {
                            255u8
                        },
                decreases self.w - a,
            {
                let v: u8 = if self.get(a, b) > cutoff {
                    0
                } else {
                    255
                };
                r.put(a + pad, b + pad, v);
                a += 1;
            }
            b += 1;
        }
        r
    }
}

/// Whether `r` is `g` with a white border of `pad` pixels.
pub open spec fn is_framed(g: Gray, pad: u32, r: Gray) -> bool {
    &&& r.wf()
    &&& r.w == g.w + 2 * pad
    &&& r.h == g.h + 2 * pad
    &&& forall|x: int, y: int|
        r.inside(x, y) ==> #[trigger] r.spec_get(x, y) == if g.inside(x - pad, y - pad) {
            g.spec_get(x - pad, y - pad)
        } else {
            255u8
        }
}

impl Gray {
    /// The image with a white border.
    pub fn framed(&self, pad: u32) -> (r: Gray)
        requires
            self.wf(),
            (self.w + 2 * pad) * (self.h + 2 * pad) <= u32::MAX,
            self.w + 2 * pad <= u32::MAX,
            self.h + 2 * pad <= u32::MAX,
        ensures
            is_framed(*self, pad, r),
    {
        let w: u32 = self.w + 2 * pad;
        let h: u32 = self.h + 2 * pad;
        let mut r: Gray = Gray::filled(w, h, 255);
        let mut b: u32 = 0;
        while b < self.h
            invariant
                self.wf(),
                r.wf(),
                r.w == w,
                r.h == h,
                w == self.w + 2 * pad,
                h == self.h + 2 * pad,
                b <= self.h,
                forall|x: int, y: int|
                    r.inside(x, y) ==> #[trigger] r.spec_get(x, y) == if self.inside(
                        x - pad,
                        y - pad,
                    ) && y - pad < b {
                        self.spec_get(x - pad, y - pad)
                    } else {
                        255u8
                    },
            decreases self.h - b,
        {
            let mut a: u32 = 0;
            while a < self.w
                invariant
                    self.wf(),
                    r.wf(),
                    r.w == w,
                    r.h == h,
                    w == self.w + 2 * pad,
                    h == self.h + 2 * pad,
                    a <= self.w,
                    b < self.h,
                    forall|x: int, y: int|
                        r.inside(x, y) ==> #[trigger] r.spec_get(x, y) == if self.inside(
                            x - pad,
                            y - pad,
                        ) && (y - pad < b || y - pad == b && x - pad < a) {
                            self.spec_get(x - pad, y - pad)
                        } else {
                            255u8
                        },
                decreases self.w - a,
            {
                let v: u8 = self.get(a, b);
                r.put(a + pad, b + pad, v);
                a += 1;
            }
            b += 1;
        }
        r
    }
}

} // verus!
