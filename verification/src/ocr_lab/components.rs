//! Clusters of touching text pixels.

use crate::sorting;
use crate::ids;
use crate::ocr_lab::raster;
use crate::ocr_lab::raster::{is_up, lowered, raise, Gray};
use vstd::prelude::*;
use vstd::string::*;

verus! {

/// A cluster of touching text pixels: the smallest rectangle around it, and
/// which pixels of that belong to it, row by row.
#[derive(Debug)]
pub struct Component {
    pub x: u32,
    pub y: u32,
    pub w: u32,
    pub h: u32,
    pub mask: Vec<bool>,
}

/// What a [`Component`] says.
#[verifier::ext_equal]
pub struct ComponentView {
    pub x: u32,
    pub y: u32,
    pub w: u32,
    pub h: u32,
    pub mask: Seq<bool>,
}

impl View for Component {
    type V = ComponentView;

    open spec fn view(&self) -> ComponentView {
        ComponentView { x: self.x, y: self.y, w: self.w, h: self.h, mask: self.mask@ }
    }
}

impl ComponentView {
    /// Whether the pixel `(x, y)` of the image belongs to the cluster.
    pub open spec fn covers(self, x: int, y: int) -> bool {
        &&& self.x <= x < self.x + self.w
        &&& self.y <= y < self.y + self.h
        &&& raster::flag(self.mask, self.w as int, x - self.x, y - self.y)
    }

    /// Whether there is one flag for each pixel of the rectangle, and the
    /// rectangle is not empty.
    pub open spec fn wf(self) -> bool {
        &&& self.w > 0
        &&& self.h > 0
        &&& self.w * self.h <= u32::MAX
        &&& self.mask.len() == self.w * self.h
        &&& self.x + self.w <= u32::MAX
        &&& self.y + self.h <= u32::MAX
    }
}

impl Gray {
    /// Whether `(x, y)` is a pixel of text: a dark one.
    pub open spec fn is_text(self, x: int, y: int) -> bool {
        self.inside(x, y) && self.spec_get(x, y) < 128
    }

    /// Whether `path` leads from `a` to `b` over pixels of text, each beside,
    /// above or below the one before.
    #[verifier::opaque]
    pub open spec fn is_path(self, path: Seq<(int, int)>, a: (int, int), b: (int, int)) -> bool {
        &&& path.len() > 0
        &&& path[0] == a
        &&& path.last() == b
        &&& forall|i: int| 0 <= i < path.len() ==> self.is_text((#[trigger] path[i]).0, path[i].1)
        &&& forall|i: int| 0 <= i < path.len() - 1 ==> touching(#[trigger] path[i], path[i + 1])
    }

    /// Whether two pixels of text hang together.
    pub open spec fn connected(self, a: (int, int), b: (int, int)) -> bool {
        exists|path: Seq<(int, int)>| self.is_path(path, a, b)
    }
}

/// Whether two pixels lie side by side or one above the other.
pub open spec fn touching(a: (int, int), b: (int, int)) -> bool {
    ||| a.1 == b.1 && (a.0 + 1 == b.0 || b.0 + 1 == a.0)
    ||| a.0 == b.0 && (a.1 + 1 == b.1 || b.1 + 1 == a.1)
}

/// Whether the pixel `a` comes before `b` when the image is read row by row.
pub open spec fn read_before(a: (int, int), b: (int, int)) -> bool {
    a.1 < b.1 || a.1 == b.1 && a.0 < b.0
}

/// Whether `c` is the cluster that the pixel `seed` belongs to, and `seed` is
/// its first pixel.
pub open spec fn is_cluster(g: Gray, c: ComponentView, seed: (int, int)) -> bool {
    &&& c.wf()
    &&& g.is_text(seed.0, seed.1)
    &&& c.x + c.w <= g.w
    &&& c.y + c.h <= g.h
    &&& forall|x: int, y: int| #[trigger] c.covers(x, y) <==> g.connected(seed, (x, y))
    &&& forall|x: int, y: int| #[trigger] c.covers(x, y) ==> !read_before((x, y), seed)
    &&& exists|x: int, y: int| #[trigger] c.covers(x, y) && x == c.x
    &&& exists|x: int, y: int| #[trigger] c.covers(x, y) && x == c.x + c.w - 1
    &&& exists|x: int, y: int| #[trigger] c.covers(x, y) && y == c.y
    &&& exists|x: int, y: int| #[trigger] c.covers(x, y) && y == c.y + c.h - 1
}

/// Whether `seeds` are the first pixels of the clusters `cs`, in the order in
/// which the image is read.
pub open spec fn are_clusters(g: Gray, cs: Seq<ComponentView>, seeds: Seq<(int, int)>) -> bool {
    &&& cs.len() == seeds.len()
    &&& forall|i: int| 0 <= i < cs.len() ==> is_cluster(g, #[trigger] cs[i], seeds[i])
    &&& forall|i: int, j: int|
        0 <= i < j < seeds.len() ==> read_before(#[trigger] seeds[i], #[trigger] seeds[j])
}

/// Whether every pixel of text belongs to one of `cs`.
#[verifier::opaque]
pub open spec fn all_covered(g: Gray, cs: Seq<ComponentView>) -> bool {
    forall|x: int, y: int| #[trigger]
        g.is_text(x, y) ==> exists|i: int| 0 <= i < cs.len() && (#[trigger] cs[i]).covers(x, y)
}

/// Whether `cs` are the clusters of an image.
pub open spec fn clustering(g: Gray, cs: Seq<ComponentView>) -> bool {
    &&& exists|seeds: Seq<(int, int)>| are_clusters(g, cs, seeds)
    &&& all_covered(g, cs)
}

proof fn lemma_path_of_one(g: Gray, a: (int, int))
    requires
        g.is_text(a.0, a.1),
    ensures
        g.connected(a, a),
{
    reveal(Gray::is_path);
    assert(g.is_path(seq![a], a, a));
}

proof fn lemma_path_ends(g: Gray, a: (int, int), b: (int, int))
    requires
        g.connected(a, b),
    ensures
        g.is_text(b.0, b.1),
{
    reveal(Gray::is_path);
    let path = choose|path: Seq<(int, int)>| g.is_path(path, a, b);
    assert(g.is_text(path[path.len() - 1].0, path[path.len() - 1].1));
}

proof fn lemma_path_step(g: Gray, a: (int, int), b: (int, int), c: (int, int))
    requires
        g.connected(a, b),
        touching(b, c),
        g.is_text(c.0, c.1),
    ensures
        g.connected(a, c),
{
    reveal(Gray::is_path);
    let path = choose|path: Seq<(int, int)>| g.is_path(path, a, b);
    let longer = path.push(c);
    assert forall|i: int| 0 <= i < longer.len() implies g.is_text(
        (#[trigger] longer[i]).0,
        longer[i].1,
    ) by {
        if i < path.len() {
            assert(g.is_text(path[i].0, path[i].1));
        }
    }
    assert forall|i: int| 0 <= i < longer.len() - 1 implies touching(
        #[trigger] longer[i],
        longer[i + 1],
    ) by {
        if i < path.len() - 1 {
            assert(touching(path[i], path[i + 1]));
        }
    }
    assert(g.is_path(longer, a, c));
}

proof fn lemma_path_stays(
    g: Gray,
    inside: spec_fn((int, int)) -> bool,
    path: Seq<(int, int)>,
    a: (int, int),
    b: (int, int),
    n: int,
)
    requires
        g.is_path(path, a, b),
        inside(a),
        forall|p: (int, int), q: (int, int)|
            inside(p) && g.is_text(p.0, p.1) && g.is_text(q.0, q.1) && #[trigger] touching(p, q)
                ==> #[trigger] inside(q),
        0 <= n < path.len(),
    ensures
        inside(path[n]),
    decreases n,
{
    reveal(Gray::is_path);
    if n > 0 {
        lemma_path_stays(g, inside, path, a, b, n - 1);
        assert(g.is_text(path[n - 1].0, path[n - 1].1));
        assert(g.is_text(path[n].0, path[n].1));
        assert(touching(path[n - 1], path[n - 1 + 1]));
    }
}

/// Whether the visited pixels of text are a union of whole clusters.
spec fn closed(g: Gray, seen: Seq<bool>) -> bool {
    forall|p: (int, int), q: (int, int)|
        g.is_text(p.0, p.1) && g.is_text(q.0, q.1) && #[trigger] touching(p, q) && raster::flag(
            seen,
            g.w as int,
            p.0,
            p.1,
        ) ==> raster::flag(seen, g.w as int, q.0, q.1)
}

/// The pixels of a list, as numbers.
spec fn spots(v: Seq<(u32, u32)>) -> Seq<(int, int)> {
    Seq::new(v.len(), |i: int| (v[i].0 as int, v[i].1 as int))
}

proof fn lemma_spots_push(v: Seq<(u32, u32)>, p: (u32, u32))
    ensures
        spots(v.push(p)) == spots(v).push((p.0 as int, p.1 as int)),
        forall|k: (int, int)|
            #![trigger spots(v.push(p)).contains(k)]
            #![trigger spots(v).contains(k)]
            spots(v.push(p)).contains(k) == (spots(v).contains(k) || k == (p.0 as int, p.1 as int)),
{
    assert(spots(v.push(p)) =~= spots(v).push((p.0 as int, p.1 as int)));
    ids::lemma_contains_push_any(spots(v), (p.0 as int, p.1 as int));
}

/// Pushes a neighbour that has not been visited.
fn push_unseen(stack: &mut Vec<(u32, u32)>, seen: &Vec<bool>, w: u32, h: u32, x: u32, y: u32)
    requires
        w * h <= u32::MAX,
        seen@.len() == w * h,
        x < w,
        y < h,
    ensures
        final(stack)@ == if raster::flag(seen@, w as int, x as int, y as int) {
            old(stack)@
        } else {
            old(stack)@.push((x, y))
        },
{
    if !is_up(seen, w, h, x, y) {
        stack.push((x, y));
    }
}

/// Pushes the neighbours of `(x, y)` that have not been visited.
fn push_neighbours(stack: &mut Vec<(u32, u32)>, seen: &Vec<bool>, w: u32, h: u32, x: u32, y: u32)
    requires
        w * h <= u32::MAX,
        seen@.len() == w * h,
        x < w,
        y < h,
        forall|i: int| 0 <= i < old(stack)@.len() ==> (#[trigger] old(stack)@[i]).0 < w && old(
            stack,
        )@[i].1 < h,
    ensures
        forall|i: int| 0 <= i < final(stack)@.len() ==> (#[trigger] final(stack)@[i]).0 < w
            && final(stack)@[i].1 < h,
        forall|k: (int, int)| #[trigger]
            spots(old(stack)@).contains(k) ==> spots(final(stack)@).contains(k),
        forall|k: (int, int)| #[trigger]
            spots(final(stack)@).contains(k) ==> spots(old(stack)@).contains(k) || touching(
                (x as int, y as int),
                k,
            ),
        forall|k: (int, int)|
            0 <= k.0 < w && 0 <= k.1 < h && #[trigger] touching((x as int, y as int), k) ==> raster::flag(
                seen@,
                w as int,
                k.0,
                k.1,
            ) || spots(final(stack)@).contains(k),
{
    let ghost s0 = stack@;
    if x > 0 {
        push_unseen(stack, seen, w, h, x - 1, y);
        proof {
            lemma_spots_push(s0, ((x - 1) as u32, y));
        }
    }
    let ghost s1 = stack@;
    if x + 1 < w {
        push_unseen(stack, seen, w, h, x + 1, y);
        proof {
            lemma_spots_push(s1, ((x + 1) as u32, y));
        }
    }
    let ghost s2 = stack@;
    if y > 0 {
        push_unseen(stack, seen, w, h, x, y - 1);
        proof {
            lemma_spots_push(s2, (x, (y - 1) as u32));
        }
    }
    let ghost s3 = stack@;
    if y + 1 < h {
        push_unseen(stack, seen, w, h, x, y + 1);
        proof {
            lemma_spots_push(s3, (x, (y + 1) as u32));
        }
    }
    proof {
        assert forall|k: (int, int)|
            0 <= k.0 < w && 0 <= k.1 < h && #[trigger] touching((x as int, y as int), k) implies raster::flag(
            seen@,
            w as int,
            k.0,
            k.1,
        ) || spots(stack@).contains(k) by {
            if !raster::flag(seen@, w as int, k.0, k.1) {
                if k == (x - 1, y as int) {
                    assert(spots(s1).contains(k));
                } else if k == (x + 1, y as int) {
                    assert(spots(s2).contains(k));
                } else if k == (x as int, y - 1) {
                    assert(spots(s3).contains(k));
                } else {
                    assert(k == (x as int, y + 1));
                    assert(spots(stack@).contains(k));
                }
            }
        }
    }
}

/// Visits the cluster of the pixel `(sx, sy)`, and lists its pixels.
fn flood(img: &Gray, seen: &mut Vec<bool>, sx: u32, sy: u32) -> (pixels: Vec<(u32, u32)>)
    requires
        img.wf(),
        old(seen)@.len() == img.w * img.h,
        img.is_text(sx as int, sy as int),
        !raster::flag(old(seen)@, img.w as int, sx as int, sy as int),
        closed(*img, old(seen)@),
    ensures
        final(seen)@.len() == img.w * img.h,
        closed(*img, final(seen)@),
        pixels@.len() > 0,
        forall|i: int| 0 <= i < pixels@.len() ==> (#[trigger] pixels@[i]).0 < img.w && pixels@[i].1
            < img.h,
        forall|k: (int, int)| #[trigger]
            spots(pixels@).contains(k) <==> img.connected((sx as int, sy as int), k),
        forall|k: (int, int)| #[trigger]
            spots(pixels@).contains(k) ==> !raster::flag(old(seen)@, img.w as int, k.0, k.1),
        forall|x: int, y: int|
            img.inside(x, y) && #[trigger] raster::flag(old(seen)@, img.w as int, x, y) ==> raster::flag(
                final(seen)@,
                img.w as int,
                x,
                y,
            ),
        forall|x: int, y: int| #[trigger]
            img.is_text(x, y) ==> raster::flag(final(seen)@, img.w as int, x, y) == (raster::flag(
                old(seen)@,
                img.w as int,
                x,
                y,
            ) || spots(pixels@).contains((x, y))),
{
    let w: u32 = img.w;
    let h: u32 = img.h;
    let ghost g = *img;
    let ghost seed = (sx as int, sy as int);
    let ghost v0 = seen@;
    let mut pixels: Vec<(u32, u32)> = Vec::new();
    let mut stack: Vec<(u32, u32)> = Vec::new();
    stack.push((sx, sy));
    proof {
        assert(spots(stack@)[0] == seed);
        lemma_path_of_one(g, seed);
    }
    while stack.len() > 0
        invariant
            g == *img,
            g.wf(),
            w == g.w,
            h == g.h,
            seen@.len() == w * h,
            v0.len() == w * h,
            closed(g, v0),
            g.is_text(seed.0, seed.1),
            !raster::flag(v0, w as int, seed.0, seed.1),
            g.connected(seed, seed),
            forall|i: int| 0 <= i < stack@.len() ==> (#[trigger] stack@[i]).0 < w && stack@[i].1 < h,
            forall|i: int|
                0 <= i < pixels@.len() ==> (#[trigger] pixels@[i]).0 < w && pixels@[i].1 < h,
            forall|k: (int, int)| #[trigger]
                spots(stack@).contains(k) && g.is_text(k.0, k.1) ==> g.connected(seed, k),
            forall|k: (int, int)| #[trigger]
                spots(pixels@).contains(k) ==> g.is_text(k.0, k.1) && g.connected(seed, k) && !raster::flag(
                    v0,
                    w as int,
                    k.0,
                    k.1,
                ),
            forall|x: int, y: int| #[trigger]
                g.is_text(x, y) ==> raster::flag(seen@, w as int, x, y) == (raster::flag(v0, w as int, x, y)
                    || spots(pixels@).contains((x, y))),
            forall|x: int, y: int|
                g.inside(x, y) && #[trigger] raster::flag(v0, w as int, x, y) ==> raster::flag(
                    seen@,
                    w as int,
                    x,
                    y,
                ),
            forall|p: (int, int), q: (int, int)|
                spots(pixels@).contains(p) && g.is_text(q.0, q.1) && #[trigger] touching(p, q)
                    ==> raster::flag(seen@, w as int, q.0, q.1) || spots(stack@).contains(q),
            spots(pixels@).contains(seed) || spots(stack@).contains(seed),
        decreases raster::count_down(seen@, w * h), stack@.len(),
    {
        let ghost stack0 = stack@;
        let ghost seen0 = seen@;
        let ghost pixels0 = pixels@;
        let (x, y): (u32, u32) = stack.pop().unwrap();
        let ghost cur = (x as int, y as int);
        proof {
            assert(stack0 =~= stack@.push((x, y)));
            lemma_spots_push(stack@, (x, y));
            assert(spots(stack0).contains(cur));
            assert(stack0[stack0.len() - 1] == (x, y));
        }
        if is_up(seen, w, h, x, y) {
            proof {
                if g.is_text(cur.0, cur.1) {
                    assert(raster::flag(seen@, w as int, cur.0, cur.1));
                }
            }
            continue ;
        }
        raise(seen, w, h, x, y);
        if img.get(x, y) >= 128 {
            proof {
                assert(!g.is_text(cur.0, cur.1));
                assert forall|a: int, b: int| #[trigger] g.is_text(a, b) implies raster::flag(
                    seen@,
                    w as int,
                    a,
                    b,
                ) == (raster::flag(v0, w as int, a, b) || spots(pixels@).contains((a, b))) by {
                    assert((a, b) != cur);
                    assert(raster::flag(seen@, w as int, a, b) == raster::flag(seen0, w as int, a, b));
                }
                assert forall|p: (int, int), q: (int, int)|
                    spots(pixels@).contains(p) && g.is_text(q.0, q.1) && #[trigger] touching(
                        p,
                        q,
                    ) implies raster::flag(seen@, w as int, q.0, q.1) || spots(stack@).contains(q) by {
                    assert(raster::flag(seen0, w as int, q.0, q.1) || spots(stack0).contains(q));
                    assert(q != cur);
                    if raster::flag(seen0, w as int, q.0, q.1) {
                        assert(raster::flag(seen@, w as int, q.0, q.1));
                    }
                }
            }
            continue ;
        }
        proof {
            assert(g.is_text(cur.0, cur.1));
            assert(!raster::flag(v0, w as int, cur.0, cur.1));
            assert(!spots(pixels0).contains(cur));
            lemma_spots_push(pixels0, (x, y));
        }
        pixels.push((x, y));
        let ghost popped = stack@;
        push_neighbours(&mut stack, seen, w, h, x, y);
        proof {
            assert forall|k: (int, int)| #[trigger]
                spots(stack@).contains(k) && g.is_text(k.0, k.1) implies g.connected(seed, k) by {
                if spots(popped).contains(k) {
                    assert(spots(stack0).contains(k));
                } else {
                    lemma_path_step(g, seed, cur, k);
                }
            }
            assert forall|a: int, b: int| #[trigger] g.is_text(a, b) implies raster::flag(
                seen@,
                w as int,
                a,
                b,
            ) == (raster::flag(v0, w as int, a, b) || spots(pixels@).contains((a, b))) by {
                assert(raster::flag(seen@, w as int, a, b) == (raster::flag(seen0, w as int, a, b) || (a, b)
                    == cur));
            }
            assert forall|p: (int, int), q: (int, int)|
                spots(pixels@).contains(p) && g.is_text(q.0, q.1) && #[trigger] touching(
                    p,
                    q,
                ) implies raster::flag(seen@, w as int, q.0, q.1) || spots(stack@).contains(q) by {
                if p != cur {
                    assert(spots(pixels0).contains(p));
                    assert(raster::flag(seen0, w as int, q.0, q.1) || spots(stack0).contains(q));
                    if raster::flag(seen0, w as int, q.0, q.1) {
                        assert(raster::flag(seen@, w as int, q.0, q.1));
                    } else if q != cur {
                        assert(spots(popped).contains(q));
                    }
                }
            }
        }
    }
    proof {
        assert(spots(stack@).len() == 0);
        assert(spots(pixels@).contains(seed));
        let inside = |k: (int, int)| spots(pixels@).contains(k);
        assert forall|p: (int, int), q: (int, int)|
            inside(p) && g.is_text(p.0, p.1) && g.is_text(q.0, q.1) && #[trigger] touching(
                p,
                q,
            ) implies #[trigger] inside(q) by {
            assert(raster::flag(seen@, w as int, q.0, q.1));
            if raster::flag(v0, w as int, q.0, q.1) {
                assert(touching(q, p));
                assert(raster::flag(v0, w as int, p.0, p.1));
            }
        }
        assert forall|k: (int, int)| #[trigger]
            spots(pixels@).contains(k) <==> g.connected(seed, k) by {
            if g.connected(seed, k) {
                reveal(Gray::is_path);
                let path = choose|path: Seq<(int, int)>| g.is_path(path, seed, k);
                assert(inside(seed));
                lemma_path_stays(g, inside, path, seed, k, path.len() - 1);
            }
        }
        assert forall|p: (int, int), q: (int, int)|
            g.is_text(p.0, p.1) && g.is_text(q.0, q.1) && #[trigger] touching(p, q) && raster::flag(
                seen@,
                w as int,
                p.0,
                p.1,
            ) implies raster::flag(seen@, w as int, q.0, q.1) by {
            if raster::flag(v0, w as int, p.0, p.1) {
                assert(raster::flag(v0, w as int, q.0, q.1));
            } else {
                assert(inside(p));
                assert(inside(q));
            }
        }
        let i = choose|i: int| 0 <= i < spots(pixels@).len() && spots(pixels@)[i] == seed;
        assert(pixels@.len() > 0);
    }
    pixels
}

/// The smallest rectangle around a list of pixels, with a flag for each of
/// them.
fn component_around(pixels: &Vec<(u32, u32)>, w: u32, h: u32) -> (c: Component)
    requires
        pixels@.len() > 0,
        w * h <= u32::MAX,
        forall|i: int| 0 <= i < pixels@.len() ==> (#[trigger] pixels@[i]).0 < w && pixels@[i].1 < h,
    ensures
        c@.wf(),
        c.x + c.w <= w,
        c.y + c.h <= h,
        forall|x: int, y: int| #[trigger] c@.covers(x, y) <==> spots(pixels@).contains((x, y)),
        exists|x: int, y: int| #[trigger] c@.covers(x, y) && x == c.x,
        exists|x: int, y: int| #[trigger] c@.covers(x, y) && x == c.x + c.w - 1,
        exists|x: int, y: int| #[trigger] c@.covers(x, y) && y == c.y,
        exists|x: int, y: int| #[trigger] c@.covers(x, y) && y == c.y + c.h - 1,
{
    let mut min_x: u32 = pixels[0].0;
    let mut max_x: u32 = pixels[0].0;
    let mut min_y: u32 = pixels[0].1;
    let mut max_y: u32 = pixels[0].1;
    let ghost mut li: int = 0;
    let ghost mut ri: int = 0;
    let ghost mut ti: int = 0;
    let ghost mut bi: int = 0;
    let mut i: usize = 1;
    while i < pixels.len()
        invariant
            1 <= i <= pixels@.len(),
            forall|j: int| 0 <= j < pixels@.len() ==> (#[trigger] pixels@[j]).0 < w && pixels@[j].1
                < h,
            forall|j: int|
                0 <= j < i ==> min_x <= (#[trigger] pixels@[j]).0 <= max_x && min_y <= pixels@[j].1
                    <= max_y,
            0 <= li < i,
            0 <= ri < i,
            0 <= ti < i,
            0 <= bi < i,
            pixels@[li].0 == min_x,
            pixels@[ri].0 == max_x,
            pixels@[ti].1 == min_y,
            pixels@[bi].1 == max_y,
        decreases pixels@.len() - i,
    {
        let (x, y): (u32, u32) = pixels[i];
        if x < min_x {
            min_x = x;
            proof {
                li = i as int;
            }
        }
        if x > max_x {
            max_x = x;
            proof {
                ri = i as int;
            }
        }
        if y < min_y {
            min_y = y;
            proof {
                ti = i as int;
            }
        }
        if y > max_y {
            max_y = y;
            proof {
                bi = i as int;
            }
        }
        i += 1;
    }
    let cw: u32 = max_x - min_x + 1;
    let ch: u32 = max_y - min_y + 1;
    proof {
        assert(cw * ch <= w * h) by (nonlinear_arith)
            requires
                0 <= cw <= w,
                0 <= ch <= h,
        ;
    }
    let mut mask: Vec<bool> = lowered((cw * ch) as usize);
    proof {
        assert forall|a: int, b: int| 0 <= a < cw && 0 <= b < ch implies !(#[trigger] raster::flag(
            mask@,
            cw as int,
            a,
            b,
        )) by {
            raster::lemma_at(cw as int, ch as int, a, b);
        }
    }
    let mut k: usize = 0;
    while k < pixels.len()
        invariant
            k <= pixels@.len(),
            cw == max_x - min_x + 1,
            ch == max_y - min_y + 1,
            cw * ch <= u32::MAX,
            mask@.len() == cw * ch,
            forall|j: int|
                0 <= j < pixels@.len() ==> min_x <= (#[trigger] pixels@[j]).0 <= max_x && min_y
                    <= pixels@[j].1 <= max_y,
            forall|a: int, b: int|
                0 <= a < cw && 0 <= b < ch ==> (#[trigger] raster::flag(mask@, cw as int, a, b) <==> exists|
                    j: int,
                |
                    0 <= j < k && (#[trigger] pixels@[j]).0 == a + min_x && pixels@[j].1 == b
                        + min_y),
        decreases pixels@.len() - k,
    {
        let (px, py): (u32, u32) = pixels[k];
        let ghost before = mask@;
        raise(&mut mask, cw, ch, px - min_x, py - min_y);
        proof {
            assert forall|a: int, b: int| 0 <= a < cw && 0 <= b < ch implies (#[trigger] raster::flag(
                mask@,
                cw as int,
                a,
                b,
            ) <==> exists|j: int|
                0 <= j < k + 1 && (#[trigger] pixels@[j]).0 == a + min_x && pixels@[j].1 == b
                    + min_y) by {
                assert(raster::flag(mask@, cw as int, a, b) == (raster::flag(before, cw as int, a, b) || (a == px
                    - min_x && b == py - min_y)));
                if raster::flag(before, cw as int, a, b) {
                    let j = choose|j: int|
                        0 <= j < k && (#[trigger] pixels@[j]).0 == a + min_x && pixels@[j].1 == b
                            + min_y;
                    assert(pixels@[j].0 == a + min_x);
                }
                if a == px - min_x && b == py - min_y {
                    assert(pixels@[k as int].0 == a + min_x);
                }
            }
        }
        k += 1;
    }
    let c = Component { x: min_x, y: min_y, w: cw, h: ch, mask };
    proof {
        assert forall|x: int, y: int| #[trigger] c@.covers(x, y) <==> spots(pixels@).contains(
            (x, y),
        ) by {
            if c@.covers(x, y) {
                let a = x - min_x;
                let b = y - min_y;
                assert(raster::flag(c@.mask, cw as int, a, b));
                let j = choose|j: int|
                    0 <= j < k && (#[trigger] pixels@[j]).0 == a + min_x && pixels@[j].1 == b
                        + min_y;
                assert(spots(pixels@)[j] == (x, y));
            }
            if spots(pixels@).contains((x, y)) {
                let j = choose|j: int| 0 <= j < spots(pixels@).len() && spots(pixels@)[j] == (x, y);
                assert(min_x <= pixels@[j].0 <= max_x);
                let a = x - min_x;
                let b = y - min_y;
                assert(pixels@[j].0 == a + min_x && pixels@[j].1 == b + min_y);
                assert(raster::flag(c@.mask, cw as int, a, b));
            }
        }
        let at_i = |i: int| (pixels@[i].0 as int, pixels@[i].1 as int);
        assert(spots(pixels@)[li] == at_i(li));
        assert(c@.covers(at_i(li).0, at_i(li).1));
        assert(spots(pixels@)[ri] == at_i(ri));
        assert(c@.covers(at_i(ri).0, at_i(ri).1));
        assert(spots(pixels@)[ti] == at_i(ti));
        assert(c@.covers(at_i(ti).0, at_i(ti).1));
        assert(spots(pixels@)[bi] == at_i(bi));
        assert(c@.covers(at_i(bi).0, at_i(bi).1));
    }
    c
}

/// The clusters of touching text pixels of an image, in the order in which
/// their first pixels are read.
#[verifier::rlimit(60)]
#[verifier::spinoff_prover]
pub fn find_components(img: &Gray) -> (comps: Vec<Component>)
    requires
        img.wf(),
    ensures
        clustering(*img, sorting::views(comps@)),
        forall|i: int| 0 <= i < comps@.len() ==> (#[trigger] comps@[i])@.wf(),
{
    let w: u32 = img.w;
    let h: u32 = img.h;
    let ghost g = *img;
    let mut seen: Vec<bool> = lowered((w * h) as usize);
    let mut comps: Vec<Component> = Vec::new();
    let ghost mut seeds: Seq<(int, int)> = Seq::empty();
    proof {
        assert forall|p: (int, int), q: (int, int)|
            g.is_text(p.0, p.1) && g.is_text(q.0, q.1) && #[trigger] touching(p, q) && raster::flag(
                seen@,
                g.w as int,
                p.0,
                p.1,
            ) implies raster::flag(seen@, g.w as int, q.0, q.1) by {
            raster::lemma_at(w as int, h as int, p.0, p.1);
        }
        assert forall|x: int, y: int| #[trigger] g.is_text(x, y) implies !raster::flag(
            seen@,
            w as int,
            x,
            y,
        ) by {
            raster::lemma_at(w as int, h as int, x, y);
        }
    }
    let mut sy: u32 = 0;
    while sy < h
        invariant
            g == *img,
            g.wf(),
            w == g.w,
            h == g.h,
            sy <= h,
            seen@.len() == w * h,
            closed(g, seen@),
            are_clusters(g, sorting::views(comps@), seeds),
            forall|i: int| 0 <= i < seeds.len() ==> (#[trigger] seeds[i]).1 < sy,
            forall|x: int, y: int| #[trigger]
                g.is_text(x, y) && y < sy ==> raster::flag(seen@, w as int, x, y),
            forall|x: int, y: int| #[trigger]
                g.is_text(x, y) && raster::flag(seen@, w as int, x, y) ==> exists|i: int|
                    0 <= i < comps@.len() && (#[trigger] comps@[i])@.covers(x, y),
        decreases h - sy,
    {
        let mut sx: u32 = 0;
        while sx < w
            invariant
                g == *img,
                g.wf(),
                w == g.w,
                h == g.h,
                sy < h,
                sx <= w,
                seen@.len() == w * h,
                closed(g, seen@),
                are_clusters(g, sorting::views(comps@), seeds),
                forall|i: int|
                    0 <= i < seeds.len() ==> read_before(
                        #[trigger] seeds[i],
                        (sx as int, sy as int),
                    ),
                forall|x: int, y: int| #[trigger]
                    g.is_text(x, y) && read_before((x, y), (sx as int, sy as int)) ==> raster::flag(
                        seen@,
                        w as int,
                        x,
                        y,
                    ),
                forall|x: int, y: int| #[trigger]
                    g.is_text(x, y) && raster::flag(seen@, w as int, x, y) ==> exists|i: int|
                        0 <= i < comps@.len() && (#[trigger] comps@[i])@.covers(x, y),
            decreases w - sx,
        {
            let ghost seen0 = seen@;
            let ghost comps0 = comps@;
            let ghost seed = (sx as int, sy as int);
            if is_up(&seen, w, h, sx, sy) {
                sx += 1;
                continue ;
            }
            if img.get(sx, sy) >= 128 {
                raise(&mut seen, w, h, sx, sy);
                proof {
                    assert(!g.is_text(seed.0, seed.1));
                    assert forall|p: (int, int), q: (int, int)|
                        g.is_text(p.0, p.1) && g.is_text(q.0, q.1) && #[trigger] touching(p, q)
                            && raster::flag(seen@, g.w as int, p.0, p.1) implies raster::flag(
                        seen@,
                        g.w as int,
                        q.0,
                        q.1,
                    ) by {
                        assert(p != seed && q != seed);
                        assert(raster::flag(seen0, g.w as int, p.0, p.1));
                        assert(raster::flag(seen0, g.w as int, q.0, q.1));
                    }
                    assert forall|x: int, y: int| #[trigger]
                        g.is_text(x, y) && raster::flag(seen@, w as int, x, y) implies exists|i: int|
                        0 <= i < comps@.len() && (#[trigger] comps@[i])@.covers(x, y) by {
                        assert((x, y) != seed);
                        assert(raster::flag(seen0, w as int, x, y));
                    }
                    assert forall|x: int, y: int| #[trigger]
                        g.is_text(x, y) && read_before((x, y), (sx + 1, sy as int)) implies raster::flag(
                        seen@,
                        w as int,
                        x,
                        y,
                    ) by {
                        assert((x, y) != seed);
                        assert(raster::flag(seen0, w as int, x, y));
                    }
                }
                sx += 1;
                continue ;
            }
            assert(g.is_text(seed.0, seed.1));
            let pixels: Vec<(u32, u32)> = flood(img, &mut seen, sx, sy);
            let c: Component = component_around(&pixels, w, h);
            proof {
                assert forall|x: int, y: int| #[trigger] c@.covers(x, y) <==> g.connected(
                    seed,
                    (x, y),
                ) by {
                    assert(spots(pixels@).contains((x, y)) <==> g.connected(seed, (x, y)));
                }
                assert forall|x: int, y: int| #[trigger] c@.covers(x, y) implies !read_before(
                    (x, y),
                    seed,
                ) by {
                    assert(spots(pixels@).contains((x, y)));
                    lemma_path_ends(g, seed, (x, y));
                    assert(g.is_text(x, y));
                }
                assert(is_cluster(g, c@, seed));
            }
            comps.push(c);
            proof {
                assert(sorting::views(comps@) =~= sorting::views(comps0).push(c@));
                let seeds1 = seeds.push(seed);
                assert forall|i: int| 0 <= i < sorting::views(comps@).len() implies is_cluster(
                    g,
                    #[trigger] sorting::views(comps@)[i],
                    seeds1[i],
                ) by {
                    if i < comps0.len() {
                        assert(is_cluster(g, sorting::views(comps0)[i], seeds[i]));
                    }
                }
                assert forall|i: int, j: int| 0 <= i < j < seeds1.len() implies read_before(
                    #[trigger] seeds1[i],
                    #[trigger] seeds1[j],
                ) by {
                    if j < seeds.len() {
                        assert(read_before(seeds[i], seeds[j]));
                    } else {
                        assert(read_before(seeds[i], seed));
                    }
                }
                assert(are_clusters(g, sorting::views(comps@), seeds1));
                assert forall|x: int, y: int| #[trigger]
                    g.is_text(x, y) && raster::flag(seen@, w as int, x, y) implies exists|i: int|
                    0 <= i < comps@.len() && (#[trigger] comps@[i])@.covers(x, y) by {
                    if raster::flag(seen0, w as int, x, y) {
                        let i = choose|i: int|
                            0 <= i < comps0.len() && (#[trigger] comps0[i])@.covers(x, y);
                        assert(comps@[i] == comps0[i]);
                    } else {
                        assert(spots(pixels@).contains((x, y)));
                        assert(comps@[comps0.len() as int]@.covers(x, y));
                    }
                }
                assert forall|x: int, y: int| #[trigger]
                    g.is_text(x, y) && read_before((x, y), (sx + 1, sy as int)) implies raster::flag(
                    seen@,
                    w as int,
                    x,
                    y,
                ) by {
                    if (x, y) == seed {
                        lemma_path_of_one(g, seed);
                        assert(g.connected(seed, seed));
                        assert(spots(pixels@).contains(seed));
                    } else {
                        assert(raster::flag(seen0, w as int, x, y));
                    }
                }
                seeds = seeds1;
                assert forall|i: int| 0 <= i < seeds.len() implies read_before(
                    #[trigger] seeds[i],
                    (sx + 1, sy as int),
                ) by {}
            }
            sx += 1;
        }
        proof {
            assert forall|x: int, y: int| #[trigger] g.is_text(x, y) && y < sy + 1 implies raster::flag(
                seen@,
                w as int,
                x,
                y,
            ) by {
                assert(read_before((x, y), (w as int, sy as int)));
            }
            assert forall|i: int| 0 <= i < seeds.len() implies (#[trigger] seeds[i]).1 < sy + 1 by {
                assert(read_before(seeds[i], (w as int, sy as int)));
            }
        }
        sy += 1;
    }
    proof {
        let cs = sorting::views(comps@);
        assert forall|x: int, y: int| #[trigger] g.is_text(x, y) implies exists|i: int|
            0 <= i < cs.len() && (#[trigger] cs[i]).covers(x, y) by {
            assert(raster::flag(seen@, w as int, x, y));
            let i = choose|i: int| 0 <= i < comps@.len() && (#[trigger] comps@[i])@.covers(x, y);
            assert(cs[i].covers(x, y));
        }
        assert(are_clusters(g, cs, seeds));
        reveal(all_covered);
        assert forall|i: int| 0 <= i < comps@.len() implies (#[trigger] comps@[i])@.wf() by {
            assert(is_cluster(g, cs[i], seeds[i]));
        }
    }
    comps
}

} // verus!
