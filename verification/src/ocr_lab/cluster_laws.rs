//! The clusters of an image are determined by it.

use crate::ocr_lab::templates;
use crate::ocr_lab::components;
use crate::ocr_lab::components::ComponentView;
use crate::ocr_lab::raster;
use crate::ocr_lab::raster::Gray;
use crate::ocr_lab::templates::Template;
use vstd::prelude::*;

verus! {

proof fn lemma_connected_symmetric(g: Gray, a: (int, int), b: (int, int))
    requires
        g.connected(a, b),
    ensures
        g.connected(b, a),
{
    reveal(Gray::is_path);
    let path = choose|path: Seq<(int, int)>| g.is_path(path, a, b);
    let back = Seq::new(path.len(), |i: int| path[path.len() - 1 - i]);
    assert forall|i: int| 0 <= i < back.len() implies g.is_text(
        (#[trigger] back[i]).0,
        back[i].1,
    ) by {
        assert(g.is_text(path[path.len() - 1 - i].0, path[path.len() - 1 - i].1));
    }
    assert forall|i: int| 0 <= i < back.len() - 1 implies components::touching(
        #[trigger] back[i],
        back[i + 1],
    ) by {
        let k = path.len() - 2 - i;
        assert(components::touching(path[k], path[k + 1]));
    }
    assert(g.is_path(back, b, a));
}

/// Whether every pixel of `a` is one of `b`.
#[verifier::opaque]
spec fn within(a: Seq<(int, int)>, b: Seq<(int, int)>) -> bool {
    forall|i: int| 0 <= i < a.len() ==> b.contains(#[trigger] a[i])
}

proof fn lemma_within(a: Seq<(int, int)>, b: Seq<(int, int)>, i: int) -> (j: int)
    requires
        within(a, b),
        0 <= i < a.len(),
    ensures
        0 <= j < b.len(),
        b[j] == a[i],
{
    reveal(within);
    choose|j: int| 0 <= j < b.len() && b[j] == a[i]
}

proof fn lemma_covering(g: Gray, cs: Seq<ComponentView>, x: int, y: int) -> (i: int)
    requires
        components::all_covered(g, cs),
        g.is_text(x, y),
    ensures
        0 <= i < cs.len(),
        cs[i].covers(x, y),
{
    reveal(components::all_covered);
    choose|i: int| 0 <= i < cs.len() && (#[trigger] cs[i]).covers(x, y)
}

/// Two ways to list the first pixels of the clusters hold the same ones.
proof fn lemma_seed_in_other(
    g: Gray,
    cs: Seq<ComponentView>,
    seeds: Seq<(int, int)>,
    ds: Seq<ComponentView>,
    others: Seq<(int, int)>,
    i: int,
)
    requires
        components::are_clusters(g, cs, seeds),
        components::are_clusters(g, ds, others),
        components::all_covered(g, ds),
        0 <= i < seeds.len(),
    ensures
        others.contains(seeds[i]),
{
    let s = seeds[i];
    assert(components::is_cluster(g, cs[i], s));
    assert(g.is_text(s.0, s.1));
    let j = lemma_covering(g, ds, s.0, s.1);
    let o = others[j];
    assert(components::is_cluster(g, ds[j], o));
    assert(g.connected(o, (s.0, s.1)));
    assert((s.0, s.1) == s);
    lemma_connected_symmetric(g, o, s);
    assert((o.0, o.1) == o);
    assert(cs[i].covers(o.0, o.1));
    assert(!components::read_before((o.0, o.1), s));
    assert(!components::read_before((s.0, s.1), o));
    assert(others[j] == s);
}

proof fn lemma_seeds_within(
    g: Gray,
    cs: Seq<ComponentView>,
    seeds: Seq<(int, int)>,
    ds: Seq<ComponentView>,
    others: Seq<(int, int)>,
)
    requires
        components::are_clusters(g, cs, seeds),
        components::are_clusters(g, ds, others),
        components::all_covered(g, ds),
    ensures
        within(seeds, others),
{
    reveal(within);
    assert forall|i: int| 0 <= i < seeds.len() implies others.contains(#[trigger] seeds[i]) by {
        lemma_seed_in_other(g, cs, seeds, ds, others, i);
    }
}

/// Ascending lists of the same pixels are the same.
proof fn lemma_same_seeds(a: Seq<(int, int)>, b: Seq<(int, int)>, k: int)
    requires
        forall|i: int, j: int|
            0 <= i < j < a.len() ==> components::read_before(#[trigger] a[i], #[trigger] a[j]),
        forall|i: int, j: int|
            0 <= i < j < b.len() ==> components::read_before(#[trigger] b[i], #[trigger] b[j]),
        within(a, b),
        within(b, a),
        0 <= k <= a.len(),
    ensures
        k <= b.len(),
        forall|i: int| 0 <= i < k ==> a[i] == b[i],
    decreases k,
{
    if k > 0 {
        lemma_same_seeds(a, b, k - 1);
        let n = k - 1;
        let j = lemma_within(a, b, n);
        if j < n {
            assert(a[j] == b[j]);
            assert(components::read_before(a[j], a[n]));
            assert(false);
        }
        if j > n {
            let m = lemma_within(b, a, n);
            assert(components::read_before(b[n], b[j]));
            if m < n {
                assert(a[m] == b[m]);
                assert(components::read_before(b[m], b[n]));
                assert(false);
            } else if m > n {
                assert(components::read_before(a[n], a[m]));
                assert(false);
            }
        }
    }
}

/// A cluster is determined by its first pixel.
proof fn lemma_same_cluster(g: Gray, c: ComponentView, d: ComponentView, seed: (int, int))
    requires
        components::is_cluster(g, c, seed),
        components::is_cluster(g, d, seed),
    ensures
        c == d,
{
    assert forall|x: int, y: int| c.covers(x, y) == #[trigger] d.covers(x, y) by {
        assert(c.covers(x, y) == g.connected(seed, (x, y)));
    }
    let (x1, y1) = choose|x: int, y: int| #[trigger] c.covers(x, y) && x == c.x;
    assert(d.covers(x1, y1));
    let (x2, y2) = choose|x: int, y: int| #[trigger] d.covers(x, y) && x == d.x;
    assert(c.covers(x2, y2));
    assert(c.x == d.x);
    let (x3, y3) = choose|x: int, y: int| #[trigger] c.covers(x, y) && x == c.x + c.w - 1;
    assert(d.covers(x3, y3));
    let (x4, y4) = choose|x: int, y: int| #[trigger] d.covers(x, y) && x == d.x + d.w - 1;
    assert(c.covers(x4, y4));
    assert(c.w == d.w);
    let (x5, y5) = choose|x: int, y: int| #[trigger] c.covers(x, y) && y == c.y;
    assert(d.covers(x5, y5));
    let (x6, y6) = choose|x: int, y: int| #[trigger] d.covers(x, y) && y == d.y;
    assert(c.covers(x6, y6));
    assert(c.y == d.y);
    let (x7, y7) = choose|x: int, y: int| #[trigger] c.covers(x, y) && y == c.y + c.h - 1;
    assert(d.covers(x7, y7));
    let (x8, y8) = choose|x: int, y: int| #[trigger] d.covers(x, y) && y == d.y + d.h - 1;
    assert(c.covers(x8, y8));
    assert(c.h == d.h);
    let w = c.w as int;
    let h = c.h as int;
    assert forall|n: int| 0 <= n < c.mask.len() implies c.mask[n] == d.mask[n] by {
        let x = n % w;
        let y = n / w;
        assert(0 <= x < w && 0 <= y < h && y * w + x == n) by (nonlinear_arith)
            requires
                0 <= n < w * h,
                0 < w,
                0 < h,
                x == n % w,
                y == n / w,
        ;
        assert(raster::at(w, x, y) == n);
        assert(c.covers(c.x + x, c.y + y) == d.covers(c.x + x, c.y + y));
    }
    assert(c.mask =~= d.mask);
}

/// An image has one list of clusters.
pub proof fn law_clusters_are_determined(
    g: Gray,
    cs: Seq<ComponentView>,
    ds: Seq<ComponentView>,
)
    requires
        components::clustering(g, cs),
        components::clustering(g, ds),
    ensures
        cs == ds,
{
    let a = choose|seeds: Seq<(int, int)>| components::are_clusters(g, cs, seeds);
    let b = choose|seeds: Seq<(int, int)>| components::are_clusters(g, ds, seeds);
    lemma_seeds_within(g, cs, a, ds, b);
    lemma_seeds_within(g, ds, b, cs, a);
    lemma_same_seeds(a, b, a.len() as int);
    lemma_same_seeds(b, a, b.len() as int);
    assert forall|i: int| 0 <= i < cs.len() implies cs[i] == ds[i] by {
        assert(a[i] == b[i]);
        assert(components::is_cluster(g, cs[i], a[i]));
        assert(components::is_cluster(g, ds[i], b[i]));
        lemma_same_cluster(g, cs[i], ds[i], a[i]);
    }
    assert(cs =~= ds);
}

/// No pixel belongs to two clusters.
pub proof fn law_clusters_are_disjoint(g: Gray, cs: Seq<ComponentView>, i: int, j: int, x: int, y: int)
    requires
        components::clustering(g, cs),
        0 <= i < cs.len(),
        0 <= j < cs.len(),
        cs[i].covers(x, y),
        cs[j].covers(x, y),
    ensures
        i == j,
{
    let seeds = choose|seeds: Seq<(int, int)>| components::are_clusters(g, cs, seeds);
    let s = seeds[i];
    let t = seeds[j];
    assert(components::is_cluster(g, cs[i], s));
    assert(components::is_cluster(g, cs[j], t));
    lemma_connected_symmetric(g, t, (x, y));
    lemma_connected_joined(g, s, (x, y), t);
    assert((t.0, t.1) == t && (s.0, s.1) == s);
    assert(cs[i].covers(t.0, t.1));
    lemma_connected_symmetric(g, s, t);
    assert(cs[j].covers(s.0, s.1));
    assert(s == t);
    if i < j {
        assert(components::read_before(seeds[i], seeds[j]));
    } else if j < i {
        assert(components::read_before(seeds[j], seeds[i]));
    }
}

proof fn lemma_connected_joined(g: Gray, a: (int, int), b: (int, int), c: (int, int))
    requires
        g.connected(a, b),
        g.connected(b, c),
    ensures
        g.connected(a, c),
{
    reveal(Gray::is_path);
    let p = choose|path: Seq<(int, int)>| g.is_path(path, a, b);
    let q = choose|path: Seq<(int, int)>| g.is_path(path, b, c);
    let r = p + q.skip(1);
    assert forall|i: int| 0 <= i < r.len() implies g.is_text((#[trigger] r[i]).0, r[i].1) by {
        if i < p.len() {
            assert(g.is_text(p[i].0, p[i].1));
        } else {
            let k = i - p.len() + 1;
            assert(g.is_text(q[k].0, q[k].1));
        }
    }
    assert forall|i: int| 0 <= i < r.len() - 1 implies components::touching(
        #[trigger] r[i],
        r[i + 1],
    ) by {
        if i < p.len() - 1 {
            assert(components::touching(p[i], p[i + 1]));
        } else {
            let k = i - p.len() + 1;
            assert(components::touching(q[k], q[k + 1]));
            if i == p.len() - 1 {
                assert(r[i] == p[p.len() - 1]);
                assert(q[0] == b);
            }
        }
    }
    assert(r.last() == c) by {
        if q.len() == 1 {
            assert(r =~= p);
        }
    }
    assert(g.is_path(r, a, c));
}

/// A strip reads one text.
pub proof fn law_reading_is_determined(strip: Gray, ts: Seq<Template>, a: Seq<char>, b: Seq<char>)
    requires
        templates::read_as(strip, ts, a),
        templates::read_as(strip, ts, b),
    ensures
        a == b,
{
    if ts.len() > 0 {
        let cs = choose|cs: Seq<ComponentView>| #[trigger]
            components::clustering(strip, cs) && a == templates::reading(cs, strip.h, ts);
        let ds = choose|ds: Seq<ComponentView>| #[trigger]
            components::clustering(strip, ds) && b == templates::reading(ds, strip.h, ts);
        law_clusters_are_determined(strip, cs, ds);
    } else {
        assert(a =~= b);
    }
}

proof fn lemma_alike_connect(g: Gray, k: Gray, a: (int, int), b: (int, int))
    requires
        forall|x: int, y: int| g.is_text(x, y) == #[trigger] k.is_text(x, y),
        g.connected(a, b),
    ensures
        k.connected(a, b),
{
    reveal(Gray::is_path);
    let path = choose|path: Seq<(int, int)>| g.is_path(path, a, b);
    assert(k.is_path(path, a, b));
}

proof fn lemma_alike_cluster(g: Gray, k: Gray, c: ComponentView, seed: (int, int))
    requires
        g.w == k.w,
        g.h == k.h,
        forall|x: int, y: int| g.is_text(x, y) == #[trigger] k.is_text(x, y),
        components::is_cluster(g, c, seed),
    ensures
        components::is_cluster(k, c, seed),
{
    assert forall|x: int, y: int| #[trigger] c.covers(x, y) <==> k.connected(seed, (x, y)) by {
        if g.connected(seed, (x, y)) {
            lemma_alike_connect(g, k, seed, (x, y));
        }
        if k.connected(seed, (x, y)) {
            assert forall|u: int, v: int| k.is_text(u, v) == #[trigger] g.is_text(u, v) by {
                assert(k.is_text(u, v) == k.is_text(u, v));
            }
            lemma_alike_connect(k, g, seed, (x, y));
        }
    }
}

/// Images of one size whose pixels are the same read alike.
pub proof fn law_alike_strips_read_alike(a: Gray, b: Gray, ts: Seq<Template>, t: Seq<char>)
    requires
        a.w == b.w,
        a.h == b.h,
        forall|x: int, y: int| a.inside(x, y) ==> a.spec_get(x, y) == #[trigger] b.spec_get(x, y),
        templates::read_as(a, ts, t),
    ensures
        templates::read_as(b, ts, t),
{
    if ts.len() > 0 {
        assert forall|x: int, y: int| a.is_text(x, y) == #[trigger] b.is_text(x, y) by {
            if a.inside(x, y) {
                assert(a.spec_get(x, y) == b.spec_get(x, y));
            }
        }
        let cs = choose|cs: Seq<ComponentView>| #[trigger]
            components::clustering(a, cs) && t == templates::reading(cs, a.h, ts);
        let seeds = choose|seeds: Seq<(int, int)>| components::are_clusters(a, cs, seeds);
        assert forall|i: int| 0 <= i < cs.len() implies components::is_cluster(
            b,
            #[trigger] cs[i],
            seeds[i],
        ) by {
            lemma_alike_cluster(a, b, cs[i], seeds[i]);
        }
        assert(components::are_clusters(b, cs, seeds));
        assert(components::all_covered(b, cs)) by {
            reveal(components::all_covered);
            assert forall|x: int, y: int| #[trigger] b.is_text(x, y) implies exists|i: int|
                0 <= i < cs.len() && (#[trigger] cs[i]).covers(x, y) by {
                assert(a.is_text(x, y));
            }
        }
        assert(components::clustering(b, cs));
    }
}

} // verus!
