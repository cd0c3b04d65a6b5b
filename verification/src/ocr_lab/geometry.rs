//! Arithmetic on the rectangles of recognized words.

use crate::ocr_lab::engine::{BBox, Word, WordView};
use crate::sorting;
use crate::sorting::{sort_stably, Ranked};
use vstd::prelude::*;

verus! {

/// How far the coordinates of a picture may reach: margins of up to twenty such
/// numbers fit in an `i32`.
pub const SPAN: u32 = 107_374_182;

impl BBox {
    /// The first column to the right.
    pub open spec fn right(self) -> int {
        self.x + self.w
    }

    /// The first row below.
    pub open spec fn bottom(self) -> int {
        self.y + self.h
    }

    /// Whether the rectangle lies within the reach of a picture.
    pub open spec fn fits(self) -> bool {
        self.right() <= SPAN && self.bottom() <= SPAN
    }
}

/// Whether every rectangle lies within the reach of a picture.
pub open spec fn boxes_fit(bs: Seq<BBox>) -> bool {
    forall|i: int| 0 <= i < bs.len() ==> (#[trigger] bs[i]).fits()
}

/// Whether every word lies within the reach of a picture.
pub open spec fn words_fit(ws: Seq<WordView>) -> bool {
    forall|i: int| 0 <= i < ws.len() ==> (#[trigger] ws[i]).bbox.fits()
}

/// The elements of `s` that `p` holds of, in order.
pub open spec fn kept<A>(s: Seq<A>, p: spec_fn(A) -> bool) -> Seq<A>
    decreases s.len(),
{
    if s.len() == 0 {
        Seq::empty()
    } else if p(s.last()) {
        kept(s.drop_last(), p).push(s.last())
    } else {
        kept(s.drop_last(), p)
    }
}

/// What is kept was there, and `p` holds of it.
pub proof fn lemma_kept<A>(s: Seq<A>, p: spec_fn(A) -> bool)
    ensures
        kept(s, p).len() <= s.len(),
        forall|i: int|
            0 <= i < kept(s, p).len() ==> p(#[trigger] kept(s, p)[i]) && s.contains(kept(s, p)[i]),
    decreases s.len(),
{
    if s.len() > 0 {
        let init = s.drop_last();
        lemma_kept(init, p);
        assert forall|i: int| 0 <= i < kept(s, p).len() implies p(#[trigger] kept(s, p)[i])
            && s.contains(kept(s, p)[i]) by {
            if i < kept(init, p).len() {
                assert(kept(s, p)[i] == kept(init, p)[i]);
                let j = choose|j: int| 0 <= j < init.len() && init[j] == kept(init, p)[i];
                assert(s[j] == kept(s, p)[i]);
            } else {
                assert(s[s.len() - 1] == kept(s, p)[i]);
            }
        }
    }
}

/// The rectangles of some words.
pub open spec fn boxes(ws: Seq<WordView>) -> Seq<BBox> {
    Seq::new(ws.len(), |i: int| ws[i].bbox)
}

/// The rectangles of the words that `f` picks.
pub(crate) fn boxes_where<F: Fn(&Word) -> bool>(
    words: &Vec<Word>,
    f: F,
    Ghost(p): Ghost<spec_fn(WordView) -> bool>,
) -> (out: Vec<BBox>)
    requires
        forall|w: &Word| call_requires(f, (w,)),
        forall|w: &Word, b: bool| call_ensures(f, (w,), b) ==> b == p(w@),
    ensures
        out@ == boxes(kept(sorting::views(words@), p)),
        words_fit(sorting::views(words@)) ==> boxes_fit(out@),
{
    let ghost all = sorting::views(words@);
    let mut out: Vec<BBox> = Vec::new();
    assert(out@ =~= boxes(kept(all.take(0), p)));
    let mut i: usize = 0;
    while i < words.len()
        invariant
            i <= words@.len(),
            all == sorting::views(words@),
            out@ == boxes(kept(all.take(i as int), p)),
            forall|w: &Word| call_requires(f, (w,)),
            forall|w: &Word, b: bool| call_ensures(f, (w,), b) ==> b == p(w@),
        decreases words@.len() - i,
    {
        assert(all.take(i + 1).drop_last() =~= all.take(i as int));
        assert(all.take(i + 1).last() == words@[i as int]@);
        if f(&words[i]) {
            let ghost before = out@;
            out.push(words[i].bbox);
            assert(out@ =~= boxes(kept(all.take(i + 1), p)));
        }
        i += 1;
    }
    assert(all.take(all.len() as int) =~= all);
    proof {
        if words_fit(all) {
            lemma_kept(all, p);
            assert forall|i: int| 0 <= i < out@.len() implies (#[trigger] out@[i]).fits() by {
                let w = kept(all, p)[i];
                let j = choose|j: int| 0 <= j < all.len() && all[j] == w;
                assert(all[j].bbox.fits());
            }
        }
    }
    out
}

/// The smallest of some numbers.
pub open spec fn lowest(s: Seq<int>) -> int
    decreases s.len(),
{
    if s.len() <= 1 {
        s[0]
    } else if s.last() < lowest(s.drop_last()) {
        s.last()
    } else {
        lowest(s.drop_last())
    }
}

/// The largest of some numbers.
pub open spec fn highest(s: Seq<int>) -> int
    decreases s.len(),
{
    if s.len() <= 1 {
        s[0]
    } else if s.last() > highest(s.drop_last()) {
        s.last()
    } else {
        highest(s.drop_last())
    }
}

/// The smallest and the largest number are among them, and bound them.
pub proof fn lemma_extremes(s: Seq<int>)
    requires
        s.len() > 0,
    ensures
        s.contains(lowest(s)),
        s.contains(highest(s)),
        forall|i: int| 0 <= i < s.len() ==> lowest(s) <= #[trigger] s[i] <= highest(s),
    decreases s.len(),
{
    if s.len() > 1 {
        let init = s.drop_last();
        lemma_extremes(init);
        let a = choose|j: int| 0 <= j < init.len() && init[j] == lowest(init);
        let b = choose|j: int| 0 <= j < init.len() && init[j] == highest(init);
        assert(s[a] == lowest(init));
        assert(s[b] == highest(init));
        assert(s[s.len() - 1] == s.last());
        assert forall|i: int| 0 <= i < s.len() implies lowest(s) <= #[trigger] s[i] <= highest(
            s,
        ) by {
            if i < init.len() {
                assert(init[i] == s[i]);
            }
        }
    } else {
        assert(s[0] == lowest(s));
    }
}

/// The left edges.
pub open spec fn lefts(bs: Seq<BBox>) -> Seq<int> {
    Seq::new(bs.len(), |i: int| bs[i].x as int)
}

/// The upper edges.
pub open spec fn tops(bs: Seq<BBox>) -> Seq<int> {
    Seq::new(bs.len(), |i: int| bs[i].y as int)
}

/// The right edges.
pub open spec fn rights(bs: Seq<BBox>) -> Seq<int> {
    Seq::new(bs.len(), |i: int| bs[i].right())
}

/// The lower edges.
pub open spec fn bottoms(bs: Seq<BBox>) -> Seq<int> {
    Seq::new(bs.len(), |i: int| bs[i].bottom())
}

/// The edges of the smallest rectangle around some rectangles.
#[derive(Debug, Clone, Copy, PartialEq, Eq, Structural)]
pub struct Hull {
    pub left: u32,
    pub top: u32,
    pub right: u32,
    pub bottom: u32,
}

impl Hull {
    /// Whether these are the outermost edges of `bs`.
    pub open spec fn around(self, bs: Seq<BBox>) -> bool {
        &&& self.left == lowest(lefts(bs))
        &&& self.top == lowest(tops(bs))
        &&& self.right == highest(rights(bs))
        &&& self.bottom == highest(bottoms(bs))
    }
}

/// The outermost edges of some rectangles.
pub fn hull_of(bs: &Vec<BBox>) -> (r: Hull)
    requires
        bs@.len() > 0,
        boxes_fit(bs@),
    ensures
        r.around(bs@),
        r.left <= r.right <= SPAN,
        r.top <= r.bottom <= SPAN,
{
    let ghost all = bs@;
    let first: BBox = bs[0];
    assert(all[0].fits());
    let mut r = Hull {
        left: first.x,
        top: first.y,
        right: first.x + first.w,
        bottom: first.y + first.h,
    };
    assert(all.take(1) =~= seq![first]);
    let mut i: usize = 1;
    while i < bs.len()
        invariant
            1 <= i <= bs@.len(),
            all == bs@,
            boxes_fit(all),
            r.around(all.take(i as int)),
        decreases bs@.len() - i,
    {
        let b: BBox = bs[i];
        assert(all[i as int].fits());
        let ghost old = all.take(i as int);
        let ghost new = all.take(i + 1);
        proof {
            assert(lefts(new).drop_last() =~= lefts(old));
            assert(tops(new).drop_last() =~= tops(old));
            assert(rights(new).drop_last() =~= rights(old));
            assert(bottoms(new).drop_last() =~= bottoms(old));
        }
        if b.x < r.left {
            r.left = b.x;
        }
        if b.y < r.top {
            r.top = b.y;
        }
        if b.x + b.w > r.right {
            r.right = b.x + b.w;
        }
        if b.y + b.h > r.bottom {
            r.bottom = b.y + b.h;
        }
        i += 1;
    }
    assert(all.take(all.len() as int) =~= all);
    proof {
        lemma_extremes(lefts(all));
        lemma_extremes(tops(all));
        lemma_extremes(rights(all));
        lemma_extremes(bottoms(all));
        assert(all[0].fits());
        assert(lefts(all)[0] == all[0].x);
        assert(tops(all)[0] == all[0].y);
        assert(rights(all)[0] == all[0].right());
        assert(bottoms(all)[0] == all[0].bottom());
        let i = choose|i: int| 0 <= i < rights(all).len() && rights(all)[i] == highest(rights(all));
        assert(all[i].fits());
        let j = choose|j: int|
            0 <= j < bottoms(all).len() && bottoms(all)[j] == highest(bottoms(all));
        assert(all[j].fits());
    }
    r
}

/// Numbers come in ascending order.
impl Ranked for u32 {
    open spec fn precedes(a: u32, b: u32) -> bool {
        a < b
    }

    proof fn precedes_irreflexive(a: u32) {
    }

    proof fn precedes_asymmetric(a: u32, b: u32) {
    }

    proof fn precedes_negatively_transitive(a: u32, b: u32, c: u32) {
    }

    fn is_before(&self, other: &Self) -> (r: bool) {
        *self < *other
    }
}

/// The numbers in ascending order.
pub open spec fn ascending(s: Seq<u32>) -> Seq<u32> {
    sorting::in_order::<u32>(s)
}

/// The middle one of some numbers in ascending order, the later one of two;
/// nought where there are none.
pub open spec fn median(s: Seq<u32>) -> u32 {
    if s.len() == 0 {
        0
    } else {
        ascending(s)[s.len() as int / 2]
    }
}

/// What sorting numbers does to them.
pub proof fn lemma_ascending(s: Seq<u32>)
    ensures
        ascending(s).len() == s.len(),
        forall|i: int, j: int|
            0 <= i <= j < s.len() ==> #[trigger] ascending(s)[i] <= #[trigger] ascending(s)[j],
        forall|i: int| 0 <= i < s.len() ==> s.contains(#[trigger] ascending(s)[i]),
{
    broadcast use vstd::seq_lib::group_to_multiset_ensures;

    sorting::lemma_in_order::<u32>(s);
    let r = ascending(s);
    assert forall|i: int, j: int| 0 <= i <= j < s.len() implies #[trigger] r[i] <= #[trigger] r[j] by {
        if i < j {
            assert(!u32::precedes(r[j], r[i]));
        }
    }
    assert forall|i: int| 0 <= i < s.len() implies s.contains(#[trigger] r[i]) by {
        assert(r.to_multiset().count(r[i]) > 0);
        assert(s.to_multiset().count(r[i]) > 0);
    }
}

/// Sorts numbers.
pub fn sort_numbers(v: Vec<u32>) -> (r: Vec<u32>)
    ensures
        r@ == ascending(v@),
        r@.len() == v@.len(),
{
    let ghost all = v@;
    assert(sorting::views(v@) =~= v@);
    let r: Vec<u32> = sort_stably(v);
    assert(sorting::views(r@) =~= r@);
    proof {
        lemma_ascending(all);
    }
    r
}

/// The middle one of some numbers in ascending order.
pub fn median_of(v: Vec<u32>) -> (r: u32)
    ensures
        r == median(v@),
        v@.len() > 0 ==> v@.contains(r),
{
    let n: usize = v.len();
    let ghost all = v@;
    if n == 0 {
        return 0;
    }
    let sorted: Vec<u32> = sort_numbers(v);
    proof {
        lemma_ascending(all);
    }
    sorted[n / 2]
}

/// The upper edges, as they are stored.
pub open spec fn top_edges(bs: Seq<BBox>) -> Seq<u32> {
    Seq::new(bs.len(), |i: int| bs[i].y)
}

/// The heights.
pub open spec fn heights(bs: Seq<BBox>) -> Seq<u32> {
    Seq::new(bs.len(), |i: int| bs[i].h)
}

/// The middle upper edge.
pub fn median_top(bs: &Vec<BBox>) -> (r: u32)
    requires
        boxes_fit(bs@),
    ensures
        r == median(top_edges(bs@)),
        r <= SPAN,
{
    let mut v: Vec<u32> = Vec::new();
    let mut i: usize = 0;
    while i < bs.len()
        invariant
            i <= bs@.len(),
            boxes_fit(bs@),
            v@ == top_edges(bs@.take(i as int)),
        decreases bs@.len() - i,
    {
        v.push(bs[i].y);
        assert(v@ =~= top_edges(bs@.take(i + 1)));
        i += 1;
    }
    assert(bs@.take(i as int) =~= bs@);
    let ghost all = v@;
    let r: u32 = median_of(v);
    proof {
        if all.len() > 0 {
            let j = choose|j: int| 0 <= j < all.len() && all[j] == r;
            assert(bs@[j].fits());
        }
    }
    r
}

/// The middle height.
pub fn median_height(bs: &Vec<BBox>) -> (r: u32)
    requires
        boxes_fit(bs@),
    ensures
        r == median(heights(bs@)),
        r <= SPAN,
{
    let mut v: Vec<u32> = Vec::new();
    let mut i: usize = 0;
    while i < bs.len()
        invariant
            i <= bs@.len(),
            boxes_fit(bs@),
            v@ == heights(bs@.take(i as int)),
        decreases bs@.len() - i,
    {
        v.push(bs[i].h);
        assert(v@ =~= heights(bs@.take(i + 1)));
        i += 1;
    }
    assert(bs@.take(i as int) =~= bs@);
    let ghost all = v@;
    let r: u32 = median_of(v);
    proof {
        if all.len() > 0 {
            let j = choose|j: int| 0 <= j < all.len() && all[j] == r;
            assert(bs@[j].fits());
        }
    }
    r
}

/// The distance between two numbers.
pub open spec fn distance(a: int, b: int) -> int {
    if a < b {
        b - a
    } else {
        a - b
    }
}

/// The rectangles whose upper edge lies nearer than `reach` to `y`.
pub open spec fn on_row(bs: Seq<BBox>, y: u32, reach: u32) -> Seq<BBox> {
    kept(bs, |b: BBox| distance(b.y as int, y as int) < reach)
}

/// The rectangles whose upper edge lies nearer than `reach` to `y`.
pub fn keep_row(bs: &Vec<BBox>, y: u32, reach: u32) -> (r: Vec<BBox>)
    ensures
        r@ == on_row(bs@, y, reach),
        boxes_fit(bs@) ==> boxes_fit(r@),
{
    let ghost p = |b: BBox| distance(b.y as int, y as int) < reach;
    let ghost all = bs@;
    let mut r: Vec<BBox> = Vec::new();
    assert(r@ =~= kept(all.take(0), p));
    let mut i: usize = 0;
    while i < bs.len()
        invariant
            i <= bs@.len(),
            all == bs@,
            p == |b: BBox| distance(b.y as int, y as int) < reach,
            r@ == kept(all.take(i as int), p),
        decreases bs@.len() - i,
    {
        let b: BBox = bs[i];
        assert(all.take(i + 1).drop_last() =~= all.take(i as int));
        let d: u32 = if b.y < y {
            y - b.y
        } else {
            b.y - y
        };
        if d < reach {
            r.push(b);
        }
        i += 1;
    }
    assert(all.take(i as int) =~= all);
    proof {
        lemma_kept(all, p);
        if boxes_fit(all) {
            assert forall|i: int| 0 <= i < r@.len() implies (#[trigger] r@[i]).fits() by {
                let b = kept(all, p)[i];
                let j = choose|j: int| 0 <= j < all.len() && all[j] == b;
                assert(all[j].fits());
            }
        }
    }
    r
}

/// The part of a picture between the given edges.
pub open spec fn clamped(
    img_w: u32,
    img_h: u32,
    x0: int,
    y0: int,
    x1: int,
    y1: int,
) -> BBox {
    let left = clip(x0, i32::MAX as int);
    let top = clip(y0, i32::MAX as int);
    let right = clip(x1, img_w as int);
    let bottom = clip(y1, img_h as int);
    BBox {
        x: left as u32,
        y: top as u32,
        w: clip(right - left, u32::MAX as int) as u32,
        h: clip(bottom - top, u32::MAX as int) as u32,
    }
}

/// The nearest number from nought to `max`.
pub open spec fn clip(n: int, max: int) -> int {
    if n < 0 {
        0
    } else if n > max {
        max
    } else {
        n
    }
}

/// The part of a picture between the given edges. A right or lower edge beyond
/// the picture is drawn in.
pub fn clamp_bbox(img_w: u32, img_h: u32, x0: i32, y0: i32, x1: i32, y1: i32) -> (r: BBox)
    ensures
        r == clamped(img_w, img_h, x0 as int, y0 as int, x1 as int, y1 as int),
        r.w > 0 ==> r.right() <= img_w,
        r.h > 0 ==> r.bottom() <= img_h,
{
    let left: u32 = if x0 < 0 {
        0
    } else {
        x0 as u32
    };
    let top: u32 = if y0 < 0 {
        0
    } else {
        y0 as u32
    };
    let right: u32 = if x1 < 0 {
        0
    } else if x1 as u32 > img_w {
        img_w
    } else {
        x1 as u32
    };
    let bottom: u32 = if y1 < 0 {
        0
    } else if y1 as u32 > img_h {
        img_h
    } else {
        y1 as u32
    };
    BBox {
        x: left,
        y: top,
        w: if right > left {
            right - left
        } else {
            0
        },
        h: if bottom > top {
            bottom - top
        } else {
            0
        },
    }
}

} // verus!
