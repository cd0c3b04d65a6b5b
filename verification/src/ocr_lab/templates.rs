//! Recognizing the digits of the game's pixel font by comparing clusters of
//! touching pixels with stored ones.

use crate::ocr_lab::components;
use crate::ocr_lab::components::{find_components, Component, ComponentView};
use crate::state::progress;
use crate::sorting;
use crate::ocr_lab::raster;
use crate::ocr_lab::raster::{is_up, Gray};
use crate::sorting::{sort_stably, Ranked};
use crate::text::{chars_of, same_text};
use vstd::prelude::*;
use vstd::string::*;

verus! {

/// A stored glyph: which pixels belong to it, row by row.
#[derive(Debug)]
pub struct Template {
    pub label: char,
    pub mask: Vec<bool>,
    pub w: u32,
    pub h: u32,
}

impl Template {
    /// Whether there is one flag for each pixel.
    pub open spec fn wf(self) -> bool {
        &&& self.w * self.h <= u32::MAX
        &&& self.mask@.len() == self.w * self.h
    }
}

/// How well a cluster matches a glyph: on how many of the glyph's pixels they
/// agree.
#[derive(Debug, Clone, Copy, PartialEq, Eq, Structural)]
pub struct Score {
    pub agree: u32,
    pub total: u32,
}

/// Whether the cluster, stretched to the size of the glyph, agrees with it on
/// the glyph's pixel number `n`.
pub open spec fn agrees_on(c: ComponentView, t: Template, n: int) -> bool {
    let sx = (n % (t.w as int)) * c.w / (t.w as int);
    let sy = (n / (t.w as int)) * c.h / (t.h as int);
    raster::flag(c.mask, c.w as int, sx, sy) == t.mask@[n]
}

/// On how many of the glyph's first `n` pixels the two agree.
pub open spec fn agreement(c: ComponentView, t: Template, n: int) -> nat
    decreases n,
{
    if n <= 0 {
        0
    } else if agrees_on(c, t, n - 1) {
        agreement(c, t, n - 1) + 1
    } else {
        agreement(c, t, n - 1)
    }
}

/// How well a cluster matches a glyph.
pub open spec fn score_of(c: ComponentView, t: Template) -> Score {
    Score { agree: agreement(c, t, t.w * t.h) as u32, total: (t.w * t.h) as u32 }
}

proof fn lemma_stretch(i: int, n: int, m: int)
    requires
        0 <= i < n,
        0 < m,
    ensures
        0 <= i * m / n < m,
        0 <= i * m,
{
    assert(0 <= i * m < m * n) by (nonlinear_arith)
        requires
            0 <= i < n,
            0 < m,
    ;
    assert(0 <= i * m / n < m) by (nonlinear_arith)
        requires
            0 <= i * m < m * n,
            0 < n,
    ;
}

proof fn lemma_row_of(n: int, w: int, h: int)
    requires
        0 <= n < w * h,
        0 < w,
        0 < h,
    ensures
        0 <= n % w < w,
        0 <= n / w < h,
{
    assert(0 <= n / w < h) by (nonlinear_arith)
        requires
            0 <= n < w * h,
            0 < w,
            0 < h,
    ;
    assert(0 <= n % w < w) by (nonlinear_arith)
        requires
            0 < w,
    ;
}

/// Compares a cluster with a glyph.
pub fn score(comp: &Component, t: &Template) -> (r: Score)
    requires
        comp@.wf(),
        t.wf(),
    ensures
        r == score_of(comp@, *t),
        r.agree <= r.total,
{
    let total: u32 = t.w * t.h;
    let mut agree: u32 = 0;
    let mut n: u32 = 0;
    while n < total
        invariant
            n <= total,
            total == t.w * t.h,
            comp@.wf(),
            t.wf(),
            agree <= n,
            agree == agreement(comp@, *t, n as int),
        decreases total - n,
    {
        proof {
            assert(t.w > 0 && t.h > 0) by (nonlinear_arith)
                requires
                    0 < t.w * t.h,
                    t.w >= 0,
                    t.h >= 0,
            ;
            lemma_row_of(n as int, t.w as int, t.h as int);
            lemma_stretch(n as int % t.w as int, t.w as int, comp.w as int);
            lemma_stretch(n as int / t.w as int, t.h as int, comp.h as int);
        }
        let tx: u32 = n % t.w;
        let ty: u32 = n / t.w;
        proof {
            progress::lemma_product_fits(tx, comp.w);
            progress::lemma_product_fits(ty, comp.h);
        }
        let sx: u32 = (tx as u64 * comp.w as u64 / t.w as u64) as u32;
        let sy: u32 = (ty as u64 * comp.h as u64 / t.h as u64) as u32;
        let cv: bool = is_up(&comp.mask, comp.w, comp.h, sx, sy);
        let tv: bool = t.mask[n as usize];
        if cv == tv {
            agree = agree + 1;
        }
        n += 1;
    }
    Score { agree, total }
}

impl Score {
    /// Whether this is strictly the better match.
    pub open spec fn beats(self, other: Score) -> bool {
        self.agree * other.total > other.agree * self.total
    }

    fn is_better(&self, other: &Score) -> (r: bool)
        ensures
            r == self.beats(*other),
    {
        proof {
            progress::lemma_product_fits(self.agree, other.total);
            progress::lemma_product_fits(other.agree, self.total);
        }
        self.agree as u64 * other.total as u64 > other.agree as u64 * self.total as u64
    }
}

/// Which of the first `n` glyphs a cluster matches best; of several the last.
pub open spec fn best_of(c: ComponentView, ts: Seq<Template>, n: int) -> int
    decreases n,
{
    if n <= 1 {
        0
    } else {
        let b = best_of(c, ts, n - 1);
        if score_of(c, ts[b]).beats(score_of(c, ts[n - 1])) {
            b
        } else {
            n - 1
        }
    }
}

fn best_label(comp: &Component, templates: &Vec<Template>) -> (r: char)
    requires
        comp@.wf(),
        templates@.len() > 0,
        forall|i: int| 0 <= i < templates@.len() ==> (#[trigger] templates@[i]).wf(),
    ensures
        r == templates@[best_of(comp@, templates@, templates@.len() as int)].label,
{
    let mut best: usize = 0;
    let mut best_score: Score = score(comp, &templates[0]);
    let mut i: usize = 1;
    while i < templates.len()
        invariant
            1 <= i <= templates@.len(),
            comp@.wf(),
            forall|j: int| 0 <= j < templates@.len() ==> (#[trigger] templates@[j]).wf(),
            best < i,
            best == best_of(comp@, templates@, i as int),
            best_score == score_of(comp@, templates@[best as int]),
        decreases templates@.len() - i,
    {
        let s: Score = score(comp, &templates[i]);
        if !best_score.is_better(&s) {
            best = i;
            best_score = s;
        }
        i += 1;
    }
    templates[best].label
}

/// Clusters come from left to right.
impl Ranked for Component {
    open spec fn precedes(a: ComponentView, b: ComponentView) -> bool {
        a.x < b.x
    }

    proof fn precedes_irreflexive(a: ComponentView) {
    }

    proof fn precedes_asymmetric(a: ComponentView, b: ComponentView) {
    }

    proof fn precedes_negatively_transitive(a: ComponentView, b: ComponentView, c: ComponentView) {
    }

    fn is_before(&self, other: &Self) -> (r: bool) {
        self.x < other.x
    }
}

impl ComponentView {
    /// Whether the cluster is large enough for a glyph, and touches neither
    /// the top nor the bottom of a strip of height `h`.
    pub open spec fn is_glyph(self, h: u32) -> bool {
        self.w * self.h >= 4 && self.y > 0 && self.y + self.h < h
    }
}

/// The clusters that can be glyphs, in order.
pub open spec fn glyphs(cs: Seq<ComponentView>, h: u32) -> Seq<ComponentView>
    decreases cs.len(),
{
    if cs.len() == 0 {
        Seq::empty()
    } else if cs.last().is_glyph(h) {
        glyphs(cs.drop_last(), h).push(cs.last())
    } else {
        glyphs(cs.drop_last(), h)
    }
}

/// What the clusters of a strip of height `h` read, from left to right.
pub open spec fn reading(cs: Seq<ComponentView>, h: u32, ts: Seq<Template>) -> Seq<char> {
    let row = sorting::in_order::<Component>(glyphs(cs, h));
    Seq::new(row.len(), |i: int| ts[best_of(row[i], ts, ts.len() as int)].label)
}

/// The clusters that can be glyphs of a strip of height `h`, from left to right.
pub fn glyph_row(all: Vec<Component>, h: u32) -> (row: Vec<Component>)
    requires
        forall|i: int| 0 <= i < all@.len() ==> (#[trigger] all@[i])@.wf(),
    ensures
        sorting::views(row@) == sorting::in_order::<Component>(glyphs(sorting::views(all@), h)),
        forall|i: int| 0 <= i < row@.len() ==> (#[trigger] row@[i])@.wf(),
{
    let ghost cs = sorting::views(all@);
    let mut kept: Vec<Component> = Vec::new();
    assert(sorting::views(kept@) =~= glyphs(cs.take(0), h));
    for c in it: all
        invariant
            cs == sorting::views(it.seq()),
            forall|i: int| 0 <= i < it.seq().len() ==> (#[trigger] it.seq()[i])@.wf(),
            sorting::views(kept@) == glyphs(cs.take(it.index()), h),
            forall|i: int| 0 <= i < kept@.len() ==> (#[trigger] kept@[i])@.wf(),
    {
        let ghost k: int = it.index();
        assert(cs.take(k + 1).drop_last() =~= cs.take(k));
        assert(cs.take(k + 1).last() == c@);
        assert(it.seq()[k]@.wf());
        if c.w * c.h >= 4 && c.y > 0 && c.y + c.h < h {
            let ghost before = kept@;
            kept.push(c);
            assert(sorting::views(kept@) =~= sorting::views(before).push(c@));
        }
    }
    assert(cs.take(cs.len() as int) =~= cs);
    let ghost listed = sorting::views(kept@);
    let sorted: Vec<Component> = sort_stably(kept);
    proof {
        let row = sorting::views(sorted@);
        sorting::lemma_in_order::<Component>(listed);
        assert forall|i: int| 0 <= i < sorted@.len() implies (#[trigger] sorted@[i])@.wf() by {
            lemma_sorted_member(listed, row, i);
            let j = choose|j: int| 0 <= j < listed.len() && listed[j] == row[i];
            assert(kept@[j]@.wf());
        }
    }
    sorted
}

/// Whether a strip reads `t` when compared with the glyphs `ts`.
pub open spec fn read_as(strip: Gray, ts: Seq<Template>, t: Seq<char>) -> bool {
    if ts.len() == 0 {
        t.len() == 0
    } else {
        exists|cs: Seq<ComponentView>| #[trigger]
            components::clustering(strip, cs) && t == reading(cs, strip.h, ts)
    }
}

/// Whether every stored glyph has one flag for each of its pixels.
pub open spec fn glyphs_wf(ts: Seq<Template>) -> bool {
    forall|i: int| 0 <= i < ts.len() ==> (#[trigger] ts[i]).wf()
}

/// Reads the glyphs of a strip from left to right. Specks, and what touches
/// the top or the bottom, are left aside.
pub fn recognize(strip: &Gray, templates: &Vec<Template>) -> (r: String)
    requires
        strip.wf(),
        glyphs_wf(templates@),
    ensures
        read_as(*strip, templates@, r@),
{
    let mut out: String = String::new();
    if templates.len() == 0 {
        return out;
    }
    let all: Vec<Component> = find_components(strip);
    let ghost cs = sorting::views(all@);
    let row: Vec<Component> = glyph_row(all, strip.h);
    let ghost text = reading(cs, strip.h, templates@);
    let mut i: usize = 0;
    while i < row.len()
        invariant
            i <= row@.len(),
            sorting::views(row@) == sorting::in_order::<Component>(glyphs(cs, strip.h)),
            templates@.len() > 0,
            forall|j: int| 0 <= j < templates@.len() ==> (#[trigger] templates@[j]).wf(),
            forall|j: int| 0 <= j < row@.len() ==> (#[trigger] row@[j])@.wf(),
            text == reading(cs, strip.h, templates@),
            out@ == text.take(i as int),
        decreases row@.len() - i,
    {
        assert(sorting::views(row@)[i as int] == row@[i as int]@);
        let label: char = best_label(&row[i], templates);
        out.push(label);
        assert(text.take(i + 1) =~= text.take(i as int).push(label));
        i += 1;
    }
    assert(text.take(text.len() as int) =~= text);
    out
}

proof fn lemma_sorted_member(s: Seq<ComponentView>, t: Seq<ComponentView>, i: int)
    requires
        t.to_multiset() == s.to_multiset(),
        0 <= i < t.len(),
    ensures
        exists|j: int| 0 <= j < s.len() && s[j] == t[i],
{
    broadcast use vstd::seq_lib::group_to_multiset_ensures;

    assert(t.to_multiset().count(t[i]) > 0);
    assert(s.contains(t[i]));
}

/// The file name of a stored glyph.
pub fn template_file_name(label: char) -> (r: String)
    ensures
        r@ == if label == '/' {
            "slash.png"@
        } else {
            seq![label] + ".png"@
        },
{
    if label == '/' {
        "slash.png".to_owned()
    } else {
        let mut r: String = String::new();
        r.push(label);
        assert(r@ =~= seq![label]);
        r.append(".png");
        r
    }
}

/// The glyph that a file named `stem` holds: a single character names itself,
/// and a slash is spelled out. Any other file is left aside.
pub fn template_label(stem: &str) -> (r: Option<char>)
    ensures
        r == if stem@ == "slash"@ {
            Some('/')
        } else if stem@.len() == 1 {
            Some(stem@[0])
        } else {
            None
        },
{
    if same_text(stem, "slash") {
        return Some('/');
    }
    let chars: Vec<char> = chars_of(stem);
    if chars.len() == 1 {
        Some(chars[0])
    } else {
        None
    }
}

/// The stored glyph that an image holds: its dark pixels.
pub fn template_of(label: char, img: &Gray) -> (r: Template)
    requires
        img.wf(),
    ensures
        r.wf(),
        r.label == label,
        r.w == img.w,
        r.h == img.h,
        forall|i: int| 0 <= i < img.px@.len() ==> r.mask@[i] == (#[trigger] img.px@[i] < 128),
{
    let mut mask: Vec<bool> = Vec::new();
    let mut i: usize = 0;
    while i < img.px.len()
        invariant
            i <= img.px@.len(),
            mask@.len() == i,
            forall|j: int| 0 <= j < i ==> mask@[j] == (#[trigger] img.px@[j] < 128),
        decreases img.px@.len() - i,
    {
        mask.push(img.px[i] < 128);
        i += 1;
    }
    Template { label, mask, w: img.w, h: img.h }
}

/// A cluster as an image of its own, black on white.
pub fn component_image(comp: &Component) -> (r: Gray)
    requires
        comp@.wf(),
    ensures
        r.wf(),
        r.w == comp.w,
        r.h == comp.h,
        forall|x: int, y: int|
            r.inside(x, y) ==> #[trigger] r.spec_get(x, y) == if raster::flag(
                comp.mask@,
                comp.w as int,
                x,
                y,
            ) {
                0u8
            } else {
                255u8
            },
{
    let mut px: Vec<u8> = Vec::new();
    let mut i: usize = 0;
    while i < comp.mask.len()
        invariant
            i <= comp.mask@.len(),
            px@.len() == i,
            forall|j: int|
                0 <= j < i ==> #[trigger] px@[j] == if comp.mask@[j] {
                    0u8
                } else {
                    255u8
                },
        decreases comp.mask@.len() - i,
    {
        px.push(
            if comp.mask[i] {
                0
            } else {
                255
            },
        );
        i += 1;
    }
    let r = Gray { w: comp.w, h: comp.h, px };
    assert forall|x: int, y: int| r.inside(x, y) implies #[trigger] r.spec_get(x, y) == if raster::flag(
        comp.mask@,
        comp.w as int,
        x,
        y,
    ) {
        0u8
    } else {
        255u8
    } by {
        raster::lemma_at(comp.w as int, comp.h as int, x, y);
    }
    r
}

/// A cluster that is stored as a glyph and read back gives the same flags.
pub proof fn law_stored_glyph_reads_back(comp: Component, img: Gray, t: Template, i: int)
    requires
        comp@.wf(),
        img.wf(),
        img.w == comp.w,
        img.h == comp.h,
        forall|x: int, y: int|
            img.inside(x, y) ==> #[trigger] img.spec_get(x, y) == if raster::flag(
                comp.mask@,
                comp.w as int,
                x,
                y,
            ) {
                0u8
            } else {
                255u8
            },
        forall|j: int| 0 <= j < img.px@.len() ==> t.mask@[j] == (#[trigger] img.px@[j] < 128),
        0 <= i < comp.mask@.len(),
    ensures
        t.mask@[i] == comp.mask@[i],
{
    let w = comp.w as int;
    lemma_row_of(i, w, comp.h as int);
    assert(raster::at(w, i % w, i / w) == i) by (nonlinear_arith)
        requires
            w > 0,
            raster::at(w, i % w, i / w) == (i / w) * w + i % w,
    ;
    assert(img.spec_get(i % w, i / w) == img.px@[i]);
}

/// The directory of the stored glyphs below the data directory.
pub fn templates_dir(data_dir: &str) -> (r: String)
    ensures
        r@ == if data_dir@.len() == 0 || data_dir@.last() == '/' {
            data_dir@ + "templates"@
        } else {
            data_dir@ + "/templates"@
        },
{
    let chars: Vec<char> = chars_of(data_dir);
    let mut r: String = data_dir.to_owned();
    let n: usize = chars.len();
    if n == 0 || chars[n - 1] == '/' {
        r.append("templates");
    } else {
        r.append("/templates");
    }
    r
}

} // verus!
