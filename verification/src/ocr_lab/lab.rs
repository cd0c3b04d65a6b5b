//! The commands of the test bench.

use crate::ids;
use crate::ocr_lab::engine::PERCENT;
use crate::ocr_lab::pipeline::{Item, ItemView, Panel};
use crate::ocr_lab::score;
use crate::ocr_lab::score::{progress_string, PanelView};
use crate::sorting;
use crate::sorting::{sort_stably, Ranked};
use crate::text;
use crate::text::{
    chars_of, decimal_string, has_end, has_part, join, parse_uint, same_text, split_chars,
    split_words, string_of, text_before, to_ascii_lower, trim_chars,
};
use vstd::prelude::*;
use vstd::string::*;

verus! {

/// The image that is taken where none is named.
pub const DEFAULT_IMAGE: &'static str = "20260526091314_1.jpg";

/// The name of an image, with `.jpg` behind it where it has no ending.
pub open spec fn image_name(s: Seq<char>) -> Seq<char> {
    if text::ends_with(s, ".jpg"@) || text::ends_with(s, ".png"@) {
        s
    } else {
        s + ".jpg"@
    }
}

/// The name of an image, with `.jpg` behind it where it has no ending.
pub fn normalize_image_name(s: &str) -> (r: String)
    ensures
        r@ == image_name(s@),
{
    let chars: Vec<char> = chars_of(s);
    let jpg: Vec<char> = chars_of(".jpg");
    let png: Vec<char> = chars_of(".png");
    let mut r: String = s.to_owned();
    if !(has_end(chars.as_slice(), jpg.as_slice()) || has_end(chars.as_slice(), png.as_slice())) {
        r.append(".jpg");
    }
    r
}

/// Which images a command works on.
#[derive(Debug)]
pub enum Images {
    /// Every one of the data set.
    All,
    /// One.
    One(String),
}

/// Which images a command works on: all, the one that is named, or the
/// default one.
pub fn resolve_images(arg: &Option<String>) -> (r: Images)
    ensures
        match r {
            Images::All => *arg matches Some(s) && s@ == "all"@,
            Images::One(name) => match *arg {
                None => name@ == DEFAULT_IMAGE@,
                Some(s) => s@ != "all"@ && name@ == image_name(s@),
            },
        },
{
    match arg {
        None => Images::One(DEFAULT_IMAGE.to_owned()),
        Some(s) => if same_text(s, "all") {
            Images::All
        } else {
            Images::One(normalize_image_name(s))
        },
    }
}

/// Whether a file of the data set is an image.
pub fn is_dataset_image(name: &str) -> (r: bool)
    ensures
        r == text::ends_with(text::ascii_lowered(name@), ".jpg"@),
{
    let low: String = to_ascii_lower(name);
    let chars: Vec<char> = chars_of(&low);
    let jpg: Vec<char> = chars_of(".jpg");
    has_end(chars.as_slice(), jpg.as_slice())
}

/// A file name, ranked as text.
pub struct ByName(pub String);

impl View for ByName {
    type V = Seq<char>;

    open spec fn view(&self) -> Seq<char> {
        self.0@
    }
}

impl Ranked for ByName {
    open spec fn precedes(a: Seq<char>, b: Seq<char>) -> bool {
        text::text_lt(a, b)
    }

    proof fn precedes_irreflexive(a: Seq<char>) {
        text::lemma_text_lt_irreflexive(a);
    }

    proof fn precedes_asymmetric(a: Seq<char>, b: Seq<char>) {
        text::lemma_text_order(a, b, b);
    }

    proof fn precedes_negatively_transitive(a: Seq<char>, b: Seq<char>, c: Seq<char>) {
        text::lemma_text_order(a, b, c);
    }

    fn is_before(&self, other: &Self) -> (r: bool) {
        text_before(self.0.as_str(), other.0.as_str())
    }
}

/// Which of the files are images.
pub open spec fn images_among(names: Seq<Seq<char>>) -> Seq<Seq<char>> {
    names.filter(|n: Seq<char>| text::ends_with(text::ascii_lowered(n), ".jpg"@))
}

/// The images of the data set in the order of their names, out of the files
/// of its directory; nothing where there is none.
pub fn list_dataset_images(names: &Vec<String>) -> (r: Option<Vec<String>>)
    ensures
        match r {
            Some(v) => {
                &&& images_among(ids::texts(names@)).len() > 0
                &&& ids::texts(v@) == sorting::in_order::<ByName>(images_among(ids::texts(names@)))
            },
            None => images_among(ids::texts(names@)).len() == 0,
        },
{
    let ghost all = ids::texts(names@);
    let ghost keep = |n: Seq<char>| text::ends_with(text::ascii_lowered(n), ".jpg"@);
    let mut kept: Vec<ByName> = Vec::new();
    let mut i: usize = 0;
    proof {
        reveal(Seq::filter);
        assert(sorting::views(kept@) =~= all.take(0).filter(keep));
    }
    while i < names.len()
        invariant
            i <= names@.len(),
            all == ids::texts(names@),
            keep == (|n: Seq<char>| text::ends_with(text::ascii_lowered(n), ".jpg"@)),
            sorting::views(kept@) == all.take(i as int).filter(keep),
        decreases names@.len() - i,
    {
        let ghost before = sorting::views(kept@);
        proof {
            reveal(Seq::filter);
            assert(all.take(i + 1).drop_last() =~= all.take(i as int));
            assert(all.take(i + 1).last() == names@[i as int]@);
        }
        if is_dataset_image(names[i].as_str()) {
            kept.push(ByName(names[i].clone()));
            assert(sorting::views(kept@) =~= before.push(names@[i as int]@));
        }
        i += 1;
    }
    assert(all.take(i as int) =~= all);
    if kept.len() == 0 {
        return None;
    }
    let sorted: Vec<ByName> = sort_stably(kept);
    let ghost order = sorting::views(sorted@);
    let mut v: Vec<String> = Vec::new();
    let mut i: usize = 0;
    while i < sorted.len()
        invariant
            i <= sorted@.len(),
            order == sorting::views(sorted@),
            ids::texts(v@) == order.take(i as int),
        decreases sorted@.len() - i,
    {
        let ghost before = ids::texts(v@);
        v.push(sorted[i].0.clone());
        assert(ids::texts(v@) =~= before.push(order[i as int]));
        assert(order.take(i + 1) =~= before.push(order[i as int]));
        i += 1;
    }
    assert(order.take(i as int) =~= order);
    Some(v)
}

/// The numbers of some texts, where all can be read.
pub open spec fn numbers_of(parts: Seq<Seq<char>>) -> Option<Seq<u32>>
    decreases parts.len(),
{
    if parts.len() == 0 {
        Some(Seq::empty())
    } else {
        match (
            numbers_of(parts.drop_last()),
            text::parsed_uint(text::trimmed(parts.last()), u32::MAX as nat),
        ) {
            (Some(before), Some(n)) => Some(before.push(n as u32)),
            _ => None,
        }
    }
}

/// The rectangle that `x,y,w,h` gives.
pub open spec fn rect_of(spec: Seq<char>) -> Option<(u32, u32, u32, u32)> {
    match numbers_of(text::split_at_char(spec, ',')) {
        Some(ns) => if ns.len() == 4 {
            Some((ns[0], ns[1], ns[2], ns[3]))
        } else {
            None
        },
        None => None,
    }
}

/// The rectangle that `x,y,w,h` gives, where it does.
pub fn parse_rect(rect: &str) -> (r: Option<(u32, u32, u32, u32)>)
    ensures
        r == rect_of(rect@),
{
    let chars: Vec<char> = chars_of(rect);
    let parts: Vec<Vec<char>> = split_chars(chars.as_slice(), ',');
    let ghost all = text::pieces(parts@);
    let mut ns: Vec<u32> = Vec::new();
    let mut ok: bool = true;
    let mut i: usize = 0;
    while i < parts.len()
        invariant
            i <= parts@.len(),
            all == text::pieces(parts@),
            match numbers_of(all.take(i as int)) {
                Some(v) => ok && ns@ == v,
                None => !ok,
            },
        decreases parts@.len() - i,
    {
        assert(all.take(i + 1).drop_last() =~= all.take(i as int));
        assert(all.take(i + 1).last() == parts@[i as int]@);
        let bare: Vec<char> = trim_chars(parts[i].as_slice());
        match parse_uint(bare.as_slice(), u32::MAX as u64) {
            Some(n) => {
                ns.push(n as u32);
            },
            None => {
                ok = false;
            },
        }
        i += 1;
    }
    assert(all.take(i as int) =~= all);
    if ok && ns.len() == 4 {
        Some((ns[0], ns[1], ns[2], ns[3]))
    } else {
        None
    }
}

/// The texts of the items of a panel: each one's name and progress.
pub open spec fn item_tokens(items: Seq<ItemView>) -> Seq<Seq<char>>
    decreases items.len(),
{
    if items.len() == 0 {
        Seq::empty()
    } else {
        item_tokens(items.drop_last()).push(items.last().name).push(
            score::progress_label(items.last()),
        )
    }
}

/// The texts that a panel shows.
pub open spec fn tokens_of(p: PanelView) -> Seq<Seq<char>> {
    let head = seq![p.title, p.level];
    let with_cost = match p.cost {
        Some(c) => head.push(text::decimal(c as nat)),
        None => head,
    };
    with_cost + item_tokens(p.items)
}

/// The texts that a panel shows.
pub fn expected_tokens_for(p: &Panel) -> (r: Vec<String>)
    ensures
        ids::texts(r@) == tokens_of(p@),
{
    let ghost all = p@.items;
    let mut r: Vec<String> = Vec::new();
    r.push(p.title.clone());
    r.push(p.level.clone());
    assert(ids::texts(r@) =~= seq![p@.title, p@.level]);
    if let Some(c) = p.cost {
        let ghost before = ids::texts(r@);
        r.push(decimal_string(c));
        assert(ids::texts(r@) =~= before.push(text::decimal(c as nat)));
    }
    let ghost head = ids::texts(r@);
    assert(head + item_tokens(all.take(0)) =~= head);
    let mut i: usize = 0;
    while i < p.items.len()
        invariant
            i <= p.items@.len(),
            all == sorting::views(p.items@),
            ids::texts(r@) == head + item_tokens(all.take(i as int)),
        decreases p.items@.len() - i,
    {
        let item: &Item = &p.items[i];
        let ghost before = ids::texts(r@);
        assert(all.take(i + 1).drop_last() =~= all.take(i as int));
        assert(all.take(i + 1).last() == item@);
        r.push(item.name.clone());
        r.push(progress_string(item.collected, item.needed));
        assert(ids::texts(r@) =~= before.push(item@.name).push(score::progress_label(item@)));
        assert(ids::texts(r@) =~= head + item_tokens(all.take(i + 1)));
        i += 1;
    }
    assert(all.take(i as int) =~= all);
    r
}

/// What of a panel was found among the words that were read.
#[derive(Debug, Clone, Copy, PartialEq, Eq, Structural)]
pub struct VariantScore {
    pub title: bool,
    pub level: bool,
    pub cost: bool,
    pub name_hits: usize,
    pub name_total: usize,
    pub prog_hits: usize,
    pub prog_total: usize,
}

impl VariantScore {
    /// How much was found in all.
    pub fn total_found(&self) -> (r: usize)
        requires
            self.name_hits + self.prog_hits + 3 <= usize::MAX,
        ensures
            r == score::one_if(self.title) + score::one_if(self.level) + score::one_if(self.cost)
                + self.name_hits + self.prog_hits,
    {
        let mut r: usize = self.name_hits + self.prog_hits;
        if self.title {
            r = r + 1;
        }
        if self.level {
            r = r + 1;
        }
        if self.cost {
            r = r + 1;
        }
        r
    }
}

/// Whether every word of `t` occurs in `found`, in small letters.
pub open spec fn words_occur(t: Seq<char>, found: Seq<char>) -> bool {
    forall|i: int|
        0 <= i < text::space_separated(t).len() ==> text::holds(
            found,
            text::ascii_lowered(#[trigger] text::space_separated(t)[i]),
        )
}

fn all_words_occur(t: &str, found: &Vec<char>) -> (r: bool)
    ensures
        r == words_occur(t@, found@),
{
    let chars: Vec<char> = chars_of(t);
    let parts: Vec<Vec<char>> = split_words(chars.as_slice());
    let ghost all = text::space_separated(t@);
    let mut i: usize = 0;
    while i < parts.len()
        invariant
            i <= parts@.len(),
            all == text::space_separated(t@),
            all == text::pieces(parts@),
            forall|j: int|
                0 <= j < i ==> text::holds(found@, text::ascii_lowered(#[trigger] all[j])),
        decreases parts@.len() - i,
    {
        let w: String = string_of(parts[i].as_slice());
        assert(w@ == all[i as int]);
        let low: String = to_ascii_lower(&w);
        let part: Vec<char> = chars_of(&low);
        if !has_part(found.as_slice(), part.as_slice()) {
            return false;
        }
        i += 1;
    }
    true
}

/// Whether `t` is one of `found`.
pub open spec fn is_among(found: Seq<Seq<char>>, t: Seq<char>) -> bool {
    found.contains(t)
}

fn among(found: &Vec<String>, t: &str) -> (r: bool)
    ensures
        r == is_among(ids::texts(found@), t@),
{
    let ghost all = ids::texts(found@);
    let mut i: usize = 0;
    while i < found.len()
        invariant
            i <= found@.len(),
            all == ids::texts(found@),
            forall|j: int| 0 <= j < i ==> #[trigger] all[j] != t@,
        decreases found@.len() - i,
    {
        if same_text(&found[i], t) {
            assert(all[i as int] == t@);
            return true;
        }
        i += 1;
    }
    false
}

/// A character of a level as it is read: misread letters are digits.
pub open spec fn level_digit(c: char) -> char {
    if c == 'o' {
        '0'
    } else if c == 'i' {
        '1'
    } else {
        c
    }
}

/// A level as it is read.
pub open spec fn level_read(t: Seq<char>) -> Seq<char> {
    Seq::new(t.len(), |i: int| level_digit(t[i]))
}

fn read_level(t: &str) -> (r: String)
    ensures
        r@ == level_read(t@),
{
    let chars: Vec<char> = chars_of(t);
    let mut r: String = String::new();
    let mut i: usize = 0;
    while i < chars.len()
        invariant
            i <= chars@.len(),
            chars@ == t@,
            r@ == level_read(t@).take(i as int),
        decreases chars@.len() - i,
    {
        let c: char = chars[i];
        r.push(
            if c == 'o' {
                '0'
            } else if c == 'i' {
                '1'
            } else {
                c
            },
        );
        assert(r@ =~= level_read(t@).take(i + 1));
        i += 1;
    }
    assert(level_read(t@).take(i as int) =~= level_read(t@));
    r
}

/// The words that were read, each without white space and in small letters.
pub open spec fn plain_words(ds: Seq<Seq<char>>) -> Seq<Seq<char>> {
    Seq::new(ds.len(), |i: int| score::plain(ds[i]))
}

/// The words that were read as levels.
pub open spec fn level_words(ds: Seq<Seq<char>>) -> Seq<Seq<char>> {
    Seq::new(ds.len(), |i: int| level_read(score::plain(ds[i])))
}

/// How many of the items have a name whose words all occur in `found`.
pub open spec fn names_found(items: Seq<ItemView>, found: Seq<char>) -> nat
    decreases items.len(),
{
    if items.len() == 0 {
        0
    } else if words_occur(items.last().name, found) {
        names_found(items.drop_last(), found) + 1
    } else {
        names_found(items.drop_last(), found)
    }
}

/// How many of the items have a progress that is one of `found`.
pub open spec fn progresses_found(items: Seq<ItemView>, found: Seq<Seq<char>>) -> nat
    decreases items.len(),
{
    if items.len() == 0 {
        0
    } else if is_among(found, score::progress_label(items.last())) {
        progresses_found(items.drop_last(), found) + 1
    } else {
        progresses_found(items.drop_last(), found)
    }
}

/// What of a panel is found among the words `ds`.
pub open spec fn variant_score(ds: Seq<Seq<char>>, p: PanelView) -> VariantScore {
    let found = text::ascii_lowered(text::joined(ds, " "@));
    VariantScore {
        title: words_occur(p.title, found),
        level: is_among(level_words(ds), text::ascii_lowered(p.level)),
        cost: match p.cost {
            Some(c) => is_among(plain_words(ds), text::decimal(c as nat)),
            None => true,
        },
        name_hits: names_found(p.items, found) as usize,
        name_total: p.items.len() as usize,
        prog_hits: progresses_found(p.items, plain_words(ds)) as usize,
        prog_total: p.items.len() as usize,
    }
}

/// What of a panel is found among the words that were read.
pub fn score_against_expected(detected: &Vec<String>, expected: &Panel) -> (r: VariantScore)
    ensures
        r == variant_score(ids::texts(detected@), expected@),
        r.name_hits <= r.name_total,
        r.prog_hits <= r.prog_total,
{
    let ghost ds = ids::texts(detected@);
    let run: String = join(detected, " ");
    let low: String = to_ascii_lower(&run);
    let found: Vec<char> = chars_of(&low);
    let mut plain: Vec<String> = Vec::new();
    let mut levels: Vec<String> = Vec::new();
    let mut i: usize = 0;
    while i < detected.len()
        invariant
            i <= detected@.len(),
            ds == ids::texts(detected@),
            ids::texts(plain@) == plain_words(ds).take(i as int),
            ids::texts(levels@) == level_words(ds).take(i as int),
        decreases detected@.len() - i,
    {
        let ghost p0 = ids::texts(plain@);
        let ghost l0 = ids::texts(levels@);
        let d: String = score::normalize_name(&detected[i]);
        assert(d@ == plain_words(ds)[i as int]);
        let l: String = read_level(&d);
        plain.push(d);
        levels.push(l);
        assert(ids::texts(plain@) =~= p0.push(plain_words(ds)[i as int]));
        assert(plain_words(ds).take(i + 1) =~= p0.push(plain_words(ds)[i as int]));
        assert(ids::texts(levels@) =~= l0.push(level_words(ds)[i as int]));
        assert(level_words(ds).take(i + 1) =~= l0.push(level_words(ds)[i as int]));
        i += 1;
    }
    assert(plain_words(ds).take(i as int) =~= plain_words(ds));
    assert(level_words(ds).take(i as int) =~= level_words(ds));
    let title: bool = all_words_occur(&expected.title, &found);
    let level: bool = among(&levels, &to_ascii_lower(&expected.level));
    let cost: bool = match expected.cost {
        Some(c) => among(&plain, &decimal_string(c)),
        None => true,
    };
    let ghost all = expected@.items;
    let n: usize = expected.items.len();
    let mut name_hits: usize = 0;
    let mut prog_hits: usize = 0;
    let mut i: usize = 0;
    while i < n
        invariant
            i <= n,
            n == expected.items@.len(),
            all == sorting::views(expected.items@),
            name_hits <= i,
            prog_hits <= i,
            ids::texts(plain@) == plain_words(ds),
            name_hits == names_found(all.take(i as int), found@),
            prog_hits == progresses_found(all.take(i as int), plain_words(ds)),
        decreases n - i,
    {
        let item: &Item = &expected.items[i];
        assert(all.take(i + 1).drop_last() =~= all.take(i as int));
        assert(all.take(i + 1).last() == item@);
        if all_words_occur(&item.name, &found) {
            name_hits += 1;
        }
        if among(&plain, &progress_string(item.collected, item.needed)) {
            prog_hits += 1;
        }
        i += 1;
    }
    assert(all.take(n as int) =~= all);
    VariantScore {
        title,
        level,
        cost,
        name_hits,
        name_total: n,
        prog_hits,
        prog_total: n,
    }
}

/// How a word is drawn over the picture, by how surely it is read.
#[derive(Debug, Clone, Copy, PartialEq, Eq, Structural)]
pub enum Shade {
    /// It is left out.
    Hidden,
    Low,
    Middle,
    High,
}

/// How a word is drawn over the picture, by how surely it is read.
pub fn shade_of(confidence: i64) -> (r: Shade)
    ensures
        r == if confidence < 25 * PERCENT {
            Shade::Hidden
        } else if confidence >= 75 * PERCENT {
            Shade::High
        } else if confidence >= 50 * PERCENT {
            Shade::Middle
        } else {
            Shade::Low
        },
{
    if confidence < 25 * PERCENT {
        Shade::Hidden
    } else if confidence >= 75 * PERCENT {
        Shade::High
    } else if confidence >= 50 * PERCENT {
        Shade::Middle
    } else {
        Shade::Low
    }
}

/// The row of the label of a word at `y` that is `h` high: above it, or below
/// where there is no room.
pub fn label_row(y: u32, h: u32) -> (r: i32)
    requires
        y + h + 2 <= i32::MAX,
    ensures
        r == if y > 30 {
            y - 26
        } else {
            y + h + 2
        },
{
    if y > 30 {
        y as i32 - 26
    } else {
        (y + h) as i32 + 2
    }
}

} // verus!
