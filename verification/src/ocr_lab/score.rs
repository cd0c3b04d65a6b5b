//! How well what was read agrees with what is known.

use crate::ids;
use crate::ocr_lab::pipeline::{Item, ItemView, Panel};
use crate::sorting;
use crate::text;
use crate::text::{
    chars_of, decimal_string, join, same_text, string_of, to_ascii_lower, trim_chars,
};
use vstd::prelude::*;
use vstd::string::*;

verus! {

/// What a [`Panel`] says.
#[verifier::ext_equal]
pub struct PanelView {
    pub title: Seq<char>,
    pub level: Seq<char>,
    pub description: Option<Seq<char>>,
    pub description_next: Option<Seq<char>>,
    pub cost: Option<u64>,
    pub items: Seq<ItemView>,
}

impl View for Panel {
    type V = PanelView;

    open spec fn view(&self) -> PanelView {
        PanelView {
            title: self.title@,
            level: self.level@,
            description: text::opt_text(self.description),
            description_next: text::opt_text(self.description_next),
            cost: self.cost,
            items: sorting::views(self.items@),
        }
    }
}

/// How one panel was read.
#[derive(Debug)]
pub struct Row {
    pub title_ok: bool,
    pub level_ok: bool,
    pub cost_ok: bool,
    pub item_count_ok: bool,
    pub items_name_correct: u32,
    pub items_needed_correct: u32,
    pub items_collected_correct: u32,
    pub items_total: u32,
    pub expected_summary: String,
    pub predicted_summary: String,
}

/// A text without the white space around it, in small letters.
pub open spec fn plain(t: Seq<char>) -> Seq<char> {
    text::ascii_lowered(text::trimmed(t))
}

fn plain_text(s: &str) -> (r: String)
    ensures
        r@ == plain(s@),
{
    let chars: Vec<char> = chars_of(s);
    let bare: Vec<char> = trim_chars(chars.as_slice());
    let t: String = string_of(bare.as_slice());
    to_ascii_lower(&t)
}

/// A title as it is compared.
pub fn normalize_title(s: &str) -> (r: String)
    ensures
        r@ == plain(s@),
{
    plain_text(s)
}

/// A name as it is compared.
pub fn normalize_name(s: &str) -> (r: String)
    ensures
        r@ == plain(s@),
{
    plain_text(s)
}

/// How many of the first `n` items `p` holds of, each with the one at its
/// place.
pub open spec fn agreeing(
    a: Seq<ItemView>,
    b: Seq<ItemView>,
    p: spec_fn(ItemView, ItemView) -> bool,
    n: int,
) -> nat
    decreases n,
{
    if n <= 0 {
        0
    } else if p(a[n - 1], b[n - 1]) {
        agreeing(a, b, p, n - 1) + 1
    } else {
        agreeing(a, b, p, n - 1)
    }
}

/// Whether two items have the same name.
pub open spec fn same_name(a: ItemView, b: ItemView) -> bool {
    plain(a.name) == plain(b.name)
}

/// A progress such as `2/8`.
pub open spec fn progress_label(i: ItemView) -> Seq<char> {
    text::decimal(i.collected as nat) + "/"@ + text::decimal(i.needed as nat)
}

/// A progress such as `2/8`.
pub fn progress_string(collected: u32, needed: u32) -> (r: String)
    ensures
        r@ == text::decimal(collected as nat) + "/"@ + text::decimal(needed as nat),
{
    let mut r: String = decimal_string(collected as u64);
    let n: String = decimal_string(needed as u64);
    r.append("/");
    r.append(n.as_str());
    r
}

/// The items of a panel in one line.
pub open spec fn item_labels(items: Seq<ItemView>) -> Seq<Seq<char>> {
    Seq::new(items.len(), |i: int| items[i].name + "="@ + progress_label(items[i]))
}

/// The cost of a panel, or a question mark.
pub open spec fn cost_label(cost: Option<u64>) -> Seq<char> {
    match cost {
        Some(c) => text::decimal(c as nat),
        None => "?"@,
    }
}

/// A panel in one line.
pub open spec fn summary(p: PanelView) -> Seq<char> {
    p.title + " "@ + p.level + " cost="@ + cost_label(p.cost) + " ["@ + text::joined(
        item_labels(p.items),
        ", "@,
    ) + "]"@
}

/// A panel in one line.
pub fn summarize(panel: &Panel) -> (r: String)
    ensures
        r@ == summary(panel@),
{
    let ghost all = panel@.items;
    let mut parts: Vec<String> = Vec::new();
    let mut i: usize = 0;
    while i < panel.items.len()
        invariant
            i <= panel.items@.len(),
            all == sorting::views(panel.items@),
            ids::texts(parts@) == item_labels(all).take(i as int),
        decreases panel.items@.len() - i,
    {
        let item: &Item = &panel.items[i];
        let ghost before = ids::texts(parts@);
        let mut part: String = item.name.clone();
        let progress: String = progress_string(item.collected, item.needed);
        part.append("=");
        part.append(progress.as_str());
        assert(part@ == item_labels(all)[i as int]);
        parts.push(part);
        assert(ids::texts(parts@) =~= before.push(item_labels(all)[i as int]));
        assert(item_labels(all).take(i + 1) =~= before.push(item_labels(all)[i as int]));
        i += 1;
    }
    assert(item_labels(all).take(i as int) =~= item_labels(all));
    let items: String = join(&parts, ", ");
    let cost: String = match panel.cost {
        Some(c) => decimal_string(c),
        None => "?".to_owned(),
    };
    let mut r: String = panel.title.clone();
    r.append(" ");
    r.append(panel.level.as_str());
    r.append(" cost=");
    r.append(cost.as_str());
    r.append(" [");
    r.append(items.as_str());
    r.append("]");
    r
}

/// The number of items that two panels both have.
pub open spec fn common(a: PanelView, b: PanelView) -> int {
    if a.items.len() < b.items.len() {
        a.items.len() as int
    } else {
        b.items.len() as int
    }
}

/// Holds what was read against what is expected. Items are compared one by one
/// in order.
pub fn compare(expected: &Panel, predicted: &Panel) -> (r: Row)
    requires
        expected@.items.len() <= u32::MAX,
    ensures
        r.title_ok == (plain(expected@.title) == plain(predicted@.title)),
        r.level_ok == (text::ascii_lowered(expected@.level) == text::ascii_lowered(
            predicted@.level,
        )),
        r.cost_ok == (expected@.cost == predicted@.cost),
        r.item_count_ok == (expected@.items.len() == predicted@.items.len()),
        r.items_total == expected@.items.len(),
        r.items_name_correct <= r.items_total,
        r.items_needed_correct <= r.items_total,
        r.items_collected_correct <= r.items_total,
        r.items_name_correct == agreeing(
            expected@.items,
            predicted@.items,
            |a: ItemView, b: ItemView| same_name(a, b),
            common(expected@, predicted@),
        ),
        r.items_needed_correct == agreeing(
            expected@.items,
            predicted@.items,
            |a: ItemView, b: ItemView| a.needed == b.needed,
            common(expected@, predicted@),
        ),
        r.items_collected_correct == agreeing(
            expected@.items,
            predicted@.items,
            |a: ItemView, b: ItemView| a.collected == b.collected,
            common(expected@, predicted@),
        ),
        r.expected_summary@ == summary(expected@),
        r.predicted_summary@ == summary(predicted@),
{
    let ghost e = expected@.items;
    let ghost p = predicted@.items;
    let title_ok: bool = same_text(
        &normalize_title(&expected.title),
        &normalize_title(&predicted.title),
    );
    let level_ok: bool = same_text(
        &to_ascii_lower(&expected.level),
        &to_ascii_lower(&predicted.level),
    );
    let cost_ok: bool = match (expected.cost, predicted.cost) {
        (Some(a), Some(b)) => a == b,
        (None, None) => true,
        _ => false,
    };
    let n: usize = if expected.items.len() < predicted.items.len() {
        expected.items.len()
    } else {
        predicted.items.len()
    };
    let mut name_ok: u32 = 0;
    let mut need_ok: u32 = 0;
    let mut coll_ok: u32 = 0;
    let ghost by_name = |a: ItemView, b: ItemView| same_name(a, b);
    let ghost by_need = |a: ItemView, b: ItemView| a.needed == b.needed;
    let ghost by_coll = |a: ItemView, b: ItemView| a.collected == b.collected;
    let mut i: usize = 0;
    while i < n
        invariant
            i <= n <= u32::MAX,
            n <= expected.items@.len(),
            n <= predicted.items@.len(),
            e == sorting::views(expected.items@),
            p == sorting::views(predicted.items@),
            by_name == |a: ItemView, b: ItemView| same_name(a, b),
            by_need == |a: ItemView, b: ItemView| a.needed == b.needed,
            by_coll == |a: ItemView, b: ItemView| a.collected == b.collected,
            name_ok <= i,
            need_ok <= i,
            coll_ok <= i,
            name_ok == agreeing(e, p, by_name, i as int),
            need_ok == agreeing(e, p, by_need, i as int),
            coll_ok == agreeing(e, p, by_coll, i as int),
        decreases n - i,
    {
        let a: &Item = &expected.items[i];
        let b: &Item = &predicted.items[i];
        assert(e[i as int] == a@ && p[i as int] == b@);
        if same_text(&normalize_name(&a.name), &normalize_name(&b.name)) {
            name_ok += 1;
        }
        if a.needed == b.needed {
            need_ok += 1;
        }
        if a.collected == b.collected {
            coll_ok += 1;
        }
        i += 1;
    }
    Row {
        title_ok,
        level_ok,
        cost_ok,
        item_count_ok: expected.items.len() == predicted.items.len(),
        items_name_correct: name_ok,
        items_needed_correct: need_ok,
        items_collected_correct: coll_ok,
        items_total: expected.items.len() as u32,
        expected_summary: summarize(expected),
        predicted_summary: summarize(predicted),
    }
}

/// How many items are needed at all.
pub open spec fn needed_items(items: Seq<ItemView>) -> nat
    decreases items.len(),
{
    if items.len() == 0 {
        0
    } else if items.last().needed > 0 {
        needed_items(items.drop_last()) + 1
    } else {
        needed_items(items.drop_last())
    }
}

/// How many items are needed at all.
pub fn nonzero_items_count(items: &Vec<Item>) -> (n: usize)
    ensures
        n == needed_items(sorting::views(items@)),
{
    let ghost all = sorting::views(items@);
    let mut n: usize = 0;
    let mut i: usize = 0;
    while i < items.len()
        invariant
            i <= items@.len(),
            n <= i,
            all == sorting::views(items@),
            n == needed_items(all.take(i as int)),
        decreases items@.len() - i,
    {
        assert(all.take(i + 1).drop_last() =~= all.take(i as int));
        assert(all.take(i + 1).last() == items@[i as int]@);
        if items[i].needed > 0 {
            n += 1;
        }
        i += 1;
    }
    assert(all.take(i as int) =~= all);
    n
}

/// The mark of what is right or wrong.
pub open spec fn mark(ok: bool) -> Seq<char> {
    if ok {
        "v"@
    } else {
        "x"@
    }
}

/// The mark of what is right or wrong.
pub fn yn(b: bool) -> (r: &'static str)
    ensures
        r@ == mark(b),
{
    if b {
        "v"
    } else {
        "x"
    }
}

/// `n` of `d`.
pub open spec fn share(n: u32, d: u32) -> Seq<char> {
    text::decimal(n as nat) + "/"@ + text::decimal(d as nat)
}

/// Spaces.
pub open spec fn blanks(n: int) -> Seq<char> {
    Seq::new(n as nat, |i: int| ' ')
}

/// A text with spaces behind it, so that it has at least `width` characters.
pub open spec fn padded(t: Seq<char>, width: int) -> Seq<char> {
    t + blanks(
        if t.len() < width {
            width - t.len()
        } else {
            0
        },
    )
}

fn pad(t: &str, width: usize) -> (r: String)
    ensures
        r@ == padded(t@, width as int),
{
    let mut n: usize = chars_of(t).len();
    let ghost start = n as int;
    let mut r: String = t.to_owned();
    assert(r@ =~= t@ + blanks(0));
    while n < width
        invariant
            start == t@.len(),
            start <= n,
            n <= width || n == start,
            r@ == t@ + blanks(n - start),
        decreases width - n,
    {
        r.push(' ');
        assert(r@ =~= t@ + blanks(n + 1 - start));
        n += 1;
    }
    r
}

impl Row {
    /// The row as it is shown under the name of its image.
    pub open spec fn shown(self, image: Seq<char>) -> Seq<char> {
        padded(image, 38) + " title:"@ + mark(self.title_ok) + " level:"@ + mark(self.level_ok)
            + " cost:"@ + mark(self.cost_ok) + " items:"@ + mark(self.item_count_ok)
            + "  names:"@ + share(self.items_name_correct, self.items_total) + " need:"@ + share(
            self.items_needed_correct,
            self.items_total,
        ) + " got:"@ + share(self.items_collected_correct, self.items_total)
            + "\n   expected: "@ + self.expected_summary@ + "\n   got:      "@
            + self.predicted_summary@
    }

    /// The row as it is shown under the name of its image.
    pub fn render(&self, image: &str) -> (r: String)
        ensures
            r@ == self.shown(image@),
    {
        let names: String = progress_string(self.items_name_correct, self.items_total);
        let need: String = progress_string(self.items_needed_correct, self.items_total);
        let got: String = progress_string(self.items_collected_correct, self.items_total);
        let mut r: String = pad(image, 38);
        r.append(" title:");
        r.append(yn(self.title_ok));
        r.append(" level:");
        r.append(yn(self.level_ok));
        r.append(" cost:");
        r.append(yn(self.cost_ok));
        r.append(" items:");
        r.append(yn(self.item_count_ok));
        r.append("  names:");
        r.append(names.as_str());
        r.append(" need:");
        r.append(need.as_str());
        r.append(" got:");
        r.append(got.as_str());
        r.append("\n   expected: ");
        r.append(self.expected_summary.as_str());
        r.append("\n   got:      ");
        r.append(self.predicted_summary.as_str());
        r
    }
}

/// How all panels were read.
#[derive(Debug)]
pub struct Report {
    pub rows: u32,
    pub title_ok: u32,
    pub level_ok: u32,
    pub cost_ok: u32,
    pub count_ok: u32,
    pub name_ok: u32,
    pub need_ok: u32,
    pub coll_ok: u32,
    pub item_total: u32,
}

/// One for what is so.
pub open spec fn one_if(b: bool) -> int {
    if b {
        1
    } else {
        0
    }
}

impl Default for Report {
    fn default() -> (r: Self)
        ensures
            r == (Report {
                rows: 0,
                title_ok: 0,
                level_ok: 0,
                cost_ok: 0,
                count_ok: 0,
                name_ok: 0,
                need_ok: 0,
                coll_ok: 0,
                item_total: 0,
            }),
    {
        Report {
            rows: 0,
            title_ok: 0,
            level_ok: 0,
            cost_ok: 0,
            count_ok: 0,
            name_ok: 0,
            need_ok: 0,
            coll_ok: 0,
            item_total: 0,
        }
    }
}

impl Report {
    /// Whether no counter leaves its range when a panel is taken in.
    pub open spec fn has_room(self, r: Row) -> bool {
        &&& self.rows < u32::MAX
        &&& self.title_ok + one_if(r.title_ok) <= u32::MAX
        &&& self.level_ok + one_if(r.level_ok) <= u32::MAX
        &&& self.cost_ok + one_if(r.cost_ok) <= u32::MAX
        &&& self.count_ok + one_if(r.item_count_ok) <= u32::MAX
        &&& self.name_ok + r.items_name_correct <= u32::MAX
        &&& self.need_ok + r.items_needed_correct <= u32::MAX
        &&& self.coll_ok + r.items_collected_correct <= u32::MAX
        &&& self.item_total + r.items_total <= u32::MAX
    }

    /// The report with one more panel.
    pub open spec fn with(self, r: Row) -> Report {
        Report {
            rows: (self.rows + 1) as u32,
            title_ok: (self.title_ok + one_if(r.title_ok)) as u32,
            level_ok: (self.level_ok + one_if(r.level_ok)) as u32,
            cost_ok: (self.cost_ok + one_if(r.cost_ok)) as u32,
            count_ok: (self.count_ok + one_if(r.item_count_ok)) as u32,
            name_ok: (self.name_ok + r.items_name_correct) as u32,
            need_ok: (self.need_ok + r.items_needed_correct) as u32,
            coll_ok: (self.coll_ok + r.items_collected_correct) as u32,
            item_total: (self.item_total + r.items_total) as u32,
        }
    }

    /// Takes in one more panel.
    pub fn add(&mut self, r: &Row)
        requires
            old(self).has_room(*r),
        ensures
            *final(self) == old(self).with(*r),
    {
        self.rows = self.rows + 1;
        if r.title_ok {
            self.title_ok = self.title_ok + 1;
        }
        if r.level_ok {
            self.level_ok = self.level_ok + 1;
        }
        if r.cost_ok {
            self.cost_ok = self.cost_ok + 1;
        }
        if r.item_count_ok {
            self.count_ok = self.count_ok + 1;
        }
        self.name_ok = self.name_ok + r.items_name_correct;
        self.need_ok = self.need_ok + r.items_needed_correct;
        self.coll_ok = self.coll_ok + r.items_collected_correct;
        self.item_total = self.item_total + r.items_total;
    }

    /// What the report counts: how many of how many.
    pub open spec fn counts(self) -> Seq<(u32, u32)> {
        seq![
            (self.title_ok, self.rows),
            (self.level_ok, self.rows),
            (self.cost_ok, self.rows),
            (self.count_ok, self.rows),
            (self.name_ok, self.item_total),
            (self.need_ok, self.item_total),
            (self.coll_ok, self.item_total),
        ]
    }

    /// What the report counts: how many of how many.
    pub fn shares(&self) -> (r: Vec<(u32, u32)>)
        ensures
            r@ == self.counts(),
    {
        let mut r: Vec<(u32, u32)> = Vec::new();
        r.push((self.title_ok, self.rows));
        r.push((self.level_ok, self.rows));
        r.push((self.cost_ok, self.rows));
        r.push((self.count_ok, self.rows));
        r.push((self.name_ok, self.item_total));
        r.push((self.need_ok, self.item_total));
        r.push((self.coll_ok, self.item_total));
        assert(r@ =~= self.counts());
        r
    }

    /// The report as it is shown, with the seven shares in percent.
    pub open spec fn shown(self, percents: Seq<Seq<char>>) -> Seq<char> {
        "title:        "@ + rate(self.title_ok, self.rows, percents[0]) + "\nlevel:        "@
            + rate(self.level_ok, self.rows, percents[1]) + "\ncost:         "@ + rate(
            self.cost_ok,
            self.rows,
            percents[2],
        ) + "\nitem-count:   "@ + rate(self.count_ok, self.rows, percents[3])
            + "\nitem names:   "@ + rate(self.name_ok, self.item_total, percents[4])
            + "\nitem needed:  "@ + rate(self.need_ok, self.item_total, percents[5])
            + "\nitem collect: "@ + rate(self.coll_ok, self.item_total, percents[6])
    }

    /// The report as it is shown, with the seven shares in percent.
    pub fn render(&self, percents: &Vec<String>) -> (r: String)
        requires
            percents@.len() == 7,
        ensures
            r@ == self.shown(ids::texts(percents@)),
    {
        let mut r: String = "title:        ".to_owned();
        r.append(rate_string(self.title_ok, self.rows, &percents[0]).as_str());
        r.append("\nlevel:        ");
        r.append(rate_string(self.level_ok, self.rows, &percents[1]).as_str());
        r.append("\ncost:         ");
        r.append(rate_string(self.cost_ok, self.rows, &percents[2]).as_str());
        r.append("\nitem-count:   ");
        r.append(rate_string(self.count_ok, self.rows, &percents[3]).as_str());
        r.append("\nitem names:   ");
        r.append(rate_string(self.name_ok, self.item_total, &percents[4]).as_str());
        r.append("\nitem needed:  ");
        r.append(rate_string(self.need_ok, self.item_total, &percents[5]).as_str());
        r.append("\nitem collect: ");
        r.append(rate_string(self.coll_ok, self.item_total, &percents[6]).as_str());
        r
    }
}

/// The order in which two panels are taken in does not matter to the report.
pub proof fn law_order_of_rows_does_not_matter(report: Report, a: Row, b: Row)
    requires
        report.has_room(a),
        report.with(a).has_room(b),
    ensures
        report.has_room(b),
        report.with(b).has_room(a),
        report.with(a).with(b) == report.with(b).with(a),
{
}

/// How much some rows come to, each counted by `of`.
pub open spec fn tally(rows: Seq<Row>, of: spec_fn(Row) -> int) -> int
    decreases rows.len(),
{
    if rows.len() == 0 {
        0
    } else {
        tally(rows.drop_last(), of) + of(rows.last())
    }
}

/// The report of some panels, taken in one after the other.
pub open spec fn report_of(rows: Seq<Row>) -> Report
    decreases rows.len(),
{
    if rows.len() == 0 {
        Report {
            rows: 0,
            title_ok: 0,
            level_ok: 0,
            cost_ok: 0,
            count_ok: 0,
            name_ok: 0,
            need_ok: 0,
            coll_ok: 0,
            item_total: 0,
        }
    } else {
        report_of(rows.drop_last()).with(rows.last())
    }
}

/// Whether the counts of some panels can be told.
pub open spec fn countable(rows: Seq<Row>) -> bool {
    &&& rows.len() <= u32::MAX
    &&& tally(rows, |r: Row| r.items_name_correct as int) <= u32::MAX
    &&& tally(rows, |r: Row| r.items_needed_correct as int) <= u32::MAX
    &&& tally(rows, |r: Row| r.items_collected_correct as int) <= u32::MAX
    &&& tally(rows, |r: Row| r.items_total as int) <= u32::MAX
}

/// A report counts the panels, those that were right in each respect, and the
/// items.
pub proof fn law_report_counts(rows: Seq<Row>)
    requires
        countable(rows),
    ensures
        ({
            let r = report_of(rows);
            &&& r.rows == rows.len()
            &&& r.title_ok == tally(rows, |r: Row| one_if(r.title_ok)) <= rows.len()
            &&& r.level_ok == tally(rows, |r: Row| one_if(r.level_ok)) <= rows.len()
            &&& r.cost_ok == tally(rows, |r: Row| one_if(r.cost_ok)) <= rows.len()
            &&& r.count_ok == tally(rows, |r: Row| one_if(r.item_count_ok)) <= rows.len()
            &&& r.name_ok == tally(rows, |r: Row| r.items_name_correct as int)
            &&& r.need_ok == tally(rows, |r: Row| r.items_needed_correct as int)
            &&& r.coll_ok == tally(rows, |r: Row| r.items_collected_correct as int)
            &&& r.item_total == tally(rows, |r: Row| r.items_total as int)
        }),
    decreases rows.len(),
{
    if rows.len() > 0 {
        law_report_counts(rows.drop_last());
    }
}

/// `n` of `d` with the share in percent, where there is any.
pub open spec fn rate(n: u32, d: u32, percent: Seq<char>) -> Seq<char> {
    if d == 0 {
        "n/a"@
    } else {
        share(n, d) + " ("@ + percent + "%)"@
    }
}

fn rate_string(n: u32, d: u32, percent: &String) -> (r: String)
    ensures
        r@ == rate(n, d, percent@),
{
    if d == 0 {
        return "n/a".to_owned();
    }
    let mut r: String = progress_string(n, d);
    r.append(" (");
    r.append(percent.as_str());
    r.append("%)");
    r
}

} // verus!
