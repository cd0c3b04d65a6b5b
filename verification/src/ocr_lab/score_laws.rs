//! What the scores of panels count.

use crate::ocr_lab::lab;
use crate::ocr_lab::pipeline::ItemView;
use crate::ocr_lab::score;
use crate::ocr_lab::score::{PanelView, Row};
use crate::ocr_lab::components::ComponentView;
use crate::ocr_lab::templates;
use crate::ocr_lab::templates::Template;
use crate::ocr_lab::trials;
use crate::ocr_lab::trials::{Match, Tried};
use crate::sorting;
use crate::text;
use crate::text_laws;
use vstd::prelude::*;
use vstd::seq_lib::*;

verus! {

/// As many items agree as there are places at which the two do.
pub proof fn law_agreeing_counts_places(
    a: Seq<ItemView>,
    b: Seq<ItemView>,
    p: spec_fn(ItemView, ItemView) -> bool,
    n: nat,
)
    ensures
        score::agreeing(a, b, p, n as int) == Seq::new(n, |i: int| i).filter(
            |i: int| p(a[i], b[i]),
        ).len(),
        score::agreeing(a, b, p, n as int) == n <==> forall|i: int|
            0 <= i < n ==> p(#[trigger] a[i], b[i]),
        score::agreeing(a, b, p, n as int) <= n,
    decreases n,
{
    reveal(Seq::filter);
    let f = |i: int| p(a[i], b[i]);
    let s = Seq::new(n, |i: int| i);
    if n > 0 {
        law_agreeing_counts_places(a, b, p, (n - 1) as nat);
        assert(s.drop_last() =~= Seq::new((n - 1) as nat, |i: int| i));
        assert(s.last() == n - 1);
        assert(p(a[n - 1], b[n - 1]) == f(n - 1));
    }
}

/// As many items are compared as the shorter panel has, and names count as
/// they are without the blanks around them and in small letters.
pub proof fn law_items_are_compared_in_pairs(a: PanelView, b: PanelView, i: ItemView, j: ItemView)
    ensures
        score::common(a, b) <= a.items.len(),
        score::common(a, b) <= b.items.len(),
        score::common(a, b) == a.items.len() || score::common(a, b) == b.items.len(),
        i.name == j.name ==> score::same_name(i, j),
        text::trimmed(i.name) == text::trimmed(j.name) ==> score::same_name(i, j),
        score::same_name(i, j) == score::same_name(j, i),
{
}

/// As many items are needed as there are items of which at least one is.
pub proof fn law_needed_items(items: Seq<ItemView>)
    ensures
        score::needed_items(items) == items.filter(|i: ItemView| i.needed >= 1).len(),
    decreases items.len(),
{
    reveal(Seq::filter);
    if items.len() > 0 {
        law_needed_items(items.drop_last());
    }
}

/// A text that is filled up starts with the text, goes on with blanks, and is
/// as long as asked for, unless the text is longer.
pub proof fn law_padding(t: Seq<char>, width: nat)
    ensures
        t.is_prefix_of(score::padded(t, width as int)),
        t.len() <= width ==> score::padded(t, width as int).len() == width,
        t.len() >= width ==> score::padded(t, width as int) == t,
        forall|i: int|
            t.len() <= i < score::padded(t, width as int).len() ==> #[trigger] score::padded(
                t,
                width as int,
            )[i] == ' ',
{
    if t.len() >= width {
        assert(score::padded(t, width as int) =~= t);
    }
}

/// A row that is right in every respect counts in every respect, and one that
/// is wrong in every respect only among the rows and the items.
pub proof fn law_rows_are_counted(report: score::Report, r: Row)
    requires
        report.has_room(r),
    ensures
        report.with(r).rows == report.rows + 1,
        report.with(r).item_total == report.item_total + r.items_total,
        r.title_ok ==> report.with(r).title_ok == report.title_ok + 1,
        !r.title_ok ==> report.with(r).title_ok == report.title_ok,
        r.level_ok ==> report.with(r).level_ok == report.level_ok + 1,
        !r.level_ok ==> report.with(r).level_ok == report.level_ok,
        r.cost_ok ==> report.with(r).cost_ok == report.cost_ok + 1,
        !r.cost_ok ==> report.with(r).cost_ok == report.cost_ok,
        r.item_count_ok ==> report.with(r).count_ok == report.count_ok + 1,
        !r.item_count_ok ==> report.with(r).count_ok == report.count_ok,
        report.with(r).name_ok == report.name_ok + r.items_name_correct,
        report.with(r).need_ok == report.need_ok + r.items_needed_correct,
        report.with(r).coll_ok == report.coll_ok + r.items_collected_correct,
{
}

/// As many names and progresses are found as there are items whose name, or
/// progress, is.
pub proof fn law_finds_are_counted(items: Seq<ItemView>, found: Seq<char>, ds: Seq<Seq<char>>)
    ensures
        lab::names_found(items, found) == items.filter(
            |i: ItemView| lab::words_occur(i.name, found),
        ).len(),
        lab::progresses_found(items, ds) == items.filter(
            |i: ItemView|
                ds.contains(
                    text::decimal(i.collected as nat) + "/"@ + text::decimal(i.needed as nat),
                ),
        ).len(),
    decreases items.len(),
{
    reveal(Seq::filter);
    if items.len() > 0 {
        law_finds_are_counted(items.drop_last(), found, ds);
    }
}

/// The variants that found more come first, and of those that found as much
/// the earlier one; every variant is there, with what it found.
pub proof fn law_variants_are_ranked(found: Seq<usize>, out: Seq<Tried>, i: int, j: int)
    requires
        found.len() <= usize::MAX,
        out == sorting::in_order::<Tried>(trials::tries(found)),
        0 <= i < j < out.len(),
    ensures
        out.len() == found.len(),
        out[i].found >= out[j].found,
        out[i].found == out[j].found ==> out[i].at < out[j].at,
        out[i].at < found.len(),
        out[i].found == found[out[i].at as int],
{
    let all = trials::tries(found);
    sorting::lemma_in_order::<Tried>(all);
    assert(!<Tried as sorting::Ranked>::precedes(out[j], out[i]));
    let a = sorting::lemma_same_elements(out, all, i);
    let b = sorting::lemma_same_elements(out, all, j);
    if out[i].found == out[j].found {
        assert(all.take(found.len() as int) =~= all);
        lemma_tries_stay_in_order(found, found.len() as int, i, j);
    }
}

proof fn lemma_tries_stay_in_order(found: Seq<usize>, n: int, i: int, j: int)
    requires
        found.len() <= usize::MAX,
        0 <= n <= found.len(),
        0 <= i < j < sorting::in_order::<Tried>(trials::tries(found).take(n)).len(),
    ensures
        ({
            let out = sorting::in_order::<Tried>(trials::tries(found).take(n));
            out[i].found == out[j].found ==> out[i].at < out[j].at
        }),
    decreases n,
{
    let all = trials::tries(found);
    let s = all.take(n);
    sorting::lemma_in_order::<Tried>(s);
    if n > 0 {
        let init = all.take(n - 1);
        let x = all[n - 1];
        assert(s.drop_last() =~= init);
        assert(s.last() == x);
        let before = sorting::in_order::<Tried>(init);
        sorting::lemma_in_order::<Tried>(init);
        let out = sorting::in_order::<Tried>(s);
        let p = sorting::lemma_put_in_place::<Tried>(before, x);
        assert(out =~= before.insert(p, x));
        if i < p && j < p {
            lemma_tries_stay_in_order(found, n - 1, i, j);
        } else if i > p {
            lemma_tries_stay_in_order(found, n - 1, i - 1, j - 1);
        } else if i < p && j > p {
            lemma_tries_stay_in_order(found, n - 1, i, j - 1);
        } else if j == p {
            let k = sorting::lemma_same_elements(before, init, i);
            assert(before[i].at == k);
        } else {
            assert(<Tried as sorting::Ranked>::precedes(x, before[j - 1]));
        }
    }
}

/// The glyphs that match a cluster better come first, by the part of their
/// pixels that agree; one without pixels counts as one that does not agree.
pub proof fn law_matches_are_ranked(
    c: ComponentView,
    ts: Seq<Template>,
    out: Seq<Match>,
    i: int,
    j: int,
)
    requires
        out == sorting::in_order::<Match>(trials::matches_of(c, ts)),
        0 <= i < j < out.len(),
        out[i].score.total > 0,
        out[j].score.total > 0,
    ensures
        out.len() == ts.len(),
        out[i].score.agree * out[j].score.total >= out[j].score.agree * out[i].score.total,
        exists|k: int|
            0 <= k < ts.len() && (#[trigger] ts[k]).label == out[i].label && out[i].score
                == templates::score_of(c, ts[k]),
{
    let all = trials::matches_of(c, ts);
    sorting::lemma_in_order::<Match>(all);
    assert(!<Match as sorting::Ranked>::precedes(out[j], out[i]));
    let k = sorting::lemma_same_elements(out, all, i);
    assert(ts[k].label == out[i].label);
}

/// The shares of a report are, in turn, the panels with the right title, level,
/// cost and number of items out of all panels, and the items with the right
/// name, need and count out of all items.
pub proof fn law_shares_of_a_report(rows: Seq<Row>)
    requires
        score::countable(rows),
    ensures
        ({
            let c = score::report_of(rows).counts();
            &&& c.len() == 7
            &&& c[0].1 == rows.len() && c[0].0 == score::tally(
                rows,
                |r: Row| score::one_if(r.title_ok),
            )
            &&& c[1].1 == rows.len() && c[1].0 == score::tally(
                rows,
                |r: Row| score::one_if(r.level_ok),
            )
            &&& c[2].1 == rows.len() && c[2].0 == score::tally(
                rows,
                |r: Row| score::one_if(r.cost_ok),
            )
            &&& c[3].1 == rows.len() && c[3].0 == score::tally(
                rows,
                |r: Row| score::one_if(r.item_count_ok),
            )
            &&& c[4].1 == c[5].1 == c[6].1
            &&& c[4].1 == score::tally(rows, |r: Row| r.items_total as int)
            &&& c[4].0 == score::tally(rows, |r: Row| r.items_name_correct as int)
            &&& c[5].0 == score::tally(rows, |r: Row| r.items_needed_correct as int)
            &&& c[6].0 == score::tally(rows, |r: Row| r.items_collected_correct as int)
        }),
{
    score::law_report_counts(rows);
}

/// A panel of one item is summed up by its title, its level, its cost or a
/// question mark, and the item with its count and its need.
pub proof fn law_summary_of_one_item(p: PanelView, i: ItemView)
    requires
        p.items == seq![i],
    ensures
        score::summary(p) == p.title + " "@ + p.level + " cost="@ + (match p.cost {
            Some(c) => text::decimal(c as nat),
            None => "?"@,
        }) + " ["@ + (i.name + "="@ + (text::decimal(i.collected as nat) + "/"@ + text::decimal(
            i.needed as nat,
        ))) + "]"@,
{
    let one = score::item_labels(p.items);
    assert(one =~= seq![i.name + "="@ + score::progress_label(i)]);
    text_laws::law_joined(one, one, one[0], ", "@);
}

/// What was right and what was not are marked differently.
pub proof fn law_marks()
    ensures
        score::mark(true) != score::mark(false),
        score::mark(true) == seq!['v'],
{
    reveal_strlit("v");
    reveal_strlit("x");
    assert("v"@ =~= seq!['v']);
    assert("x"@ =~= seq!['x']);
    assert(seq!['v'][0] != seq!['x'][0]);
}

} // verus!
