//! What the layout of the wishlist shows of its items.

use crate::sorting;
use crate::state::needs::{ActiveItem, ActiveView};
use crate::text;
use crate::vr::render;
use crate::vr::render::{GridPlan, MAX_COLS};
use vstd::prelude::*;

verus! {

proof fn lemma_cell(plan: GridPlan, items: Seq<ActiveView>, cols: u32, i: int)
    requires
        plan.lays_out(items, cols),
        0 <= i < plan.cells@.len() || 0 <= i < plan.hits@.len(),
    ensures
        i < items.len(),
        i < plan.cells@.len(),
        i < plan.hits@.len(),
        plan.cells@[i]@ == render::cell_plan(items[i], i, cols),
        plan.hits@[i]@ == render::cell_hit(items[i], i, cols),
{
    assert(sorting::views(plan.cells@).len() == plan.cells@.len());
    assert(sorting::views(plan.hits@).len() == plan.hits@.len());
    assert(sorting::views(plan.cells@)[i] == plan.cells@[i]@);
    assert(sorting::views(plan.hits@)[i] == plan.hits@[i]@);
}

/// A cell shows how many of its item are owned, but no more than are needed,
/// and how many are needed, as two numbers with a slash between them. Where
/// nothing is needed it shows a dash.
pub proof fn law_cells_show_the_counts(plan: GridPlan, items: Seq<ActiveView>, cols: u32, i: int)
    requires
        plan.lays_out(items, cols),
        0 <= i < plan.cells@.len(),
    ensures
        i < items.len(),
        plan.cells@[i].needed == items[i].needed,
        plan.cells@[i].done == (0 < items[i].needed <= items[i].collected),
        items[i].collected <= items[i].needed && items[i].needed > 0 ==> plan.cells@[i].collected
            == items[i].collected && plan.cells@[i].label@ == text::decimal(
            items[i].collected as nat,
        ) + seq!['/'] + text::decimal(items[i].needed as nat),
        items[i].collected > items[i].needed > 0 ==> plan.cells@[i].collected == items[i].needed
            && plan.cells@[i].label@ == text::decimal(items[i].needed as nat) + seq!['/']
            + text::decimal(items[i].needed as nat),
        items[i].needed == 0 ==> plan.cells@[i].label@ == seq!['—'] && plan.cells@[i].collected
            == if items[i].collected == 0 {
            0u32
        } else {
            1u32
        },
{
    lemma_cell(plan, items, cols, i);
    reveal_strlit("/");
    reveal_strlit("—");
    assert("/"@ =~= seq!['/']);
    assert("—"@ =~= seq!['—']);
    assert(plan.cells@[i]@.label == plan.cells@[i].label@);
}

/// The cells come in the order of the items, each with the name and the icon
/// of its item, and what is hit in a cell is that item. The icon lies in the
/// cell, below its name.
pub proof fn law_cells_are_their_items(plan: GridPlan, items: Seq<ActiveView>, cols: u32, i: int)
    requires
        plan.lays_out(items, cols),
        cols <= MAX_COLS,
        0 <= i < plan.cells@.len(),
    ensures
        i < items.len(),
        i < plan.hits@.len(),
        plan.cells@[i].name@ == items[i].name,
        plan.cells@[i].icon_path@ == items[i].icon_path,
        plan.hits@[i].item_id@ == items[i].item_id,
        plan.hits@[i].needed == items[i].needed,
        plan.hits@[i].hit_rect == plan.cells@[i].rect,
        plan.hits@[i].rect.x == plan.cells@[i].rect.x,
        plan.hits@[i].rect.w == plan.cells@[i].rect.w,
        plan.hits@[i].rect.y == plan.cells@[i].rect.y + 22,
        plan.hits@[i].rect.h == 100,
{
    lemma_cell(plan, items, cols, i);
    lemma_shown(plan, items, cols);
    render::law_cells_lie_on_the_picture(i, plan.cells@.len() as int, cols);
}

proof fn lemma_shown(plan: GridPlan, items: Seq<ActiveView>, cols: u32)
    requires
        plan.lays_out(items, cols),
    ensures
        plan.cells@.len() == plan.hits@.len(),
        plan.cells@.len() <= items.len(),
        plan.cells@.len() <= render::columns(cols) * 8,
        plan.cells@.len() == items.len() || plan.cells@.len() == render::columns(cols) * 8,
        plan.more == items.len() - plan.cells@.len(),
{
    assert(sorting::views(plan.cells@).len() == plan.cells@.len());
    assert(sorting::views(plan.hits@).len() == plan.hits@.len());
}

/// As many items are shown as fit in eight rows of `cols` cells (of one, where
/// no columns are asked for), and the others are counted.
pub proof fn law_eight_rows_are_shown(plan: GridPlan, items: Seq<ActiveView>, cols: u32)
    requires
        plan.lays_out(items, cols),
    ensures
        plan.cells@.len() == plan.hits@.len(),
        plan.cells@.len() + plan.more == items.len(),
        cols > 0 ==> plan.cells@.len() <= 8 * cols,
        cols > 0 && plan.more > 0 ==> plan.cells@.len() == 8 * cols,
        cols == 0 ==> plan.cells@.len() <= 8,
        cols == 0 && plan.more > 0 ==> plan.cells@.len() == 8,
{
    lemma_shown(plan, items, cols);
}

/// The cells fill the rows from left to right and the rows from top to bottom:
/// the first stands in the corner, and each further one beside the one before,
/// or below the first of its row where the row is full.
pub proof fn law_cells_fill_row_by_row(plan: GridPlan, items: Seq<ActiveView>, cols: u32, i: int)
    requires
        plan.lays_out(items, cols),
        0 < cols <= MAX_COLS,
        0 <= i < plan.cells@.len(),
    ensures
        plan.cells@[i].rect.w == 160,
        plan.cells@[i].rect.h == 160,
        i == 0 ==> plan.cells@[i].rect.x == 8 && plan.cells@[i].rect.y == 8,
        i > 0 && i % (cols as int) != 0 ==> plan.cells@[i].rect.x == plan.cells@[i - 1].rect.x + 168
            && plan.cells@[i].rect.y == plan.cells@[i - 1].rect.y,
        i > 0 && i % (cols as int) == 0 ==> plan.cells@[i].rect.x == 8 && plan.cells@[i].rect.y
            == plan.cells@[i - 1].rect.y + 168,
{
    lemma_cell(plan, items, cols, i);
    lemma_shown(plan, items, cols);
    let n = plan.cells@.len() as int;
    let c = cols as int;
    render::law_cells_lie_on_the_picture(i, n, cols);
    lemma_place(i, n, cols);
    if i > 0 {
        lemma_cell(plan, items, cols, i - 1);
        lemma_place(i - 1, n, cols);
        vstd::arithmetic::div_mod::lemma_fundamental_div_mod(i, c);
        vstd::arithmetic::div_mod::lemma_fundamental_div_mod(i - 1, c);
        let (q, r, p, m) = (i / c, i % c, (i - 1) / c, (i - 1) % c);
        assert(0 <= r < c && 0 <= m < c);
        if r != 0 {
            vstd::arithmetic::div_mod::lemma_fundamental_div_mod_converse(i - 1, c, q, r - 1);
        } else {
            assert(c * q - 1 == c * (q - 1) + (c - 1)) by (nonlinear_arith);
            vstd::arithmetic::div_mod::lemma_fundamental_div_mod_converse(i - 1, c, q - 1, c - 1);
        }
    } else {
        vstd::arithmetic::div_mod::lemma_fundamental_div_mod_converse(0, c, 0, 0);
    }
}

/// Where a cell stands.
proof fn lemma_place(i: int, n: int, cols: u32)
    requires
        0 <= i < n,
        n <= cols * 8,
        0 < cols <= MAX_COLS,
    ensures
        render::cell_area(i, cols).x == 8 + (i % (cols as int)) * 168,
        render::cell_area(i, cols).y == 8 + (i / (cols as int)) * 168,
{
    let c = cols as int;
    render::lemma_cell_place(i, n, cols);
}

/// The picture ends behind the last column and the last row that is used.
pub proof fn law_picture_holds_the_cells(plan: GridPlan, items: Seq<ActiveView>, cols: u32, i: int)
    requires
        plan.lays_out(items, cols),
        0 < cols <= MAX_COLS,
    ensures
        items.len() == 0 ==> plan.width == 600 && plan.height == 120,
        items.len() > 0 ==> plan.width == 8 + 168 * cols,
        0 <= i < plan.cells@.len() ==> plan.cells@[i].rect.x + 168 <= plan.width
            && plan.cells@[i].rect.y + 168 <= plan.height,
        items.len() > 0 ==> plan.height == plan.cells@[plan.cells@.len() - 1].rect.y + 168,
{
    lemma_shown(plan, items, cols);
    let n = plan.cells@.len() as int;
    let c = cols as int;
    if 0 <= i < n {
        lemma_cell(plan, items, cols, i);
        lemma_place(i, n, cols);
        render::law_cells_lie_on_the_picture(i, n, cols);
    }
    if n > 0 {
        lemma_cell(plan, items, cols, n - 1);
        lemma_place(n - 1, n, cols);
        render::law_cells_lie_on_the_picture(n - 1, n, cols);
        vstd::arithmetic::div_mod::lemma_fundamental_div_mod(n - 1, c);
        let (q, r) = ((n - 1) / c, (n - 1) % c);
        assert(c * q + r + c == c * (q + 1) + r) by (nonlinear_arith);
        vstd::arithmetic::div_mod::lemma_fundamental_div_mod_converse(n + c - 1, c, q + 1, r);
    }
}

/// Of the cuts that fit the longest is taken, and none just where none fits.
pub proof fn law_longest_cut(fits: Seq<bool>, k: int)
    requires
        0 <= k <= fits.len(),
    ensures
        match render::longest_fit(fits, k) {
            Some(n) => 0 <= n < k && fits[n] && forall|j: int| n < j < k ==> !(#[trigger] fits[j]),
            None => forall|j: int| 0 <= j < k ==> !(#[trigger] fits[j]),
        },
    decreases k,
{
    if k > 0 && !fits[k - 1] {
        law_longest_cut(fits, k - 1);
    }
}

/// A text that is cut begins as the whole one does and ends in an ellipsis; one
/// that fits is not cut.
pub proof fn law_cut_texts(t: &str, whole: bool, ellipsis: bool, fits: &Vec<bool>, r: String)
    requires
        call_ensures(render::truncate_to_width, (t, whole, ellipsis, fits), r),
        fits@.len() == t@.len(),
    ensures
        whole ==> r@ == t@,
        !whole && !ellipsis ==> r@.len() == 0,
        !whole && ellipsis ==> r@.len() > 0 && r@.last() == '…' && r@.drop_last().is_prefix_of(t@)
            && r@.len() <= t@.len() + 1,
        !whole && ellipsis && r@.len() > 1 ==> fits@[r@.len() - 1],
{
    reveal_strlit("…");
    assert("…"@ =~= seq!['…']);
    law_longest_cut(fits@, t@.len() as int);
    if !whole && ellipsis {
        match render::longest_fit(fits@, t@.len() as int) {
            Some(k) => {
                assert(r@.drop_last() =~= t@.take(k));
            },
            None => {
                assert(r@.drop_last() =~= Seq::<char>::empty());
            },
        }
    }
}

/// A wishlist that is capped keeps its first items, as many as the cap; without
/// a cap it keeps all.
pub proof fn law_capped_wishlists(items: &mut Vec<ActiveItem>, max: u32, r: ())
    requires
        call_ensures(render::cap_wishlist, (items, max), r),
    ensures
        final(items)@.is_prefix_of(old(items)@),
        max > 0 ==> final(items)@.len() <= max,
        max == 0 || old(items)@.len() <= max ==> final(items)@ == old(items)@,
        max > 0 && old(items)@.len() >= max ==> final(items)@.len() == max,
{
}

} // verus!
