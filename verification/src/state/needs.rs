//! What is still needed: the item wishlist of the overlay, and the totals by
//! which surplus items are told.

use crate::data;
use crate::ids;
use crate::sorting;
use crate::text;
use crate::data::{HideoutModule, ItemId, ModuleView, ReqView, Requirement, UpgradeId, UpgradeView};
use crate::ids::IdMap;
use crate::sorting::{sort_stably, Ranked};
use crate::state::{AppState, NeedHorizon, ResearchNodeState, StateView};
use crate::text::{push_decimal, text_before};
use vstd::prelude::*;
use vstd::string::*;

verus! {

/// One entry of a tracked recipe: what it asks for, whom it is for, and
/// whether that is pinned.
pub struct Need {
    pub req: Requirement,
    pub label: String,
    pub pinned: bool,
}

/// What a [`Need`] says.
#[verifier::ext_equal]
pub struct NeedView {
    pub req: ReqView,
    pub label: Seq<char>,
    pub pinned: bool,
}

impl View for Need {
    type V = NeedView;

    open spec fn view(&self) -> NeedView {
        NeedView { req: self.req@, label: self.label@, pinned: self.pinned }
    }
}

/// The entries of a recipe, each for `label`.
pub open spec fn needs_for(reqs: Seq<ReqView>, label: Seq<char>, pinned: bool) -> Seq<NeedView> {
    Seq::new(reqs.len(), |i: int| NeedView { req: reqs[i], label, pinned })
}

/// How many of `item` the entries ask for together.
pub open spec fn demand(needs: Seq<NeedView>, item: Seq<char>) -> nat
    decreases needs.len(),
{
    if needs.len() == 0 {
        0
    } else if needs.last().req.item == item {
        demand(needs.drop_last(), item) + needs.last().req.quantity as nat
    } else {
        demand(needs.drop_last(), item)
    }
}

/// How many of `item` the pinned entries ask for together.
pub open spec fn pinned_demand(needs: Seq<NeedView>, item: Seq<char>) -> nat
    decreases needs.len(),
{
    if needs.len() == 0 {
        0
    } else if needs.last().req.item == item && needs.last().pinned {
        pinned_demand(needs.drop_last(), item) + needs.last().req.quantity as nat
    } else {
        pinned_demand(needs.drop_last(), item)
    }
}

/// Whom `item` is for, one label for each entry that asks for it.
pub open spec fn labels_of(needs: Seq<NeedView>, item: Seq<char>) -> Seq<Seq<char>>
    decreases needs.len(),
{
    if needs.len() == 0 {
        Seq::empty()
    } else if needs.last().req.item == item {
        labels_of(needs.drop_last(), item).push(needs.last().label)
    } else {
        labels_of(needs.drop_last(), item)
    }
}

/// The items that the entries ask for, each once, in the order in which they
/// first occur.
pub open spec fn wanted_items(needs: Seq<NeedView>) -> Seq<Seq<char>>
    decreases needs.len(),
{
    if needs.len() == 0 {
        Seq::empty()
    } else {
        let before = wanted_items(needs.drop_last());
        if before.contains(needs.last().req.item) {
            before
        } else {
            before.push(needs.last().req.item)
        }
    }
}

proof fn lemma_wanted_items(needs: Seq<NeedView>)
    ensures
        wanted_items(needs).no_duplicates(),
        forall|item: Seq<char>|
            !(#[trigger] wanted_items(needs).contains(item)) ==> demand(needs, item) == 0
                && pinned_demand(needs, item) == 0 && labels_of(needs, item).len() == 0,
    decreases needs.len(),
{
    if needs.len() > 0 {
        lemma_wanted_items(needs.drop_last());
        let before = wanted_items(needs.drop_last());
        ids::lemma_contains_push_any(before, needs.last().req.item);
        assert forall|item: Seq<char>|
            !(#[trigger] wanted_items(needs).contains(item)) implies demand(needs, item) == 0
            && pinned_demand(needs, item) == 0 && labels_of(needs, item).len() == 0 by {
            assert(!before.contains(item));
        }
    }
}

proof fn lemma_demand_grows(needs: Seq<NeedView>, n: int, item: Seq<char>)
    requires
        0 <= n <= needs.len(),
    ensures
        demand(needs.take(n), item) <= demand(needs, item),
        pinned_demand(needs.take(n), item) <= demand(needs.take(n), item),
    decreases needs.len() - n,
{
    if n < needs.len() {
        lemma_demand_grows(needs, n + 1, item);
        assert(needs.take(n + 1).drop_last() =~= needs.take(n));
    } else {
        assert(needs.take(n) =~= needs);
    }
    lemma_pinned_demand(needs.take(n), item);
}

proof fn lemma_pinned_demand(needs: Seq<NeedView>, item: Seq<char>)
    ensures
        pinned_demand(needs, item) <= demand(needs, item),
    decreases needs.len(),
{
    if needs.len() > 0 {
        lemma_pinned_demand(needs.drop_last(), item);
    }
}

/// The rollup of one item over the entries.
pub struct Total {
    pub item_id: ItemId,
    pub needed: u32,
    pub sources: Vec<String>,
    pub pinned_needed: u32,
}

/// What a [`Total`] says.
#[verifier::ext_equal]
pub struct TotalView {
    pub item: Seq<char>,
    pub needed: u32,
    pub sources: Seq<Seq<char>>,
    pub pinned_needed: u32,
}

impl View for Total {
    type V = TotalView;

    open spec fn view(&self) -> TotalView {
        TotalView {
            item: self.item_id@,
            needed: self.needed,
            sources: ids::texts(self.sources@),
            pinned_needed: self.pinned_needed,
        }
    }
}

/// The rollup of `item` over the entries.
pub open spec fn total_for(needs: Seq<NeedView>, item: Seq<char>) -> TotalView {
    TotalView {
        item,
        needed: demand(needs, item) as u32,
        sources: labels_of(needs, item),
        pinned_needed: pinned_demand(needs, item) as u32,
    }
}

/// The rollup of every item that the entries ask for.
pub open spec fn totals(needs: Seq<NeedView>) -> Seq<TotalView> {
    Seq::new(wanted_items(needs).len(), |i: int| total_for(needs, wanted_items(needs)[i]))
}

/// Rolls the entries up by item.
fn totals_of(needs: &Vec<Need>) -> (out: Vec<Total>)
    requires
        forall|item: Seq<char>| #[trigger] demand(sorting::views(needs@), item) <= u32::MAX,
    ensures
        sorting::views(out@) == totals(sorting::views(needs@)),
{
    let ghost all = sorting::views(needs@);
    let mut out: Vec<Total> = Vec::new();
    let mut n: usize = 0;
    assert(sorting::views(out@) =~= totals(all.take(0)));
    while n < needs.len()
        invariant
            n <= needs@.len(),
            all == sorting::views(needs@),
            forall|item: Seq<char>| #[trigger] demand(all, item) <= u32::MAX,
            sorting::views(out@) == totals(all.take(n as int)),
        decreases needs@.len() - n,
    {
        let need: &Need = &needs[n];
        let ghost before = all.take(n as int);
        let ghost after = all.take(n + 1);
        let ghost item = need@.req.item;
        proof {
            assert(after.drop_last() =~= before);
            assert(after.last() == need@);
            lemma_wanted_items(before);
            lemma_wanted_items(after);
            lemma_demand_grows(all, n + 1, item);
            lemma_demand_grows(all, n as int, item);
            assert(demand(all, item) <= u32::MAX);
        }
        let mut k: usize = 0;
        while k < out.len() && out[k].item_id != need.req.item_id
            invariant
                k <= out@.len(),
                sorting::views(out@) == totals(before),
                item == need.req.item_id@,
                forall|j: int| 0 <= j < k ==> wanted_items(before)[j] != item,
            decreases out@.len() - k,
        {
            assert(sorting::views(out@).len() == wanted_items(before).len());
            assert(sorting::views(out@)[k as int] == total_for(
                before,
                wanted_items(before)[k as int],
            ));
            k += 1;
        }
        let ghost was = out@;
        assert(sorting::views(was).len() == wanted_items(before).len());
        if k < out.len() {
            assert(sorting::views(out@)[k as int].item == wanted_items(before)[k as int]);
            assert(wanted_items(before)[k as int] == item);
            assert(wanted_items(before).contains(item));
            assert(sorting::views(out@)[k as int] == total_for(before, item));
            let ghost old_sources = out@[k as int].sources@;
            out[k].needed = out[k].needed + need.req.quantity;
            out[k].sources.push(need.label.clone());
            assert(ids::texts(out@[k as int].sources@) =~= ids::texts(old_sources).push(need.label@));
            if need.pinned {
                out[k].pinned_needed = out[k].pinned_needed + need.req.quantity;
            }
            proof {
                assert forall|i: int| 0 <= i < out@.len() implies sorting::views(out@)[i] == totals(
                    after,
                )[i] by {
                    if i == k {
                        assert(sorting::views(out@)[i] =~= total_for(after, item));
                    } else {
                        assert(wanted_items(before)[i] != item);
                        assert(sorting::views(out@)[i] == sorting::views(was)[i]);
                        assert(sorting::views(was)[i] == total_for(before, wanted_items(before)[i]));
                    }
                }
                assert(sorting::views(out@) =~= totals(after));
            }
        } else {
            proof {
                if wanted_items(before).contains(item) {
                    let j = choose|j: int|
                        0 <= j < wanted_items(before).len() && wanted_items(before)[j] == item;
                    assert(wanted_items(before)[j] != item);
                }
            }
            let mut sources: Vec<String> = Vec::new();
            sources.push(need.label.clone());
            let total = Total {
                item_id: need.req.item_id.clone(),
                needed: need.req.quantity,
                sources,
                pinned_needed: if need.pinned {
                    need.req.quantity
                } else {
                    0
                },
            };
            proof {
                assert(labels_of(before, item) =~= Seq::<Seq<char>>::empty());
                assert(ids::texts(sources@) =~= Seq::<Seq<char>>::empty().push(need.label@));
                assert(total@ =~= total_for(after, item));
            }
            out.push(total);
            proof {
                assert forall|i: int| 0 <= i < out@.len() implies sorting::views(out@)[i] == totals(
                    after,
                )[i] by {
                    if i < was.len() {
                        assert(wanted_items(before)[i] != item) by {
                            assert(wanted_items(before).contains(wanted_items(before)[i]));
                        }
                        assert(sorting::views(out@)[i] == sorting::views(was)[i]);
                        assert(sorting::views(was)[i] == total_for(before, wanted_items(before)[i]));
                    }
                }
                assert(sorting::views(out@) =~= totals(after));
            }
        }
        n += 1;
    }
    assert(all.take(all.len() as int) =~= all);
    out
}

/// One cell of the item wishlist.
#[derive(Debug)]
pub struct ActiveItem {
    pub item_id: ItemId,
    pub name: String,
    pub icon_path: String,
    pub needed: u32,
    pub collected: u32,
    pub sources: Vec<String>,
    /// Whether what is pinned, taken together, still needs more of the item
    /// than is owned.
    pub pinned: bool,
}

/// What an [`ActiveItem`] says.
#[verifier::ext_equal]
pub struct ActiveView {
    pub item_id: Seq<char>,
    pub name: Seq<char>,
    pub icon_path: Seq<char>,
    pub needed: u32,
    pub collected: u32,
    pub sources: Seq<Seq<char>>,
    pub pinned: bool,
}

impl View for ActiveItem {
    type V = ActiveView;

    open spec fn view(&self) -> ActiveView {
        ActiveView {
            item_id: self.item_id@,
            name: self.name@,
            icon_path: self.icon_path@,
            needed: self.needed,
            collected: self.collected,
            sources: ids::texts(self.sources@),
            pinned: self.pinned,
        }
    }
}

impl ActiveView {
    /// Whether as many are owned as are needed.
    pub open spec fn done(self) -> bool {
        self.collected >= self.needed
    }

    /// The order of the wishlist: what is done comes last; else pinned items
    /// first, then the largest need, then by name, then by id.
    pub open spec fn comes_before(self, b: ActiveView) -> bool {
        if self.done() != b.done() {
            b.done()
        } else if self.pinned != b.pinned {
            self.pinned
        } else if self.needed != b.needed {
            self.needed > b.needed
        } else if self.name != b.name {
            text::text_lt(self.name, b.name)
        } else {
            text::text_lt(self.item_id, b.item_id)
        }
    }
}

impl Ranked for ActiveItem {
    open spec fn precedes(a: ActiveView, b: ActiveView) -> bool {
        a.comes_before(b)
    }

    proof fn precedes_irreflexive(a: ActiveView) {
        text::lemma_text_order(a.item_id, a.item_id, a.item_id);
    }

    proof fn precedes_asymmetric(a: ActiveView, b: ActiveView) {
        text::lemma_text_order(a.name, b.name, b.name);
        text::lemma_text_order(a.item_id, b.item_id, b.item_id);
    }

    proof fn precedes_negatively_transitive(a: ActiveView, b: ActiveView, c: ActiveView) {
        text::lemma_text_order(a.name, b.name, c.name);
        text::lemma_text_order(a.item_id, b.item_id, c.item_id);
        text::lemma_text_order(b.name, a.name, a.name);
        text::lemma_text_order(c.name, b.name, b.name);
        text::lemma_text_order(c.name, a.name, a.name);
    }

    fn is_before(&self, other: &Self) -> (r: bool) {
        let a_done: bool = self.collected >= self.needed;
        let b_done: bool = other.collected >= other.needed;
        if a_done != b_done {
            b_done
        } else if self.pinned != other.pinned {
            self.pinned
        } else if self.needed != other.needed {
            self.needed > other.needed
        } else if self.name != other.name {
            text_before(self.name.as_str(), other.name.as_str())
        } else {
            text_before(self.item_id.as_str(), other.item_id.as_str())
        }
    }
}

/// The label of an upgrade: its module and level, and its own name where that
/// is another.
pub open spec fn upgrade_label(module: ModuleView, up: UpgradeView) -> Seq<char> {
    let short = module.name + " L"@ + text::decimal(up.level as nat);
    if up.name == module.name {
        short
    } else {
        short + " ("@ + up.name + ")"@
    }
}

impl StateView {
    /// Whether a tracked upgrade counts: it is not completed, the data knows
    /// it, and its module is enabled.
    pub open spec fn upgrade_counts(self, id: Seq<char>) -> bool {
        &&& !self.completed.contains(id)
        &&& self.data.knows_upgrade(id)
        &&& !self.module_disabled(self.data.module_of(id).id)
    }

    /// What the upgrades `ids` need.
    pub open spec fn upgrade_needs(self, ids: Seq<Seq<char>>) -> Seq<NeedView>
        decreases ids.len(),
    {
        if ids.len() == 0 {
            Seq::empty()
        } else {
            let before = self.upgrade_needs(ids.drop_last());
            let id = ids.last();
            if self.upgrade_counts(id) {
                before + needs_for(
                    self.requirements(id),
                    upgrade_label(self.data.module_of(id), self.data.upgrade(id)),
                    self.pinned.contains(id),
                )
            } else {
                before
            }
        }
    }

    /// What the research nodes `ids` need: locked ones too, developed ones
    /// not.
    pub open spec fn research_needs(self, ids: Seq<Seq<char>>) -> Seq<NeedView>
        decreases ids.len(),
    {
        if ids.len() == 0 {
            Seq::empty()
        } else {
            let before = self.research_needs(ids.drop_last());
            let id = ids.last();
            if self.on_route(id) {
                before + needs_for(
                    self.samples(id),
                    "Research: "@ + self.data.node(id).unwrap().name,
                    self.pinned_research.contains(id),
                )
            } else {
                before
            }
        }
    }

    /// The cell of a rolled-up item.
    pub open spec fn cell(self, t: TotalView) -> ActiveView {
        let item = self.data.item(t.item).unwrap();
        ActiveView {
            item_id: t.item,
            name: item.name,
            icon_path: item.icon_path,
            needed: t.needed,
            collected: self.owned_total(t.item),
            sources: t.sources,
            pinned: self.owned_total(t.item) < t.pinned_needed,
        }
    }

    /// The cells of the rolled-up items that the data knows.
    pub open spec fn cells(self, ts: Seq<TotalView>) -> Seq<ActiveView>
        decreases ts.len(),
    {
        if ts.len() == 0 {
            Seq::empty()
        } else if self.data.item(ts.last().item) is Some {
            self.cells(ts.drop_last()).push(self.cell(ts.last()))
        } else {
            self.cells(ts.drop_last())
        }
    }
}

fn push_needs(out: &mut Vec<Need>, reqs: &Vec<Requirement>, label: &String, pinned: bool)
    ensures
        sorting::views(final(out)@) == sorting::views(old(out)@) + needs_for(data::reqs_view(reqs@), label@, pinned),
{
    let ghost was = sorting::views(out@);
    let ghost more = needs_for(data::reqs_view(reqs@), label@, pinned);
    let mut i: usize = 0;
    assert(was + more.take(0) =~= was);
    while i < reqs.len()
        invariant
            i <= reqs@.len(),
            more == needs_for(data::reqs_view(reqs@), label@, pinned),
            sorting::views(out@) == was + more.take(i as int),
        decreases reqs@.len() - i,
    {
        let ghost before = sorting::views(out@);
        let need = Need { req: reqs[i].clone(), label: label.clone(), pinned };
        out.push(need);
        assert(need@ == more[i as int]);
        assert(sorting::views(out@) =~= before.push(need@));
        assert(sorting::views(out@) =~= was + more.take(i + 1));
        i += 1;
    }
    assert(more.take(more.len() as int) =~= more);
}

impl AppState {
    /// What everything on the wishlist needs, entry by entry: the upgrades in
    /// the order in which they were tracked, then the research nodes.
    pub open spec fn needs(&self) -> Seq<NeedView> {
        self@.upgrade_needs(self.tracked_upgrades.order()) + self@.research_needs(
            self.tracked_research.order(),
        )
    }

    fn label_of(&self, m: usize, u: usize) -> (r: String)
        requires
            m < self.data.modules@.len(),
            u < self.data.modules@[m as int].upgrades@.len(),
        ensures
            r@ == upgrade_label(
                self.data.modules@[m as int]@,
                self.data.modules@[m as int].upgrades@[u as int]@,
            ),
    {
        let module = &self.data.modules[m];
        let up = &module.upgrades[u];
        let mut r: String = module.name.clone();
        r.append(" L");
        push_decimal(&mut r, up.level as u64);
        if up.name != module.name {
            r.append(" (");
            r.append(up.name.as_str());
            r.append(")");
        }
        r
    }

    fn collect_needs(&self) -> (out: Vec<Need>)
        ensures
            sorting::views(out@) == self.needs(),
    {
        let ghost s = self@;
        let ghost ups = self.tracked_upgrades.order();
        let ghost nodes = self.tracked_research.order();
        let mut out: Vec<Need> = Vec::new();
        let mut i: usize = 0;
        assert(sorting::views(out@) =~= s.upgrade_needs(ups.take(0)));
        while i < self.tracked_upgrades.len()
            invariant
                i <= ups.len(),
                s == self@,
                ups == self.tracked_upgrades.order(),
                sorting::views(out@) == s.upgrade_needs(ups.take(i as int)),
            decreases ups.len() - i,
        {
            let id: &UpgradeId = self.tracked_upgrades.at(i);
            assert(ups.take(i + 1).drop_last() =~= ups.take(i as int));
            assert(ups.take(i + 1).last() == id@);
            i += 1;
            if self.completed_upgrades.contains(id.as_str()) {
                continue ;
            }
            match self.data.find_upgrade(id) {
                None => {},
                Some(p) => {
                    if !self.is_module_effectively_disabled(self.data.modules[p.0].id.as_str()) {
                        let pinned: bool = self.pinned_upgrades.contains(id.as_str());
                        let label: String = self.label_of(p.0, p.1);
                        let reqs: Vec<Requirement> = self.effective_requirements(id);
                        push_needs(&mut out, &reqs, &label, pinned);
                    }
                },
            }
        }
        assert(ups.take(ups.len() as int) =~= ups);
        let ghost base = s.upgrade_needs(ups);
        i = 0;
        assert(base + s.research_needs(nodes.take(0)) =~= base);
        while i < self.tracked_research.len()
            invariant
                i <= nodes.len(),
                s == self@,
                nodes == self.tracked_research.order(),
                sorting::views(out@) == base + s.research_needs(nodes.take(i as int)),
            decreases nodes.len() - i,
        {
            let id: &String = self.tracked_research.at(i);
            assert(nodes.take(i + 1).drop_last() =~= nodes.take(i as int));
            assert(nodes.take(i + 1).last() == id@);
            i += 1;
            let developed: bool = match self.research_states.get(id.as_str()) {
                Some(v) => *v == ResearchNodeState::Developed,
                None => false,
            };
            if developed {
                continue ;
            }
            match self.data.find_node(id) {
                None => {},
                Some(node) => {
                    let pinned: bool = self.pinned_research.contains(id.as_str());
                    let mut label: String = String::new();
                    label.append("Research: ");
                    label.append(node.name.as_str());
                    assert(label@ =~= "Research: "@ + node.name@);
                    let ghost before = sorting::views(out@);
                    push_needs(&mut out, &node.samples, &label, pinned);
                    assert(sorting::views(out@) =~= base + s.research_needs(nodes.take(i as int)));
                },
            }
        }
        assert(nodes.take(nodes.len() as int) =~= nodes);
        out
    }

    /// The item wishlist: everything that tracked upgrades and research nodes
    /// still need, rolled up by item.
    pub fn active_items(&self) -> (out: Vec<ActiveItem>)
        requires
            forall|item: Seq<char>| #[trigger] demand(self.needs(), item) <= u32::MAX,
        ensures
            sorting::views(out@) == sorting::in_order::<ActiveItem>(self@.cells(totals(self.needs()))),
    {
        let needs: Vec<Need> = self.collect_needs();
        let ts: Vec<Total> = totals_of(&needs);
        let ghost all = totals(self.needs());
        let mut out: Vec<ActiveItem> = Vec::new();
        assert(sorting::views(out@) =~= self@.cells(all.take(0)));
        for t in it: ts
            invariant
                all == sorting::views(it.seq()),
                sorting::views(out@) == self@.cells(all.take(it.index())),
        {
            let ghost k: int = it.index();
            assert(all.take(k + 1).drop_last() =~= all.take(k));
            assert(all.take(k + 1).last() == t@);
            match self.data.find_item(&t.item_id) {
                Some(item) => {
                    let collected: u32 = self.owned_total(&t.item_id);
                    let ghost before = out@;
                    let cell = ActiveItem {
                        name: item.name.clone(),
                        icon_path: item.icon_path.clone(),
                        needed: t.needed,
                        collected,
                        pinned: collected < t.pinned_needed,
                        item_id: t.item_id,
                        sources: t.sources,
                    };
                    assert(cell@ =~= self@.cell(t@));
                    out.push(cell);
                    assert(sorting::views(out@) =~= sorting::views(before).push(cell@));
                },
                None => {},
            }
        }
        assert(all.take(all.len() as int) =~= all);
        sort_stably(out)
    }
}

/// How many of `item` a list of requirements asks for.
pub open spec fn quantity_of(reqs: Seq<ReqView>, item: Seq<char>) -> nat
    decreases reqs.len(),
{
    if reqs.len() == 0 {
        0
    } else if reqs.last().item == item {
        quantity_of(reqs.drop_last(), item) + reqs.last().quantity as nat
    } else {
        quantity_of(reqs.drop_last(), item)
    }
}

/// Whether a list of requirements asks for `item`.
pub open spec fn asks_for(reqs: Seq<ReqView>, item: Seq<char>) -> bool {
    exists|i: int| 0 <= i < reqs.len() && (#[trigger] reqs[i]).item == item
}

/// What a list of requirements asks for, item by item.
pub open spec fn quantities(reqs: Seq<ReqView>) -> Map<Seq<char>, u32> {
    Map::new(
        |item: Seq<char>| asks_for(reqs, item),
        |item: Seq<char>| quantity_of(reqs, item) as u32,
    )
}

proof fn lemma_quantities_push(reqs: Seq<ReqView>, r: ReqView)
    requires
        quantity_of(reqs.push(r), r.item) <= u32::MAX,
    ensures
        quantities(reqs.push(r)) == quantities(reqs).insert(
            r.item,
            (quantity_of(reqs, r.item) + r.quantity) as u32,
        ),
        !asks_for(reqs, r.item) ==> quantity_of(reqs, r.item) == 0,
{
    let more = reqs.push(r);
    assert(more.drop_last() =~= reqs);
    assert forall|item: Seq<char>| asks_for(more, item) == (asks_for(reqs, item) || item
        == r.item) by {
        if asks_for(reqs, item) {
            let i = choose|i: int| 0 <= i < reqs.len() && (#[trigger] reqs[i]).item == item;
            assert(more[i].item == item);
        }
        if item == r.item {
            assert(more[reqs.len() as int].item == item);
        }
        if asks_for(more, item) && item != r.item {
            let i = choose|i: int| 0 <= i < more.len() && (#[trigger] more[i]).item == item;
            assert(reqs[i].item == item);
        }
    }
    if !asks_for(reqs, r.item) {
        lemma_not_asked(reqs, r.item);
    }
    assert(quantities(more) =~= quantities(reqs).insert(
        r.item,
        (quantity_of(reqs, r.item) + r.quantity) as u32,
    ));
}

pub(crate) proof fn lemma_not_asked(reqs: Seq<ReqView>, item: Seq<char>)
    requires
        !asks_for(reqs, item),
    ensures
        quantity_of(reqs, item) == 0,
    decreases reqs.len(),
{
    if reqs.len() > 0 {
        assert(reqs[reqs.len() - 1].item != item);
        assert forall|i: int| 0 <= i < reqs.drop_last().len() implies (
        #[trigger] reqs.drop_last()[i]).item != item by {
            assert(reqs[i].item != item);
        }
        lemma_not_asked(reqs.drop_last(), item);
    }
}

proof fn lemma_quantity_grows(reqs: Seq<ReqView>, n: int, item: Seq<char>)
    requires
        0 <= n <= reqs.len(),
    ensures
        quantity_of(reqs.take(n), item) <= quantity_of(reqs, item),
    decreases reqs.len() - n,
{
    if n < reqs.len() {
        lemma_quantity_grows(reqs, n + 1, item);
        assert(reqs.take(n + 1).drop_last() =~= reqs.take(n));
    } else {
        assert(reqs.take(n) =~= reqs);
    }
}

impl StateView {
    /// The upgrades of `ids` that count, in order.
    pub open spec fn counting(self, ids: Seq<Seq<char>>) -> Seq<Seq<char>>
        decreases ids.len(),
    {
        if ids.len() == 0 {
            Seq::empty()
        } else if self.upgrade_counts(ids.last()) {
            self.counting(ids.drop_last()).push(ids.last())
        } else {
            self.counting(ids.drop_last())
        }
    }

    /// What is next in each enabled module.
    pub open spec fn natural_ids(self, mods: Seq<ModuleView>) -> Seq<Seq<char>>
        decreases mods.len(),
    {
        if mods.len() == 0 {
            Seq::empty()
        } else {
            let m = mods.last();
            let before = self.natural_ids(mods.drop_last());
            match self.natural_next(m.upgrades, m.upgrades.len() as int) {
                Some(u) => if self.module_disabled(m.id) {
                    before
                } else {
                    before.push(m.upgrades[u].id)
                },
                None => before,
            }
        }
    }

    /// The upgrades of `ups` that are not completed, in order.
    pub open spec fn open_ids(self, ups: Seq<UpgradeView>) -> Seq<Seq<char>>
        decreases ups.len(),
    {
        if ups.len() == 0 {
            Seq::empty()
        } else if self.completed.contains(ups.last().id) {
            self.open_ids(ups.drop_last())
        } else {
            self.open_ids(ups.drop_last()).push(ups.last().id)
        }
    }

    /// Everything that is not completed in the enabled modules.
    pub open spec fn future_ids(self, mods: Seq<ModuleView>) -> Seq<Seq<char>>
        decreases mods.len(),
    {
        if mods.len() == 0 {
            Seq::empty()
        } else {
            let before = self.future_ids(mods.drop_last());
            if self.module_disabled(mods.last().id) {
                before
            } else {
                before + self.open_ids(mods.last().upgrades)
            }
        }
    }

    /// What the upgrades `ids` cost, one recipe after the other.
    pub open spec fn recipes(self, ids: Seq<Seq<char>>) -> Seq<ReqView>
        decreases ids.len(),
    {
        if ids.len() == 0 {
            Seq::empty()
        } else {
            self.recipes(ids.drop_last()) + self.requirements(ids.last())
        }
    }
}

impl AppState {
    /// The upgrades whose recipes count as needed up to `horizon`.
    pub open spec fn horizon_ids(&self, horizon: NeedHorizon) -> Seq<Seq<char>> {
        match horizon {
            NeedHorizon::TrackedOnly => self@.counting(self.tracked_upgrades.order()),
            NeedHorizon::AllNatural => self@.natural_ids(self@.data.modules),
            NeedHorizon::AllFuture => self@.future_ids(self@.data.modules),
        }
    }

    fn tracked_ids(&self) -> (out: Vec<UpgradeId>)
        ensures
            ids::texts(out@) == self@.counting(self.tracked_upgrades.order()),
    {
        let ghost ids = self.tracked_upgrades.order();
        let mut out: Vec<UpgradeId> = Vec::new();
        let mut i: usize = 0;
        assert(ids::texts(out@) =~= self@.counting(ids.take(0)));
        while i < self.tracked_upgrades.len()
            invariant
                i <= ids.len(),
                ids == self.tracked_upgrades.order(),
                ids::texts(out@) == self@.counting(ids.take(i as int)),
            decreases ids.len() - i,
        {
            let id: &UpgradeId = self.tracked_upgrades.at(i);
            assert(ids.take(i + 1).drop_last() =~= ids.take(i as int));
            assert(ids.take(i + 1).last() == id@);
            i += 1;
            if self.completed_upgrades.contains(id.as_str()) {
                continue ;
            }
            match self.data.find_upgrade(id) {
                None => {},
                Some(p) => {
                    if !self.is_module_effectively_disabled(self.data.modules[p.0].id.as_str()) {
                        let ghost before = out@;
                        out.push(id.clone());
                        assert(ids::texts(out@) =~= ids::texts(before).push(id@));
                    }
                },
            }
        }
        assert(ids.take(ids.len() as int) =~= ids);
        out
    }

    fn natural_upgrades(&self) -> (out: Vec<UpgradeId>)
        ensures
            ids::texts(out@) == self@.natural_ids(self@.data.modules),
    {
        let ghost mods = self@.data.modules;
        let mut out: Vec<UpgradeId> = Vec::new();
        let mut m: usize = 0;
        assert(ids::texts(out@) =~= self@.natural_ids(mods.take(0)));
        while m < self.data.modules.len()
            invariant
                m <= self.data.modules@.len(),
                mods == self.data@.modules,
                ids::texts(out@) == self@.natural_ids(mods.take(m as int)),
            decreases self.data.modules@.len() - m,
        {
            let module: &HideoutModule = &self.data.modules[m];
            assert(mods.take(m + 1).drop_last() =~= mods.take(m as int));
            assert(mods.take(m + 1).last() == module@);
            let disabled: bool = self.is_module_effectively_disabled(module.id.as_str());
            match self.natural_next_upgrade(module) {
                Some(next) => {
                    if !disabled {
                        let ghost before = out@;
                        out.push(next.id.clone());
                        assert(ids::texts(out@) =~= ids::texts(before).push(next.id@));
                    }
                },
                None => {},
            }
            m += 1;
        }
        assert(mods.take(mods.len() as int) =~= mods);
        out
    }

    fn future_upgrades(&self) -> (out: Vec<UpgradeId>)
        ensures
            ids::texts(out@) == self@.future_ids(self@.data.modules),
    {
        let ghost mods = self@.data.modules;
        let mut out: Vec<UpgradeId> = Vec::new();
        let mut m: usize = 0;
        assert(ids::texts(out@) =~= self@.future_ids(mods.take(0)));
        while m < self.data.modules.len()
            invariant
                m <= self.data.modules@.len(),
                mods == self.data@.modules,
                ids::texts(out@) == self@.future_ids(mods.take(m as int)),
            decreases self.data.modules@.len() - m,
        {
            let module: &HideoutModule = &self.data.modules[m];
            assert(mods.take(m + 1).drop_last() =~= mods.take(m as int));
            assert(mods.take(m + 1).last() == module@);
            let ghost base = ids::texts(out@);
            if !self.is_module_effectively_disabled(module.id.as_str()) {
                let ghost ups = module@.upgrades;
                let mut u: usize = 0;
                assert(base + self@.open_ids(ups.take(0)) =~= base);
                while u < module.upgrades.len()
                    invariant
                        u <= module.upgrades@.len(),
                        ups == module@.upgrades,
                        ids::texts(out@) == base + self@.open_ids(ups.take(u as int)),
                    decreases module.upgrades@.len() - u,
                {
                    assert(ups.take(u + 1).drop_last() =~= ups.take(u as int));
                    assert(ups.take(u + 1).last() == ups[u as int]);
                    if !self.completed_upgrades.contains(module.upgrades[u].id.as_str()) {
                        let ghost before = out@;
                        out.push(module.upgrades[u].id.clone());
                        assert(ids::texts(out@) =~= ids::texts(before).push(ups[u as int].id));
                        assert(ids::texts(out@) =~= base + self@.open_ids(ups.take(u + 1)));
                    }
                    u += 1;
                }
                assert(ups.take(ups.len() as int) =~= ups);
            }
            m += 1;
        }
        assert(mods.take(mods.len() as int) =~= mods);
        out
    }

    fn upgrades_for_horizon(&self, horizon: NeedHorizon) -> (out: Vec<UpgradeId>)
        ensures
            ids::texts(out@) == self.horizon_ids(horizon),
    {
        match horizon {
            NeedHorizon::TrackedOnly => self.tracked_ids(),
            NeedHorizon::AllNatural => self.natural_upgrades(),
            NeedHorizon::AllFuture => self.future_upgrades(),
        }
    }

    /// How many of each item the upgrades up to `horizon` cost together. What
    /// is completed or disabled asks for nothing.
    pub fn needed_by_id(&self, horizon: NeedHorizon) -> (out: IdMap<u32>)
        requires
            forall|item: Seq<char>|
                #[trigger] quantity_of(self@.recipes(self.horizon_ids(horizon)), item) <= u32::MAX,
        ensures
            out@ == quantities(self@.recipes(self.horizon_ids(horizon))),
    {
        let upgrade_ids: Vec<UpgradeId> = self.upgrades_for_horizon(horizon);
        let ghost s = self@;
        let ghost ids = self.horizon_ids(horizon);
        let ghost all = s.recipes(ids);
        let mut out: IdMap<u32> = IdMap::new();
        let mut i: usize = 0;
        assert(out@ =~= quantities(s.recipes(ids.take(0))));
        while i < upgrade_ids.len()
            invariant
                i <= upgrade_ids@.len(),
                s == self@,
                ids == ids::texts(upgrade_ids@),
                all == s.recipes(ids),
                forall|item: Seq<char>| #[trigger] quantity_of(all, item) <= u32::MAX,
                out@ == quantities(s.recipes(ids.take(i as int))),
            decreases upgrade_ids@.len() - i,
        {
            let reqs: Vec<Requirement> = self.effective_requirements(&upgrade_ids[i]);
            let ghost base = s.recipes(ids.take(i as int));
            let ghost more = data::reqs_view(reqs@);
            proof {
                assert(ids.take(i + 1).drop_last() =~= ids.take(i as int));
                assert(ids.take(i + 1).last() == upgrade_ids@[i as int]@);
                lemma_recipes_prefix(s, ids, i + 1);
                assert(base + more.take(0) =~= base);
            }
            let mut j: usize = 0;
            while j < reqs.len()
                invariant
                    j <= reqs@.len(),
                    more == data::reqs_view(reqs@),
                    out@ == quantities(base + more.take(j as int)),
                    (base + more).len() <= all.len(),
                    all.take((base + more).len() as int) == base + more,
                    forall|item: Seq<char>| #[trigger] quantity_of(all, item) <= u32::MAX,
                decreases reqs@.len() - j,
            {
                let r: &Requirement = &reqs[j];
                let ghost have = base + more.take(j as int);
                let ghost item = r@.item;
                proof {
                    assert(have.push(r@) =~= base + more.take(j + 1));
                    assert(base + more.take(j + 1) =~= all.take((base.len() + j + 1) as int)) by {
                        assert forall|k: int| 0 <= k < base.len() + j + 1 implies (base + more.take(
                            j + 1,
                        ))[k] == all[k] by {
                            assert((base + more)[k] == all.take((base + more).len() as int)[k]);
                        }
                    }
                    lemma_quantity_grows(all, (base.len() + j + 1) as int, item);
                    assert(quantity_of(all, item) <= u32::MAX);
                    lemma_quantities_push(have, r@);
                    assert(have.push(r@).drop_last() =~= have);
                    lemma_quantity_grows(all, (base.len() + j) as int, item);
                }
                let cur: u32 = match out.get(r.item_id.as_str()) {
                    Some(v) => *v,
                    None => 0,
                };
                assert(cur == quantity_of(have, item)) by {
                    assert(have =~= all.take((base.len() + j) as int)) by {
                        assert forall|k: int| 0 <= k < have.len() implies have[k] == all[k] by {
                            assert((base + more)[k] == all.take((base + more).len() as int)[k]);
                        }
                    }
                }
                out.insert(r.item_id.clone(), cur + r.quantity);
                j += 1;
            }
            assert(more.take(more.len() as int) =~= more);
            i += 1;
        }
        assert(ids.take(ids.len() as int) =~= ids);
        out
    }
}

proof fn lemma_recipes_prefix(s: StateView, ids: Seq<Seq<char>>, n: int)
    requires
        0 <= n <= ids.len(),
    ensures
        s.recipes(ids.take(n)).len() <= s.recipes(ids).len(),
        s.recipes(ids).take(s.recipes(ids.take(n)).len() as int) == s.recipes(ids.take(n)),
    decreases ids.len() - n,
{
    if n < ids.len() {
        lemma_recipes_prefix(s, ids, n + 1);
        assert(ids.take(n + 1).drop_last() =~= ids.take(n));
        let a = s.recipes(ids.take(n));
        let b = s.recipes(ids.take(n + 1));
        let c = s.recipes(ids);
        assert(c.take(a.len() as int) =~= a) by {
            assert forall|k: int| 0 <= k < a.len() implies c[k] == a[k] by {
                assert(b[k] == a[k]);
                assert(c.take(b.len() as int)[k] == b[k]);
            }
        }
    } else {
        assert(ids.take(n) =~= ids);
        assert(s.recipes(ids).take(s.recipes(ids).len() as int) =~= s.recipes(ids));
    }
}

} // verus!
