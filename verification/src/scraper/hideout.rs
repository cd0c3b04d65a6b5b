//! Hideout upgrades of the upstream data, grouped into modules.

use crate::data;
use crate::ids;
use crate::sorting;
use crate::text;
use crate::data::{
    clone_requirements, HideoutModule, ModuleView, ReqView, Requirement, Upgrade, UpgradeView,
};
use crate::ids::IdSet;
use crate::sorting::{sort_stably, Ranked};
use crate::text::text_before;
use vstd::prelude::*;

verus! {

/// An upgrade as upstream has it, under its key. `exchange` is in the order of
/// the items.
#[derive(Debug)]
pub struct UpstreamUpgrade {
    pub key: String,
    pub area_id: String,
    pub level: u32,
    pub upgrade_name: String,
    pub exchange: Vec<Requirement>,
}

/// What an [`UpstreamUpgrade`] says.
#[verifier::ext_equal]
pub struct UpstreamUpgradeView {
    pub key: Seq<char>,
    pub area_id: Seq<char>,
    pub level: u32,
    pub upgrade_name: Seq<char>,
    pub exchange: Seq<ReqView>,
}

impl View for UpstreamUpgrade {
    type V = UpstreamUpgradeView;

    open spec fn view(&self) -> UpstreamUpgradeView {
        UpstreamUpgradeView {
            key: self.key@,
            area_id: self.area_id@,
            level: self.level,
            upgrade_name: self.upgrade_name@,
            exchange: data::reqs_view(self.exchange@),
        }
    }
}

/// Upgrades of a module come in the order of their levels.
impl Ranked for Upgrade {
    open spec fn precedes(a: UpgradeView, b: UpgradeView) -> bool {
        a.level < b.level
    }

    proof fn precedes_irreflexive(a: UpgradeView) {
    }

    proof fn precedes_asymmetric(a: UpgradeView, b: UpgradeView) {
    }

    proof fn precedes_negatively_transitive(a: UpgradeView, b: UpgradeView, c: UpgradeView) {
    }

    fn is_before(&self, other: &Self) -> (r: bool) {
        self.level < other.level
    }
}

/// Distinct texts in ascending order, with `t` among them.
pub open spec fn with_text(s: Seq<Seq<char>>, t: Seq<char>) -> Seq<Seq<char>>
    decreases s.len(),
{
    if s.len() == 0 || text::text_lt(s.last(), t) {
        s.push(t)
    } else if s.last() == t {
        s
    } else {
        with_text(s.drop_last(), t).push(s.last())
    }
}

/// The areas of the upgrades, in ascending order.
pub open spec fn areas(ups: Seq<UpstreamUpgradeView>) -> Seq<Seq<char>>
    decreases ups.len(),
{
    if ups.len() == 0 {
        Seq::empty()
    } else {
        with_text(areas(ups.drop_last()), ups.last().area_id)
    }
}

/// The upgrades of an area, in the order in which they came.
pub open spec fn upgrades_of(ups: Seq<UpstreamUpgradeView>, area: Seq<char>) -> Seq<UpgradeView>
    decreases ups.len(),
{
    if ups.len() == 0 {
        Seq::empty()
    } else {
        let before = upgrades_of(ups.drop_last(), area);
        let u = ups.last();
        if u.area_id == area {
            before.push(
                UpgradeView {
                    id: u.key,
                    name: u.upgrade_name,
                    level: u.level,
                    description: Seq::empty(),
                    requirements: u.exchange,
                },
            )
        } else {
            before
        }
    }
}

/// The module of an area: named after the first upgrade that came.
pub open spec fn module_of_area(ups: Seq<UpstreamUpgradeView>, area: Seq<char>) -> ModuleView {
    let own = upgrades_of(ups, area);
    ModuleView {
        id: area,
        name: if own.len() > 0 {
            own[0].name
        } else {
            area
        },
        upgrades: sorting::in_order::<Upgrade>(own),
    }
}

/// The items that the upgrades ask for.
pub open spec fn items_exchanged(ups: Seq<UpstreamUpgradeView>) -> Set<Seq<char>> {
    Set::new(
        |item: Seq<char>|
            exists|i: int, j: int|
                0 <= i < ups.len() && 0 <= j < ups[i].exchange.len() && (
                #[trigger] ups[i].exchange[j]).item == item,
    )
}

/// What reading the hideout gives.
#[derive(Debug)]
pub struct HideoutResult {
    pub modules: Vec<HideoutModule>,
    /// Every item that an upgrade asks for.
    pub referenced_items: IdSet,
}

proof fn lemma_with_text(s: Seq<Seq<char>>, t: Seq<char>, p: int)
    requires
        0 <= p <= s.len(),
        forall|j: int| p <= j < s.len() ==> !text::text_lt(#[trigger] s[j], t) && s[j] != t,
        p == 0 || text::text_lt(s[p - 1], t) || s[p - 1] == t,
    ensures
        with_text(s, t) == if p > 0 && s[p - 1] == t && !text::text_lt(s[p - 1], t) {
            s
        } else {
            s.insert(p, t)
        },
    decreases s.len(),
{
    if p == s.len() {
        assert(s.insert(p, t) =~= s.push(t));
    } else {
        let init = s.drop_last();
        assert(!text::text_lt(s[s.len() - 1], t));
        assert forall|j: int| p <= j < init.len() implies !text::text_lt(#[trigger] init[j], t) && init[j]
            != t by {
            assert(!text::text_lt(s[j], t));
        }
        lemma_with_text(init, t, p);
        assert(init.push(s.last()) =~= s);
        assert(init.insert(p, t).push(s.last()) =~= s.insert(p, t));
    }
}

fn put_text(list: &mut Vec<String>, t: &String)
    ensures
        ids::texts(final(list)@) == with_text(ids::texts(old(list)@), t@),
{
    let ghost was = ids::texts(list@);
    let mut p: usize = list.len();
    while p > 0 && list[p - 1] != *t && !text_before(list[p - 1].as_str(), t.as_str())
        invariant
            p <= list@.len(),
            was == ids::texts(list@),
            forall|j: int| p <= j < was.len() ==> !text::text_lt(#[trigger] was[j], t@) && was[j] != t@,
        decreases p,
    {
        p -= 1;
    }
    proof {
        lemma_with_text(was, t@, p as int);
        if p > 0 && was[p - 1] == t@ {
            text::lemma_text_lt_irreflexive(t@);
        }
    }
    if p > 0 && list[p - 1] == *t {
        return ;
    }
    list.insert(p, t.clone());
    assert(ids::texts(list@) =~= was.insert(p as int, t@));
}

fn module_for(ups: &Vec<UpstreamUpgrade>, area: &String) -> (r: HideoutModule)
    ensures
        r@ == module_of_area(sorting::views(ups@), area@),
{
    let ghost all = sorting::views(ups@);
    let mut own: Vec<Upgrade> = Vec::new();
    let mut name: String = area.clone();
    let mut i: usize = 0;
    assert(sorting::views(own@) =~= upgrades_of(all.take(0), area@));
    while i < ups.len()
        invariant
            i <= ups@.len(),
            all == sorting::views(ups@),
            sorting::views(own@) == upgrades_of(all.take(i as int), area@),
            own@.len() == 0 ==> name@ == area@,
            own@.len() > 0 ==> name@ == own@[0]@.name,
        decreases ups@.len() - i,
    {
        let u: &UpstreamUpgrade = &ups[i];
        assert(all.take(i + 1).drop_last() =~= all.take(i as int));
        assert(all.take(i + 1).last() == u@);
        if u.area_id == *area {
            if own.len() == 0 {
                name = u.upgrade_name.clone();
            }
            let ghost before = own@;
            let up = Upgrade {
                id: u.key.clone(),
                name: u.upgrade_name.clone(),
                level: u.level,
                description: String::new(),
                requirements: clone_requirements(&u.exchange),
            };
            own.push(up);
            assert(sorting::views(own@) =~= sorting::views(before).push(up@));
        }
        i += 1;
    }
    assert(all.take(all.len() as int) =~= all);
    let ghost listed = sorting::views(own@);
    let upgrades: Vec<Upgrade> = sort_stably(own);
    let r = HideoutModule { id: area.clone(), name, upgrades };
    assert(r@.upgrades =~= sorting::in_order::<Upgrade>(listed));
    r
}

/// Groups the upgrades into modules, in the order of the areas. The upgrades
/// are in the order of their keys.
pub fn parse(ups: &Vec<UpstreamUpgrade>) -> (r: HideoutResult)
    ensures
        r.modules@.len() == areas(sorting::views(ups@)).len(),
        forall|i: int|
            0 <= i < r.modules@.len() ==> (#[trigger] r.modules@[i])@ == module_of_area(
                sorting::views(ups@),
                areas(sorting::views(ups@))[i],
            ),
        r.referenced_items@ == items_exchanged(sorting::views(ups@)),
{
    let ghost all = sorting::views(ups@);
    let mut ids: Vec<String> = Vec::new();
    let mut referenced: IdSet = IdSet::new();
    let mut i: usize = 0;
    assert(ids::texts(ids@) =~= areas(all.take(0)));
    while i < ups.len()
        invariant
            i <= ups@.len(),
            all == sorting::views(ups@),
            ids::texts(ids@) == areas(all.take(i as int)),
            forall|item: Seq<char>|
                #[trigger] referenced@.contains(item) <==> exists|a: int, b: int|
                    0 <= a < i && 0 <= b < all[a].exchange.len() && (
                    #[trigger] all[a].exchange[b]).item == item,
        decreases ups@.len() - i,
    {
        let u: &UpstreamUpgrade = &ups[i];
        assert(all.take(i + 1).drop_last() =~= all.take(i as int));
        assert(all.take(i + 1).last() == u@);
        put_text(&mut ids, &u.area_id);
        let ghost listed = referenced@;
        let ghost ex = u@.exchange;
        assert(ex == all[i as int].exchange);
        let mut k: usize = 0;
        while k < u.exchange.len()
            invariant
                k <= u.exchange@.len(),
                i < ups@.len(),
                ex == data::reqs_view(u.exchange@),
                ex == all[i as int].exchange,
                forall|item: Seq<char>|
                    #[trigger] referenced@.contains(item) <==> listed.contains(item) || exists|b: int|
                        0 <= b < k && (#[trigger] ex[b]).item == item,
            decreases u.exchange@.len() - k,
        {
            let ghost old_set = referenced@;
            referenced.insert(u.exchange[k].item_id.clone());
            proof {
                assert forall|item: Seq<char>|
                    #[trigger] referenced@.contains(item) <==> listed.contains(item) || exists|b: int|
                        0 <= b < k + 1 && (#[trigger] ex[b]).item == item by {
                    assert(old_set.contains(item) <==> listed.contains(item) || exists|b: int|
                        0 <= b < k && (#[trigger] ex[b]).item == item);
                    if item == ex[k as int].item {
                        assert(0 <= k < k + 1 && ex[k as int].item == item);
                    }
                }
            }
            k += 1;
        }
        proof {
            assert forall|item: Seq<char>|
                #[trigger] referenced@.contains(item) <==> exists|a: int, b: int|
                    0 <= a < i + 1 && 0 <= b < all[a].exchange.len() && (
                    #[trigger] all[a].exchange[b]).item == item by {
                assert(listed.contains(item) <==> exists|a: int, b: int|
                    0 <= a < i && 0 <= b < all[a].exchange.len() && (
                    #[trigger] all[a].exchange[b]).item == item);
                if exists|b: int| 0 <= b < k && (#[trigger] ex[b]).item == item {
                    let b = choose|b: int| 0 <= b < k && (#[trigger] ex[b]).item == item;
                    assert(all[i as int].exchange[b].item == item);
                }
                if exists|a: int, b: int|
                    0 <= a < i + 1 && 0 <= b < all[a].exchange.len() && (
                    #[trigger] all[a].exchange[b]).item == item {
                    let (a, b) = choose|a: int, b: int|
                        0 <= a < i + 1 && 0 <= b < all[a].exchange.len() && (
                        #[trigger] all[a].exchange[b]).item == item;
                    if a == i {
                        assert(ex[b].item == item);
                    }
                }
            }
        }
        i += 1;
    }
    assert(all.take(all.len() as int) =~= all);
    assert(referenced@ =~= items_exchanged(all));
    let mut modules: Vec<HideoutModule> = Vec::new();
    i = 0;
    while i < ids.len()
        invariant
            i <= ids@.len(),
            all == sorting::views(ups@),
            ids::texts(ids@) == areas(all),
            modules@.len() == i,
            forall|j: int|
                0 <= j < i ==> (#[trigger] modules@[j])@ == module_of_area(all, areas(all)[j]),
        decreases ids@.len() - i,
    {
        assert(ids::texts(ids@)[i as int] == ids@[i as int]@);
        modules.push(module_for(ups, &ids[i]));
        i += 1;
    }
    assert(ids::texts(ids@).len() == ids@.len());
    HideoutResult { modules, referenced_items: referenced }
}

} // verus!
