//! The item catalog: every upstream item by id, and the ids by name.

use crate::ids;
use crate::scraper::corrections;
use crate::sorting;
use crate::text;
use crate::data::{Item, ItemId, ItemView, Kilograms};
use crate::ids::IdMap;
use crate::scraper::corrections::{correct_id, correct_name};
use crate::sorting::{sort_stably, Ranked};
use crate::text::{clone_opt_string, text_before, to_lowercase};
use vstd::prelude::*;
use vstd::string::*;

verus! {

/// The names of the catalog files, in the order in which they are read.
pub fn catalog_names() -> (r: Vec<&'static str>)
    ensures
        r@ == seq![
            "ammunition.json",
            "armor.json",
            "attachments.json",
            "backpacks.json",
            "face-shields.json",
            "grenades.json",
            "helmets.json",
            "holsters.json",
            "keys.json",
            "magazines.json",
            "medical.json",
            "misc.json",
            "provisions.json",
            "task-items.json",
            "weapons.json",
        ],
{
    vec![
        "ammunition.json",
        "armor.json",
        "attachments.json",
        "backpacks.json",
        "face-shields.json",
        "grenades.json",
        "helmets.json",
        "holsters.json",
        "keys.json",
        "magazines.json",
        "medical.json",
        "misc.json",
        "provisions.json",
        "task-items.json",
        "weapons.json",
    ]
}

/// One record of a catalog file.
#[derive(Debug)]
pub struct UpstreamItem {
    pub id: String,
    pub name: String,
    pub category: Option<String>,
    pub subcategory: Option<String>,
    pub icon: Option<String>,
    /// The tasks that ask for this item.
    pub task_ids: Vec<String>,
    pub price: Option<u64>,
    pub weight: Option<Kilograms>,
    pub rarity: Option<String>,
}

/// An item of the catalog, under its corrected id and name.
#[derive(Debug)]
pub struct ItemRecord {
    pub id: ItemId,
    pub name: String,
    /// Path of the icon upstream.
    pub upstream_icon: Option<String>,
    /// The tasks that ask for this item.
    pub task_ids: Vec<String>,
    pub category: Option<String>,
    pub subcategory: Option<String>,
    pub price: Option<u64>,
    pub weight: Option<Kilograms>,
    pub rarity: Option<String>,
}

/// What an [`ItemRecord`] says.
#[verifier::ext_equal]
pub struct RecordView {
    pub id: Seq<char>,
    pub name: Seq<char>,
    pub upstream_icon: Option<Seq<char>>,
    pub task_ids: Seq<Seq<char>>,
    pub category: Option<Seq<char>>,
    pub subcategory: Option<Seq<char>>,
    pub price: Option<u64>,
    pub weight: Option<Kilograms>,
    pub rarity: Option<Seq<char>>,
}

impl View for ItemRecord {
    type V = RecordView;

    open spec fn view(&self) -> RecordView {
        RecordView {
            id: self.id@,
            name: self.name@,
            upstream_icon: text::opt_text(self.upstream_icon),
            task_ids: ids::texts(self.task_ids@),
            category: text::opt_text(self.category),
            subcategory: text::opt_text(self.subcategory),
            price: self.price,
            weight: self.weight,
            rarity: text::opt_text(self.rarity),
        }
    }
}

/// The catalog.
#[derive(Debug)]
pub struct ItemCatalog {
    /// All items by id.
    pub items: IdMap<ItemRecord>,
    /// Lower-case name to the ids that carry it. Names are not always unique.
    pub by_name: IdMap<Vec<ItemId>>,
}

/// What an [`ItemCatalog`] says. The items are in the order in which they came
/// in.
#[verifier::ext_equal]
pub struct CatalogView {
    pub items: Seq<RecordView>,
    pub by_name: Map<Seq<char>, Seq<Seq<char>>>,
}

impl View for ItemCatalog {
    type V = CatalogView;

    open spec fn view(&self) -> CatalogView {
        CatalogView {
            items: sorting::views(self.items.values()),
            by_name: self.by_name@.map_values(|ids: Vec<ItemId>| ids::texts(ids@)),
        }
    }
}

/// The id that an upstream record is kept under.
pub open spec fn kept_id(u: UpstreamItem) -> Seq<char> {
    match corrections::id_correction(u.id@) {
        Some(fixed) => fixed,
        None => u.id@,
    }
}

/// The name that an upstream record is kept under.
pub open spec fn kept_name(u: UpstreamItem) -> Seq<char> {
    match corrections::name_correction(kept_id(u)) {
        Some(fixed) => fixed,
        None => u.name@,
    }
}

/// What is kept of an upstream record.
pub open spec fn kept_record(u: UpstreamItem) -> RecordView {
    RecordView {
        id: kept_id(u),
        name: kept_name(u),
        upstream_icon: text::opt_text(u.icon),
        task_ids: ids::texts(u.task_ids@),
        category: text::opt_text(u.category),
        subcategory: text::opt_text(u.subcategory),
        price: u.price,
        weight: u.weight,
        rarity: text::opt_text(u.rarity),
    }
}

/// The ids under a name, with one more.
pub open spec fn named(
    by_name: Map<Seq<char>, Seq<Seq<char>>>,
    name: Seq<char>,
    id: Seq<char>,
) -> Map<Seq<char>, Seq<Seq<char>>> {
    by_name.insert(
        name,
        if by_name.contains_key(name) {
            by_name[name].push(id)
        } else {
            seq![id]
        },
    )
}

impl ItemCatalog {
    /// The catalog of no items.
    pub fn new() -> (r: Self)
        ensures
            r.items@ == Map::<Seq<char>, ItemRecord>::empty(),
            r.items.order() == Seq::<Seq<char>>::empty(),
            r@.items == Seq::<RecordView>::empty(),
            r@.by_name == Map::<Seq<char>, Seq<Seq<char>>>::empty(),
    {
        let r = ItemCatalog { items: IdMap::new(), by_name: IdMap::new() };
        assert(r@.items =~= Seq::<RecordView>::empty());
        assert(r@.by_name =~= Map::<Seq<char>, Seq<Seq<char>>>::empty());
        r
    }

    /// Takes a record in, under its corrected id and name: in place of an
    /// earlier one of the same id, and beside the others of the same name.
    pub fn add_item(&mut self, u: UpstreamItem)
        ensures
            final(self)@.by_name == named(
                old(self)@.by_name,
                text::lowercase(kept_name(u)),
                kept_id(u),
            ),
            final(self).items@.dom() == old(self).items@.dom().insert(kept_id(u)),
            final(self).items@[kept_id(u)]@ == kept_record(u),
            forall|id: Seq<char>|
                id != kept_id(u) && #[trigger] old(self).items@.contains_key(id)
                    ==> final(self).items@[id] == old(self).items@[id],
            final(self).items.order() == if old(self).items@.contains_key(kept_id(u)) {
                old(self).items.order()
            } else {
                old(self).items.order().push(kept_id(u))
            },
    {
        let ghost was = self@.by_name;
        let id: String = correct_id(u.id.as_str()).to_owned();
        let name: String = correct_name(id.as_str(), u.name.as_str());
        let key: String = to_lowercase(name.as_str());
        let mut ids: Vec<ItemId> = match self.by_name.get(key.as_str()) {
            Some(v) => clone_ids(v),
            None => Vec::new(),
        };
        let ghost before = ids::texts(ids@);
        ids.push(id.clone());
        assert(ids::texts(ids@) =~= before.push(id@));
        assert(self.by_name@.contains_key(key@) ==> was[key@] == before);
        assert(!self.by_name@.contains_key(key@) ==> ids::texts(ids@) =~= seq![id@]);
        let ghost now = ids::texts(ids@);
        self.by_name.insert(key, ids);
        assert(self@.by_name =~= was.insert(key@, now));
        self.items.insert(
            id.clone(),
            ItemRecord {
                id,
                name,
                upstream_icon: u.icon,
                task_ids: u.task_ids,
                category: u.category,
                subcategory: u.subcategory,
                price: u.price,
                weight: u.weight,
                rarity: u.rarity,
            },
        );
    }
}

/// A copy of a list of ids.
pub fn clone_ids(ids: &Vec<ItemId>) -> (r: Vec<ItemId>)
    ensures
        ids::texts(r@) == ids::texts(ids@),
{
    let mut r: Vec<ItemId> = Vec::new();
    let mut i: usize = 0;
    while i < ids.len()
        invariant
            i <= ids@.len(),
            r@.len() == i,
            forall|j: int| 0 <= j < i ==> (#[trigger] r@[j])@ == ids@[j]@,
        decreases ids@.len() - i,
    {
        r.push(ids[i].clone());
        i += 1;
    }
    assert(ids::texts(r@) =~= ids::texts(ids@));
    r
}

impl Ranked for Item {
    open spec fn precedes(a: ItemView, b: ItemView) -> bool {
        text::text_lt(a.id, b.id)
    }

    proof fn precedes_irreflexive(a: ItemView) {
        text::lemma_text_lt_irreflexive(a.id);
    }

    proof fn precedes_asymmetric(a: ItemView, b: ItemView) {
        text::lemma_text_order(a.id, b.id, b.id);
    }

    proof fn precedes_negatively_transitive(a: ItemView, b: ItemView, c: ItemView) {
        text::lemma_text_order(a.id, b.id, c.id);
    }

    fn is_before(&self, other: &Self) -> (r: bool) {
        text_before(self.id.as_str(), other.id.as_str())
    }
}

/// The item that ships for a record: its icon lies in `dir` under its id.
pub open spec fn output_item(rec: RecordView, dir: Seq<char>) -> ItemView {
    ItemView {
        id: rec.id,
        name: rec.name,
        icon_path: dir + "/"@ + rec.id + ".png"@,
        category: rec.category,
        subcategory: rec.subcategory,
        weight: rec.weight,
        price: rec.price,
        rarity: rec.rarity,
    }
}

impl ItemCatalog {
    /// The items that ship, all of the catalog, in the order of their ids.
    pub fn build_output_items(&self, icon_dir_name: &str) -> (out: Vec<Item>)
        ensures
            sorting::views(out@) == sorting::in_order::<Item>(
                self@.items.map_values(|rec: RecordView| output_item(rec, icon_dir_name@)),
            ),
    {
        let ghost recs = self@.items;
        let ghost all = recs.map_values(|rec: RecordView| output_item(rec, icon_dir_name@));
        let n: usize = self.items.len();
        let mut out: Vec<Item> = Vec::new();
        let mut i: usize = 0;
        while i < n
            invariant
                i <= n,
                n == self.items.order().len(),
                n == recs.len(),
                recs == sorting::views(self.items.values()),
                all == recs.map_values(|rec: RecordView| output_item(rec, icon_dir_name@)),
                sorting::views(out@) == all.take(i as int),
            decreases n - i,
        {
            let rec: &ItemRecord = self.items.value_at(i);
            let mut icon_path: String = icon_dir_name.to_owned();
            icon_path.append("/");
            icon_path.append(rec.id.as_str());
            icon_path.append(".png");
            let item = Item {
                id: rec.id.clone(),
                name: rec.name.clone(),
                icon_path,
                category: clone_opt_string(&rec.category),
                subcategory: clone_opt_string(&rec.subcategory),
                weight: rec.weight,
                price: rec.price,
                rarity: clone_opt_string(&rec.rarity),
            };
            let ghost before = sorting::views(out@);
            assert(item@ =~= output_item(rec@, icon_dir_name@));
            assert(rec@ == recs[i as int]);
            out.push(item);
            assert(sorting::views(out@) =~= before.push(all[i as int]));
            assert(all.take(i + 1) =~= before.push(all[i as int]));
            i += 1;
        }
        assert(all.take(all.len() as int) =~= all);
        sort_stably(out)
    }
}

} // verus!
