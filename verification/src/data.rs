//! The game data that the planner works on: hideout modules with their
//! upgrades, research blueprints, items, and recipe corrections.

use crate::text;
use crate::hash;
use crate::hash::fnv1a64;
use vstd::prelude::*;
use vstd::string::*;
use vstd::utf8::*;

verus! {

pub type ItemId = String;

pub type ModuleId = String;

pub type UpgradeId = String;

pub type ResearchNodeId = String;

/// How many slots a recipe has in the edit panel.
pub const RECIPE_SLOTS: usize = 4;

/// So many of one item.
#[derive(Debug)]
pub struct Requirement {
    pub item_id: ItemId,
    pub quantity: u32,
}

/// What a [`Requirement`] says.
#[verifier::ext_equal]
pub struct ReqView {
    pub item: Seq<char>,
    pub quantity: u32,
}

impl View for Requirement {
    type V = ReqView;

    open spec fn view(&self) -> ReqView {
        ReqView { item: self.item_id@, quantity: self.quantity }
    }
}

impl Clone for Requirement {
    fn clone(&self) -> (r: Self)
        ensures
            r == *self,
    {
        Requirement { item_id: self.item_id.clone(), quantity: self.quantity }
    }
}

/// What a list of requirements says.
pub open spec fn reqs_view(reqs: Seq<Requirement>) -> Seq<ReqView> {
    Seq::new(reqs.len(), |i: int| reqs[i]@)
}

/// A copy of a list of requirements.
pub fn clone_requirements(reqs: &Vec<Requirement>) -> (r: Vec<Requirement>)
    ensures
        r@ == reqs@,
{
    let mut r: Vec<Requirement> = Vec::new();
    let mut i: usize = 0;
    while i < reqs.len()
        invariant
            i <= reqs@.len(),
            r@ == reqs@.take(i as int),
        decreases reqs@.len() - i,
    {
        r.push(reqs[i].clone());
        assert(reqs@.take(i + 1) =~= reqs@.take(i as int).push(reqs@[i as int]));
        i += 1;
    }
    assert(reqs@.take(reqs@.len() as int) =~= reqs@);
    r
}

/// One level of a hideout module.
#[derive(Debug)]
pub struct Upgrade {
    pub id: UpgradeId,
    pub name: String,
    pub level: u32,
    pub description: String,
    pub requirements: Vec<Requirement>,
}

/// What an [`Upgrade`] says, without its description.
#[verifier::ext_equal]
pub struct UpgradeView {
    pub id: Seq<char>,
    pub name: Seq<char>,
    pub level: u32,
    pub description: Seq<char>,
    pub requirements: Seq<ReqView>,
}

impl View for Upgrade {
    type V = UpgradeView;

    open spec fn view(&self) -> UpgradeView {
        UpgradeView {
            id: self.id@,
            name: self.name@,
            level: self.level,
            description: self.description@,
            requirements: reqs_view(self.requirements@),
        }
    }
}

/// A part of the hideout, built level by level.
#[derive(Debug)]
pub struct HideoutModule {
    pub id: ModuleId,
    pub name: String,
    pub upgrades: Vec<Upgrade>,
}

/// What a [`HideoutModule`] says.
#[verifier::ext_equal]
pub struct ModuleView {
    pub id: Seq<char>,
    pub name: Seq<char>,
    pub upgrades: Seq<UpgradeView>,
}

impl View for HideoutModule {
    type V = ModuleView;

    open spec fn view(&self) -> ModuleView {
        ModuleView {
            id: self.id@,
            name: self.name@,
            upgrades: Seq::new(self.upgrades@.len(), |i: int| self.upgrades@[i]@),
        }
    }
}

/// A blueprint of a merchant's research tree.
#[derive(Debug)]
pub struct ResearchNode {
    pub id: ResearchNodeId,
    pub name: String,
    pub parents: Vec<ResearchNodeId>,
    pub unlocks_item_id: ItemId,
    pub samples: Vec<Requirement>,
}

/// What a [`ResearchNode`] says of its place in the tree and its samples.
#[verifier::ext_equal]
pub struct NodeView {
    pub id: Seq<char>,
    pub name: Seq<char>,
    pub parents: Seq<Seq<char>>,
    pub unlocks_item_id: Seq<char>,
    pub samples: Seq<ReqView>,
}

impl View for ResearchNode {
    type V = NodeView;

    open spec fn view(&self) -> NodeView {
        NodeView {
            id: self.id@,
            name: self.name@,
            parents: Seq::new(self.parents@.len(), |i: int| self.parents@[i]@),
            unlocks_item_id: self.unlocks_item_id@,
            samples: reqs_view(self.samples@),
        }
    }
}

/// The research tree of one category of parts.
#[derive(Debug)]
pub struct ResearchCategory {
    pub id: String,
    pub name: String,
    pub merchant: String,
    pub nodes: Vec<ResearchNode>,
}

/// A weight in kilograms, held as the bits of a 32-bit float. It is carried as
/// it was given; only whether two weights are the same is ever asked.
#[derive(Debug, Clone, Copy, PartialEq, Eq, Structural)]
pub struct Kilograms {
    pub bits: u32,
}

impl Kilograms {
    /// The bits without the sign.
    pub open spec fn magnitude(self) -> int {
        self.bits as int % 0x8000_0000
    }

    /// Whether the bits are those of a number.
    pub open spec fn is_number(self) -> bool {
        self.magnitude() <= 0x7f80_0000
    }

    /// Whether two weights are the same, as floats are: what is no number is
    /// the same as nothing, and nought has two signs.
    pub open spec fn weighs(self, other: Kilograms) -> bool {
        &&& self.is_number()
        &&& self.bits == other.bits || self.magnitude() == 0 && other.magnitude() == 0
    }

    /// Whether two weights are the same.
    pub fn same(self, other: Kilograms) -> (r: bool)
        ensures
            r == self.weighs(other),
    {
        let a: u32 = self.bits % 0x8000_0000;
        let b: u32 = other.bits % 0x8000_0000;
        a <= 0x7f80_0000 && (self.bits == other.bits || a == 0 && b == 0)
    }
}

/// Whether two weights that may be missing are the same.
pub open spec fn same_weight(a: Option<Kilograms>, b: Option<Kilograms>) -> bool {
    match (a, b) {
        (Some(x), Some(y)) => x.weighs(y),
        (None, None) => true,
        _ => false,
    }
}

/// An item of the game.
#[derive(Debug)]
pub struct Item {
    pub id: ItemId,
    pub name: String,
    pub icon_path: String,
    pub category: Option<String>,
    pub subcategory: Option<String>,
    pub weight: Option<Kilograms>,
    pub price: Option<u64>,
    pub rarity: Option<String>,
}

/// What an [`Item`] says.
#[verifier::ext_equal]
pub struct ItemView {
    pub id: Seq<char>,
    pub name: Seq<char>,
    pub icon_path: Seq<char>,
    pub category: Option<Seq<char>>,
    pub subcategory: Option<Seq<char>>,
    pub weight: Option<Kilograms>,
    pub price: Option<u64>,
    pub rarity: Option<Seq<char>>,
}

impl View for Item {
    type V = ItemView;

    open spec fn view(&self) -> ItemView {
        ItemView {
            id: self.id@,
            name: self.name@,
            icon_path: self.icon_path@,
            category: text::opt_text(self.category),
            subcategory: text::opt_text(self.subcategory),
            weight: self.weight,
            price: self.price,
            rarity: text::opt_text(self.rarity),
        }
    }
}

/// One version of the game data.
#[derive(Debug)]
pub struct GameData {
    pub data_version: String,
    pub scraped_at: String,
    pub source_repo: String,
    pub source_commit: String,
    pub research: Vec<ResearchCategory>,
    pub modules: Vec<HideoutModule>,
    pub items: Vec<Item>,
}

/// What a [`GameData`] says.
#[verifier::ext_equal]
pub struct DataView {
    pub data_version: Seq<char>,
    pub scraped_at: Seq<char>,
    pub source_repo: Seq<char>,
    pub source_commit: Seq<char>,
    pub categories: Seq<CategoryView>,
    pub research: Seq<Seq<NodeView>>,
    pub modules: Seq<ModuleView>,
    pub items: Seq<ItemView>,
}

/// How a research category is labelled.
#[verifier::ext_equal]
pub struct CategoryView {
    pub id: Seq<char>,
    pub name: Seq<char>,
    pub merchant: Seq<char>,
}

/// How a research category is labelled.
pub open spec fn category_view(c: ResearchCategory) -> CategoryView {
    CategoryView { id: c.id@, name: c.name@, merchant: c.merchant@ }
}

/// The nodes of a research category.
pub open spec fn nodes_view(nodes: Seq<ResearchNode>) -> Seq<NodeView> {
    Seq::new(nodes.len(), |j: int| nodes[j]@)
}

impl View for GameData {
    type V = DataView;

    open spec fn view(&self) -> DataView {
        DataView {
            data_version: self.data_version@,
            scraped_at: self.scraped_at@,
            source_repo: self.source_repo@,
            source_commit: self.source_commit@,
            categories: Seq::new(
                self.research@.len(),
                |i: int| category_view(self.research@[i]),
            ),
            research: Seq::new(self.research@.len(), |i: int| nodes_view(self.research@[i].nodes@)),
            modules: Seq::new(self.modules@.len(), |i: int| self.modules@[i]@),
            items: Seq::new(self.items@.len(), |i: int| self.items@[i]@),
        }
    }
}

/// The first upgrade of `ups` from position `from` on with the id `id`.
pub open spec fn upgrade_in(ups: Seq<UpgradeView>, id: Seq<char>, from: int) -> Option<int>
    decreases ups.len() - from,
{
    if from < 0 || from >= ups.len() {
        None
    } else if ups[from].id == id {
        Some(from)
    } else {
        upgrade_in(ups, id, from + 1)
    }
}

/// The first upgrade with the id `id` in the modules from `from` on: the
/// positions of its module and of the upgrade in it.
pub open spec fn upgrade_from(mods: Seq<ModuleView>, id: Seq<char>, from: int) -> Option<(int, int)>
    decreases mods.len() - from,
{
    if from < 0 || from >= mods.len() {
        None
    } else {
        match upgrade_in(mods[from].upgrades, id, 0) {
            Some(u) => Some((from, u)),
            None => upgrade_from(mods, id, from + 1),
        }
    }
}

/// The first module with the id `id` from position `from` on.
pub open spec fn module_from(mods: Seq<ModuleView>, id: Seq<char>, from: int) -> Option<int>
    decreases mods.len() - from,
{
    if from < 0 || from >= mods.len() {
        None
    } else if mods[from].id == id {
        Some(from)
    } else {
        module_from(mods, id, from + 1)
    }
}

/// The first node of `nodes` from position `from` on with the id `id`.
pub open spec fn node_in(nodes: Seq<NodeView>, id: Seq<char>, from: int) -> Option<int>
    decreases nodes.len() - from,
{
    if from < 0 || from >= nodes.len() {
        None
    } else if nodes[from].id == id {
        Some(from)
    } else {
        node_in(nodes, id, from + 1)
    }
}

/// The first node with the id `id` in the categories from `from` on.
pub open spec fn node_from(cats: Seq<Seq<NodeView>>, id: Seq<char>, from: int) -> Option<(int, int)>
    decreases cats.len() - from,
{
    if from < 0 || from >= cats.len() {
        None
    } else {
        match node_in(cats[from], id, 0) {
            Some(j) => Some((from, j)),
            None => node_from(cats, id, from + 1),
        }
    }
}

/// The first item with the id `id` from position `from` on.
pub open spec fn item_from(items: Seq<ItemView>, id: Seq<char>, from: int) -> Option<int>
    decreases items.len() - from,
{
    if from < 0 || from >= items.len() {
        None
    } else if items[from].id == id {
        Some(from)
    } else {
        item_from(items, id, from + 1)
    }
}

impl DataView {
    /// The positions of the upgrade with the id `id`.
    pub open spec fn upgrade_pos(self, id: Seq<char>) -> Option<(int, int)> {
        upgrade_from(self.modules, id, 0)
    }

    /// Whether the data knows the upgrade `id`.
    pub open spec fn knows_upgrade(self, id: Seq<char>) -> bool {
        self.upgrade_pos(id) is Some
    }

    /// The upgrade with the id `id`.
    pub open spec fn upgrade(self, id: Seq<char>) -> UpgradeView
        recommends
            self.knows_upgrade(id),
    {
        let pos = self.upgrade_pos(id).unwrap();
        self.modules[pos.0].upgrades[pos.1]
    }

    /// The module that holds the upgrade with the id `id`.
    pub open spec fn module_of(self, id: Seq<char>) -> ModuleView
        recommends
            self.knows_upgrade(id),
    {
        self.modules[self.upgrade_pos(id).unwrap().0]
    }

    /// The position of the module with the id `id`.
    pub open spec fn module_pos(self, id: Seq<char>) -> Option<int> {
        module_from(self.modules, id, 0)
    }

    /// Whether the data knows the module `id`.
    pub open spec fn knows_module(self, id: Seq<char>) -> bool {
        self.module_pos(id) is Some
    }

    /// The research node with the id `id`.
    pub open spec fn node(self, id: Seq<char>) -> Option<NodeView> {
        match node_from(self.research, id, 0) {
            Some(pos) => Some(self.research[pos.0][pos.1]),
            None => None,
        }
    }

    /// The item with the id `id`.
    pub open spec fn item(self, id: Seq<char>) -> Option<ItemView> {
        match item_from(self.items, id, 0) {
            Some(i) => Some(self.items[i]),
            None => None,
        }
    }
}

/// What is found under an id has that id.
pub proof fn lemma_upgrade_in(ups: Seq<UpgradeView>, id: Seq<char>, from: int)
    requires
        0 <= from,
    ensures
        match upgrade_in(ups, id, from) {
            Some(u) => from <= u < ups.len() && ups[u].id == id,
            None => forall|u: int| from <= u < ups.len() ==> (#[trigger] ups[u]).id != id,
        },
    decreases ups.len() - from,
{
    if from < ups.len() && ups[from].id != id {
        lemma_upgrade_in(ups, id, from + 1);
    }
}

/// What is found under an id has that id.
pub proof fn lemma_upgrade_from(mods: Seq<ModuleView>, id: Seq<char>, from: int)
    requires
        0 <= from,
    ensures
        match upgrade_from(mods, id, from) {
            Some(p) => {
                &&& from <= p.0 < mods.len()
                &&& 0 <= p.1 < mods[p.0].upgrades.len()
                &&& mods[p.0].upgrades[p.1].id == id
            },
            None => forall|m: int, u: int|
                from <= m < mods.len() && 0 <= u < mods[m].upgrades.len() ==> (
                #[trigger] mods[m].upgrades[u]).id != id,
        },
    decreases mods.len() - from,
{
    if from < mods.len() {
        lemma_upgrade_in(mods[from].upgrades, id, 0);
        if upgrade_in(mods[from].upgrades, id, 0) is None {
            lemma_upgrade_from(mods, id, from + 1);
        }
    }
}

/// What is found under an id has that id.
pub proof fn lemma_module_from(mods: Seq<ModuleView>, id: Seq<char>, from: int)
    requires
        0 <= from,
    ensures
        match module_from(mods, id, from) {
            Some(m) => from <= m < mods.len() && mods[m].id == id,
            None => forall|m: int| from <= m < mods.len() ==> (#[trigger] mods[m]).id != id,
        },
    decreases mods.len() - from,
{
    if from < mods.len() && mods[from].id != id {
        lemma_module_from(mods, id, from + 1);
    }
}

/// What is found under an id has that id.
pub proof fn lemma_node_in(nodes: Seq<NodeView>, id: Seq<char>, from: int)
    requires
        0 <= from,
    ensures
        match node_in(nodes, id, from) {
            Some(j) => from <= j < nodes.len() && nodes[j].id == id,
            None => forall|j: int| from <= j < nodes.len() ==> (#[trigger] nodes[j]).id != id,
        },
    decreases nodes.len() - from,
{
    if from < nodes.len() && nodes[from].id != id {
        lemma_node_in(nodes, id, from + 1);
    }
}

/// What is found under an id has that id.
pub proof fn lemma_node_from(cats: Seq<Seq<NodeView>>, id: Seq<char>, from: int)
    requires
        0 <= from,
    ensures
        match node_from(cats, id, from) {
            Some(p) => {
                &&& from <= p.0 < cats.len()
                &&& 0 <= p.1 < cats[p.0].len()
                &&& cats[p.0][p.1].id == id
            },
            None => forall|c: int, j: int|
                from <= c < cats.len() && 0 <= j < cats[c].len() ==> (#[trigger] cats[c][j]).id
                    != id,
        },
    decreases cats.len() - from,
{
    if from < cats.len() {
        lemma_node_in(cats[from], id, 0);
        if node_in(cats[from], id, 0) is None {
            lemma_node_from(cats, id, from + 1);
        }
    }
}

/// What is found under an id has that id.
pub proof fn lemma_item_from(items: Seq<ItemView>, id: Seq<char>, from: int)
    requires
        0 <= from,
    ensures
        match item_from(items, id, from) {
            Some(i) => from <= i < items.len() && items[i].id == id,
            None => forall|i: int| from <= i < items.len() ==> (#[trigger] items[i]).id != id,
        },
    decreases items.len() - from,
{
    if from < items.len() && items[from].id != id {
        lemma_item_from(items, id, from + 1);
    }
}

impl HideoutModule {
    /// The position of the upgrade with the id `id`.
    pub fn find_upgrade(&self, id: &String) -> (r: Option<usize>)
        ensures
            match r {
                Some(u) => upgrade_in(self@.upgrades, id@, 0) == Some(u as int) && u
                    < self.upgrades@.len() && self.upgrades@[u as int].id@ == id@,
                None => upgrade_in(self@.upgrades, id@, 0) is None,
            },
    {
        let mut u: usize = 0;
        while u < self.upgrades.len()
            invariant
                u <= self.upgrades@.len(),
                upgrade_in(self@.upgrades, id@, 0) == upgrade_in(self@.upgrades, id@, u as int),
            decreases self.upgrades@.len() - u,
        {
            if self.upgrades[u].id == *id {
                return Some(u);
            }
            u += 1;
        }
        None
    }
}

impl GameData {
    /// The positions of the upgrade with the id `id`: of its module, and in it.
    pub fn find_upgrade(&self, id: &String) -> (r: Option<(usize, usize)>)
        ensures
            match r {
                Some(p) => {
                    &&& self@.upgrade_pos(id@) == Some((p.0 as int, p.1 as int))
                    &&& p.0 < self.modules@.len()
                    &&& p.1 < self.modules@[p.0 as int].upgrades@.len()
                    &&& self@.upgrade(id@) == self.modules@[p.0 as int].upgrades@[p.1 as int]@
                    &&& self@.module_of(id@) == self.modules@[p.0 as int]@
                },
                None => self@.upgrade_pos(id@) is None,
            },
    {
        let mut m: usize = 0;
        while m < self.modules.len()
            invariant
                m <= self.modules@.len(),
                upgrade_from(self@.modules, id@, 0) == upgrade_from(self@.modules, id@, m as int),
            decreases self.modules@.len() - m,
        {
            match self.modules[m].find_upgrade(id) {
                Some(u) => {
                    return Some((m, u));
                },
                None => {},
            }
            m += 1;
        }
        None
    }

    /// The position of the module with the id `id`.
    pub fn find_module(&self, id: &String) -> (r: Option<usize>)
        ensures
            match r {
                Some(m) => self@.module_pos(id@) == Some(m as int) && m < self.modules@.len(),
                None => self@.module_pos(id@) is None,
            },
    {
        let mut m: usize = 0;
        while m < self.modules.len()
            invariant
                m <= self.modules@.len(),
                module_from(self@.modules, id@, 0) == module_from(self@.modules, id@, m as int),
            decreases self.modules@.len() - m,
        {
            if self.modules[m].id == *id {
                return Some(m);
            }
            m += 1;
        }
        None
    }

    /// The research node with the id `id`.
    pub fn find_node(&self, id: &String) -> (r: Option<&ResearchNode>)
        ensures
            match r {
                Some(n) => self@.node(id@) == Some(n@),
                None => self@.node(id@) is None,
            },
    {
        let mut c: usize = 0;
        while c < self.research.len()
            invariant
                c <= self.research@.len(),
                node_from(self@.research, id@, 0) == node_from(self@.research, id@, c as int),
            decreases self.research@.len() - c,
        {
            let cat = &self.research[c];
            let mut j: usize = 0;
            while j < cat.nodes.len()
                invariant
                    c < self.research@.len(),
                    *cat == self.research@[c as int],
                    self@.research[c as int] == nodes_view(cat.nodes@),
                    j <= cat.nodes@.len(),
                    node_from(self@.research, id@, 0) == node_from(self@.research, id@, c as int),
                    node_in(self@.research[c as int], id@, 0) == node_in(
                        self@.research[c as int],
                        id@,
                        j as int,
                    ),
                decreases cat.nodes@.len() - j,
            {
                if cat.nodes[j].id == *id {
                    return Some(&cat.nodes[j]);
                }
                j += 1;
            }
            c += 1;
        }
        None
    }

    /// The item with the id `id`.
    pub fn find_item(&self, id: &String) -> (r: Option<&Item>)
        ensures
            match r {
                Some(item) => self@.item(id@) == Some(item@),
                None => self@.item(id@) is None,
            },
    {
        let mut i: usize = 0;
        while i < self.items.len()
            invariant
                i <= self.items@.len(),
                item_from(self@.items, id@, 0) == item_from(self@.items, id@, i as int),
            decreases self.items@.len() - i,
        {
            if self.items[i].id == *id {
                return Some(&self.items[i]);
            }
            i += 1;
        }
        None
    }
}

/// What the slots of a recipe say.
pub open spec fn slots_view(slots: Seq<Option<Requirement>>) -> Seq<Option<ReqView>> {
    Seq::new(
        slots.len(),
        |i: int|
            match slots[i] {
                Some(r) => Some(r@),
                None => None,
            },
    )
}

/// The recipe of an upgrade laid out in slots: its first requirements in
/// order, and empty slots after them.
pub open spec fn base_slots_of(reqs: Seq<ReqView>) -> Seq<Option<ReqView>> {
    Seq::new(
        RECIPE_SLOTS as nat,
        |i: int|
            if i < reqs.len() {
                Some(reqs[i])
            } else {
                None
            },
    )
}

fn slot_of(reqs: &Vec<Requirement>, i: usize) -> (r: Option<Requirement>)
    ensures
        match r {
            Some(q) => i < reqs@.len() && q@ == reqs@[i as int]@,
            None => i >= reqs@.len(),
        },
{
    if i < reqs.len() {
        Some(reqs[i].clone())
    } else {
        None
    }
}

/// The bundled recipe of `upgrade` laid out in slots.
pub fn base_slots(upgrade: &Upgrade) -> (r: [Option<Requirement>; 4])
    ensures
        slots_view(r@) == base_slots_of(upgrade@.requirements),
{
    let r = [
        slot_of(&upgrade.requirements, 0),
        slot_of(&upgrade.requirements, 1),
        slot_of(&upgrade.requirements, 2),
        slot_of(&upgrade.requirements, 3),
    ];
    assert(slots_view(r@) =~= base_slots_of(upgrade@.requirements));
    r
}

/// A copy of the slots of a recipe.
pub fn clone_slots(slots: &[Option<Requirement>; 4]) -> (r: [Option<Requirement>; 4])
    ensures
        r@ == slots@,
{
    let r = [clone_slot(&slots[0]), clone_slot(&slots[1]), clone_slot(&slots[2]), clone_slot(&slots[3])];
    assert(r@ =~= slots@);
    r
}

fn clone_slot(slot: &Option<Requirement>) -> (r: Option<Requirement>)
    ensures
        r == *slot,
{
    match slot {
        Some(q) => Some(q.clone()),
        None => None,
    }
}

/// Whether two slots say the same.
fn same_slot(a: &Option<Requirement>, b: &Option<Requirement>) -> (r: bool)
    ensures
        r == match (*a, *b) {
            (Some(x), Some(y)) => x@ == y@,
            (None, None) => true,
            _ => false,
        },
{
    match (a, b) {
        (Some(x), Some(y)) => x.item_id == y.item_id && x.quantity == y.quantity,
        (None, None) => true,
        _ => false,
    }
}

/// A user's correction of a recipe. `base_hash` stamps the bundled recipe
/// that it corrects; corrections made before stamps existed have none.
#[derive(Debug)]
pub struct RecipeOverride {
    pub slots: [Option<Requirement>; 4],
    pub base_hash: Option<u64>,
}

/// What a [`RecipeOverride`] says.
#[verifier::ext_equal]
pub struct OverrideView {
    pub slots: Seq<Option<ReqView>>,
    pub base_hash: Option<u64>,
}

impl View for RecipeOverride {
    type V = OverrideView;

    open spec fn view(&self) -> OverrideView {
        OverrideView { slots: slots_view(self.slots@), base_hash: self.base_hash }
    }
}

impl RecipeOverride {
    /// A correction that is not stamped yet.
    pub fn new(slots: [Option<Requirement>; 4]) -> (r: Self)
        ensures
            r.slots == slots,
            r.base_hash is None,
    {
        RecipeOverride { slots, base_hash: None }
    }

    /// Whether the correction says what the bundled recipe of `upgrade` says.
    pub fn matches_base(&self, upgrade: &Upgrade) -> (r: bool)
        ensures
            r == (self@.slots == base_slots_of(upgrade@.requirements)),
    {
        let base = base_slots(upgrade);
        let ghost a = self@.slots;
        let ghost b = base_slots_of(upgrade@.requirements);
        assert(b == slots_view(base@));
        let mut i: usize = 0;
        while i < 4
            invariant
                i <= 4,
                a == self@.slots,
                b == slots_view(base@),
                b == base_slots_of(upgrade@.requirements),
                forall|j: int| 0 <= j < i ==> a[j] == b[j],
            decreases 4 - i,
        {
            if !same_slot(&self.slots[i], &base[i]) {
                assert(a[i as int] != b[i as int]);
                return false;
            }
            assert(a[i as int] == b[i as int]);
            i += 1;
        }
        assert(a =~= b);
        true
    }
}

impl Clone for RecipeOverride {
    fn clone(&self) -> (r: Self)
        ensures
            r@ == self@,
    {
        RecipeOverride { slots: clone_slots(&self.slots), base_hash: self.base_hash }
    }
}

/// The bytes over which a requirement is stamped: its item's id, a zero, and
/// its quantity, least significant byte first.
pub open spec fn req_bytes(req: ReqView) -> Seq<u8> {
    encode_utf8(req.item) + seq![
        0u8,
        (req.quantity % 256) as u8,
        (req.quantity / 256 % 256) as u8,
        (req.quantity / 65536 % 256) as u8,
        (req.quantity / 16777216) as u8,
    ]
}

/// The bytes over which a recipe is stamped.
pub open spec fn recipe_bytes(reqs: Seq<ReqView>) -> Seq<u8>
    decreases reqs.len(),
{
    if reqs.len() == 0 {
        Seq::empty()
    } else {
        recipe_bytes(reqs.drop_last()) + req_bytes(reqs.last())
    }
}

/// The stamp of a recipe.
pub open spec fn recipe_stamp(reqs: Seq<ReqView>) -> u64 {
    hash::fnv_of(recipe_bytes(reqs))
}

/// The stamp of the bundled recipe of `upgrade`, by which a later change of
/// that recipe is noticed.
pub fn recipe_hash(upgrade: &Upgrade) -> (h: u64)
    ensures
        h == recipe_stamp(upgrade@.requirements),
{
    let ghost reqs = upgrade@.requirements;
    let mut bytes: Vec<u8> = Vec::new();
    let mut i: usize = 0;
    while i < upgrade.requirements.len()
        invariant
            i <= upgrade.requirements@.len(),
            reqs == reqs_view(upgrade.requirements@),
            bytes@ == recipe_bytes(reqs.take(i as int)),
        decreases upgrade.requirements@.len() - i,
    {
        let req = &upgrade.requirements[i];
        let ghost before = bytes@;
        let mut id: Vec<u8> = req.item_id.as_str().as_bytes_vec();
        bytes.append(&mut id);
        bytes.push(0u8);
        bytes.push((req.quantity % 256) as u8);
        bytes.push((req.quantity / 256 % 256) as u8);
        bytes.push((req.quantity / 65536 % 256) as u8);
        bytes.push((req.quantity / 16777216) as u8);
        assert(bytes@ =~= before + req_bytes(req@));
        assert(reqs.take(i + 1).drop_last() =~= reqs.take(i as int));
        i += 1;
    }
    assert(reqs.take(reqs.len() as int) =~= reqs);
    fnv1a64(bytes.as_slice())
}

} // verus!
