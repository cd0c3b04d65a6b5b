//! How far upgrades are from claimable, and the ranked list of what to build
//! next.

use crate::data;
use crate::sorting;
use crate::text;
use crate::data::{HideoutModule, ModuleView, ReqView, Requirement, Upgrade, UpgradeId, UpgradeView};
use crate::sorting::{sort_stably, Ranked};
use crate::state::{AppState, StateView};
use crate::text::text_before;
use vstd::prelude::*;

verus! {

/// How many units a recipe asks for.
pub open spec fn total_quantity(reqs: Seq<ReqView>) -> nat
    decreases reqs.len(),
{
    if reqs.len() == 0 {
        0
    } else {
        total_quantity(reqs.drop_last()) + reqs.last().quantity as nat
    }
}

proof fn lemma_total_quantity_grows(reqs: Seq<ReqView>, n: int)
    requires
        0 <= n <= reqs.len(),
    ensures
        total_quantity(reqs.take(n)) <= total_quantity(reqs),
    decreases reqs.len() - n,
{
    if n < reqs.len() {
        lemma_total_quantity_grows(reqs, n + 1);
        assert(reqs.take(n + 1).drop_last() =~= reqs.take(n));
    } else {
        assert(reqs.take(n) =~= reqs);
    }
}

impl StateView {
    /// How many units of a recipe are there, each item counted up to what the
    /// recipe asks for.
    pub open spec fn gathered(self, reqs: Seq<ReqView>) -> nat
        decreases reqs.len(),
    {
        if reqs.len() == 0 {
            0
        } else {
            let have = self.owned_total(reqs.last().item);
            let counted = if have < reqs.last().quantity {
                have
            } else {
                reqs.last().quantity
            };
            self.gathered(reqs.drop_last()) + counted as nat
        }
    }

    /// How many entries of a recipe are short.
    pub open spec fn items_missing(self, reqs: Seq<ReqView>) -> nat
        decreases reqs.len(),
    {
        if reqs.len() == 0 {
            0
        } else if self.owned_total(reqs.last().item) < reqs.last().quantity {
            self.items_missing(reqs.drop_last()) + 1
        } else {
            self.items_missing(reqs.drop_last())
        }
    }

    /// How many units a recipe is short of.
    pub open spec fn units_missing(self, reqs: Seq<ReqView>) -> nat
        decreases reqs.len(),
    {
        if reqs.len() == 0 {
            0
        } else {
            let have = self.owned_total(reqs.last().item);
            let short: int = if have < reqs.last().quantity {
                reqs.last().quantity - have
            } else {
                0
            };
            self.units_missing(reqs.drop_last()) + short as nat
        }
    }

    /// Whether every entry of a recipe is owned in full.
    pub open spec fn stocked(self, reqs: Seq<ReqView>) -> bool {
        forall|i: int|
            0 <= i < reqs.len() ==> self.owned_total((#[trigger] reqs[i]).item) >= reqs[i].quantity
    }

    /// Whether a recipe is known and owned in full.
    pub open spec fn can_consume(self, id: Seq<char>) -> bool {
        self.requirements(id).len() > 0 && self.stocked(self.requirements(id))
    }

    /// Whether an upgrade can be claimed now.
    pub open spec fn ready(self, id: Seq<char>) -> bool {
        !self.completed.contains(id) && self.can_consume(id)
    }

    /// The state with every entry of a recipe spent, in order.
    pub open spec fn spending_all(self, reqs: Seq<ReqView>) -> StateView
        decreases reqs.len(),
    {
        if reqs.len() == 0 {
            self
        } else {
            self.spending_all(reqs.drop_last()).spending(reqs.last().item, reqs.last().quantity)
        }
    }

    /// Whether the units that the recipe of `id` asks for fit in a count.
    pub open spec fn recipe_fits(self, id: Seq<char>) -> bool {
        total_quantity(self.requirements(id)) <= u32::MAX
    }

    /// Where among the first `n` upgrades of a module the one to build next
    /// is: the first of the lowest level that is not completed.
    pub open spec fn natural_next(self, ups: Seq<UpgradeView>, n: int) -> Option<int>
        decreases n,
    {
        if n <= 0 {
            None
        } else {
            let before = self.natural_next(ups, n - 1);
            if self.completed.contains(ups[n - 1].id) {
                before
            } else {
                match before {
                    None => Some(n - 1),
                    Some(u) => if ups[n - 1].level < ups[u].level {
                        Some(n - 1)
                    } else {
                        Some(u)
                    },
                }
            }
        }
    }

    /// What is known of a recipe.
    pub open spec fn knowledge(self, id: Seq<char>) -> RecipeKnowledge {
        if self.requirements(id).len() == 0 {
            RecipeKnowledge::Unknown
        } else if self.overrides.contains_key(id) {
            RecipeKnowledge::Edited
        } else {
            RecipeKnowledge::Bundled
        }
    }

    /// The progress of an upgrade.
    pub open spec fn progress(self, id: Seq<char>) -> UpgradeProgress {
        UpgradeProgress {
            collected: self.gathered(self.requirements(id)) as u32,
            needed: total_quantity(self.requirements(id)) as u32,
        }
    }

    /// The shortfall of an upgrade.
    pub open spec fn shortfall(self, id: Seq<char>) -> UpgradeShortfall {
        UpgradeShortfall {
            items_missing: self.items_missing(self.requirements(id)) as u32,
            units_missing: self.units_missing(self.requirements(id)) as u32,
        }
    }

    /// The row of an upgrade in the list of what to build next.
    pub open spec fn row(self, module_name: Seq<char>, up: UpgradeView) -> RowView {
        RowView {
            upgrade_id: up.id,
            module_name,
            level: up.level,
            progress: self.progress(up.id),
            knowledge: self.knowledge(up.id),
            ready: self.ready(up.id),
            pinned: self.pinned.contains(up.id),
            shortfall: self.shortfall(up.id),
        }
    }

    /// Whether the recipe of what is next in the module `m` fits in a count,
    /// where the module has a row.
    pub open spec fn row_fits(self, m: ModuleView) -> bool {
        match self.natural_next(m.upgrades, m.upgrades.len() as int) {
            Some(u) => !self.module_disabled(m.id) ==> self.recipe_fits(m.upgrades[u].id),
            None => true,
        }
    }

    /// The rows of the modules, in the order of the modules: one for each that
    /// is enabled and has something left to build.
    pub open spec fn rows(self, mods: Seq<ModuleView>) -> Seq<RowView>
        decreases mods.len(),
    {
        if mods.len() == 0 {
            Seq::empty()
        } else {
            let m = mods.last();
            let before = self.rows(mods.drop_last());
            match self.natural_next(m.upgrades, m.upgrades.len() as int) {
                Some(u) => if self.module_disabled(m.id) {
                    before
                } else {
                    before.push(self.row(m.name, m.upgrades[u]))
                },
                None => before,
            }
        }
    }
}

/// What is built next in a module is not completed, and nothing that is left
/// has a lower level, nor the same one and an earlier place.
pub proof fn lemma_natural_next(s: StateView, ups: Seq<UpgradeView>, n: int)
    requires
        n <= ups.len(),
    ensures
        match s.natural_next(ups, n) {
            Some(u) => {
                &&& 0 <= u < n
                &&& !s.completed.contains(ups[u].id)
                &&& forall|v: int|
                    0 <= v < n && !s.completed.contains((#[trigger] ups[v]).id) ==> ups[u].level
                        <= ups[v].level && (ups[u].level == ups[v].level ==> u <= v)
            },
            None => forall|v: int| 0 <= v < n ==> s.completed.contains((#[trigger] ups[v]).id),
        },
    decreases n,
{
    if n > 0 {
        lemma_natural_next(s, ups, n - 1);
    }
}

/// Collected-vs-needed rollup of a recipe, each item capped at what the
/// recipe asks for. `needed == 0` means that the cost is not known.
#[derive(Debug, Clone, Copy, PartialEq, Eq, Structural)]
pub struct UpgradeProgress {
    pub collected: u32,
    pub needed: u32,
}

/// How far a recipe is from claimable. An empty recipe yields zeros: unknown
/// cost, not nothing to go.
#[derive(Debug, Clone, Copy, PartialEq, Eq, Structural)]
pub struct UpgradeShortfall {
    pub items_missing: u32,
    pub units_missing: u32,
}

impl Default for UpgradeShortfall {
    fn default() -> (r: Self)
        ensures
            r == (UpgradeShortfall { items_missing: 0, units_missing: 0 }),
    {
        UpgradeShortfall { items_missing: 0, units_missing: 0 }
    }
}

/// How much an upgrade's recipe can be trusted.
#[derive(Debug, Clone, Copy, PartialEq, Eq, Structural)]
pub enum RecipeKnowledge {
    /// The recipe is empty: the cost is not known.
    Unknown,
    /// The bundled recipe, as shipped.
    Bundled,
    /// Corrected by the user.
    Edited,
}

/// One row of the list of what to build next.
#[derive(Debug)]
pub struct UpgradeProgressRow {
    pub upgrade_id: UpgradeId,
    pub module_name: String,
    pub level: u32,
    pub progress: UpgradeProgress,
    pub knowledge: RecipeKnowledge,
    pub ready: bool,
    pub pinned: bool,
    pub shortfall: UpgradeShortfall,
}

/// What an [`UpgradeProgressRow`] says.
#[verifier::ext_equal]
pub struct RowView {
    pub upgrade_id: Seq<char>,
    pub module_name: Seq<char>,
    pub level: u32,
    pub progress: UpgradeProgress,
    pub knowledge: RecipeKnowledge,
    pub ready: bool,
    pub pinned: bool,
    pub shortfall: UpgradeShortfall,
}

impl View for UpgradeProgressRow {
    type V = RowView;

    open spec fn view(&self) -> RowView {
        RowView {
            upgrade_id: self.upgrade_id@,
            module_name: self.module_name@,
            level: self.level,
            progress: self.progress,
            knowledge: self.knowledge,
            ready: self.ready,
            pinned: self.pinned,
            shortfall: self.shortfall,
        }
    }
}

impl UpgradeProgress {
    /// The numerator of the done fraction: never more than the denominator.
    pub open spec fn part(self) -> int {
        if self.needed == 0 {
            0
        } else if self.collected < self.needed {
            self.collected as int
        } else {
            self.needed as int
        }
    }

    /// The denominator of the done fraction.
    pub open spec fn whole(self) -> int {
        if self.needed == 0 {
            1
        } else {
            self.needed as int
        }
    }
}

impl RowView {
    /// The band that the row belongs to: ready, nearly ready (one or two
    /// items short), in progress, known but untouched, unknown.
    pub open spec fn band(self) -> int {
        if self.knowledge == RecipeKnowledge::Unknown {
            4
        } else if self.ready {
            0
        } else if 1 <= self.shortfall.items_missing <= 2 {
            1
        } else if self.progress.collected > 0 {
            2
        } else {
            3
        }
    }

    /// Whether a nearly ready row is less short than `b`: of fewer items, or of
    /// as many and of fewer units.
    pub open spec fn less_short(self, b: RowView) -> bool {
        ||| self.shortfall.items_missing < b.shortfall.items_missing
        ||| self.shortfall.items_missing == b.shortfall.items_missing
            && self.shortfall.units_missing < b.shortfall.units_missing
    }

    /// Whether the row comes before `b` within their common band.
    pub open spec fn nearer(self, b: RowView) -> bool {
        if self.band() == 1 {
            self.less_short(b)
        } else if self.band() == 2 {
            self.progress.part() * b.progress.whole() > b.progress.part() * self.progress.whole()
        } else {
            false
        }
    }

    /// The order of the rows: pinned first, then by band, then the nearest of
    /// a band, then by module name, then by level.
    pub open spec fn comes_before(self, b: RowView) -> bool {
        if self.pinned != b.pinned {
            self.pinned
        } else if self.band() != b.band() {
            self.band() < b.band()
        } else if self.nearer(b) {
            true
        } else if b.nearer(self) {
            false
        } else if self.module_name != b.module_name {
            text::text_lt(self.module_name, b.module_name)
        } else {
            self.level < b.level
        }
    }
}

proof fn lemma_fractions(a: int, b: int, c: int, d: int, e: int, f: int)
    requires
        b > 0,
        d > 0,
        f > 0,
        a * d <= c * b,
        c * f <= e * d,
    ensures
        a * f <= e * b,
        a * d < c * b || c * f < e * d ==> a * f < e * b,
{
    assert(a * d * f <= c * b * f) by (nonlinear_arith)
        requires
            a * d <= c * b,
            f > 0,
    ;
    assert(c * f * b <= e * d * b) by (nonlinear_arith)
        requires
            c * f <= e * d,
            b > 0,
    ;
    assert(c * b * f == c * f * b) by (nonlinear_arith);
    assert((a * f) * d == a * d * f) by (nonlinear_arith);
    assert((e * b) * d == e * d * b) by (nonlinear_arith);
    if a * d < c * b {
        assert(a * d * f < c * b * f) by (nonlinear_arith)
            requires
                a * d < c * b,
                f > 0,
        ;
    }
    if c * f < e * d {
        assert(c * f * b < e * d * b) by (nonlinear_arith)
            requires
                c * f < e * d,
                b > 0,
        ;
    }
    assert(a * f <= e * b) by (nonlinear_arith)
        requires
            (a * f) * d <= (e * b) * d,
            d > 0,
    ;
    if a * d < c * b || c * f < e * d {
        assert(a * f < e * b) by (nonlinear_arith)
            requires
                (a * f) * d < (e * b) * d,
                d > 0,
        ;
    }
}

impl RowView {
    proof fn lemma_nearer_negatively_transitive(a: RowView, b: RowView, c: RowView)
        requires
            a.band() == b.band() == c.band(),
            !b.nearer(a),
            !c.nearer(b),
        ensures
            !c.nearer(a),
            a.nearer(b) || b.nearer(c) ==> a.nearer(c),
    {
        if a.band() == 2 {
            lemma_fractions(
                c.progress.part(),
                c.progress.whole(),
                b.progress.part(),
                b.progress.whole(),
                a.progress.part(),
                a.progress.whole(),
            );
        }
    }
}

impl Ranked for UpgradeProgressRow {
    open spec fn precedes(a: RowView, b: RowView) -> bool {
        a.comes_before(b)
    }

    proof fn precedes_irreflexive(a: RowView) {
    }

    proof fn precedes_asymmetric(a: RowView, b: RowView) {
        if a.pinned == b.pinned && a.band() == b.band() && !a.nearer(b) && !b.nearer(a)
            && a.module_name != b.module_name {
            if text::text_lt(b.module_name, a.module_name) {
                text::lemma_text_lt_trans(a.module_name, b.module_name, a.module_name);
                text::lemma_text_lt_irreflexive(a.module_name);
            }
        }
    }

    proof fn precedes_negatively_transitive(a: RowView, b: RowView, c: RowView) {
        if a.pinned == b.pinned && b.pinned == c.pinned && a.band() == b.band() && b.band()
            == c.band() {
            RowView::lemma_nearer_negatively_transitive(a, b, c);
            text::lemma_text_lt_total(a.module_name, b.module_name);
            text::lemma_text_lt_total(b.module_name, c.module_name);
            text::lemma_text_lt_irreflexive(a.module_name);
            if text::text_lt(c.module_name, a.module_name) && !a.nearer(c) {
                if text::text_lt(a.module_name, b.module_name) {
                    text::lemma_text_lt_trans(c.module_name, a.module_name, b.module_name);
                    if text::text_lt(b.module_name, c.module_name) {
                        text::lemma_text_lt_trans(c.module_name, b.module_name, c.module_name);
                        text::lemma_text_lt_irreflexive(c.module_name);
                    }
                }
            }
        }
    }

    fn is_before(&self, other: &Self) -> (r: bool) {
        if self.pinned != other.pinned {
            return self.pinned;
        }
        let a: u8 = self.band();
        let b: u8 = other.band();
        if a != b {
            return a < b;
        }
        if self.is_nearer(other) {
            return true;
        }
        if other.is_nearer(self) {
            return false;
        }
        if self.module_name != other.module_name {
            text_before(self.module_name.as_str(), other.module_name.as_str())
        } else {
            self.level < other.level
        }
    }
}

impl UpgradeProgressRow {
    fn band(&self) -> (r: u8)
        ensures
            r == self@.band(),
    {
        if self.knowledge == RecipeKnowledge::Unknown {
            4
        } else if self.ready {
            0
        } else if 1 <= self.shortfall.items_missing && self.shortfall.items_missing <= 2 {
            1
        } else if self.progress.collected > 0 {
            2
        } else {
            3
        }
    }

    fn is_nearer(&self, other: &Self) -> (r: bool)
        requires
            self@.band() == other@.band(),
        ensures
            r == self@.nearer(other@),
    {
        let band: u8 = self.band();
        if band == 1 {
            self.shortfall.items_missing < other.shortfall.items_missing
                || self.shortfall.items_missing == other.shortfall.items_missing
                && self.shortfall.units_missing < other.shortfall.units_missing
        } else if band == 2 {
            let (p, w): (u32, u32) = self.progress.parts();
            let (q, v): (u32, u32) = other.progress.parts();
            proof {
                lemma_product_fits(p, v);
                lemma_product_fits(q, w);
            }
            p as u64 * v as u64 > q as u64 * w as u64
        } else {
            false
        }
    }
}

/// The product of two counts fits in twice as many bits.
pub proof fn lemma_product_fits(a: u32, b: u32)
    ensures
        0 <= a * b <= u64::MAX,
{
    assert(0 <= a * b <= 0xffff_ffff * 0xffff_ffff) by (nonlinear_arith)
        requires
            0 <= a <= 0xffff_ffff,
            0 <= b <= 0xffff_ffff,
    ;
}

impl UpgradeProgress {
    /// The done fraction, as numerator and denominator. An empty recipe reads
    /// as nothing done.
    pub fn parts(&self) -> (r: (u32, u32))
        ensures
            r.0 == self.part(),
            r.1 == self.whole(),
    {
        if self.needed == 0 {
            (0, 1)
        } else if self.collected < self.needed {
            (self.collected, self.needed)
        } else {
            (self.needed, self.needed)
        }
    }
}

impl AppState {
    /// Whether every entry of a recipe is owned in full.
    pub(crate) fn has_all(&self, reqs: &Vec<Requirement>) -> (r: bool)
        ensures
            r == self@.stocked(data::reqs_view(reqs@)),
    {
        let ghost all = data::reqs_view(reqs@);
        let mut i: usize = 0;
        while i < reqs.len()
            invariant
                i <= reqs@.len(),
                all == data::reqs_view(reqs@),
                forall|j: int|
                    0 <= j < i ==> self@.owned_total((#[trigger] all[j]).item) >= all[j].quantity,
            decreases reqs@.len() - i,
        {
            if self.owned_total(&reqs[i].item_id) < reqs[i].quantity {
                assert(self@.owned_total(all[i as int].item) < all[i as int].quantity);
                return false;
            }
            i += 1;
        }
        true
    }

    /// Whether the upgrade is not completed and everything it costs is owned.
    /// An empty recipe is never ready: its cost is not known.
    pub fn is_upgrade_ready(&self, upgrade_id: &UpgradeId) -> (r: bool)
        ensures
            r == self@.ready(upgrade_id@),
    {
        if self.completed_upgrades.contains(upgrade_id.as_str()) {
            return false;
        }
        self.can_consume_materials(upgrade_id)
    }

    /// Whether everything an upgrade costs is owned, so that spending the
    /// recipe empties nothing early. An empty recipe has nothing to spend.
    pub fn can_consume_materials(&self, upgrade_id: &UpgradeId) -> (r: bool)
        ensures
            r == self@.can_consume(upgrade_id@),
    {
        let reqs: Vec<Requirement> = self.effective_requirements(upgrade_id);
        assert(data::reqs_view(reqs@).len() == reqs@.len());
        if reqs.len() == 0 {
            return false;
        }
        self.has_all(&reqs)
    }

    /// Spends every entry of a recipe.
    pub(crate) fn consume_all(&mut self, reqs: &Vec<Requirement>)
        ensures
            final(self)@ == old(self)@.spending_all(data::reqs_view(reqs@)),
    {
        let ghost was = self@;
        let ghost all = data::reqs_view(reqs@);
        let mut i: usize = 0;
        assert(all.take(0) =~= Seq::<ReqView>::empty());
        while i < reqs.len()
            invariant
                i <= reqs@.len(),
                all == data::reqs_view(reqs@),
                self@ == was.spending_all(all.take(i as int)),
            decreases reqs@.len() - i,
        {
            assert(all.take(i + 1).drop_last() =~= all.take(i as int));
            assert(all.take(i + 1).last() == reqs@[i as int]@);
            self.consume_from_inventory(&reqs[i].item_id, reqs[i].quantity);
            i += 1;
        }
        assert(all.take(all.len() as int) =~= all);
    }

    /// Completes an upgrade, spending its recipe first where `consume` asks
    /// for it.
    pub fn complete_upgrade(&mut self, upgrade_id: &UpgradeId, consume: bool)
        ensures
            final(self)@ == if consume {
                old(self)@.spending_all(old(self)@.requirements(upgrade_id@)).with_completed(
                    upgrade_id@,
                    true,
                )
            } else {
                old(self)@.with_completed(upgrade_id@, true)
            },
    {
        if consume {
            let reqs: Vec<Requirement> = self.effective_requirements(upgrade_id);
            self.consume_all(&reqs);
        }
        self.set_completed_upgrade(upgrade_id, true);
    }

    /// The progress over a list of requirements.
    pub(crate) fn progress_over(&self, reqs: &Vec<Requirement>) -> (r: UpgradeProgress)
        requires
            total_quantity(data::reqs_view(reqs@)) <= u32::MAX,
        ensures
            r.collected == self@.gathered(data::reqs_view(reqs@)),
            r.needed == total_quantity(data::reqs_view(reqs@)),
            r.collected <= r.needed,
    {
        let ghost all = data::reqs_view(reqs@);
        let mut collected: u32 = 0;
        let mut needed: u32 = 0;
        let mut i: usize = 0;
        assert(all.take(0) =~= Seq::<ReqView>::empty());
        while i < reqs.len()
            invariant
                i <= reqs@.len(),
                all == data::reqs_view(reqs@),
                total_quantity(all) <= u32::MAX,
                collected == self@.gathered(all.take(i as int)),
                needed == total_quantity(all.take(i as int)),
                collected <= needed,
            decreases reqs@.len() - i,
        {
            proof {
                assert(all.take(i + 1).drop_last() =~= all.take(i as int));
                assert(all.take(i + 1).last() == reqs@[i as int]@);
                lemma_total_quantity_grows(all, i + 1);
            }
            let have: u32 = self.owned_total(&reqs[i].item_id);
            let quantity: u32 = reqs[i].quantity;
            collected = collected + if have < quantity {
                have
            } else {
                quantity
            };
            needed = needed + quantity;
            i += 1;
        }
        assert(all.take(all.len() as int) =~= all);
        UpgradeProgress { collected, needed }
    }

    /// How complete an upgrade is. Owning more of an item than the recipe
    /// asks for does not push it past the whole.
    pub fn upgrade_progress(&self, upgrade_id: &UpgradeId) -> (r: UpgradeProgress)
        requires
            self@.recipe_fits(upgrade_id@),
        ensures
            r.collected == self@.gathered(self@.requirements(upgrade_id@)),
            r.needed == total_quantity(self@.requirements(upgrade_id@)),
            r.collected <= r.needed,
            r == self@.progress(upgrade_id@),
    {
        let reqs: Vec<Requirement> = self.effective_requirements(upgrade_id);
        self.progress_over(&reqs)
    }

    /// How far an upgrade is from claimable: how many of its entries are
    /// short, and by how many units together.
    pub fn upgrade_shortfall(&self, upgrade_id: &UpgradeId) -> (r: UpgradeShortfall)
        requires
            self@.recipe_fits(upgrade_id@),
        ensures
            r.items_missing == self@.items_missing(self@.requirements(upgrade_id@)),
            r.units_missing == self@.units_missing(self@.requirements(upgrade_id@)),
            r == self@.shortfall(upgrade_id@),
    {
        let reqs: Vec<Requirement> = self.effective_requirements(upgrade_id);
        let ghost all = data::reqs_view(reqs@);
        let mut items_missing: u32 = 0;
        let mut units_missing: u32 = 0;
        let mut i: usize = 0;
        assert(all.take(0) =~= Seq::<ReqView>::empty());
        while i < reqs.len()
            invariant
                i <= reqs@.len(),
                all == data::reqs_view(reqs@),
                total_quantity(all) <= u32::MAX,
                items_missing == self@.items_missing(all.take(i as int)),
                units_missing == self@.units_missing(all.take(i as int)),
                units_missing <= total_quantity(all.take(i as int)),
                items_missing <= units_missing,
            decreases reqs@.len() - i,
        {
            proof {
                assert(all.take(i + 1).drop_last() =~= all.take(i as int));
                assert(all.take(i + 1).last() == reqs@[i as int]@);
                lemma_total_quantity_grows(all, i + 1);
            }
            let have: u32 = self.owned_total(&reqs[i].item_id);
            if have < reqs[i].quantity {
                items_missing = items_missing + 1;
                units_missing = units_missing + (reqs[i].quantity - have);
            }
            i += 1;
        }
        assert(all.take(all.len() as int) =~= all);
        UpgradeShortfall { items_missing, units_missing }
    }

    /// What is known of an upgrade's recipe.
    pub fn recipe_knowledge(&self, upgrade_id: &UpgradeId) -> (r: RecipeKnowledge)
        ensures
            r == self@.knowledge(upgrade_id@),
    {
        let reqs: Vec<Requirement> = self.effective_requirements(upgrade_id);
        assert(data::reqs_view(reqs@).len() == reqs@.len());
        if reqs.len() == 0 {
            RecipeKnowledge::Unknown
        } else if self.is_overridden(upgrade_id) {
            RecipeKnowledge::Edited
        } else {
            RecipeKnowledge::Bundled
        }
    }

    /// The upgrade to build next in a module: the lowest level that is not
    /// completed.
    pub(crate) fn natural_next_upgrade<'a>(&self, module: &'a HideoutModule) -> (r: Option<
        &'a Upgrade,
    >)
        ensures
            match r {
                Some(up) => {
                    &&& self@.natural_next(
                        module@.upgrades,
                        module@.upgrades.len() as int,
                    ) matches Some(u)
                    &&& up@ == module@.upgrades[u]
                },
                None => self@.natural_next(module@.upgrades, module@.upgrades.len() as int) is None,
            },
    {
        let ghost ups = module@.upgrades;
        let mut best: Option<usize> = None;
        let mut u: usize = 0;
        while u < module.upgrades.len()
            invariant
                u <= module.upgrades@.len(),
                ups == module@.upgrades,
                match best {
                    Some(b) => b < u && self@.natural_next(ups, u as int) == Some(b as int),
                    None => self@.natural_next(ups, u as int) is None,
                },
            decreases module.upgrades@.len() - u,
        {
            if !self.completed_upgrades.contains(module.upgrades[u].id.as_str()) {
                match best {
                    None => {
                        best = Some(u);
                    },
                    Some(b) => {
                        if module.upgrades[u].level < module.upgrades[b].level {
                            best = Some(u);
                        }
                    },
                }
            }
            u += 1;
        }
        match best {
            Some(b) => Some(&module.upgrades[b]),
            None => None,
        }
    }

    /// What to build next, one row for each enabled module that has something
    /// left: pinned rows first, then ready, nearly ready, in progress, known,
    /// unknown. Tracking plays no part in it.
    pub fn hideout_progress_rows(&self) -> (r: Vec<UpgradeProgressRow>)
        requires
            forall|m: int|
                0 <= m < self@.data.modules.len() ==> self@.row_fits(
                    #[trigger] self@.data.modules[m],
                ),
        ensures
            sorting::views(r@) == sorting::in_order::<UpgradeProgressRow>(self@.rows(self@.data.modules)),
    {
        let ghost mods = self@.data.modules;
        let mut rows: Vec<UpgradeProgressRow> = Vec::new();
        let mut m: usize = 0;
        assert(mods.take(0) =~= Seq::<ModuleView>::empty());
        assert(sorting::views(rows@) =~= self@.rows(mods.take(0)));
        while m < self.data.modules.len()
            invariant
                m <= self.data.modules@.len(),
                mods == self.data@.modules,
                forall|m: int| 0 <= m < mods.len() ==> self@.row_fits(#[trigger] mods[m]),
                sorting::views(rows@) == self@.rows(mods.take(m as int)),
            decreases self.data.modules@.len() - m,
        {
            let module: &HideoutModule = &self.data.modules[m];
            assert(mods.take(m + 1).drop_last() =~= mods.take(m as int));
            assert(mods.take(m + 1).last() == module@);
            let disabled: bool = self.is_module_effectively_disabled(module.id.as_str());
            match self.natural_next_upgrade(module) {
                Some(next) => {
                    if !disabled {
                        let id: &UpgradeId = &next.id;
                        assert(self@.row_fits(mods[m as int]));
                        let ghost before = rows@;
                        let row = UpgradeProgressRow {
                            upgrade_id: id.clone(),
                            module_name: module.name.clone(),
                            level: next.level,
                            progress: self.upgrade_progress(id),
                            knowledge: self.recipe_knowledge(id),
                            ready: self.is_upgrade_ready(id),
                            pinned: self.pinned_upgrades.contains(id.as_str()),
                            shortfall: self.upgrade_shortfall(id),
                        };
                        assert(row@ =~= self@.row(module.name@, next@));
                        rows.push(row);
                        assert(sorting::views(rows@) =~= sorting::views(before).push(row@));
                    }
                },
                None => {},
            }
            m += 1;
        }
        assert(mods.take(mods.len() as int) =~= mods);
        sort_stably(rows)
    }
}

} // verus!
