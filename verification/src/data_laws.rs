//! What is found in the game data, and what a recipe is stamped with.

use crate::data;
use crate::data::{DataView, ItemView, ModuleView, NodeView, ReqView, UpgradeView};
use crate::hash;
use vstd::prelude::*;
use vstd::seq_lib::*;
use vstd::utf8::*;

verus! {

proof fn lemma_first_upgrade(ups: Seq<UpgradeView>, u: int, from: int)
    requires
        0 <= from <= u < ups.len(),
        forall|k: int| from <= k < u ==> (#[trigger] ups[k]).id != ups[u].id,
    ensures
        data::upgrade_in(ups, ups[u].id, from) == Some(u),
    decreases u - from,
{
    if from < u {
        assert(ups[from].id != ups[u].id);
        lemma_first_upgrade(ups, u, from + 1);
    }
}

proof fn lemma_first_place(mods: Seq<ModuleView>, m: int, u: int, from: int)
    requires
        0 <= from <= m < mods.len(),
        0 <= u < mods[m].upgrades.len(),
        forall|n: int, v: int|
            from <= n <= m && 0 <= v < mods[n].upgrades.len() && (n < m || v < u) ==> (
            #[trigger] mods[n].upgrades[v]).id != mods[m].upgrades[u].id,
    ensures
        data::upgrade_from(mods, mods[m].upgrades[u].id, from) == Some((m, u)),
    decreases m - from,
{
    let id = mods[m].upgrades[u].id;
    if from < m {
        data::lemma_upgrade_in(mods[from].upgrades, id, 0);
        if data::upgrade_in(mods[from].upgrades, id, 0) is Some {
            let v = data::upgrade_in(mods[from].upgrades, id, 0).unwrap();
            assert(mods[from].upgrades[v].id == id);
        }
        lemma_first_place(mods, m, u, from + 1);
    } else {
        let ups = mods[m].upgrades;
        assert forall|k: int| 0 <= k < u implies (#[trigger] ups[k]).id != ups[u].id by {
            assert(mods[m].upgrades[k].id != id);
        }
        lemma_first_upgrade(ups, u, 0);
    }
}

/// Under an id the first upgrade that has it is found, with the module that it
/// stands in.
pub proof fn law_upgrades_are_found(d: DataView, m: int, u: int)
    requires
        0 <= m < d.modules.len(),
        0 <= u < d.modules[m].upgrades.len(),
        forall|n: int, v: int|
            0 <= n <= m && 0 <= v < d.modules[n].upgrades.len() && (n < m || v < u) ==> (
            #[trigger] d.modules[n].upgrades[v]).id != d.modules[m].upgrades[u].id,
    ensures
        d.knows_upgrade(d.modules[m].upgrades[u].id),
        d.upgrade(d.modules[m].upgrades[u].id) == d.modules[m].upgrades[u],
        d.module_of(d.modules[m].upgrades[u].id) == d.modules[m],
{
    lemma_first_place(d.modules, m, u, 0);
}

proof fn lemma_first_module(mods: Seq<ModuleView>, m: int, from: int)
    requires
        0 <= from <= m < mods.len(),
        forall|k: int| from <= k < m ==> (#[trigger] mods[k]).id != mods[m].id,
    ensures
        data::module_from(mods, mods[m].id, from) == Some(m),
    decreases m - from,
{
    if from < m {
        assert(mods[from].id != mods[m].id);
        lemma_first_module(mods, m, from + 1);
    }
}

/// Under an id the first module that has it is found, and none where none has
/// it.
pub proof fn law_modules_are_found(d: DataView, m: int, id: Seq<char>)
    ensures
        0 <= m < d.modules.len() && (forall|k: int|
            0 <= k < m ==> (#[trigger] d.modules[k]).id != d.modules[m].id) ==> d.module_pos(
            d.modules[m].id,
        ) == Some(m),
        (forall|k: int| 0 <= k < d.modules.len() ==> (#[trigger] d.modules[k]).id != id)
            ==> d.module_pos(id) is None,
{
    data::lemma_module_from(d.modules, id, 0);
    if 0 <= m < d.modules.len() && (forall|k: int|
        0 <= k < m ==> (#[trigger] d.modules[k]).id != d.modules[m].id) {
        lemma_first_module(d.modules, m, 0);
    }
}

proof fn lemma_first_item(items: Seq<ItemView>, i: int, from: int)
    requires
        0 <= from <= i < items.len(),
        forall|k: int| from <= k < i ==> (#[trigger] items[k]).id != items[i].id,
    ensures
        data::item_from(items, items[i].id, from) == Some(i),
    decreases i - from,
{
    if from < i {
        assert(items[from].id != items[i].id);
        lemma_first_item(items, i, from + 1);
    }
}

/// Under an id the first item that has it is found, and none where none has it.
pub proof fn law_items_are_found(d: DataView, i: int, id: Seq<char>)
    ensures
        0 <= i < d.items.len() && (forall|k: int|
            0 <= k < i ==> (#[trigger] d.items[k]).id != d.items[i].id) ==> d.item(d.items[i].id)
            == Some(d.items[i]),
        (forall|k: int| 0 <= k < d.items.len() ==> (#[trigger] d.items[k]).id != id) ==> d.item(id)
            is None,
{
    data::lemma_item_from(d.items, id, 0);
    if 0 <= i < d.items.len() && (forall|k: int|
        0 <= k < i ==> (#[trigger] d.items[k]).id != d.items[i].id) {
        lemma_first_item(d.items, i, 0);
    }
}

proof fn lemma_first_node(nodes: Seq<NodeView>, j: int, from: int)
    requires
        0 <= from <= j < nodes.len(),
        forall|k: int| from <= k < j ==> (#[trigger] nodes[k]).id != nodes[j].id,
    ensures
        data::node_in(nodes, nodes[j].id, from) == Some(j),
    decreases j - from,
{
    if from < j {
        assert(nodes[from].id != nodes[j].id);
        lemma_first_node(nodes, j, from + 1);
    }
}

proof fn lemma_first_node_of_all(cats: Seq<Seq<NodeView>>, c: int, j: int, from: int)
    requires
        0 <= from <= c < cats.len(),
        0 <= j < cats[c].len(),
        forall|n: int, v: int|
            from <= n <= c && 0 <= v < cats[n].len() && (n < c || v < j) ==> (
            #[trigger] cats[n][v]).id != cats[c][j].id,
    ensures
        data::node_from(cats, cats[c][j].id, from) == Some((c, j)),
    decreases c - from,
{
    let id = cats[c][j].id;
    if from < c {
        data::lemma_node_in(cats[from], id, 0);
        if data::node_in(cats[from], id, 0) is Some {
            let v = data::node_in(cats[from], id, 0).unwrap();
            assert(cats[from][v].id == id);
        }
        lemma_first_node_of_all(cats, c, j, from + 1);
    } else {
        let nodes = cats[c];
        assert forall|k: int| 0 <= k < j implies (#[trigger] nodes[k]).id != nodes[j].id by {
            assert(cats[c][k].id != id);
        }
        lemma_first_node(nodes, j, 0);
    }
}

/// Under an id the first research node that has it is found.
pub proof fn law_nodes_are_found(d: DataView, c: int, j: int)
    requires
        0 <= c < d.research.len(),
        0 <= j < d.research[c].len(),
        forall|n: int, v: int|
            0 <= n <= c && 0 <= v < d.research[n].len() && (n < c || v < j) ==> (
            #[trigger] d.research[n][v]).id != d.research[c][j].id,
    ensures
        d.node(d.research[c][j].id) == Some(d.research[c][j]),
{
    lemma_first_node_of_all(d.research, c, j, 0);
}

/// A recipe has four slots: the first ones hold its requirements, in order, and
/// the others are empty.
pub proof fn law_slots_of_a_recipe(reqs: Seq<ReqView>, i: int)
    requires
        0 <= i < 4,
    ensures
        data::base_slots_of(reqs).len() == 4,
        i < reqs.len() ==> data::base_slots_of(reqs)[i] == Some(reqs[i]),
        i >= reqs.len() ==> data::base_slots_of(reqs)[i] is None,
{
}

/// What a recipe is stamped by is one requirement after the other: the item, a
/// byte of nought, and the four bytes of the quantity, the lowest first.
pub proof fn law_bytes_of_a_recipe(a: Seq<ReqView>, b: Seq<ReqView>, r: ReqView)
    ensures
        data::recipe_bytes(a + b) == data::recipe_bytes(a) + data::recipe_bytes(b),
        ({
            let bytes = data::recipe_bytes(seq![r]);
            let n = encode_utf8(r.item).len() as int;
            &&& bytes.len() == n + 5
            &&& bytes.take(n) == encode_utf8(r.item)
            &&& bytes[n] == 0
            &&& bytes[n + 1] + 256 * bytes[n + 2] + 65_536 * bytes[n + 3] + 16_777_216 * bytes[n
                + 4] == r.quantity
        }),
    decreases b.len(),
{
    let one = seq![r];
    assert(one.drop_last() =~= Seq::<ReqView>::empty());
    assert(data::recipe_bytes(one.drop_last()) =~= Seq::<u8>::empty());
    assert(data::recipe_bytes(one) =~= data::req_bytes(r));
    assert(data::req_bytes(r).take(encode_utf8(r.item).len() as int) =~= encode_utf8(r.item));
    if b.len() == 0 {
        assert(a + b =~= a);
        assert(data::recipe_bytes(a) + data::recipe_bytes(b) =~= data::recipe_bytes(a));
    } else {
        law_bytes_of_a_recipe(a, b.drop_last(), r);
        assert((a + b).drop_last() =~= a + b.drop_last());
        assert(data::recipe_bytes(a + b) =~= data::recipe_bytes(a) + data::recipe_bytes(b));
    }
}

/// The hash of no bytes is its starting value, and each byte more is mixed into
/// the hash of those before it and multiplied, modulo 2^64.
pub proof fn law_hash_of_bytes(bytes: Seq<u8>, b: u8)
    ensures
        hash::fnv_of(Seq::<u8>::empty()) == 0xcbf2_9ce4_8422_2325,
        hash::fnv_of(bytes.push(b)) == ((hash::fnv_of(bytes) ^ (b as u64)) * 0x100_0000_01b3)
            % 0x1_0000_0000_0000_0000,
{
    assert(bytes.push(b).drop_last() =~= bytes);
}

} // verus!
