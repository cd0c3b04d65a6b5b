//! What becomes of the upstream upgrades and items.

use crate::data::{Item, Upgrade};
use crate::scraper::corrections;
use crate::scraper::hideout;
use crate::scraper::hideout::UpstreamUpgradeView;
use crate::scraper::items;
use crate::scraper::items::{ItemCatalog, RecordView, UpstreamItem};
use crate::scraper::output;
use crate::scraper::output::IconPlanView;
use crate::scraper::tasks::UnparsedView;
use crate::scraper::upstream;
use crate::sorting;
use crate::text;
use vstd::prelude::*;
use vstd::seq_lib::*;

verus! {

spec fn ascending(s: Seq<Seq<char>>) -> bool {
    forall|i: int, j: int| 0 <= i < j < s.len() ==> text::text_lt(#[trigger] s[i], #[trigger] s[j])
}

proof fn lemma_with_text_holds(s: Seq<Seq<char>>, t: Seq<char>, x: Seq<char>)
    requires
        ascending(s),
    ensures
        ascending(hideout::with_text(s, t)),
        hideout::with_text(s, t).contains(x) <==> s.contains(x) || x == t,
    decreases s.len(),
{
    let w = hideout::with_text(s, t);
    if s.len() == 0 || text::text_lt(s.last(), t) {
        crate::ids::lemma_contains_push(s, t, x);
        assert forall|i: int, j: int| 0 <= i < j < w.len() implies text::text_lt(
            #[trigger] w[i],
            #[trigger] w[j],
        ) by {
            if j == s.len() {
                if i < s.len() - 1 {
                    assert(text::text_lt(s[i], s[s.len() - 1]));
                    text::lemma_text_lt_trans(s[i], s.last(), t);
                }
            } else {
                assert(text::text_lt(s[i], s[j]));
            }
        }
    } else if s.last() == t {
        assert(s[s.len() - 1] == t);
    } else {
        let init = s.drop_last();
        assert(ascending(init)) by {
            assert forall|i: int, j: int| 0 <= i < j < init.len() implies text::text_lt(
                #[trigger] init[i],
                #[trigger] init[j],
            ) by {
                assert(text::text_lt(s[i], s[j]));
            }
        }
        lemma_with_text_holds(init, t, x);
        let v = hideout::with_text(init, t);
        assert(s =~= init.push(s.last()));
        crate::ids::lemma_contains_push(init, s.last(), x);
        crate::ids::lemma_contains_push(v, s.last(), x);
        text::lemma_text_lt_total(s.last(), t);
        assert forall|i: int, j: int| 0 <= i < j < w.len() implies text::text_lt(
            #[trigger] w[i],
            #[trigger] w[j],
        ) by {
            if j == v.len() {
                assert(v.contains(v[i]));
                lemma_with_text_holds(init, t, v[i]);
                if v[i] != t {
                    let k = choose|k: int| 0 <= k < init.len() && init[k] == v[i];
                    assert(text::text_lt(s[k], s[s.len() - 1]));
                }
            } else {
                assert(text::text_lt(v[i], v[j]));
            }
        }
    }
}

/// There is one module for each area that an upgrade belongs to, in the order
/// of the areas.
pub proof fn law_areas(ups: Seq<UpstreamUpgradeView>, area: Seq<char>)
    ensures
        hideout::areas(ups).contains(area) <==> exists|i: int|
            0 <= i < ups.len() && (#[trigger] ups[i]).area_id == area,
        forall|i: int, j: int|
            0 <= i < j < hideout::areas(ups).len() ==> text::text_lt(
                #[trigger] hideout::areas(ups)[i],
                #[trigger] hideout::areas(ups)[j],
            ),
    decreases ups.len(),
{
    if ups.len() > 0 {
        let init = ups.drop_last();
        law_areas(init, area);
        assert(ascending(hideout::areas(init)));
        lemma_with_text_holds(hideout::areas(init), ups.last().area_id, area);
        assert(ascending(hideout::areas(ups)));
        assert(ups[ups.len() - 1] == ups.last());
        if hideout::areas(init).contains(area) {
            let i = choose|i: int| 0 <= i < init.len() && (#[trigger] init[i]).area_id == area;
            assert(ups[i] == init[i]);
        }
        if exists|i: int| 0 <= i < ups.len() && (#[trigger] ups[i]).area_id == area {
            let i = choose|i: int| 0 <= i < ups.len() && (#[trigger] ups[i]).area_id == area;
            if i < init.len() {
                assert(init[i] == ups[i]);
            }
        }
    }
}

proof fn lemma_upgrades_of(ups: Seq<UpstreamUpgradeView>, area: Seq<char>, i: int) -> (k: int)
    requires
        0 <= i < hideout::upgrades_of(ups, area).len(),
    ensures
        0 <= k < ups.len(),
        ups[k].area_id == area,
        hideout::upgrades_of(ups, area)[i].id == ups[k].key,
        hideout::upgrades_of(ups, area)[i].name == ups[k].upgrade_name,
        hideout::upgrades_of(ups, area)[i].level == ups[k].level,
        hideout::upgrades_of(ups, area)[i].requirements == ups[k].exchange,
        i == 0 ==> forall|j: int| 0 <= j < k ==> (#[trigger] ups[j]).area_id != area,
    decreases ups.len(),
{
    let init = ups.drop_last();
    let before = hideout::upgrades_of(init, area);
    if i < before.len() {
        let k = lemma_upgrades_of(init, area, i);
        assert(ups[k] == init[k]);
        assert forall|j: int| i == 0 && 0 <= j < k implies (#[trigger] ups[j]).area_id != area by {
            assert(init[j] == ups[j]);
        }
        k
    } else {
        if i == 0 {
            assert forall|j: int| 0 <= j < ups.len() - 1 implies (#[trigger] ups[j]).area_id
                != area by {
                assert(init[j] == ups[j]);
                if ups[j].area_id == area {
                    let q = lemma_has_upgrade(init, area, j);
                }
            }
        }
        ups.len() - 1
    }
}

proof fn lemma_has_upgrade(ups: Seq<UpstreamUpgradeView>, area: Seq<char>, k: int) -> (i: int)
    requires
        0 <= k < ups.len(),
        ups[k].area_id == area,
    ensures
        0 <= i < hideout::upgrades_of(ups, area).len(),
        hideout::upgrades_of(ups, area)[i].id == ups[k].key,
        hideout::upgrades_of(ups, area)[i].name == ups[k].upgrade_name,
        hideout::upgrades_of(ups, area)[i].level == ups[k].level,
        hideout::upgrades_of(ups, area)[i].requirements == ups[k].exchange,
    decreases ups.len(),
{
    let init = ups.drop_last();
    if k == ups.len() - 1 {
        hideout::upgrades_of(init, area).len() as int
    } else {
        assert(init[k] == ups[k]);
        lemma_has_upgrade(init, area, k)
    }
}

/// Every upgrade stands in the module of its area, with its key as its id, its
/// name, its level and what it is exchanged for.
pub proof fn law_upgrades_stand_in_their_module(
    ups: Seq<UpstreamUpgradeView>,
    k: int,
)
    requires
        0 <= k < ups.len(),
    ensures
        exists|i: int|
            0 <= i < hideout::module_of_area(ups, ups[k].area_id).upgrades.len() && {
                let u = #[trigger] hideout::module_of_area(ups, ups[k].area_id).upgrades[i];
                &&& u.id == ups[k].key
                &&& u.name == ups[k].upgrade_name
                &&& u.level == ups[k].level
                &&& u.requirements == ups[k].exchange
            },
{
    let area = ups[k].area_id;
    let own = hideout::upgrades_of(ups, area);
    let out = hideout::module_of_area(ups, area).upgrades;
    sorting::lemma_in_order::<Upgrade>(own);
    let i = lemma_has_upgrade(ups, area, k);
    let j = sorting::lemma_same_elements(own, out, i);
    assert(out[j] == own[i]);
}

/// A module carries the id of its area and the name of the first upgrade of
/// the area that came; its upgrades are of that area, in the order of their
/// levels.
pub proof fn law_modules(ups: Seq<UpstreamUpgradeView>, area: Seq<char>, first: int, i: int, j: int)
    requires
        0 <= first < ups.len(),
        ups[first].area_id == area,
        forall|k: int| 0 <= k < first ==> (#[trigger] ups[k]).area_id != area,
    ensures
        hideout::module_of_area(ups, area).id == area,
        hideout::module_of_area(ups, area).name == ups[first].upgrade_name,
        0 <= i < j < hideout::module_of_area(ups, area).upgrades.len()
            ==> hideout::module_of_area(ups, area).upgrades[i].level <= hideout::module_of_area(
            ups,
            area,
        ).upgrades[j].level,
        0 <= i < hideout::module_of_area(ups, area).upgrades.len() ==> exists|k: int|
            0 <= k < ups.len() && (#[trigger] ups[k]).area_id == area && ups[k].key
                == hideout::module_of_area(ups, area).upgrades[i].id,
{
    let own = hideout::upgrades_of(ups, area);
    let out = hideout::module_of_area(ups, area).upgrades;
    sorting::lemma_in_order::<Upgrade>(own);
    let q = lemma_has_upgrade(ups, area, first);
    let k = lemma_upgrades_of(ups, area, 0);
    if k < first {
        assert(ups[k].area_id != area);
    } else if first < k {
        assert(ups[first].area_id != area);
    }
    if 0 <= i < j < out.len() {
        assert(!<Upgrade as sorting::Ranked>::precedes(out[j], out[i]));
    }
    if 0 <= i < out.len() {
        let p = sorting::lemma_same_elements(out, own, i);
        let k = lemma_upgrades_of(ups, area, p);
        assert(ups[k].key == out[i].id);
    }
}

/// The items that upgrades refer to are just those that one is exchanged for.
pub proof fn law_exchanged_items(ups: Seq<UpstreamUpgradeView>, item: Seq<char>)
    ensures
        hideout::items_exchanged(ups).contains(item) <==> exists|i: int, j: int|
            #![trigger ups[i].exchange[j]]
            0 <= i < ups.len() && 0 <= j < ups[i].exchange.len() && ups[i].exchange[j].item == item,
{
    if exists|i: int, j: int|
        #![trigger ups[i].exchange[j]]
        0 <= i < ups.len() && 0 <= j < ups[i].exchange.len() && ups[i].exchange[j].item == item {
        let (i, j) = choose|i: int, j: int|
            #![trigger ups[i].exchange[j]]
            0 <= i < ups.len() && 0 <= j < ups[i].exchange.len() && ups[i].exchange[j].item == item;
        assert(ups[i].exchange[j].item == item);
    }
}

/// An item keeps everything that upstream says of it but its id and its name
/// where these are put right.
pub proof fn law_records(u: UpstreamItem)
    ensures
        corrections::id_correction(u.id@) is None ==> items::kept_record(u).id == u.id@,
        corrections::id_correction(u.id@) matches Some(id) ==> items::kept_record(u).id == id,
        corrections::name_correction(items::kept_record(u).id) is None ==> items::kept_record(u).name
            == u.name@,
        corrections::name_correction(items::kept_record(u).id) matches Some(name)
            ==> items::kept_record(u).name == name,
        items::kept_record(u).upstream_icon == text::opt_text(u.icon),
        items::kept_record(u).task_ids == crate::ids::texts(u.task_ids@),
        items::kept_record(u).category == text::opt_text(u.category),
        items::kept_record(u).subcategory == text::opt_text(u.subcategory),
        items::kept_record(u).price == u.price,
        items::kept_record(u).weight == u.weight,
        items::kept_record(u).rarity == text::opt_text(u.rarity),
{
}

/// A name is carried by every item that was added under it, in the order in
/// which they were; other names are not touched.
pub proof fn law_names(
    by_name: Map<Seq<char>, Seq<Seq<char>>>,
    name: Seq<char>,
    id: Seq<char>,
    other: Seq<char>,
)
    requires
        other != name,
    ensures
        items::named(by_name, name, id).contains_key(name),
        items::named(by_name, name, id)[name].last() == id,
        by_name.contains_key(name) ==> items::named(by_name, name, id)[name].drop_last()
            == by_name[name],
        !by_name.contains_key(name) ==> items::named(by_name, name, id)[name].len() == 1,
        items::named(by_name, name, id).contains_key(other) == by_name.contains_key(other),
        by_name.contains_key(other) ==> items::named(by_name, name, id)[other] == by_name[other],
{
    if by_name.contains_key(name) {
        assert(items::named(by_name, name, id)[name].drop_last() =~= by_name[name]);
    }
}

/// Every record ships as an item of its id, name, price and weight, whose icon
/// lies under its id in the directory of the icons; the items come in the order
/// of their ids.
pub proof fn law_every_record_ships(recs: Seq<RecordView>, dir: Seq<char>, k: int, a: int, b: int)
    requires
        0 <= k < recs.len(),
        0 <= a < b < recs.len(),
    ensures
        ({
            let out = sorting::in_order::<Item>(
                recs.map_values(|rec: RecordView| items::output_item(rec, dir)),
            );
            &&& out.len() == recs.len()
            &&& !text::text_lt(out[b].id, out[a].id)
            &&& exists|i: int|
                0 <= i < out.len() && (#[trigger] out[i]).id == recs[k].id && out[i].name
                    == recs[k].name && out[i].icon_path == dir + seq!['/'] + recs[k].id + seq![
                    '.',
                    'p',
                    'n',
                    'g',
                ] && out[i].category == recs[k].category && out[i].subcategory
                    == recs[k].subcategory && out[i].price == recs[k].price && out[i].weight
                    == recs[k].weight && out[i].rarity == recs[k].rarity
        }),
{
    reveal_strlit("/");
    reveal_strlit(".png");
    assert("/"@ =~= seq!['/']);
    assert(".png"@ =~= seq!['.', 'p', 'n', 'g']);
    let all = recs.map_values(|rec: RecordView| items::output_item(rec, dir));
    let out = sorting::in_order::<Item>(all);
    sorting::lemma_in_order::<Item>(all);
    assert(!<Item as sorting::Ranked>::precedes(out[b], out[a]));
    let i = sorting::lemma_same_elements(all, out, k);
    assert(out[i].id == recs[k].id);
}

/// The slashes before a path go, and nothing else.
pub proof fn law_leading_slashes_go(k: nat, s: Seq<char>)
    requires
        s.len() == 0 || s[0] != '/',
    ensures
        output::without_slashes(Seq::new(k, |i: int| '/') + s) == s,
    decreases k,
{
    let t = Seq::new(k, |i: int| '/') + s;
    if k == 0 {
        assert(t =~= s);
    } else {
        law_leading_slashes_go((k - 1) as nat, s);
        assert(t.drop_first() =~= Seq::new((k - 1) as nat, |i: int| '/') + s);
    }
}

/// The icon of an item is put where its record says that it lies, and it comes
/// from the path of the record below the public directory; it is missing just
/// where there is no record or the record names none.
pub proof fn law_icons_lie_where_items_say(catalog: ItemCatalog, id: Seq<char>)
    ensures
        match output::icon_plan(catalog, id) {
            IconPlanView::Convert { id: of, source, dest } => {
                &&& of == id
                &&& catalog.items@.contains_key(id)
                &&& catalog.items@[id].upstream_icon is Some
                &&& forall|rec: RecordView|
                    rec.id == id ==> dest == (#[trigger] items::output_item(
                        rec,
                        output::ICON_DIR_NAME@,
                    )).icon_path
                &&& source == seq!['p', 'u', 'b', 'l', 'i', 'c', '/'] + output::without_slashes(
                    catalog.items@[id].upstream_icon.unwrap()@,
                )
            },
            IconPlanView::Missing { id: of } => of == id && (!catalog.items@.contains_key(id)
                || catalog.items@[id].upstream_icon is None),
        },
{
    reveal_strlit("public/");
    assert("public/"@ =~= seq!['p', 'u', 'b', 'l', 'i', 'c', '/']);
}

/// A version that is given as text is that text, and any other is unknown.
pub proof fn law_given_versions(raw: Seq<char>, v: Seq<char>)
    ensures
        upstream::version_of(Some((Some(v), raw))) == v,
        upstream::version_of(Some((None, raw))) == upstream::version_of(None),
        upstream::version_of(None) == "unknown"@,
{
}

/// The log has one line for each objective that was not read, in their order,
/// with its task before it and the reason behind it.
pub proof fn law_log(us: Seq<UnparsedView>, i: int)
    requires
        0 <= i < us.len(),
    ensures
        output::log_lines(us).len() == us.len(),
        output::log_lines(us)[i] == seq!['['] + us[i].task_id + seq![']', ' '] + us[i].objective
            + seq![' ', ':', ':', ' '] + us[i].reason,
{
    reveal_strlit("[");
    reveal_strlit("] ");
    reveal_strlit(" :: ");
    assert("["@ =~= seq!['[']);
    assert("] "@ =~= seq![']', ' ']);
    assert(" :: "@ =~= seq![' ', ':', ':', ' ']);
}

/// The version of the data is that of the game, a plus sign, and the commit cut
/// to its first seven characters.
pub proof fn law_version_of_the_data(version: &str, commit: &str, r: String)
    requires
        call_ensures(output::data_version_of, (version, commit), r),
    ensures
        version@.is_prefix_of(r@),
        r@[version@.len() as int] == '+',
        r@.skip(version@.len() as int + 1).is_prefix_of(commit@),
        r@.len() <= version@.len() + 8,
        commit@.len() <= 7 ==> r@.skip(version@.len() as int + 1) == commit@,
        commit@.len() >= 7 ==> r@.len() == version@.len() + 8,
{
    reveal_strlit("+");
    assert("+"@ =~= seq!['+']);
    let n: int = if commit@.len() < 7 {
        commit@.len() as int
    } else {
        7
    };
    assert(r@ == version@ + "+"@ + commit@.take(n));
    assert(r@.skip(version@.len() as int + 1) =~= commit@.take(n));
    assert(commit@.len() <= 7 ==> commit@.take(n) =~= commit@);
}

} // verus!
