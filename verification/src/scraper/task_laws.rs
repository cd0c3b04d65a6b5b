//! What a task asks for, and what is made of its objectives.

use crate::data::ReqView;
use crate::scraper::items::{CatalogView, RecordView};
use crate::scraper::model::{Task, TaskView};
use crate::scraper::tasks;
use crate::scraper::tasks::{UnparsedView, UpstreamCorp, UpstreamTaskView};
use crate::sorting;
use crate::text;
use vstd::prelude::*;
use vstd::seq_lib::*;

verus! {

/// Whether the objective `obj` of the task `t` asks for `item`.
pub open spec fn asks(c: CatalogView, t: UpstreamTaskView, obj: Seq<char>, item: Seq<char>) -> bool {
    tasks::objective(obj) matches Some(p) && c.resolve(p.1, t.id) == Some(item)
}

/// Whether the objective `obj` of the task `t` should ask for an item, and
/// does not: it names none that is known, in a task to hand something in, or
/// it speaks of handing something in and cannot be read.
pub open spec fn unread(c: CatalogView, t: UpstreamTaskView, obj: Seq<char>) -> bool {
    match tasks::objective(obj) {
        Some(p) => c.resolve(p.1, t.id) is None && t.task_type.contains("submit"@),
        None => tasks::speaks_of_submission(text::lowercase(obj)),
    }
}

spec fn sorted(reqs: Seq<ReqView>) -> bool {
    forall|i: int, j: int|
        0 <= i < j < reqs.len() ==> text::text_lt(
            (#[trigger] reqs[i]).item,
            (#[trigger] reqs[j]).item,
        )
}

spec fn wants(reqs: Seq<ReqView>, item: Seq<char>, q: u32) -> bool {
    exists|i: int| 0 <= i < reqs.len() && #[trigger] reqs[i] == (ReqView { item, quantity: q })
}

proof fn lemma_wants_push(reqs: Seq<ReqView>, r: ReqView, item: Seq<char>, q: u32)
    ensures
        wants(reqs.push(r), item, q) == (wants(reqs, item, q) || r == (ReqView {
            item,
            quantity: q,
        })),
{
    let s = reqs.push(r);
    if wants(reqs, item, q) {
        let i = choose|i: int|
            0 <= i < reqs.len() && #[trigger] reqs[i] == (ReqView { item, quantity: q });
        assert(s[i] == reqs[i]);
    }
    if r == (ReqView { item, quantity: q }) {
        assert(s[reqs.len() as int] == r);
    }
    if wants(s, item, q) {
        let i = choose|i: int|
            0 <= i < s.len() && #[trigger] s[i] == (ReqView { item, quantity: q });
        if i < reqs.len() {
            assert(reqs[i] == s[i]);
        }
    }
}

proof fn lemma_with_req_sorted(reqs: Seq<ReqView>, r: ReqView)
    requires
        sorted(reqs),
    ensures
        sorted(tasks::with_req(reqs, r)),
        forall|i: int|
            0 <= i < tasks::with_req(reqs, r).len() ==> (#[trigger] tasks::with_req(reqs, r)[i]).item
                == r.item || exists|k: int|
                0 <= k < reqs.len() && #[trigger] reqs[k] == tasks::with_req(reqs, r)[i],
        reqs.len() <= tasks::with_req(reqs, r).len(),
    decreases reqs.len(),
{
    let w = tasks::with_req(reqs, r);
    if reqs.len() == 0 || text::text_lt(reqs.last().item, r.item) {
        assert forall|i: int, j: int| 0 <= i < j < w.len() implies text::text_lt(
            (#[trigger] w[i]).item,
            (#[trigger] w[j]).item,
        ) by {
            if j == reqs.len() && i < reqs.len() - 1 {
                assert(text::text_lt(reqs[i].item, reqs[reqs.len() - 1].item));
                text::lemma_text_lt_trans(reqs[i].item, reqs.last().item, r.item);
            } else if j < reqs.len() {
                assert(text::text_lt(reqs[i].item, reqs[j].item));
            }
        }
        assert forall|i: int| 0 <= i < w.len() implies (#[trigger] w[i]).item == r.item || exists|
            k: int,
        |
            0 <= k < reqs.len() && #[trigger] reqs[k] == w[i] by {
            if i < reqs.len() {
                assert(reqs[i] == w[i]);
            }
        }
    } else if reqs.last().item == r.item {
        assert forall|i: int, j: int| 0 <= i < j < w.len() implies text::text_lt(
            (#[trigger] w[i]).item,
            (#[trigger] w[j]).item,
        ) by {
            assert(text::text_lt(reqs[i].item, reqs[j].item));
        }
        assert forall|i: int| 0 <= i < w.len() implies (#[trigger] w[i]).item == r.item || exists|
            k: int,
        |
            0 <= k < reqs.len() && #[trigger] reqs[k] == w[i] by {
            if i < reqs.len() - 1 {
                assert(reqs[i] == w[i]);
            }
        }
    } else {
        let init = reqs.drop_last();
        assert(sorted(init)) by {
            assert forall|i: int, j: int| 0 <= i < j < init.len() implies text::text_lt(
                (#[trigger] init[i]).item,
                (#[trigger] init[j]).item,
            ) by {
                assert(text::text_lt(reqs[i].item, reqs[j].item));
            }
        }
        lemma_with_req_sorted(init, r);
        let v = tasks::with_req(init, r);
        text::lemma_text_lt_total(reqs.last().item, r.item);
        assert forall|i: int, j: int| 0 <= i < j < w.len() implies text::text_lt(
            (#[trigger] w[i]).item,
            (#[trigger] w[j]).item,
        ) by {
            if j == v.len() {
                assert(w[i] == v[i]);
                if v[i].item != r.item {
                    let k = choose|k: int| 0 <= k < init.len() && #[trigger] init[k] == v[i];
                    assert(text::text_lt(reqs[k].item, reqs[reqs.len() - 1].item));
                }
            } else {
                assert(text::text_lt(v[i].item, v[j].item));
            }
        }
        assert forall|i: int| 0 <= i < w.len() implies (#[trigger] w[i]).item == r.item || exists|
            k: int,
        |
            0 <= k < reqs.len() && #[trigger] reqs[k] == w[i] by {
            if i < v.len() {
                assert(w[i] == v[i]);
                if v[i].item != r.item {
                    let k = choose|k: int| 0 <= k < init.len() && #[trigger] init[k] == v[i];
                    assert(reqs[k] == w[i]);
                }
            } else {
                assert(reqs[reqs.len() - 1] == w[i]);
            }
        }
    }
}

proof fn lemma_with_req_wants(reqs: Seq<ReqView>, r: ReqView, item: Seq<char>, q: u32)
    requires
        sorted(reqs),
    ensures
        wants(tasks::with_req(reqs, r), item, q) <==> if item == r.item {
            q == r.quantity
        } else {
            wants(reqs, item, q)
        },
    decreases reqs.len(),
{
    text::lemma_text_lt_irreflexive(r.item);
    if reqs.len() == 0 || text::text_lt(reqs.last().item, r.item) {
        lemma_wants_push(reqs, r, item, q);
        if item == r.item && wants(reqs, item, q) {
            let i = choose|i: int|
                0 <= i < reqs.len() && #[trigger] reqs[i] == (ReqView { item, quantity: q });
            if i < reqs.len() - 1 {
                assert(text::text_lt(reqs[i].item, reqs[reqs.len() - 1].item));
                text::lemma_text_lt_trans(reqs[i].item, reqs.last().item, r.item);
            }
        }
    } else {
        let init = reqs.drop_last();
        assert(sorted(init)) by {
            assert forall|i: int, j: int| 0 <= i < j < init.len() implies text::text_lt(
                (#[trigger] init[i]).item,
                (#[trigger] init[j]).item,
            ) by {
                assert(text::text_lt(reqs[i].item, reqs[j].item));
            }
        }
        assert(init.push(reqs.last()) =~= reqs);
        lemma_wants_push(init, reqs.last(), item, q);
        if reqs.last().item == r.item {
            lemma_wants_push(init, r, item, q);
            if item == r.item && wants(init, item, q) {
                let i = choose|i: int|
                    0 <= i < init.len() && #[trigger] init[i] == (ReqView { item, quantity: q });
                assert(text::text_lt(reqs[i].item, reqs[reqs.len() - 1].item));
            }
        } else {
            lemma_with_req_wants(init, r, item, q);
            lemma_wants_push(tasks::with_req(init, r), reqs.last(), item, q);
        }
    }
}

proof fn lemma_linked_reqs(items: Seq<RecordView>, task: Seq<char>, item: Seq<char>, q: u32)
    ensures
        sorted(tasks::linked_reqs(items, task)),
        wants(tasks::linked_reqs(items, task), item, q) <==> q == 1 && exists|i: int|
            0 <= i < items.len() && (#[trigger] items[i]).id == item && items[i].task_ids.contains(
                task,
            ),
    decreases items.len(),
{
    if items.len() > 0 {
        let init = items.drop_last();
        let rec = items.last();
        lemma_linked_reqs(init, task, item, q);
        lemma_linked_reqs(init, task, rec.id, 1);
        let before = tasks::linked_reqs(init, task);
        let found = exists|i: int|
            0 <= i < items.len() && (#[trigger] items[i]).id == item && items[i].task_ids.contains(
                task,
            );
        let found_before = exists|i: int|
            0 <= i < init.len() && (#[trigger] init[i]).id == item && init[i].task_ids.contains(
                task,
            );
        if found_before {
            let i = choose|i: int|
                0 <= i < init.len() && (#[trigger] init[i]).id == item && init[i].task_ids.contains(
                    task,
                );
            assert(items[i] == init[i]);
        }
        if found && !found_before {
            let i = choose|i: int|
                0 <= i < items.len() && (#[trigger] items[i]).id == item
                    && items[i].task_ids.contains(task);
            if i < init.len() {
                assert(init[i] == items[i]);
            }
        }
        assert(items[items.len() - 1] == rec);
        assert(found == (found_before || rec.id == item && rec.task_ids.contains(task)));
        if rec.task_ids.contains(task) {
            if tasks::has_req(before, rec.id) {
                let k = choose|k: int| 0 <= k < before.len() && (#[trigger] before[k]).item == rec.id;
                lemma_linked_reqs(init, task, rec.id, before[k].quantity);
                assert(wants(before, rec.id, before[k].quantity));
            } else {
                let r = ReqView { item: rec.id, quantity: 1 };
                lemma_with_req_sorted(before, r);
                lemma_with_req_wants(before, r, item, q);
                if wants(before, rec.id, 1) {
                    let k = choose|k: int|
                        0 <= k < before.len() && #[trigger] before[k] == (ReqView {
                            item: rec.id,
                            quantity: 1,
                        });
                    assert(before[k].item == rec.id);
                }
            }
        }
    }
}

/// The quantity of the last of `objs` that asks for `item`.
spec fn last_asked(
    c: CatalogView,
    t: UpstreamTaskView,
    objs: Seq<Seq<char>>,
    item: Seq<char>,
) -> Option<u32>
    decreases objs.len(),
{
    if objs.len() == 0 {
        None
    } else if asks(c, t, objs.last(), item) {
        Some(tasks::objective(objs.last()).unwrap().0)
    } else {
        last_asked(c, t, objs.drop_last(), item)
    }
}

proof fn lemma_last_asked(c: CatalogView, t: UpstreamTaskView, objs: Seq<Seq<char>>, item: Seq<char>)
    ensures
        match last_asked(c, t, objs, item) {
            Some(q) => exists|k: int|
                0 <= k < objs.len() && asks(c, t, #[trigger] objs[k], item) && tasks::objective(
                    objs[k],
                ).unwrap().0 == q && forall|j: int|
                    k < j < objs.len() ==> !asks(c, t, #[trigger] objs[j], item),
            None => forall|k: int| 0 <= k < objs.len() ==> !asks(c, t, #[trigger] objs[k], item),
        },
    decreases objs.len(),
{
    if objs.len() > 0 {
        let init = objs.drop_last();
        lemma_last_asked(c, t, init, item);
        if asks(c, t, objs.last(), item) {
            assert(asks(c, t, objs[objs.len() - 1], item));
        } else if last_asked(c, t, init, item) is Some {
            let q = last_asked(c, t, init, item).unwrap();
            let k = choose|k: int|
                0 <= k < init.len() && asks(c, t, #[trigger] init[k], item) && tasks::objective(
                    init[k],
                ).unwrap().0 == q && forall|j: int|
                    k < j < init.len() ==> !asks(c, t, #[trigger] init[j], item);
            assert(asks(c, t, objs[k], item));
            assert forall|j: int| k < j < objs.len() implies !asks(
                c,
                t,
                #[trigger] objs[j],
                item,
            ) by {
                if j < init.len() {
                    assert(!asks(c, t, init[j], item));
                }
            }
        } else {
            assert forall|k: int| 0 <= k < objs.len() implies !asks(
                c,
                t,
                #[trigger] objs[k],
                item,
            ) by {
                if k < init.len() {
                    assert(!asks(c, t, init[k], item));
                }
            }
        }
    }
}

proof fn lemma_applying(
    c: CatalogView,
    t: UpstreamTaskView,
    objs: Seq<Seq<char>>,
    reqs: Seq<ReqView>,
    u: Seq<UnparsedView>,
    item: Seq<char>,
    q: u32,
)
    requires
        sorted(reqs),
    ensures
        sorted(c.applying_all(t, objs, reqs, u).0),
        wants(c.applying_all(t, objs, reqs, u).0, item, q) <==> match last_asked(c, t, objs, item) {
            Some(p) => p == q,
            None => wants(reqs, item, q),
        },
    decreases objs.len(),
{
    if objs.len() > 0 {
        lemma_applying(c, t, objs.drop_last(), reqs, u, item, q);
        let (r, v) = c.applying_all(t, objs.drop_last(), reqs, u);
        match tasks::objective(objs.last()) {
            Some(p) => {
                match c.resolve(p.1, t.id) {
                    Some(i) => {
                        lemma_with_req_sorted(r, ReqView { item: i, quantity: p.0 });
                        lemma_with_req_wants(r, ReqView { item: i, quantity: p.0 }, item, q);
                    },
                    None => {},
                }
            },
            None => {},
        }
    }
}

proof fn lemma_task_wants(
    c: CatalogView,
    t: UpstreamTaskView,
    u: Seq<UnparsedView>,
    item: Seq<char>,
    q: u32,
)
    ensures
        sorted(c.task_requirements(t, u).0),
        wants(c.task_requirements(t, u).0, item, q) <==> match last_asked(
            c,
            t,
            t.objectives,
            item,
        ) {
            Some(p) => p == q,
            None => q == 1 && c.linked(item, t.id),
        },
{
    lemma_linked_reqs(c.items, t.id, item, q);
    lemma_applying(c, t, t.objectives, tasks::linked_reqs(c.items, t.id), u, item, q);
}

/// An objective that asks for a quantity of an item leaves a requirement for
/// that item, with the quantity of the last objective that asks for it.
pub proof fn law_last_objective_sets_the_quantity(
    c: CatalogView,
    t: UpstreamTaskView,
    u: Seq<UnparsedView>,
    k: int,
    q: u32,
    name: Seq<char>,
    item: Seq<char>,
)
    requires
        0 <= k < t.objectives.len(),
        tasks::objective(t.objectives[k]) == Some((q, name)),
        c.resolve(name, t.id) == Some(item),
        forall|j: int|
            k < j < t.objectives.len() ==> !asks(c, t, #[trigger] t.objectives[j], item),
    ensures
        exists|i: int|
            0 <= i < c.task_requirements(t, u).0.len() && #[trigger] c.task_requirements(t, u).0[i]
                == (ReqView { item, quantity: q }),
        forall|i: int|
            0 <= i < c.task_requirements(t, u).0.len() && (#[trigger] c.task_requirements(
                t,
                u,
            ).0[i]).item == item ==> c.task_requirements(t, u).0[i].quantity == q,
{
    let reqs = c.task_requirements(t, u).0;
    lemma_last_asked(c, t, t.objectives, item);
    assert(asks(c, t, t.objectives[k], item));
    lemma_task_wants(c, t, u, item, q);
    assert(wants(reqs, item, q));
    assert forall|i: int| 0 <= i < reqs.len() && (#[trigger] reqs[i]).item == item implies reqs[i].quantity
        == q by {
        lemma_task_wants(c, t, u, item, reqs[i].quantity);
        assert(wants(reqs, item, reqs[i].quantity));
    }
}

/// An item that the catalog links to a task, and that no objective asks for,
/// counts once.
pub proof fn law_linked_items_count_once(
    c: CatalogView,
    t: UpstreamTaskView,
    u: Seq<UnparsedView>,
    n: int,
)
    requires
        0 <= n < c.items.len(),
        c.items[n].task_ids.contains(t.id),
        forall|j: int|
            0 <= j < t.objectives.len() ==> !asks(c, t, #[trigger] t.objectives[j], c.items[n].id),
    ensures
        exists|i: int|
            0 <= i < c.task_requirements(t, u).0.len() && #[trigger] c.task_requirements(t, u).0[i]
                == (ReqView { item: c.items[n].id, quantity: 1 }),
{
    let item = c.items[n].id;
    lemma_last_asked(c, t, t.objectives, item);
    lemma_task_wants(c, t, u, item, 1);
    assert(c.linked(item, t.id));
    assert(wants(c.task_requirements(t, u).0, item, 1));
}

/// A task requires just the items that the catalog links to it and those that
/// an objective asks for, each once and in the order of their ids.
pub proof fn law_tasks_require_what_is_asked(
    c: CatalogView,
    t: UpstreamTaskView,
    u: Seq<UnparsedView>,
    item: Seq<char>,
)
    ensures
        (exists|i: int|
            0 <= i < c.task_requirements(t, u).0.len() && (#[trigger] c.task_requirements(
                t,
                u,
            ).0[i]).item == item) <==> (exists|n: int|
            0 <= n < c.items.len() && (#[trigger] c.items[n]).id == item
                && c.items[n].task_ids.contains(t.id)) || exists|k: int|
            0 <= k < t.objectives.len() && asks(c, t, #[trigger] t.objectives[k], item),
        forall|i: int, j: int|
            0 <= i < j < c.task_requirements(t, u).0.len() ==> text::text_lt(
                (#[trigger] c.task_requirements(t, u).0[i]).item,
                (#[trigger] c.task_requirements(t, u).0[j]).item,
            ),
{
    let reqs = c.task_requirements(t, u).0;
    lemma_last_asked(c, t, t.objectives, item);
    lemma_task_wants(c, t, u, item, 1);
    assert(sorted(reqs));
    if exists|i: int| 0 <= i < reqs.len() && (#[trigger] reqs[i]).item == item {
        let i = choose|i: int| 0 <= i < reqs.len() && (#[trigger] reqs[i]).item == item;
        lemma_task_wants(c, t, u, item, reqs[i].quantity);
        assert(wants(reqs, item, reqs[i].quantity));
    }
    let asked = last_asked(c, t, t.objectives, item);
    if asked is Some {
        lemma_task_wants(c, t, u, item, asked.unwrap());
        assert(wants(reqs, item, asked.unwrap()));
        let i = choose|i: int|
            0 <= i < reqs.len() && #[trigger] reqs[i] == (ReqView {
                item,
                quantity: asked.unwrap(),
            });
        assert(reqs[i].item == item);
    } else if c.linked(item, t.id) {
        assert(wants(reqs, item, 1));
        let i = choose|i: int|
            0 <= i < reqs.len() && #[trigger] reqs[i] == (ReqView { item, quantity: 1 });
        assert(reqs[i].item == item);
    }
}

/// The objectives of a task that should ask for an item and do not are listed
/// behind what is listed already, in their order, each with its task; the
/// others are not.
pub proof fn law_unread_objectives_are_listed(
    c: CatalogView,
    t: UpstreamTaskView,
    u: Seq<UnparsedView>,
)
    ensures
        u.is_prefix_of(c.task_requirements(t, u).1),
        c.task_requirements(t, u).1.skip(u.len() as int).map_values(
            |e: UnparsedView| e.objective,
        ) == t.objectives.filter(|obj: Seq<char>| unread(c, t, obj)),
        forall|i: int|
            u.len() <= i < c.task_requirements(t, u).1.len() ==> (#[trigger] c.task_requirements(
                t,
                u,
            ).1[i]).task_id == t.id,
{
    lemma_unread(c, t, t.objectives, tasks::linked_reqs(c.items, t.id), u);
}

proof fn lemma_unread(
    c: CatalogView,
    t: UpstreamTaskView,
    objs: Seq<Seq<char>>,
    reqs: Seq<ReqView>,
    u: Seq<UnparsedView>,
)
    ensures
        u.is_prefix_of(c.applying_all(t, objs, reqs, u).1),
        c.applying_all(t, objs, reqs, u).1.skip(u.len() as int).map_values(
            |e: UnparsedView| e.objective,
        ) == objs.filter(|obj: Seq<char>| unread(c, t, obj)),
        forall|i: int|
            u.len() <= i < c.applying_all(t, objs, reqs, u).1.len() ==> (#[trigger] c.applying_all(
                t,
                objs,
                reqs,
                u,
            ).1[i]).task_id == t.id,
    decreases objs.len(),
{
    reveal(Seq::filter);
    let f = |e: UnparsedView| e.objective;
    let g = |obj: Seq<char>| unread(c, t, obj);
    let after = c.applying_all(t, objs, reqs, u).1;
    if objs.len() > 0 {
        let init = objs.drop_last();
        lemma_unread(c, t, init, reqs, u);
        let before = c.applying_all(t, init, reqs, u).1;
        if unread(c, t, objs.last()) {
            assert(after.drop_last() =~= before);
            assert(after.skip(u.len() as int).map_values(f) =~= before.skip(
                u.len() as int,
            ).map_values(f).push(objs.last()));
        } else {
            assert(after =~= before);
        }
        assert forall|i: int| u.len() <= i < after.len() implies (#[trigger] after[i]).task_id
            == t.id by {
            if i < before.len() {
                assert(after[i] == before[i]);
            }
        }
    } else {
        assert(after.skip(u.len() as int).map_values(f) =~= Seq::<Seq<char>>::empty());
        assert(objs.filter(g) =~= Seq::<Seq<char>>::empty());
    }
}

proof fn lemma_kept(c: CatalogView, ts: Seq<UpstreamTaskView>, task: TaskView)
    ensures
        c.kept_tasks(ts).contains(task) <==> exists|i: int|
            0 <= i < ts.len() && (#[trigger] ts[i]).objectives.len() > 0 && task == c.task(ts[i])
                && task.requirements.len() > 0,
    decreases ts.len(),
{
    if ts.len() > 0 {
        let init = ts.drop_last();
        lemma_kept(c, init, task);
        let before = c.kept_tasks(init);
        let all = c.kept_tasks(ts);
        assert(ts[ts.len() - 1] == ts.last());
        if before.contains(task) {
            let i = choose|i: int|
                0 <= i < init.len() && (#[trigger] init[i]).objectives.len() > 0 && task == c.task(
                    init[i],
                ) && task.requirements.len() > 0;
            assert(ts[i] == init[i]);
            let k = choose|k: int| 0 <= k < before.len() && before[k] == task;
            assert(all[k] == task);
        }
        if all.contains(task) && !before.contains(task) {
            let k = choose|k: int| 0 <= k < all.len() && all[k] == task;
            if k < before.len() {
                assert(before[k] == task);
            }
        }
        if exists|i: int|
            0 <= i < ts.len() && (#[trigger] ts[i]).objectives.len() > 0 && task == c.task(ts[i])
                && task.requirements.len() > 0 {
            let i = choose|i: int|
                0 <= i < ts.len() && (#[trigger] ts[i]).objectives.len() > 0 && task == c.task(
                    ts[i],
                ) && task.requirements.len() > 0;
            if i < init.len() {
                assert(init[i] == ts[i]);
            } else {
                assert(all[all.len() - 1] == task);
            }
        }
    }
}

proof fn lemma_tasks_of(all: Seq<TaskView>, id: Seq<char>, task: TaskView)
    ensures
        tasks::tasks_of(all, id).contains(task) <==> all.contains(task) && task.vendor_id == id,
    decreases all.len(),
{
    if all.len() > 0 {
        let init = all.drop_last();
        lemma_tasks_of(init, id, task);
        assert(all =~= init.push(all.last()));
        crate::ids::lemma_contains_push(init, all.last(), task);
        if all.last().vendor_id == id {
            crate::ids::lemma_contains_push(tasks::tasks_of(init, id), all.last(), task);
        }
    }
}

/// A vendor has just the tasks that name it, have objectives and ask for
/// something, in the order of their ids; each keeps its id, its name and the
/// tasks before it, and tells where it is described.
pub proof fn law_vendors_have_their_tasks(
    c: CatalogView,
    ts: Seq<UpstreamTaskView>,
    corp: UpstreamCorp,
    n: int,
)
    requires
        0 <= n < ts.len(),
    ensures
        tasks::vendor_of(corp, c.kept_tasks(ts)).id == corp.id@,
        tasks::vendor_of(corp, c.kept_tasks(ts)).name == corp.name@,
        ts[n].corp_id == corp.id@ && ts[n].objectives.len() > 0 && c.task_requirements(
            ts[n],
            Seq::empty(),
        ).0.len() > 0 ==> exists|i: int|
            0 <= i < tasks::vendor_of(corp, c.kept_tasks(ts)).tasks.len() && {
                let task = #[trigger] tasks::vendor_of(corp, c.kept_tasks(ts)).tasks[i];
                &&& task.id == ts[n].id
                &&& task.name == ts[n].name
                &&& task.vendor_id == corp.id@
                &&& task.prerequisites == ts[n].required_tasks
                &&& task.requirements == c.task_requirements(ts[n], Seq::empty()).0
                &&& task.source_url == "https://www.exfil-zone-assistant.app/tasks/"@ + ts[n].id
            },
        forall|i: int|
            0 <= i < tasks::vendor_of(corp, c.kept_tasks(ts)).tasks.len() ==> {
                &&& (#[trigger] tasks::vendor_of(corp, c.kept_tasks(ts)).tasks[i]).vendor_id
                    == corp.id@
                &&& tasks::vendor_of(corp, c.kept_tasks(ts)).tasks[i].requirements.len() > 0
                &&& exists|k: int|
                    0 <= k < ts.len() && (#[trigger] ts[k]).id == tasks::vendor_of(
                        corp,
                        c.kept_tasks(ts),
                    ).tasks[i].id && ts[k].corp_id == corp.id@ && ts[k].objectives.len() > 0
            },
        forall|i: int, j: int|
            0 <= i < j < tasks::vendor_of(corp, c.kept_tasks(ts)).tasks.len() ==> !text::text_lt(
                (#[trigger] tasks::vendor_of(corp, c.kept_tasks(ts)).tasks[j]).id,
                (#[trigger] tasks::vendor_of(corp, c.kept_tasks(ts)).tasks[i]).id,
            ),
{
    let all = c.kept_tasks(ts);
    let mine = tasks::tasks_of(all, corp.id@);
    let out = tasks::vendor_of(corp, all).tasks;
    sorting::lemma_in_order::<Task>(mine);
    let task = c.task(ts[n]);
    if ts[n].corp_id == corp.id@ && ts[n].objectives.len() > 0 && task.requirements.len() > 0 {
        lemma_kept(c, ts, task);
        lemma_tasks_of(all, corp.id@, task);
        let k = choose|k: int| 0 <= k < mine.len() && mine[k] == task;
        let i = sorting::lemma_same_elements(mine, out, k);
        assert(out[i] == task);
    }
    assert forall|i: int| 0 <= i < out.len() implies {
        &&& (#[trigger] out[i]).vendor_id == corp.id@
        &&& out[i].requirements.len() > 0
        &&& exists|k: int|
            0 <= k < ts.len() && (#[trigger] ts[k]).id == out[i].id && ts[k].corp_id == corp.id@
                && ts[k].objectives.len() > 0
    } by {
        let k = sorting::lemma_same_elements(out, mine, i);
        assert(mine.contains(out[i]));
        lemma_tasks_of(all, corp.id@, out[i]);
        lemma_kept(c, ts, out[i]);
    }
    assert forall|i: int, j: int| 0 <= i < j < out.len() implies !text::text_lt(
        (#[trigger] out[j]).id,
        (#[trigger] out[i]).id,
    ) by {
        assert(!<Task as sorting::Ranked>::precedes(out[j], out[i]));
    }
}

/// A name that the catalog has is looked up as it is, whatever its singular
/// is, and else by its singular; without regard to case, and to the blanks
/// around it.
pub proof fn law_names_are_looked_up(c: CatalogView, name: Seq<char>)
    ensures
        c.by_name.contains_key(text::lowercase(text::trimmed(name))) ==> c.candidates(name) == Some(
            c.by_name[text::lowercase(text::trimmed(name))],
        ),
        !c.by_name.contains_key(text::lowercase(text::trimmed(name))) && c.by_name.contains_key(
            tasks::singular(text::lowercase(text::trimmed(name))),
        ) ==> c.candidates(name) == Some(
            c.by_name[tasks::singular(text::lowercase(text::trimmed(name)))],
        ),
{
}

/// The singular of a text that ends in `ies` ends in `y` in place of that, and
/// of one that ends in `s` otherwise it is the text without it. Any other text
/// is its own singular.
pub proof fn law_singular(stem: Seq<char>, s: Seq<char>)
    ensures
        tasks::singular(stem + seq!['i', 'e', 's']) == stem + seq!['y'],
        !(stem.len() >= 2 && stem[stem.len() - 1] == 'e' && stem[stem.len() - 2] == 'i')
            ==> tasks::singular(stem + seq!['s']) == stem,
        s.len() == 0 || s.last() != 's' ==> tasks::singular(s) == s,
{
    reveal_strlit("ies");
    reveal_strlit("s");
    reveal_strlit("y");
    assert("y"@ =~= seq!['y']);
    let a = stem + seq!['i', 'e', 's'];
    assert(a.skip(a.len() - 3) =~= "ies"@);
    assert(a.take(a.len() - 3) =~= stem);
    let b = stem + seq!['s'];
    assert(b.skip(b.len() - 1) =~= "s"@);
    assert(b.take(b.len() - 1) =~= stem);
    if text::ends_with(b, "ies"@) {
        let e = b.skip(b.len() - 3);
        assert(e[0] == "ies"@[0]);
        assert(e[1] == "ies"@[1]);
        assert(b[b.len() - 3] == 'i');
        assert(b[b.len() - 2] == 'e');
    }
    if text::ends_with(s, "ies"@) {
        assert(s.skip(s.len() - 3)[2] == "ies"@[2]);
    }
    if text::ends_with(s, "s"@) {
        assert(s.skip(s.len() - 1)[0] == "s"@[0]);
    }
}

proof fn lemma_first_linked(c: CatalogView, ids: Seq<Seq<char>>, task: Seq<char>, from: int)
    requires
        0 <= from,
    ensures
        match c.first_linked(ids, task, from) {
            Some(i) => from <= i < ids.len() && c.linked(ids[i], task) && forall|j: int|
                from <= j < i ==> !c.linked(#[trigger] ids[j], task),
            None => forall|j: int| from <= j < ids.len() ==> !c.linked(#[trigger] ids[j], task),
        },
    decreases ids.len() - from,
{
    if from < ids.len() && !c.linked(ids[from], task) {
        lemma_first_linked(c, ids, task, from + 1);
    }
}

proof fn lemma_least(ids: Seq<Seq<char>>)
    ensures
        match tasks::least(ids) {
            Some(l) => ids.contains(l) && forall|j: int|
                0 <= j < ids.len() ==> !text::text_lt(#[trigger] ids[j], l),
            None => ids.len() == 0,
        },
    decreases ids.len(),
{
    if ids.len() > 0 {
        let init = ids.drop_last();
        lemma_least(init);
        text::lemma_text_lt_irreflexive(ids.last());
        assert(ids[ids.len() - 1] == ids.last());
        match tasks::least(init) {
            Some(l) => {
                let k = choose|k: int| 0 <= k < init.len() && init[k] == l;
                assert(ids[k] == l);
                assert forall|j: int| 0 <= j < ids.len() implies !text::text_lt(
                    #[trigger] ids[j],
                    tasks::least(ids).unwrap(),
                ) by {
                    if j < init.len() {
                        assert(!text::text_lt(init[j], l));
                        if text::text_lt(ids.last(), l) && text::text_lt(ids[j], ids.last()) {
                            text::lemma_text_lt_trans(ids[j], ids.last(), l);
                        }
                    }
                }
            },
            None => {},
        }
    }
}

/// The only item that carries a name is meant by it. Of several, the first
/// that is linked to the task is, and where none is, the one whose id comes
/// first. A name that no item carries means nothing.
pub proof fn law_names_mean_items(c: CatalogView, name: Seq<char>, task: Seq<char>)
    ensures
        c.candidates(name) is None ==> c.resolve(name, task) is None,
        c.candidates(name) matches Some(ids) ==> {
            &&& ids.len() == 0 ==> c.resolve(name, task) is None
            &&& ids.len() > 0 ==> c.resolve(name, task) is Some && ids.contains(
                c.resolve(name, task).unwrap(),
            )
            &&& ids.len() > 1 && (exists|i: int| 0 <= i < ids.len() && c.linked(#[trigger] ids[i], task))
                ==> exists|i: int|
                0 <= i < ids.len() && #[trigger] ids[i] == c.resolve(name, task).unwrap()
                    && c.linked(ids[i], task) && forall|j: int|
                    0 <= j < i ==> !c.linked(#[trigger] ids[j], task)
            &&& ids.len() > 1 && (forall|i: int|
                0 <= i < ids.len() ==> !c.linked(#[trigger] ids[i], task)) ==> forall|j: int|
                0 <= j < ids.len() ==> !text::text_lt(
                    #[trigger] ids[j],
                    c.resolve(name, task).unwrap(),
                )
        },
{
    if c.candidates(name) is Some {
        let ids = c.candidates(name).unwrap();
        lemma_first_linked(c, ids, task, 0);
        lemma_least(ids);
        if ids.len() == 1 {
            assert(ids.contains(ids[0]));
        } else if c.first_linked(ids, task, 0) is Some {
            let i = c.first_linked(ids, task, 0).unwrap();
            assert(ids.contains(ids[i]));
            assert(c.resolve(name, task) == Some(ids[i]));
        }
    }
}

/// What is listed of all tasks is listed task by task: each adds its objectives
/// that should ask for an item and do not, in their order.
pub proof fn law_unread_objectives_of_all_tasks(
    c: CatalogView,
    ts: Seq<UpstreamTaskView>,
    t: UpstreamTaskView,
)
    ensures
        c.unparsed(ts.push(t)).map_values(|e: UnparsedView| e.objective) == c.unparsed(
            ts,
        ).map_values(|e: UnparsedView| e.objective) + t.objectives.filter(
            |obj: Seq<char>| unread(c, t, obj),
        ),
{
    let f = |e: UnparsedView| e.objective;
    let u = c.unparsed(ts);
    let all = c.unparsed(ts.push(t));
    assert(ts.push(t).drop_last() =~= ts);
    law_unread_objectives_are_listed(c, t, u);
    let next = c.task_requirements(t, u).1;
    assert(next =~= u + next.skip(u.len() as int));
    if t.objectives.len() == 0 {
        reveal(Seq::filter);
        assert(t.objectives.filter(|obj: Seq<char>| unread(c, t, obj)) =~= Seq::<
            Seq<char>,
        >::empty());
        assert(all.map_values(f) =~= u.map_values(f) + Seq::<Seq<char>>::empty());
    } else {
        assert(all == next);
        assert(next.map_values(f) =~= u.map_values(f) + next.skip(u.len() as int).map_values(f));
    }
}

/// The reason given for an objective names the item that the catalog does not
/// know, or says that the objective was not understood.
pub proof fn law_reasons(
    c: CatalogView,
    t: UpstreamTaskView,
    obj: Seq<char>,
    reqs: Seq<ReqView>,
    u: Seq<UnparsedView>,
)
    requires
        unread(c, t, obj),
    ensures
        c.applying(t, obj, reqs, u).0 == reqs,
        c.applying(t, obj, reqs, u).1.drop_last() == u,
        c.applying(t, obj, reqs, u).1.last().objective == obj,
        c.applying(t, obj, reqs, u).1.last().task_id == t.id,
        tasks::objective(obj) is None ==> c.applying(t, obj, reqs, u).1.last().reason
            == "regex did not match"@,
        tasks::objective(obj) matches Some(p) ==> c.applying(t, obj, reqs, u).1.last().reason
            == "no item match for `"@ + p.1 + "`"@,
{
    assert(c.applying(t, obj, reqs, u).1.drop_last() =~= u);
}

} // verus!
