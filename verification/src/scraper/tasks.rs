//! Tasks of vendors: what has to be handed in for each, read out of the free
//! text of its objectives.

use crate::data;
use crate::ids;
use crate::sorting;
use crate::text;
use crate::data::{ItemId, ReqView, Requirement};
use crate::ids::IdSet;
use crate::scraper::items::{clone_ids, CatalogView, ItemCatalog, ItemRecord, RecordView};
use crate::scraper::model::{Task, TaskId, TaskView, Vendor, VendorView};
use crate::sorting::sort_stably;
use crate::text::{
    chars_of, copy_range, has_end, has_part, parse_uint, same_text, string_from, string_of,
    strip_char, text_before, to_lowercase, trim_chars,
};
use vstd::prelude::*;
use vstd::string::*;

verus! {

/// A quantity and an item: "Turn in 9 Intel Items Found In Raid".
pub const SUBMIT_RE: &'static str = r"(?i)^\s*(?:turn in|submit|deliver|hand over|provide|give)\s+(\d+)\s+(.+?)(?:\s+(?:items?|in raid|found in raid|in\s+raid))?\s*$";

/// A quantity and an item to be found: "Find 3 batteries".
pub const FIND_RE: &'static str = r"(?i)^\s*(?:find|collect|retrieve|bring|locate)\s+(\d+)\s+(.+?)(?:\s+(?:items?|in raid|found in raid))?\s*$";

/// An item alone, of which one is meant: "Turn in ARK Floppydisk".
pub const SUBMIT_ONE_RE: &'static str = r"(?i)^\s*(?:turn in|submit|deliver|hand over|provide|give)\s+([a-zA-Z'][^$]+?)\s*$";

/// The texts of the groups of a match.
pub open spec fn groups_view(groups: Seq<Option<String>>) -> Seq<Option<Seq<char>>> {
    Seq::new(groups.len(), |i: int| text::opt_text(groups[i]))
}

/// The groups of the leftmost match of a pattern in a text, the whole match
/// first; nothing where the pattern is malformed or does not match.
pub uninterp spec fn regex_groups(pattern: Seq<char>, text: Seq<char>) -> Option<
    Seq<Option<Seq<char>>>,
>;

/// `regex::Regex::new` and `captures`. The groups are a function of the
/// pattern and the text.
#[verifier::external_body]
fn regex_captures(pattern: &str, text: &str) -> (r: Option<Vec<Option<String>>>)
    ensures
        match r {
            Some(groups) => regex_groups(pattern@, text@) == Some(groups_view(groups@)),
            None => regex_groups(pattern@, text@) is None,
        },
{
    let re = regex::Regex::new(pattern).ok()?;
    let caps = re.captures(text)?;
    Some(caps.iter().map(|m| m.map(|g| g.as_str().to_string())).collect())
}

/// The text of group `i`, empty where it took no part in the match.
pub open spec fn group_text(groups: Seq<Option<Seq<char>>>, i: int) -> Seq<char> {
    if 0 <= i < groups.len() && groups[i] is Some {
        groups[i].unwrap()
    } else {
        Seq::empty()
    }
}

fn group_chars(groups: &Vec<Option<String>>, i: usize) -> (r: Vec<char>)
    ensures
        r@ == group_text(groups_view(groups@), i as int),
{
    if i < groups.len() {
        match &groups[i] {
            Some(t) => chars_of(t.as_str()),
            None => Vec::new(),
        }
    } else {
        Vec::new()
    }
}

/// How long the qualifier at the end of an item phrase is, by the phrase in
/// lower case.
pub open spec fn qualifier_len(lower: Seq<char>) -> nat {
    if text::ends_with(lower, " items found in raid"@) {
        " items found in raid"@.len()
    } else if text::ends_with(lower, " items in raid"@) {
        " items in raid"@.len()
    } else if text::ends_with(lower, " found in raid"@) {
        " found in raid"@.len()
    } else if text::ends_with(lower, " in raid"@) {
        " in raid"@.len()
    } else if text::ends_with(lower, " items"@) {
        " items"@.len()
    } else if text::ends_with(lower, " item"@) {
        " item"@.len()
    } else {
        0
    }
}

/// An item phrase without the qualifier at its end, by the phrase in lower
/// case.
pub open spec fn unqualified(s: Seq<char>, lower: Seq<char>) -> Seq<char> {
    if qualifier_len(lower) <= s.len() {
        text::trimmed(s.take(s.len() - qualifier_len(lower)))
    } else {
        text::trimmed(s)
    }
}

fn ends_in(s: &[char], end: &str) -> (r: bool)
    ensures
        r == text::ends_with(s@, end@),
{
    let e: Vec<char> = chars_of(end);
    has_end(s, e.as_slice())
}

/// Takes the qualifier off the end of an item phrase, by the phrase in lower
/// case.
pub fn strip_qualifier(s: &[char], lower: &[char]) -> (r: Vec<char>)
    ensures
        r@ == unqualified(s@, lower@),
{
    proof {
        reveal_strlit(" items found in raid");
        reveal_strlit(" items in raid");
        reveal_strlit(" found in raid");
        reveal_strlit(" in raid");
        reveal_strlit(" items");
        reveal_strlit(" item");
    }
    let n: usize = if ends_in(lower, " items found in raid") {
        20
    } else if ends_in(lower, " items in raid") {
        14
    } else if ends_in(lower, " found in raid") {
        14
    } else if ends_in(lower, " in raid") {
        8
    } else if ends_in(lower, " items") {
        6
    } else if ends_in(lower, " item") {
        5
    } else {
        0
    };
    if n <= s.len() {
        let end: usize = s.len() - n;
        let kept: Vec<char> = copy_range(s, 0, end);
        assert(kept@ =~= s@.take(end as int));
        trim_chars(kept.as_slice())
    } else {
        trim_chars(s)
    }
}

/// An item phrase without quotes and qualifiers.
pub open spec fn cleaned(raw: Seq<char>) -> Seq<char> {
    let s = text::stripped_of(text::trimmed(raw), '\'');
    unqualified(s, text::lowercase(s))
}

/// Takes quotes and qualifiers off an item phrase.
pub fn clean_item_name(raw: &[char]) -> (r: Vec<char>)
    ensures
        r@ == cleaned(raw@),
{
    let t: Vec<char> = trim_chars(raw);
    let s: Vec<char> = strip_char(t.as_slice(), '\'');
    let text: String = string_of(s.as_slice());
    let lower: Vec<char> = chars_of(to_lowercase(text.as_str()).as_str());
    strip_qualifier(s.as_slice(), lower.as_slice())
}

/// A quantity and an item out of the first two groups of a match.
pub open spec fn quantified(groups: Seq<Option<Seq<char>>>) -> Option<(u32, Seq<char>)> {
    match text::parsed_uint(group_text(groups, 1), u32::MAX as nat) {
        Some(q) => Some((q as u32, cleaned(group_text(groups, 2)))),
        None => None,
    }
}

/// What an objective asks for, by the matches of the three patterns: the first
/// that matches decides.
pub open spec fn asked(
    submit: Option<Seq<Option<Seq<char>>>>,
    find: Option<Seq<Option<Seq<char>>>>,
    one: Option<Seq<Option<Seq<char>>>>,
) -> Option<(u32, Seq<char>)> {
    match submit {
        Some(groups) => quantified(groups),
        None => match find {
            Some(groups) => quantified(groups),
            None => match one {
                Some(groups) => Some((1, cleaned(group_text(groups, 1)))),
                None => None,
            },
        },
    }
}

/// The texts of the groups of a match, where there is one.
pub open spec fn match_view(m: Option<Vec<Option<String>>>) -> Option<Seq<Option<Seq<char>>>> {
    match m {
        Some(groups) => Some(groups_view(groups@)),
        None => None,
    }
}

/// A quantity with the text of an item.
pub open spec fn asked_view(r: Option<(u32, String)>) -> Option<(u32, Seq<char>)> {
    match r {
        Some(p) => Some((p.0, p.1@)),
        None => None,
    }
}

fn quantified_item(groups: &Vec<Option<String>>) -> (r: Option<(u32, String)>)
    ensures
        asked_view(r) == quantified(groups_view(groups@)),
{
    let digits: Vec<char> = group_chars(groups, 1);
    match parse_uint(digits.as_slice(), u32::MAX as u64) {
        Some(q) => {
            let name: Vec<char> = clean_item_name(group_chars(groups, 2).as_slice());
            Some((q as u32, string_of(name.as_slice())))
        },
        None => None,
    }
}

/// What an objective asks for, by the matches of the three patterns.
pub fn objective_of(
    submit: &Option<Vec<Option<String>>>,
    find: &Option<Vec<Option<String>>>,
    one: &Option<Vec<Option<String>>>,
) -> (r: Option<(u32, String)>)
    ensures
        asked_view(r) == asked(match_view(*submit), match_view(*find), match_view(*one)),
{
    match submit {
        Some(groups) => quantified_item(groups),
        None => match find {
            Some(groups) => quantified_item(groups),
            None => match one {
                Some(groups) => {
                    let name: Vec<char> = clean_item_name(group_chars(groups, 1).as_slice());
                    Some((1, string_of(name.as_slice())))
                },
                None => None,
            },
        },
    }
}

/// What the objective `obj` asks for.
pub open spec fn objective(obj: Seq<char>) -> Option<(u32, Seq<char>)> {
    asked(
        regex_groups(SUBMIT_RE@, obj),
        regex_groups(FIND_RE@, obj),
        regex_groups(SUBMIT_ONE_RE@, obj),
    )
}

/// The quantity and the item that an objective asks for, where it asks for
/// any.
pub fn match_objective(obj: &str) -> (r: Option<(u32, String)>)
    ensures
        asked_view(r) == objective(obj@),
{
    let submit: Option<Vec<Option<String>>> = regex_captures(SUBMIT_RE, obj);
    let find: Option<Vec<Option<String>>> = regex_captures(FIND_RE, obj);
    let one: Option<Vec<Option<String>>> = regex_captures(SUBMIT_ONE_RE, obj);
    objective_of(&submit, &find, &one)
}

/// Whether a text in lower case speaks of handing something in.
pub open spec fn speaks_of_submission(lower: Seq<char>) -> bool {
    ||| text::holds(lower, "turn in"@)
    ||| text::holds(lower, "submit"@)
    ||| text::holds(lower, "deliver"@)
    ||| text::holds(lower, "hand over"@)
    ||| text::holds(lower, "provide"@)
}

fn mentions(s: &[char], part: &str) -> (r: bool)
    ensures
        r == text::holds(s@, part@),
{
    let p: Vec<char> = chars_of(part);
    has_part(s, p.as_slice())
}

/// Whether a text in lower case speaks of handing something in.
pub fn mentions_submission(lower: &[char]) -> (r: bool)
    ensures
        r == speaks_of_submission(lower@),
{
    mentions(lower, "turn in") || mentions(lower, "submit") || mentions(lower, "deliver")
        || mentions(lower, "hand over") || mentions(lower, "provide")
}

/// Whether an objective speaks of handing something in.
pub fn is_submit_like(obj: &str) -> (r: bool)
    ensures
        r == speaks_of_submission(text::lowercase(obj@)),
{
    let lower: Vec<char> = chars_of(to_lowercase(obj).as_str());
    mentions_submission(lower.as_slice())
}

/// The singular of a plural: `ies` becomes `y`, an `s` at the end goes.
pub open spec fn singular(s: Seq<char>) -> Seq<char> {
    if text::ends_with(s, "ies"@) {
        s.take(s.len() - 3) + "y"@
    } else if text::ends_with(s, "s"@) {
        s.take(s.len() - 1)
    } else {
        s
    }
}

/// The singular of a plural.
pub fn singularize(s: &str) -> (r: String)
    ensures
        r@ == singular(s@),
{
    let chars: Vec<char> = chars_of(s);
    let n: usize = chars.len();
    proof {
        reveal_strlit("ies");
        reveal_strlit("s");
    }
    if ends_in(chars.as_slice(), "ies") {
        let mut r: String = string_from(chars.as_slice(), 0, n - 3);
        assert(r@ =~= s@.take(n - 3));
        r.append("y");
        r
    } else if ends_in(chars.as_slice(), "s") {
        let r: String = string_from(chars.as_slice(), 0, n - 1);
        assert(r@ =~= s@.take(n - 1));
        r
    } else {
        s.to_owned()
    }
}

/// A task as upstream has it.
#[derive(Debug)]
pub struct UpstreamTask {
    pub id: String,
    pub name: String,
    pub objectives: Vec<String>,
    pub corp_id: String,
    pub task_type: Vec<String>,
    pub required_tasks: Vec<String>,
}

/// What an [`UpstreamTask`] says.
#[verifier::ext_equal]
pub struct UpstreamTaskView {
    pub id: Seq<char>,
    pub name: Seq<char>,
    pub objectives: Seq<Seq<char>>,
    pub corp_id: Seq<char>,
    pub task_type: Seq<Seq<char>>,
    pub required_tasks: Seq<Seq<char>>,
}

impl View for UpstreamTask {
    type V = UpstreamTaskView;

    open spec fn view(&self) -> UpstreamTaskView {
        UpstreamTaskView {
            id: self.id@,
            name: self.name@,
            objectives: ids::texts(self.objectives@),
            corp_id: self.corp_id@,
            task_type: ids::texts(self.task_type@),
            required_tasks: ids::texts(self.required_tasks@),
        }
    }
}

/// An objective that could not be read, and why.
#[derive(Debug)]
pub struct UnparsedObjective {
    pub task_id: TaskId,
    pub objective: String,
    pub reason: String,
}

/// What an [`UnparsedObjective`] says.
#[verifier::ext_equal]
pub struct UnparsedView {
    pub task_id: Seq<char>,
    pub objective: Seq<char>,
    pub reason: Seq<char>,
}

impl View for UnparsedObjective {
    type V = UnparsedView;

    open spec fn view(&self) -> UnparsedView {
        UnparsedView {
            task_id: self.task_id@,
            objective: self.objective@,
            reason: self.reason@,
        }
    }
}

impl CatalogView {
    /// Whether the catalog links the item `id` to the task `task`.
    pub open spec fn linked(self, id: Seq<char>, task: Seq<char>) -> bool {
        exists|i: int|
            0 <= i < self.items.len() && (#[trigger] self.items[i]).id == id
                && self.items[i].task_ids.contains(task)
    }

    /// The items that carry a name, or else its singular.
    pub open spec fn candidates(self, name: Seq<char>) -> Option<Seq<Seq<char>>> {
        let key = text::lowercase(text::trimmed(name));
        if self.by_name.contains_key(key) {
            Some(self.by_name[key])
        } else if self.by_name.contains_key(singular(key)) {
            Some(self.by_name[singular(key)])
        } else {
            None
        }
    }

    /// The first of `ids` from `from` on that is linked to `task`.
    pub open spec fn first_linked(self, ids: Seq<Seq<char>>, task: Seq<char>, from: int) -> Option<
        int,
    >
        decreases ids.len() - from,
    {
        if from < 0 || from >= ids.len() {
            None
        } else if self.linked(ids[from], task) {
            Some(from)
        } else {
            self.first_linked(ids, task, from + 1)
        }
    }

    /// The item that a name means in a task: the only one that carries it,
    /// else one that is linked to the task, else the one whose id comes first.
    pub open spec fn resolve(self, name: Seq<char>, task: Seq<char>) -> Option<Seq<char>> {
        match self.candidates(name) {
            None => None,
            Some(ids) => if ids.len() == 1 {
                Some(ids[0])
            } else {
                match self.first_linked(ids, task, 0) {
                    Some(i) => Some(ids[i]),
                    None => least(ids),
                }
            },
        }
    }
}

/// The text that comes before all others of `ids`.
pub open spec fn least(ids: Seq<Seq<char>>) -> Option<Seq<char>>
    decreases ids.len(),
{
    if ids.len() == 0 {
        None
    } else {
        match least(ids.drop_last()) {
            None => Some(ids.last()),
            Some(l) => if text::text_lt(ids.last(), l) {
                Some(ids.last())
            } else {
                Some(l)
            },
        }
    }
}

fn least_of(ids: &Vec<ItemId>) -> (r: Option<ItemId>)
    ensures
        text::opt_text(r) == least(ids::texts(ids@)),
{
    let ghost all = ids::texts(ids@);
    let mut best: Option<usize> = None;
    let mut i: usize = 0;
    while i < ids.len()
        invariant
            i <= ids@.len(),
            all == ids::texts(ids@),
            match best {
                Some(b) => b < i && least(all.take(i as int)) == Some(all[b as int]),
                None => least(all.take(i as int)) is None,
            },
        decreases ids@.len() - i,
    {
        assert(all.take(i + 1).drop_last() =~= all.take(i as int));
        assert(all.take(i + 1).last() == all[i as int]);
        match best {
            None => {
                best = Some(i);
            },
            Some(b) => {
                if text_before(ids[i].as_str(), ids[b].as_str()) {
                    best = Some(i);
                }
            },
        }
        i += 1;
    }
    assert(all.take(all.len() as int) =~= all);
    match best {
        Some(b) => Some(ids[b].clone()),
        None => None,
    }
}

fn has_text(list: &Vec<String>, t: &str) -> (r: bool)
    ensures
        r == ids::texts(list@).contains(t@),
{
    let ghost all = ids::texts(list@);
    let mut i: usize = 0;
    while i < list.len()
        invariant
            i <= list@.len(),
            all == ids::texts(list@),
            forall|j: int| 0 <= j < i ==> all[j] != t@,
        decreases list@.len() - i,
    {
        if same_text(list[i].as_str(), t) {
            assert(all[i as int] == t@);
            return true;
        }
        i += 1;
    }
    false
}

impl ItemCatalog {
    fn is_linked(&self, id: &str, task: &str) -> (r: bool)
        ensures
            r == self@.linked(id@, task@),
    {
        let ghost items = self@.items;
        let n: usize = self.items.len();
        let mut i: usize = 0;
        while i < n
            invariant
                i <= n,
                n == items.len(),
                n == self.items.order().len(),
                items == sorting::views(self.items.values()),
                forall|j: int|
                    0 <= j < i ==> !((#[trigger] items[j]).id == id@ && items[j].task_ids.contains(
                        task@,
                    )),
            decreases n - i,
        {
            let rec: &ItemRecord = self.items.value_at(i);
            assert(items[i as int] == rec@);
            if same_text(rec.id.as_str(), id) && has_text(&rec.task_ids, task) {
                return true;
            }
            i += 1;
        }
        false
    }

    /// The items that carry a name, or else its singular.
    pub fn lookup_candidates(&self, raw: &str) -> (r: Option<Vec<ItemId>>)
        ensures
            match r {
                Some(ids) => self@.candidates(raw@) == Some(ids::texts(ids@)),
                None => self@.candidates(raw@) is None,
            },
    {
        let name: Vec<char> = trim_chars(chars_of(raw).as_slice());
        let key: String = to_lowercase(string_of(name.as_slice()).as_str());
        match self.by_name.get(key.as_str()) {
            Some(ids) => {
                return Some(clone_ids(ids));
            },
            None => {},
        }
        match self.by_name.get(singularize(key.as_str()).as_str()) {
            Some(ids) => Some(clone_ids(ids)),
            None => None,
        }
    }

    /// The item that a name means in a task.
    pub fn resolve_item_name(&self, raw_name: &str, task_id: &TaskId) -> (r: Option<ItemId>)
        ensures
            text::opt_text(r) == self@.resolve(raw_name@, task_id@),
    {
        let ids: Vec<ItemId> = match self.lookup_candidates(raw_name) {
            Some(v) => v,
            None => {
                return None;
            },
        };
        let ghost all = ids::texts(ids@);
        if ids.len() == 1 {
            assert(all[0] == ids@[0]@);
            return Some(ids[0].clone());
        }
        assert(all.len() == ids@.len());
        let mut i: usize = 0;
        while i < ids.len()
            invariant
                i <= ids@.len(),
                ids@.len() != 1,
                all == ids::texts(ids@),
                self@.candidates(raw_name@) == Some(all),
                self@.first_linked(all, task_id@, 0) == self@.first_linked(
                    all,
                    task_id@,
                    i as int,
                ),
            decreases ids@.len() - i,
        {
            if self.is_linked(ids[i].as_str(), task_id.as_str()) {
                assert(all[i as int] == ids@[i as int]@);
                return Some(ids[i].clone());
            }
            i += 1;
        }
        least_of(&ids)
    }
}

/// A list of requirements in the order of their items, with `r` put in: in
/// place of one for the same item, where there is one.
pub open spec fn with_req(reqs: Seq<ReqView>, r: ReqView) -> Seq<ReqView>
    decreases reqs.len(),
{
    if reqs.len() == 0 || text::text_lt(reqs.last().item, r.item) {
        reqs.push(r)
    } else if reqs.last().item == r.item {
        reqs.drop_last().push(r)
    } else {
        with_req(reqs.drop_last(), r).push(reqs.last())
    }
}

/// Whether a list of requirements has one for `item`.
pub open spec fn has_req(reqs: Seq<ReqView>, item: Seq<char>) -> bool {
    exists|i: int| 0 <= i < reqs.len() && (#[trigger] reqs[i]).item == item
}

proof fn lemma_with_req(reqs: Seq<ReqView>, r: ReqView, p: int)
    requires
        0 <= p <= reqs.len(),
        forall|j: int|
            p <= j < reqs.len() ==> !text::text_lt((#[trigger] reqs[j]).item, r.item) && reqs[j].item
                != r.item,
        p == 0 || text::text_lt(reqs[p - 1].item, r.item) || reqs[p - 1].item == r.item,
    ensures
        with_req(reqs, r) == if p > 0 && reqs[p - 1].item == r.item && !text::text_lt(
            reqs[p - 1].item,
            r.item,
        ) {
            reqs.update(p - 1, r)
        } else {
            reqs.insert(p, r)
        },
    decreases reqs.len(),
{
    if p == reqs.len() {
        if reqs.len() > 0 {
            assert(reqs.drop_last().push(r) =~= reqs.update(p - 1, r));
        }
        assert(reqs.insert(p, r) =~= reqs.push(r));
    } else {
        let init = reqs.drop_last();
        assert(!text::text_lt(reqs[reqs.len() - 1].item, r.item));
        assert forall|j: int| p <= j < init.len() implies !text::text_lt(
            (#[trigger] init[j]).item,
            r.item,
        ) && init[j].item != r.item by {
            assert(!text::text_lt(reqs[j].item, r.item));
        }
        lemma_with_req(init, r, p);
        if p > 0 {
            assert(init.update(p - 1, r).push(reqs.last()) =~= reqs.update(p - 1, r));
        }
        assert(init.insert(p, r).push(reqs.last()) =~= reqs.insert(p, r));
    }
}

fn put_req(reqs: &mut Vec<Requirement>, r: Requirement)
    ensures
        data::reqs_view(final(reqs)@) == with_req(data::reqs_view(old(reqs)@), r@),
{
    let ghost was = data::reqs_view(reqs@);
    let mut p: usize = reqs.len();
    while p > 0 && reqs[p - 1].item_id != r.item_id && !text_before(
        reqs[p - 1].item_id.as_str(),
        r.item_id.as_str(),
    )
        invariant
            p <= reqs@.len(),
            was == data::reqs_view(reqs@),
            forall|j: int|
                p <= j < was.len() ==> !text::text_lt((#[trigger] was[j]).item, r@.item) && was[j].item
                    != r@.item,
        decreases p,
    {
        p -= 1;
    }
    proof {
        lemma_with_req(was, r@, p as int);
        if p > 0 && was[p - 1].item == r@.item {
            text::lemma_text_lt_irreflexive(r@.item);
        }
    }
    if p > 0 && reqs[p - 1].item_id == r.item_id {
        reqs[p - 1].quantity = r.quantity;
        assert(data::reqs_view(reqs@) =~= was.update(p - 1, r@));
    } else {
        reqs.insert(p, r);
        assert(data::reqs_view(reqs@) =~= was.insert(p as int, r@));
    }
}

fn lists_item(reqs: &Vec<Requirement>, item: &str) -> (r: bool)
    ensures
        r == has_req(data::reqs_view(reqs@), item@),
{
    let ghost all = data::reqs_view(reqs@);
    let mut i: usize = 0;
    while i < reqs.len()
        invariant
            i <= reqs@.len(),
            all == data::reqs_view(reqs@),
            forall|j: int| 0 <= j < i ==> (#[trigger] all[j]).item != item@,
        decreases reqs@.len() - i,
    {
        if same_text(reqs[i].item_id.as_str(), item) {
            assert(all[i as int].item == item@);
            return true;
        }
        i += 1;
    }
    false
}

/// One of each item that the catalog links to a task, in the order of the
/// items.
pub open spec fn linked_reqs(items: Seq<RecordView>, task: Seq<char>) -> Seq<ReqView>
    decreases items.len(),
{
    if items.len() == 0 {
        Seq::empty()
    } else {
        let before = linked_reqs(items.drop_last(), task);
        let rec = items.last();
        if rec.task_ids.contains(task) && !has_req(before, rec.id) {
            with_req(before, ReqView { item: rec.id, quantity: 1 })
        } else {
            before
        }
    }
}

impl CatalogView {
    /// What one objective adds to the requirements of a task, and to the list
    /// of what could not be read.
    pub open spec fn applying(
        self,
        t: UpstreamTaskView,
        obj: Seq<char>,
        reqs: Seq<ReqView>,
        unparsed: Seq<UnparsedView>,
    ) -> (Seq<ReqView>, Seq<UnparsedView>) {
        match objective(obj) {
            Some((qty, name)) => match self.resolve(name, t.id) {
                Some(item) => (with_req(reqs, ReqView { item, quantity: qty }), unparsed),
                None => if t.task_type.contains("submit"@) {
                    (
                        reqs,
                        unparsed.push(
                            UnparsedView {
                                task_id: t.id,
                                objective: obj,
                                reason: "no item match for `"@ + name + "`"@,
                            },
                        ),
                    )
                } else {
                    (reqs, unparsed)
                },
            },
            None => if speaks_of_submission(text::lowercase(obj)) {
                (
                    reqs,
                    unparsed.push(
                        UnparsedView {
                            task_id: t.id,
                            objective: obj,
                            reason: "regex did not match"@,
                        },
                    ),
                )
            } else {
                (reqs, unparsed)
            },
        }
    }

    /// The same for several objectives in order.
    pub open spec fn applying_all(
        self,
        t: UpstreamTaskView,
        objs: Seq<Seq<char>>,
        reqs: Seq<ReqView>,
        unparsed: Seq<UnparsedView>,
    ) -> (Seq<ReqView>, Seq<UnparsedView>)
        decreases objs.len(),
    {
        if objs.len() == 0 {
            (reqs, unparsed)
        } else {
            let (r, u) = self.applying_all(t, objs.drop_last(), reqs, unparsed);
            self.applying(t, objs.last(), r, u)
        }
    }

    /// The requirements of a task, and the list of what could not be read
    /// after it: what is linked to the task counts once, and the objectives
    /// overwrite that.
    pub open spec fn task_requirements(
        self,
        t: UpstreamTaskView,
        unparsed: Seq<UnparsedView>,
    ) -> (Seq<ReqView>, Seq<UnparsedView>) {
        self.applying_all(t, t.objectives, linked_reqs(self.items, t.id), unparsed)
    }
}

impl ItemCatalog {
    fn apply_objective(
        &self,
        t: &UpstreamTask,
        obj: &String,
        requirements: &mut Vec<Requirement>,
        unparsed: &mut Vec<UnparsedObjective>,
    )
        ensures
            (data::reqs_view(final(requirements)@), sorting::views(final(unparsed)@)) == self@.applying(
                t@,
                obj@,
                data::reqs_view(old(requirements)@),
                sorting::views(old(unparsed)@),
            ),
    {
        let ghost before = unparsed@;
        match match_objective(obj.as_str()) {
            Some((qty, name)) => {
                match self.resolve_item_name(name.as_str(), &t.id) {
                    Some(item_id) => {
                        put_req(requirements, Requirement { item_id, quantity: qty });
                    },
                    None => {
                        if has_text(&t.task_type, "submit") {
                            let mut reason: String = "no item match for `".to_owned();
                            reason.append(name.as_str());
                            reason.append("`");
                            let entry = UnparsedObjective {
                                task_id: t.id.clone(),
                                objective: obj.clone(),
                                reason,
                            };
                            unparsed.push(entry);
                            assert(sorting::views(unparsed@) =~= sorting::views(before).push(entry@));
                        }
                    },
                }
            },
            None => {
                if is_submit_like(obj.as_str()) {
                    let entry = UnparsedObjective {
                        task_id: t.id.clone(),
                        objective: obj.clone(),
                        reason: "regex did not match".to_owned(),
                    };
                    unparsed.push(entry);
                    assert(sorting::views(unparsed@) =~= sorting::views(before).push(entry@));
                }
            },
        }
    }

    fn linked_requirements(&self, task: &TaskId) -> (r: Vec<Requirement>)
        ensures
            data::reqs_view(r@) == linked_reqs(self@.items, task@),
    {
        let ghost items = self@.items;
        let n: usize = self.items.len();
        let mut r: Vec<Requirement> = Vec::new();
        let mut i: usize = 0;
        assert(data::reqs_view(r@) =~= linked_reqs(items.take(0), task@));
        while i < n
            invariant
                i <= n,
                n == items.len(),
                n == self.items.order().len(),
                items == sorting::views(self.items.values()),
                data::reqs_view(r@) == linked_reqs(items.take(i as int), task@),
            decreases n - i,
        {
            let rec: &ItemRecord = self.items.value_at(i);
            assert(items[i as int] == rec@);
            assert(items.take(i + 1).drop_last() =~= items.take(i as int));
            assert(items.take(i + 1).last() == rec@);
            if has_text(&rec.task_ids, task.as_str()) && !lists_item(&r, rec.id.as_str()) {
                put_req(&mut r, Requirement { item_id: rec.id.clone(), quantity: 1 });
            }
            i += 1;
        }
        assert(items.take(items.len() as int) =~= items);
        r
    }

    /// The requirements of a task. What looks like handing something in but
    /// cannot be read is put on the list `unparsed`.
    pub fn build_task_requirements(
        &self,
        t: &UpstreamTask,
        unparsed: &mut Vec<UnparsedObjective>,
    ) -> (r: Vec<Requirement>)
        ensures
            (data::reqs_view(r@), sorting::views(final(unparsed)@)) == self@.task_requirements(
                t@,
                sorting::views(old(unparsed)@),
            ),
    {
        let mut r: Vec<Requirement> = self.linked_requirements(&t.id);
        let ghost r0 = data::reqs_view(r@);
        let ghost u0 = sorting::views(unparsed@);
        let ghost objs = t@.objectives;
        let mut i: usize = 0;
        assert(objs.take(0) =~= Seq::<Seq<char>>::empty());
        while i < t.objectives.len()
            invariant
                i <= t.objectives@.len(),
                objs == ids::texts(t.objectives@),
                (data::reqs_view(r@), sorting::views(unparsed@)) == self@.applying_all(
                    t@,
                    objs.take(i as int),
                    r0,
                    u0,
                ),
            decreases t.objectives@.len() - i,
        {
            assert(objs.take(i + 1).drop_last() =~= objs.take(i as int));
            assert(objs.take(i + 1).last() == t.objectives@[i as int]@);
            self.apply_objective(t, &t.objectives[i], &mut r, unparsed);
            i += 1;
        }
        assert(objs.take(objs.len() as int) =~= objs);
        r
    }
}

/// A vendor as upstream has it.
#[derive(Debug)]
pub struct UpstreamCorp {
    pub id: String,
    pub name: String,
}

/// What reading the tasks gives.
#[derive(Debug)]
pub struct TasksResult {
    pub vendors: Vec<Vendor>,
    /// Every item that a task asks for.
    pub referenced_items: IdSet,
    pub unparsed_objectives: Vec<UnparsedObjective>,
}

impl CatalogView {
    /// The task that is made of an upstream one.
    pub open spec fn task(self, t: UpstreamTaskView) -> TaskView {
        TaskView {
            id: t.id,
            name: t.name,
            vendor_id: t.corp_id,
            prerequisites: t.required_tasks,
            requirements: self.task_requirements(t, Seq::empty()).0,
            source_url: "https://www.exfil-zone-assistant.app/tasks/"@ + t.id,
        }
    }

    /// The tasks that are kept: those with objectives that ask for something.
    pub open spec fn kept_tasks(self, ts: Seq<UpstreamTaskView>) -> Seq<TaskView>
        decreases ts.len(),
    {
        if ts.len() == 0 {
            Seq::empty()
        } else {
            let before = self.kept_tasks(ts.drop_last());
            let task = self.task(ts.last());
            if ts.last().objectives.len() > 0 && task.requirements.len() > 0 {
                before.push(task)
            } else {
                before
            }
        }
    }

    /// What could not be read of the tasks.
    pub open spec fn unparsed(self, ts: Seq<UpstreamTaskView>) -> Seq<UnparsedView>
        decreases ts.len(),
    {
        if ts.len() == 0 {
            Seq::empty()
        } else {
            let before = self.unparsed(ts.drop_last());
            if ts.last().objectives.len() > 0 {
                self.task_requirements(ts.last(), before).1
            } else {
                before
            }
        }
    }
}

/// The tasks of the vendor `id`, in the order in which they came.
pub open spec fn tasks_of(tasks: Seq<TaskView>, id: Seq<char>) -> Seq<TaskView>
    decreases tasks.len(),
{
    if tasks.len() == 0 {
        Seq::empty()
    } else if tasks.last().vendor_id == id {
        tasks_of(tasks.drop_last(), id).push(tasks.last())
    } else {
        tasks_of(tasks.drop_last(), id)
    }
}

/// The items that tasks ask for.
pub open spec fn items_asked(tasks: Seq<TaskView>) -> Set<Seq<char>> {
    Set::new(
        |item: Seq<char>|
            exists|i: int| 0 <= i < tasks.len() && has_req((#[trigger] tasks[i]).requirements, item),
    )
}

proof fn lemma_requirements_independent(
    c: CatalogView,
    t: UpstreamTaskView,
    objs: Seq<Seq<char>>,
    reqs: Seq<ReqView>,
    a: Seq<UnparsedView>,
    b: Seq<UnparsedView>,
)
    ensures
        c.applying_all(t, objs, reqs, a).0 == c.applying_all(t, objs, reqs, b).0,
    decreases objs.len(),
{
    if objs.len() > 0 {
        lemma_requirements_independent(c, t, objs.drop_last(), reqs, a, b);
    }
}

fn clone_task(t: &Task) -> (r: Task)
    ensures
        r@ == t@,
{
    Task {
        id: t.id.clone(),
        name: t.name.clone(),
        vendor_id: t.vendor_id.clone(),
        prerequisites: clone_ids(&t.prerequisites),
        requirements: crate::data::clone_requirements(&t.requirements),
        source_url: t.source_url.clone(),
    }
}

fn tasks_of_vendor(tasks: &Vec<Task>, id: &String) -> (r: Vec<Task>)
    ensures
        sorting::views(r@) == tasks_of(sorting::views(tasks@), id@),
{
    let ghost all = sorting::views(tasks@);
    let mut r: Vec<Task> = Vec::new();
    let mut i: usize = 0;
    assert(sorting::views(r@) =~= tasks_of(all.take(0), id@));
    while i < tasks.len()
        invariant
            i <= tasks@.len(),
            all == sorting::views(tasks@),
            sorting::views(r@) == tasks_of(all.take(i as int), id@),
        decreases tasks@.len() - i,
    {
        assert(all.take(i + 1).drop_last() =~= all.take(i as int));
        assert(all.take(i + 1).last() == tasks@[i as int]@);
        if tasks[i].vendor_id == *id {
            let ghost before = r@;
            r.push(clone_task(&tasks[i]));
            assert(sorting::views(r@) =~= sorting::views(before).push(all[i as int]));
        }
        i += 1;
    }
    assert(all.take(all.len() as int) =~= all);
    r
}

/// A vendor with its tasks in the order of their ids.
pub open spec fn vendor_of(corp: UpstreamCorp, tasks: Seq<TaskView>) -> VendorView {
    VendorView {
        id: corp.id@,
        name: corp.name@,
        tasks: sorting::in_order::<Task>(tasks_of(tasks, corp.id@)),
    }
}

/// Builds the vendors and their tasks. `corps` and `tasks_raw` are in the
/// order of their keys. Tasks without objectives, and tasks that ask for
/// nothing, are left out; so are tasks of a vendor that is not listed.
pub fn parse(corps: &Vec<UpstreamCorp>, tasks_raw: &Vec<UpstreamTask>, catalog: &ItemCatalog) -> (r:
    TasksResult)
    ensures
        r.vendors@.len() == corps@.len(),
        forall|i: int|
            0 <= i < corps@.len() ==> (#[trigger] r.vendors@[i])@ == vendor_of(
                corps@[i],
                catalog@.kept_tasks(sorting::views(tasks_raw@)),
            ),
        r.referenced_items@ == items_asked(catalog@.kept_tasks(sorting::views(tasks_raw@))),
        sorting::views(r.unparsed_objectives@) == catalog@.unparsed(sorting::views(tasks_raw@)),
{
    let ghost c = catalog@;
    let ghost ts = sorting::views(tasks_raw@);
    let mut kept: Vec<Task> = Vec::new();
    let mut referenced: IdSet = IdSet::new();
    let mut unparsed: Vec<UnparsedObjective> = Vec::new();
    let mut i: usize = 0;
    assert(sorting::views(kept@) =~= c.kept_tasks(ts.take(0)));
    assert(sorting::views(unparsed@) =~= c.unparsed(ts.take(0)));
    assert(referenced@ =~= items_asked(c.kept_tasks(ts.take(0))));
    while i < tasks_raw.len()
        invariant
            i <= tasks_raw@.len(),
            c == catalog@,
            ts == sorting::views(tasks_raw@),
            sorting::views(kept@) == c.kept_tasks(ts.take(i as int)),
            sorting::views(unparsed@) == c.unparsed(ts.take(i as int)),
            referenced@ == items_asked(c.kept_tasks(ts.take(i as int))),
        decreases tasks_raw@.len() - i,
    {
        let t: &UpstreamTask = &tasks_raw[i];
        assert(ts.take(i + 1).drop_last() =~= ts.take(i as int));
        assert(ts.take(i + 1).last() == t@);
        i += 1;
        if t.objectives.len() == 0 {
            continue ;
        }
        let ghost u0 = sorting::views(unparsed@);
        let ghost before = sorting::views(kept@);
        let requirements: Vec<Requirement> = catalog.build_task_requirements(t, &mut unparsed);
        proof {
            lemma_requirements_independent(
                c,
                t@,
                t@.objectives,
                linked_reqs(c.items, t@.id),
                Seq::empty(),
                u0,
            );
            assert(data::reqs_view(requirements@) == c.task(t@).requirements);
            assert(data::reqs_view(requirements@).len() == requirements@.len());
        }
        if requirements.len() == 0 {
            continue ;
        }
        let ghost listed = referenced@;
        let ghost reqs = data::reqs_view(requirements@);
        let mut k: usize = 0;
        while k < requirements.len()
            invariant
                k <= requirements@.len(),
                reqs == data::reqs_view(requirements@),
                forall|item: Seq<char>|
                    #[trigger] referenced@.contains(item) <==> listed.contains(item) || has_req(
                        reqs.take(k as int),
                        item,
                    ),
            decreases requirements@.len() - k,
        {
            let ghost old_set = referenced@;
            referenced.insert(requirements[k].item_id.clone());
            proof {
                assert forall|item: Seq<char>|
                    #[trigger] referenced@.contains(item) <==> listed.contains(item) || has_req(
                        reqs.take(k + 1),
                        item,
                    ) by {
                    lemma_has_req_take(reqs, k as int, item);
                    assert(old_set.contains(item) <==> listed.contains(item) || has_req(
                        reqs.take(k as int),
                        item,
                    ));
                }
            }
            k += 1;
        }
        assert(reqs.take(reqs.len() as int) =~= reqs);
        let mut source_url: String = "https://www.exfil-zone-assistant.app/tasks/".to_owned();
        source_url.append(t.id.as_str());
        let task = Task {
            id: t.id.clone(),
            name: t.name.clone(),
            vendor_id: t.corp_id.clone(),
            prerequisites: clone_ids(&t.required_tasks),
            requirements,
            source_url,
        };
        assert(task@ =~= c.task(t@));
        kept.push(task);
        proof {
            assert(sorting::views(kept@) =~= before.push(task@));
            assert(referenced@ =~= items_asked(before.push(task@))) by {
                assert forall|item: Seq<char>| referenced@.contains(item) == items_asked(
                    before.push(task@),
                ).contains(item) by {
                    lemma_items_asked_push(before, task@, item);
                }
            }
        }
    }
    assert(ts.take(ts.len() as int) =~= ts);
    let mut vendors: Vec<Vendor> = Vec::new();
    let ghost all = sorting::views(kept@);
    i = 0;
    while i < corps.len()
        invariant
            i <= corps@.len(),
            all == sorting::views(kept@),
            vendors@.len() == i,
            forall|j: int| 0 <= j < i ==> (#[trigger] vendors@[j])@ == vendor_of(corps@[j], all),
        decreases corps@.len() - i,
    {
        let tasks: Vec<Task> = sort_stably(tasks_of_vendor(&kept, &corps[i].id));
        vendors.push(Vendor { id: corps[i].id.clone(), name: corps[i].name.clone(), tasks });
        i += 1;
    }
    TasksResult { vendors, referenced_items: referenced, unparsed_objectives: unparsed }
}

proof fn lemma_has_req_take(reqs: Seq<ReqView>, k: int, item: Seq<char>)
    requires
        0 <= k < reqs.len(),
    ensures
        has_req(reqs.take(k + 1), item) == (has_req(reqs.take(k), item) || reqs[k].item == item),
{
    if has_req(reqs.take(k), item) {
        let i = choose|i: int|
            0 <= i < reqs.take(k).len() && (#[trigger] reqs.take(k)[i]).item == item;
        assert(reqs.take(k + 1)[i].item == item);
    }
    if reqs[k].item == item {
        assert(reqs.take(k + 1)[k].item == item);
    }
    if has_req(reqs.take(k + 1), item) && reqs[k].item != item {
        let i = choose|i: int|
            0 <= i < reqs.take(k + 1).len() && (#[trigger] reqs.take(k + 1)[i]).item == item;
        assert(reqs.take(k)[i].item == item);
    }
}

proof fn lemma_items_asked_push(tasks: Seq<TaskView>, t: TaskView, item: Seq<char>)
    ensures
        items_asked(tasks.push(t)).contains(item) == (items_asked(tasks).contains(item) || has_req(
            t.requirements,
            item,
        )),
{
    let more = tasks.push(t);
    if items_asked(tasks).contains(item) {
        let i = choose|i: int|
            0 <= i < tasks.len() && has_req((#[trigger] tasks[i]).requirements, item);
        assert(has_req(more[i].requirements, item));
    }
    if has_req(t.requirements, item) {
        assert(has_req(more[tasks.len() as int].requirements, item));
    }
    if items_asked(more).contains(item) && !has_req(t.requirements, item) {
        let i = choose|i: int|
            0 <= i < more.len() && has_req((#[trigger] more[i]).requirements, item);
        assert(has_req(tasks[i].requirements, item));
    }
}

} // verus!
